use vstd::prelude::*;

use crate::error::AppError;
use crate::models::scroll_mode::{parse_scroll_count, scroll_count_spec};
use crate::text::{append_str, str_eq, string_from_chars};

verus! {

/// Whether regions of this category keep their own configuration for every
/// zoom level instead of deriving it from the zoom-0 record: the large map
/// (`大地图`) and user-defined regions (`自定义`).
pub open spec fn is_fixed_category_spec(category: Seq<char>) -> bool {
    category == "大地图"@ || category == "自定义"@
}

/// Whether a region category keeps its own configuration per zoom level.
pub fn is_fixed_category(category: &str) -> (r: bool)
    ensures
        r == is_fixed_category_spec(category@),
{
    str_eq(category, "大地图") || str_eq(category, "自定义")
}

/// Whether a built-in region record is written to a fresh database: the
/// large map and user-defined regions at every zoom level, the others only
/// at zoom level `0次`.
pub open spec fn seeds_region_spec(name: Seq<char>, scroll_mode: Seq<char>) -> bool {
    name == "大地图"@ || name == "自定义"@ || scroll_mode == "0次"@
}

/// Whether a built-in region record is seeded.
pub fn seeds_region(name: &str, scroll_mode: &str) -> (r: bool)
    ensures
        r == seeds_region_spec(name@, scroll_mode@),
{
    str_eq(name, "大地图") || str_eq(name, "自定义") || str_eq(scroll_mode, "0次")
}

/// The zoom level named by a mode string, or the `INVALID_SCROLL_MODE` error
/// naming it.
pub fn scroll_count_or_error(scroll_mode: &str) -> (r: Result<i32, AppError>)
    ensures
        match r {
            Ok(c) => scroll_count_spec(scroll_mode@) == Some(c as int),
            Err(e) => scroll_count_spec(scroll_mode@) is None && e.code@ == "INVALID_SCROLL_MODE"@
                && e.message@ == "无效的 scroll_mode: "@ + scroll_mode@,
        },
{
    match parse_scroll_count(scroll_mode) {
        Some(c) => Ok(c),
        None => {
            let mut m: Vec<char> = Vec::new();
            append_str(&mut m, "无效的 scroll_mode: ");
            append_str(&mut m, scroll_mode);
            Err(AppError::with_message(string_from_chars(&m), "INVALID_SCROLL_MODE"))
        },
    }
}

/// Whether a column name occurs among the existing ones.
pub open spec fn has_column(existing: Seq<String>, name: Seq<char>) -> bool {
    exists|i: int| 0 <= i < existing.len() && #[trigger] existing[i]@ == name
}

/// The positions, in order, of the wanted columns that the table lacks.
pub open spec fn missing_columns_spec(existing: Seq<String>, wanted: Seq<&'static str>) -> Seq<int>
    decreases wanted.len(),
{
    if wanted.len() == 0 {
        Seq::empty()
    } else {
        let rest = missing_columns_spec(existing, wanted.drop_last());
        if has_column(existing, wanted.last()@) {
            rest
        } else {
            rest.push(wanted.len() - 1)
        }
    }
}

/// Finds which of the wanted columns a table still lacks, so that an older
/// database can be brought up to date by adding exactly those.
pub fn missing_columns(existing: &Vec<String>, wanted: &Vec<&'static str>) -> (r: Vec<usize>)
    ensures
        r@.map_values(|i: usize| i as int) == missing_columns_spec(existing@, wanted@),
{
    let mut out: Vec<usize> = Vec::new();
    let mut k: usize = 0;
    while k < wanted.len()
        invariant
            k <= wanted.len(),
            out@.map_values(|i: usize| i as int) == missing_columns_spec(existing@, wanted@.take(k as int)),
        decreases wanted.len() - k,
    {
        assert(wanted@.take(k + 1).drop_last() =~= wanted@.take(k as int));
        let mut found = false;
        let mut j: usize = 0;
        while j < existing.len()
            invariant
                j <= existing.len(),
                k < wanted.len(),
                found == exists|i: int| 0 <= i < j && #[trigger] existing@[i]@ == wanted@[k as int]@,
            decreases existing.len() - j,
        {
            if str_eq(existing[j].as_str(), wanted[k]) {
                found = true;
            }
            j = j + 1;
        }
        let ghost before = out@;
        if !found {
            out.push(k);
            assert(out@.map_values(|i: usize| i as int) =~= before.map_values(|i: usize| i as int).push(k as int));
        }
        k = k + 1;
    }
    assert(wanted@.take(wanted.len() as int) =~= wanted@);
    out
}

/// Exactly the wanted columns that the table lacks are reported: a position
/// is listed if and only if its column is not among the existing ones. So a
/// second run of the migration, once the columns were added, adds nothing.
pub proof fn lemma_missing_columns_exact(existing: Seq<String>, wanted: Seq<&'static str>)
    ensures
        forall|i: int|
            #![trigger missing_columns_spec(existing, wanted).contains(i)]
            missing_columns_spec(existing, wanted).contains(i) <==> (0 <= i < wanted.len() && !has_column(
                existing,
                wanted[i]@,
            )),
        (forall|i: int| 0 <= i < wanted.len() ==> has_column(existing, #[trigger] wanted[i]@))
            ==> missing_columns_spec(existing, wanted).len() == 0,
    decreases wanted.len(),
{
    let m = missing_columns_spec(existing, wanted);
    if wanted.len() > 0 {
        let init = wanted.drop_last();
        lemma_missing_columns_exact(existing, init);
        let mi = missing_columns_spec(existing, init);
        assert forall|i: int| #![trigger m.contains(i)] m.contains(i) <==> (0 <= i < wanted.len() && !has_column(
            existing,
            wanted[i]@,
        )) by {
            if 0 <= i < init.len() {
                assert(init[i] == wanted[i]);
            }
            if m.contains(i) && !mi.contains(i) {
                let k = choose|k: int| 0 <= k < m.len() && m[k] == i;
                assert(k == mi.len());
            }
            if mi.contains(i) {
                let k = choose|k: int| 0 <= k < mi.len() && mi[k] == i;
                assert(m[k] == mi[k]);
            }
            if 0 <= i < wanted.len() && !has_column(existing, wanted[i]@) && i == wanted.len() - 1 {
                assert(m[m.len() - 1] == i);
            }
        }
    }
    if m.len() > 0 {
        assert(m.contains(m[0]));
    }
}

} // verus!
