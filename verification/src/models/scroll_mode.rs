use vstd::prelude::*;

use crate::text::{
    all_digits, dec_int, dec_nat, digit_char, digits_value, is_digit, parse_i32_prefix, parse_i32_spec, push_dec_i64,
    str_chars, string_from_chars,
};

verus! {

/// One zoom level of the in-game camera: how many wheel notches are sent
/// before capturing.
pub struct ScrollMode {
    pub id: Option<i64>,
    pub name: String,
    pub scroll_count: i32,
    pub is_default: bool,
}

/// Highest supported zoom level.
pub const MAX_SCROLL_COUNT: i32 = 8;

/// The zoom level named by a mode string such as `"5次"`: the text before a
/// trailing `次` must read as an `i32` (as `str::parse` reads it) between 0
/// and 8.
pub open spec fn scroll_count_spec(s: Seq<char>) -> Option<int> {
    if s.len() > 0 && s.last() == '次' {
        match parse_i32_spec(s.drop_last()) {
            Some(v) => if 0 <= v <= 8 { Some(v) } else { None },
            None => None,
        }
    } else {
        None
    }
}

/// The name of zoom level `c`: its decimal digits followed by `次`.
pub open spec fn scroll_mode_name(c: nat) -> Seq<char> {
    dec_nat(c).push('次')
}

/// Largest drag distance (x, y) in pixels allowed at each zoom level, measured
/// on the smallest supported 1280x720 client area.
pub open spec fn drag_max_spec(count: int) -> Option<(i32, i32)> {
    if count == 0 {
        Some((905i32, 525i32))
    } else if count == 1 {
        Some((971i32, 563i32))
    } else if count == 2 {
        Some((1037i32, 602i32))
    } else if count == 3 {
        Some((1103i32, 640i32))
    } else if count == 4 {
        Some((1169i32, 678i32))
    } else if count == 5 {
        Some((1235i32, 716i32))
    } else if 6 <= count <= 8 {
        Some((1276i32, 716i32))
    } else {
        None
    }
}

/// Reads the zoom level out of a mode string (`"0次"` gives 0, `"5次"` gives 5).
pub fn parse_scroll_count(scroll_mode: &str) -> (r: Option<i32>)
    ensures
        match r {
            Some(v) => scroll_count_spec(scroll_mode@) == Some(v as int),
            None => scroll_count_spec(scroll_mode@) is None,
        },
{
    let chars = str_chars(scroll_mode);
    let n = chars.len();
    if n == 0 || chars[n - 1] != '次' {
        return None;
    }
    proof {
        assert(chars@.take(n - 1) == scroll_mode@.drop_last());
    }
    match parse_i32_prefix(&chars, n - 1) {
        Some(v) => {
            if 0 <= v && v <= MAX_SCROLL_COUNT {
                Some(v)
            } else {
                None
            }
        },
        None => None,
    }
}

/// Drag limit of a zoom level; `None` outside 0..=8.
pub fn get_drag_max_by_count(count: i32) -> (r: Option<(i32, i32)>)
    ensures
        r == drag_max_spec(count as int),
{
    match count {
        0 => Some((905, 525)),
        1 => Some((971, 563)),
        2 => Some((1037, 602)),
        3 => Some((1103, 640)),
        4 => Some((1169, 678)),
        5 => Some((1235, 716)),
        6 | 7 | 8 => Some((1276, 716)),
        _ => None,
    }
}

/// Drag limit of the zoom level named by a mode string.
pub fn get_drag_max(scroll_mode: &str) -> (r: Option<(i32, i32)>)
    ensures
        r == (match scroll_count_spec(scroll_mode@) {
            Some(c) => drag_max_spec(c),
            None => None,
        }),
{
    match parse_scroll_count(scroll_mode) {
        Some(c) => get_drag_max_by_count(c),
        None => None,
    }
}

/// Builds the name of zoom level `count`, e.g. `"3次"`.
pub fn scroll_mode_name_of(count: i32) -> (s: String)
    requires
        0 <= count,
    ensures
        s@ == scroll_mode_name(count as nat),
{
    let mut v: Vec<char> = Vec::new();
    push_dec_i64(&mut v, count as i64);
    v.push('次');
    assert(v@ == dec_nat(count as nat).push('次'));
    string_from_chars(&v)
}

/// The nine zoom levels seeded on first start: `"0次"` (the default) to `"8次"`.
pub fn default_scroll_modes() -> (v: Vec<ScrollMode>)
    ensures
        v.len() == 9,
        forall|i: int|
            0 <= i < 9 ==> {
                &&& (#[trigger] v@[i]).id is None
                &&& v@[i].name@ == scroll_mode_name(i as nat)
                &&& v@[i].scroll_count == i
                &&& v@[i].is_default == (i == 0)
            },
{
    let mut v: Vec<ScrollMode> = Vec::new();
    let mut c: i32 = 0;
    while c <= MAX_SCROLL_COUNT
        invariant
            0 <= c <= 9,
            v.len() == c,
            forall|i: int|
                0 <= i < c ==> {
                    &&& (#[trigger] v@[i]).id is None
                    &&& v@[i].name@ == scroll_mode_name(i as nat)
                    &&& v@[i].scroll_count == i
                    &&& v@[i].is_default == (i == 0)
                },
        decreases 9 - c,
    {
        let name = scroll_mode_name_of(c);
        v.push(ScrollMode { id: None, name, scroll_count: c, is_default: c == 0 });
        c = c + 1;
    }
    v
}

} // verus!

verus! {

/// Reading back the name of a zoom level gives the level again: for every
/// level `c` in 0..=8, the mode string `"{c}次"` parses to `c`.
pub proof fn lemma_scroll_mode_name_roundtrip(c: nat)
    requires
        c <= 8,
    ensures
        scroll_count_spec(scroll_mode_name(c)) == Some(c as int),
{
    let s = scroll_mode_name(c);
    let d = crate::text::digit_char(c as int);
    assert(dec_nat(c) == seq![d]);
    assert(s.drop_last() == seq![d]);
    assert(seq![d].drop_last() =~= Seq::<char>::empty());
    assert(crate::text::all_digits(seq![d]));
    assert((d as int) == c + 48);
    assert(crate::text::digits_value(Seq::<char>::empty()) == 0);
    assert(seq![d].last() == d);
    assert(crate::text::digits_value(seq![d]) == c);
}

/// Every zoom level that a mode string can name has a drag limit.
pub proof fn lemma_named_levels_have_drag_limit(s: Seq<char>)
    requires
        scroll_count_spec(s) is Some,
    ensures
        drag_max_spec(scroll_count_spec(s)->0) is Some,
{
}

/// The horizontal drag limit of zoom level `c` (0 where it has none).
pub open spec fn drag_max_x(c: int) -> int {
    match drag_max_spec(c) {
        Some(p) => p.0 as int,
        None => 0,
    }
}

/// The vertical drag limit of zoom level `c` (0 where it has none).
pub open spec fn drag_max_y(c: int) -> int {
    match drag_max_spec(c) {
        Some(p) => p.1 as int,
        None => 0,
    }
}

/// The drag limits grow with the zoom level: exactly the levels 0 to 8 have
/// one; level 0 allows (905, 525); each level from 1 to 5 allows 66 px more
/// across and 38 or 39 px more down than the one below it, level 6 another
/// 41 px across at the same height, and levels 6 to 8 all allow (1276, 716),
/// which stays inside the 1280x720 client area.
pub proof fn lemma_drag_limits_grow_with_level()
    ensures
        forall|c: int| (drag_max_spec(c) is Some) <==> 0 <= c <= 8,
        drag_max_spec(0) == Some((905i32, 525i32)),
        forall|c: int| 0 <= c < 5 ==> drag_max_x(c + 1) == #[trigger] drag_max_x(c) + 66,
        forall|c: int| 0 <= c < 5 ==> 38 <= drag_max_y(c + 1) - #[trigger] drag_max_y(c) <= 39,
        drag_max_x(6) == drag_max_x(5) + 41 && drag_max_y(6) == drag_max_y(5),
        forall|c: int| 6 <= c <= 8 ==> #[trigger] drag_max_spec(c) == Some((1276i32, 716i32)),
        forall|c1: int, c2: int|
            0 <= c1 < c2 <= 6 ==> #[trigger] drag_max_x(c1) < #[trigger] drag_max_x(c2),
        forall|c1: int, c2: int|
            0 <= c1 < c2 <= 5 ==> #[trigger] drag_max_y(c1) < #[trigger] drag_max_y(c2),
        forall|c: int| 0 <= c <= 8 ==> 0 < #[trigger] drag_max_x(c) < 1280 && 0 < drag_max_y(c) <= 720,
{
}

/// The drag limit of each zoom level, level by level:
/// (905, 525), (971, 563), (1037, 602), (1103, 640), (1169, 678), (1235, 716),
/// then (1276, 716) for levels 6, 7 and 8.
pub proof fn lemma_drag_limit_table(c: int)
    requires
        0 <= c <= 8,
    ensures
        drag_max_spec(c) == Some(
            (
                seq![905i32, 971i32, 1037i32, 1103i32, 1169i32, 1235i32, 1276i32, 1276i32, 1276i32][c],
                seq![525i32, 563i32, 602i32, 640i32, 678i32, 716i32, 716i32, 716i32, 716i32][c],
            ),
        ),
{
}

/// The decimal text of a natural number is a non-empty run of digits whose
/// value is the number.
proof fn lemma_dec_nat_reads_back(n: nat)
    ensures
        dec_nat(n).len() > 0,
        all_digits(dec_nat(n)),
        digits_value(dec_nat(n)) == n,
    decreases n,
{
    let d = digit_char((n % 10) as int);
    assert((d as int) == (n % 10) + 48);
    if n >= 10 {
        lemma_dec_nat_reads_back(n / 10);
        let p = dec_nat(n / 10);
        let t = p.push(d);
        assert(t.drop_last() =~= p);
        assert forall|j: int| 0 <= j < t.len() implies is_digit(#[trigger] t[j]) by {
            if j < p.len() {
                assert(t[j] == p[j]);
            }
        }
        assert(t.last() == d);
        assert(digits_value(t) == digits_value(p) * 10 + (n % 10));
        assert((n / 10) * 10 + n % 10 == n);
        assert(dec_nat(n) == t);
    } else {
        assert(dec_nat(n) == seq![d]);
        assert(seq![d].drop_last() =~= Seq::<char>::empty());
        assert(digits_value(Seq::<char>::empty()) == 0);
        assert(seq![d].last() == d);
        assert(digits_value(seq![d]) == n);
    }
}

/// The decimal text of any `i32` (as `Display` writes it) parses back to it.
proof fn lemma_dec_int_parses_back(c: i32)
    ensures
        parse_i32_spec(dec_int(c as int)) == Some(c as int),
{
    if c < 0 {
        let m = (-(c as int)) as nat;
        lemma_dec_nat_reads_back(m);
        let p = seq!['-'] + dec_nat(m);
        assert(p.drop_first() =~= dec_nat(m));
        assert(p[0] == '-');
    } else {
        lemma_dec_nat_reads_back(c as nat);
        let p = dec_nat(c as nat);
        assert(is_digit(p[0]));
    }
}

/// Every `i32` written as a mode string (`"{c}次"`) reads back as its zoom
/// level when it is one (0 to 8) and is refused otherwise; and whatever a
/// mode string reads as is a level from 0 to 8 of a string ending in `次`.
pub proof fn lemma_scroll_count_of_any_i32(c: i32, s: Seq<char>)
    ensures
        scroll_count_spec(dec_int(c as int).push('次')) == (if 0 <= c <= 8 {
            Some(c as int)
        } else {
            None
        }),
        scroll_count_spec(s) matches Some(v) ==> 0 <= v <= 8 && s.len() > 0 && s.last() == '次',
{
    lemma_dec_int_parses_back(c);
    assert(dec_int(c as int).push('次').drop_last() =~= dec_int(c as int));
}

} // verus!
