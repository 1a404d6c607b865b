use vstd::prelude::*;

use crate::models::session::CaptureSession;
use crate::text::{push_char, str_chars};

verus! {

/// `char::is_whitespace`: the characters with the Unicode `White_Space`
/// property (tab to carriage return, space, U+0085, U+00A0, U+1680,
/// U+2000 to U+200A, U+2028, U+2029, U+202F, U+205F and U+3000).
pub open spec fn is_white_space(c: char) -> bool {
    let v = (c as u32) as int;
    ||| 9 <= v <= 13
    ||| v == 32
    ||| v == 0x85
    ||| v == 0xA0
    ||| v == 0x1680
    ||| 0x2000 <= v <= 0x200A
    ||| v == 0x2028
    ||| v == 0x2029
    ||| v == 0x202F
    ||| v == 0x205F
    ||| v == 0x3000
}

/// The text without its leading white space.
pub open spec fn trim_start_spec(s: Seq<char>) -> Seq<char>
    decreases s.len(),
{
    if s.len() > 0 && is_white_space(s[0]) {
        trim_start_spec(s.drop_first())
    } else {
        s
    }
}

/// The text without its trailing white space.
pub open spec fn trim_end_spec(s: Seq<char>) -> Seq<char>
    decreases s.len(),
{
    if s.len() > 0 && is_white_space(s.last()) {
        trim_end_spec(s.drop_last())
    } else {
        s
    }
}

/// What `str::trim` gives: the text without its leading and trailing white
/// space.
pub open spec fn trim_spec(s: Seq<char>) -> Seq<char> {
    trim_end_spec(trim_start_spec(s))
}

/// Whether a character is white space (`char::is_whitespace`).
pub fn is_white_space_char(c: char) -> (r: bool)
    ensures
        r == is_white_space(c),
{
    let v = c as u32;
    (9 <= v && v <= 13) || v == 32 || v == 0x85 || v == 0xA0 || v == 0x1680 || (0x2000 <= v && v <= 0x200A)
        || v == 0x2028 || v == 0x2029 || v == 0x202F || v == 0x205F || v == 0x3000
}

/// The text without its leading and trailing white space (`str::trim`).
pub fn trim_text(s: &str) -> (r: String)
    ensures
        r@ == trim_spec(s@),
{
    let c = str_chars(s);
    let n = c.len();
    let mut i: usize = 0;
    assert(c@.subrange(0, n as int) =~= c@);
    while i < n && is_white_space_char(c[i])
        invariant
            i <= n,
            n == c@.len(),
            c@ == s@,
            trim_start_spec(s@) == trim_start_spec(c@.subrange(i as int, n as int)),
        decreases n - i,
    {
        assert(c@.subrange(i as int, n as int).drop_first() =~= c@.subrange(i + 1, n as int));
        i = i + 1;
    }
    let mut j: usize = n;
    while j > i && is_white_space_char(c[j - 1])
        invariant
            i <= j <= n,
            n == c@.len(),
            c@ == s@,
            trim_start_spec(s@) == c@.subrange(i as int, n as int),
            trim_spec(s@) == trim_end_spec(c@.subrange(i as int, j as int)),
        decreases j - i,
    {
        assert(c@.subrange(i as int, j as int).drop_last() =~= c@.subrange(i as int, j - 1));
        j = j - 1;
    }
    let mut out = String::new();
    let mut k: usize = i;
    while k < j
        invariant
            i <= k <= j <= n,
            n == c@.len(),
            out@ == c@.subrange(i as int, k as int),
        decreases j - k,
    {
        push_char(&mut out, c[k]);
        assert(c@.subrange(i as int, k + 1) =~= c@.subrange(i as int, k as int).push(c@[k as int]));
        k = k + 1;
    }
    out
}

/// The pieces of a text between its line feeds (one piece more than there
/// are line feeds).
pub open spec fn line_pieces(s: Seq<char>) -> Seq<Seq<char>>
    decreases s.len(),
{
    if s.len() == 0 {
        seq![Seq::<char>::empty()]
    } else {
        let p = line_pieces(s.drop_last());
        if s.last() == '\n' {
            p.push(Seq::<char>::empty())
        } else {
            p.update(p.len() - 1, p.last().push(s.last()))
        }
    }
}

/// The trimmed pieces that are not empty once trimmed, in order.
pub open spec fn kept_lines(pieces: Seq<Seq<char>>) -> Seq<Seq<char>>
    decreases pieces.len(),
{
    if pieces.len() == 0 {
        Seq::empty()
    } else {
        let rest = kept_lines(pieces.drop_last());
        let t = trim_spec(pieces.last());
        if t.len() > 0 {
            rest.push(t)
        } else {
            rest
        }
    }
}

proof fn lemma_kept_lines_filled(pieces: Seq<Seq<char>>)
    ensures
        forall|i: int| 0 <= i < kept_lines(pieces).len() ==> (#[trigger] kept_lines(pieces)[i]).len() > 0,
    decreases pieces.len(),
{
    if pieces.len() > 0 {
        let rest = kept_lines(pieces.drop_last());
        lemma_kept_lines_filled(pieces.drop_last());
        let k = kept_lines(pieces);
        assert forall|i: int| 0 <= i < k.len() implies (#[trigger] k[i]).len() > 0 by {
            if i < rest.len() {
                assert(k[i] == rest[i]);
            }
        }
    }
}

/// The paths held one per line in a text, trimmed, blank lines left out.
/// (Splitting at line feeds and trimming gives what `str::lines` and
/// trimming give: a carriage return before a line feed is white space, and
/// a last empty line is blank.)
pub open spec fn listed_paths(s: Seq<char>) -> Seq<Seq<char>> {
    kept_lines(line_pieces(s))
}

/// No path listed one per line is blank: every path handed out is a
/// non-empty trimmed line.
pub proof fn lemma_listed_paths_not_blank(s: Seq<char>)
    ensures
        forall|i: int| 0 <= i < listed_paths(s).len() ==> (#[trigger] listed_paths(s)[i]).len() > 0,
{
    lemma_kept_lines_filled(line_pieces(s));
}

/// The texts of a list of strings.
pub open spec fn texts(v: Seq<String>) -> Seq<Seq<char>> {
    v.map_values(|x: String| x@)
}

/// Splits a list of paths held one per line.
pub fn split_paths(s: &str) -> (r: Vec<String>)
    ensures
        texts(r@) == listed_paths(s@),
{
    let chars = str_chars(s);
    let mut out: Vec<String> = Vec::new();
    let mut cur = String::new();
    let mut i: usize = 0;
    proof {
        assert(chars@.take(0) =~= Seq::<char>::empty());
        assert(texts(out@) =~= Seq::<Seq<char>>::empty());
    }
    while i < chars.len()
        invariant
            i <= chars.len(),
            chars@ == s@,
            line_pieces(chars@.take(i as int)).len() >= 1,
            cur@ == line_pieces(chars@.take(i as int)).last(),
            texts(out@) == kept_lines(line_pieces(chars@.take(i as int)).drop_last()),
        decreases chars.len() - i,
    {
        let c = chars[i];
        let ghost before = line_pieces(chars@.take(i as int));
        assert(chars@.take(i + 1).drop_last() =~= chars@.take(i as int));
        assert(chars@.take(i + 1).last() == c);
        if c == '\n' {
            let t = trim_text(cur.as_str());
            let ghost old_out = out@;
            if t.unicode_len() > 0 {
                out.push(t);
                assert(texts(out@) =~= texts(old_out).push(t@));
            }
            assert(before.push(Seq::<char>::empty()).drop_last() =~= before);
            assert(before =~= before.drop_last().push(before.last()));
            cur = String::new();
        } else {
            push_char(&mut cur, c);
            assert(before.update(before.len() - 1, before.last().push(c)).drop_last() =~= before.drop_last());
        }
        i = i + 1;
    }
    assert(chars@.take(chars.len() as int) =~= s@);
    let ghost pieces = line_pieces(s@);
    assert(pieces =~= pieces.drop_last().push(pieces.last()));
    let t = trim_text(cur.as_str());
    let ghost old_out = out@;
    if t.unicode_len() > 0 {
        out.push(t);
        assert(texts(out@) =~= texts(old_out).push(t@));
    }
    out
}

/// The value of an optional text field when it is set and not empty.
pub open spec fn filled(v: Option<String>) -> Seq<Seq<char>> {
    match v {
        Some(s) => if s@.len() > 0 { seq![s@] } else { Seq::empty() },
        None => Seq::empty(),
    }
}

/// The files removed with a history entry: its thumbnail, then its saved
/// image when `delete_original` is set, then every exported file listed in
/// it (one per line) when `delete_screenshot` is set; paths that are not set
/// or empty are skipped.
pub open spec fn files_to_delete_spec(session: CaptureSession, delete_original: bool, delete_screenshot: bool) -> Seq<
    Seq<char>,
> {
    filled(session.thumbnail_path) + (if delete_original {
        filled(session.original_path)
    } else {
        Seq::empty()
    }) + (if delete_screenshot {
        match session.exported_path {
            Some(p) => listed_paths(p@),
            None => Seq::empty(),
        }
    } else {
        Seq::empty()
    })
}

fn push_filled(out: &mut Vec<String>, v: &Option<String>)
    ensures
        texts(final(out)@) == texts(old(out)@) + filled(*v),
{
    match v {
        Some(s) => {
            if s.unicode_len() > 0 {
                let ghost before = out@;
                out.push(s.clone());
                assert(texts(out@) =~= texts(before) + filled(*v));
            } else {
                assert(texts(out@) =~= texts(out@) + filled(*v));
            }
        },
        None => {
            assert(texts(out@) =~= texts(out@) + filled(*v));
        },
    }
}

/// Lists the files to remove along with a history entry.
pub fn files_to_delete(session: &CaptureSession, delete_original: bool, delete_screenshot: bool) -> (r: Vec<String>)
    ensures
        texts(r@) == files_to_delete_spec(*session, delete_original, delete_screenshot),
{
    let mut out: Vec<String> = Vec::new();
    assert(texts(out@) =~= Seq::<Seq<char>>::empty());
    push_filled(&mut out, &session.thumbnail_path);
    if delete_original {
        push_filled(&mut out, &session.original_path);
    } else {
        assert(texts(out@) =~= texts(out@) + Seq::<Seq<char>>::empty());
    }
    let ghost before = out@;
    if delete_screenshot {
        match &session.exported_path {
            Some(p) => {
                let mut lines = split_paths(p.as_str());
                let ghost lv = lines@;
                out.append(&mut lines);
                assert(out@ =~= before + lv);
                assert(texts(out@) =~= texts(before) + texts(lv));
            },
            None => {
                assert(texts(out@) =~= texts(before) + Seq::<Seq<char>>::empty());
            },
        }
    } else {
        assert(texts(out@) =~= texts(before) + Seq::<Seq<char>>::empty());
    }
    out
}

} // verus!
