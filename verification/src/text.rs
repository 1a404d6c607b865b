use vstd::prelude::*;
use vstd::std_specs::iter::IteratorSpec;

verus! {

/// Appends one character to a string (`String::push`).
#[verifier::external_body]
pub(crate) fn push_char(s: &mut String, c: char)
    ensures
        final(s)@ == old(s)@.push(c),
{
    s.push(c)
}

/// Collects the characters of a string slice.
pub fn str_chars(s: &str) -> (v: Vec<char>)
    ensures
        v@ == s@,
{
    let mut v: Vec<char> = Vec::new();
    let mut it = s.chars();
    loop
        invariant
            it.obeys_prophetic_iter_laws(),
            v@ + it.remaining() == s@,
            it.decrease() is Some,
        ensures
            v@ == s@,
        decreases it.decrease()->0,
    {
        match it.next() {
            Some(c) => {
                v.push(c);
            },
            None => {
                break;
            },
        }
    }
    v
}

} // verus!

verus! {

/// Builds a `String` holding exactly the given characters.
pub fn string_from_chars(v: &Vec<char>) -> (s: String)
    ensures
        s@ == v@,
{
    let mut s = String::new();
    let mut i: usize = 0;
    while i < v.len()
        invariant
            i <= v.len(),
            s@ == v@.take(i as int),
        decreases v.len() - i,
    {
        push_char(&mut s, v[i]);
        assert(v@.take(i + 1) == v@.take(i as int).push(v@[i as int]));
        i = i + 1;
    }
    assert(v@.take(v.len() as int) == v@);
    s
}

/// The character of a decimal digit.
pub open spec fn digit_char(d: int) -> char {
    (d + 48) as char
}

/// Decimal digits of a natural number, most significant first, without
/// leading zeros (`0` is written `"0"`).
pub open spec fn dec_nat(n: nat) -> Seq<char>
    decreases n,
{
    if n < 10 {
        seq![digit_char(n as int)]
    } else {
        dec_nat(n / 10).push(digit_char((n % 10) as int))
    }
}

/// Decimal rendering of an integer as `Display` writes it: a leading `-` for
/// negative values, then the digits of the magnitude.
pub open spec fn dec_int(n: int) -> Seq<char> {
    if n < 0 {
        seq!['-'] + dec_nat((-n) as nat)
    } else {
        dec_nat(n as nat)
    }
}

fn push_dec_u64(out: &mut Vec<char>, n: u64)
    ensures
        final(out)@ == old(out)@ + dec_nat(n as nat),
    decreases n,
{
    if n >= 10 {
        push_dec_u64(out, n / 10);
    }
    let d: u8 = (n % 10) as u8;
    let c: char = (48u8 + d) as char;
    out.push(c);
    proof {
        if n >= 10 {
            assert(dec_nat(n as nat) == dec_nat((n / 10) as nat).push(digit_char((n % 10) as int)));
        }
    }
}

/// Appends the decimal rendering of `n` to `out`.
pub fn push_dec_i64(out: &mut Vec<char>, n: i64)
    ensures
        final(out)@ == old(out)@ + dec_int(n as int),
{
    if n < 0 {
        out.push('-');
        let m: u64 = if n == i64::MIN {
            9223372036854775808u64
        } else {
            (-n) as u64
        };
        push_dec_u64(out, m);
        assert(old(out)@.push('-') + dec_nat(m as nat) == old(out)@ + (seq!['-'] + dec_nat(m as nat)));
    } else {
        push_dec_u64(out, n as u64);
    }
}

} // verus!

verus! {

/// ASCII decimal digit.
pub open spec fn is_digit(c: char) -> bool {
    48 <= (c as int) <= 57
}

/// Every character is an ASCII decimal digit.
pub open spec fn all_digits(s: Seq<char>) -> bool {
    forall|i: int| 0 <= i < s.len() ==> is_digit(#[trigger] s[i])
}

/// Value of a string of decimal digits (leading zeros allowed).
pub open spec fn digits_value(s: Seq<char>) -> nat
    decreases s.len(),
{
    if s.len() == 0 {
        0
    } else {
        digits_value(s.drop_last()) * 10 + (((s.last() as int) - 48) as nat)
    }
}

/// What `str::parse` accepts and yields for an integer type whose range is
/// `lo..=hi`: a `+` (or, for a signed type, a `-`), then one or more ASCII
/// digits, whose value lies in the range. A lone sign is refused.
pub open spec fn parse_int_spec(p: Seq<char>, signed: bool, lo: int, hi: int) -> Option<int> {
    let has_sign = p.len() > 0 && (p[0] == '+' || (signed && p[0] == '-'));
    let neg = signed && p.len() > 0 && p[0] == '-';
    let body = if has_sign { p.drop_first() } else { p };
    if body.len() == 0 || !all_digits(body) {
        None
    } else {
        let v = if neg { -(digits_value(body) as int) } else { digits_value(body) as int };
        if lo <= v <= hi { Some(v) } else { None }
    }
}

/// What `str::parse::<i32>` accepts and yields.
pub open spec fn parse_i32_spec(p: Seq<char>) -> Option<int> {
    parse_int_spec(p, true, i32::MIN as int, i32::MAX as int)
}

/// What `str::parse::<u8>` accepts and yields.
pub open spec fn parse_u8_spec(p: Seq<char>) -> Option<int> {
    parse_int_spec(p, false, 0, u8::MAX as int)
}

proof fn lemma_digits_value_grows(s: Seq<char>, k: int)
    requires
        0 <= k <= s.len(),
        all_digits(s),
    ensures
        digits_value(s.take(k)) <= digits_value(s),
    decreases s.len(),
{
    if k < s.len() {
        assert(s.drop_last().take(k) == s.take(k));
        lemma_digits_value_grows(s.drop_last(), k);
        assert(is_digit(s[s.len() - 1]));
    } else {
        assert(s.take(k) == s);
    }
}

/// Parses the first `n` characters of `p` as `str::parse` does for an
/// integer type with range `lo..=hi` (signed or not).
pub fn parse_int_prefix(p: &Vec<char>, n: usize, signed: bool, lo: i64, hi: i64) -> (r: Option<i64>)
    requires
        n <= p.len(),
        i32::MIN <= lo <= 0 <= hi <= i32::MAX,
    ensures
        match r {
            Some(v) => parse_int_spec(p@.take(n as int), signed, lo as int, hi as int) == Some(v as int),
            None => parse_int_spec(p@.take(n as int), signed, lo as int, hi as int) is None,
        },
{
    let ghost q = p@.take(n as int);
    if n == 0 {
        return None;
    }
    let has_sign = p[0] == '+' || (signed && p[0] == '-');
    let neg = signed && p[0] == '-';
    let start: usize = if has_sign { 1 } else { 0 };
    let ghost body = if has_sign { q.drop_first() } else { q };
    assert(body == p@.subrange(start as int, n as int));
    if start == n {
        return None;
    }
    let mut acc: u64 = 0;
    let mut i: usize = start;
    while i < n
        invariant
            start <= i <= n <= p.len(),
            start < n,
            q == p@.take(n as int),
            has_sign == (q.len() > 0 && (q[0] == '+' || (signed && q[0] == '-'))),
            neg == (signed && q.len() > 0 && q[0] == '-'),
            body == (if has_sign { q.drop_first() } else { q }),
            body == p@.subrange(start as int, n as int),
            all_digits(body.take(i - start)),
            acc as nat == digits_value(body.take(i - start)),
            acc <= 2147483648,
            i32::MIN <= lo <= 0 <= hi <= i32::MAX,
        decreases n - i,
    {
        let c = p[i];
        if !(c >= '0' && c <= '9') {
            assert(body[i - start] == c);
            assert(!is_digit(body[i - start]));
            return None;
        }
        let d: u64 = ((c as u32) - 48) as u64;
        proof {
            let t = body.take(i - start + 1);
            assert(t.drop_last() == body.take(i - start));
            assert(t.last() == c);
            assert(all_digits(t)) by {
                assert forall|j: int| 0 <= j < t.len() implies is_digit(#[trigger] t[j]) by {
                    if j < t.len() - 1 {
                        assert(t[j] == body.take(i - start)[j]);
                    } else {
                        assert(t[j] == c);
                    }
                }
            }
        }
        acc = acc * 10 + d;
        i = i + 1;
        if acc > 2147483648 {
            proof {
                if all_digits(body) {
                    lemma_digits_value_grows(body, i - start);
                }
            }
            return None;
        }
    }
    assert(body.take(n - start) == body);
    let v: i64 = if neg { -(acc as i64) } else { acc as i64 };
    if lo <= v && v <= hi {
        Some(v)
    } else {
        None
    }
}

/// Parses the first `n` characters of `p` as `str::parse::<i32>` does.
pub fn parse_i32_prefix(p: &Vec<char>, n: usize) -> (r: Option<i32>)
    requires
        n <= p.len(),
    ensures
        match r {
            Some(v) => parse_i32_spec(p@.take(n as int)) == Some(v as int),
            None => parse_i32_spec(p@.take(n as int)) is None,
        },
{
    match parse_int_prefix(p, n, true, i32::MIN as i64, i32::MAX as i64) {
        Some(v) => Some(v as i32),
        None => None,
    }
}

/// `s.parse::<i32>().ok()`.
pub fn parse_i32(s: &str) -> (r: Option<i32>)
    ensures
        match r {
            Some(v) => parse_i32_spec(s@) == Some(v as int),
            None => parse_i32_spec(s@) is None,
        },
{
    let chars = str_chars(s);
    assert(chars@.take(chars.len() as int) == s@);
    parse_i32_prefix(&chars, chars.len())
}

/// `s.parse::<u8>().ok()`.
pub fn parse_u8(s: &str) -> (r: Option<u8>)
    ensures
        match r {
            Some(v) => parse_u8_spec(s@) == Some(v as int),
            None => parse_u8_spec(s@) is None,
        },
{
    let chars = str_chars(s);
    assert(chars@.take(chars.len() as int) == s@);
    match parse_int_prefix(&chars, chars.len(), false, 0, 255) {
        Some(v) => Some(v as u8),
        None => None,
    }
}

} // verus!

verus! {

/// Appends the characters of `s` to `v`.
pub fn append_str(v: &mut Vec<char>, s: &str)
    ensures
        final(v)@ == old(v)@ + s@,
{
    let x = str_chars(s);
    let ghost v0 = v@;
    let mut i: usize = 0;
    while i < x.len()
        invariant
            i <= x.len(),
            x@ == s@,
            v@ == v0 + x@.take(i as int),
        decreases x.len() - i,
    {
        v.push(x[i]);
        assert(x@.take(i + 1) == x@.take(i as int).push(x@[i as int]));
        i = i + 1;
    }
    assert(x@.take(x.len() as int) == x@);
}

} // verus!

verus! {

/// `to` before every character of `s` and once more at the end: what
/// `str::replace` does for an empty pattern, which matches at every
/// character boundary.
pub open spec fn interleave_spec(s: Seq<char>, to: Seq<char>) -> Seq<char>
    decreases s.len(),
{
    if s.len() == 0 {
        to
    } else {
        to + seq![s[0]] + interleave_spec(s.drop_first(), to)
    }
}

/// `s` with every occurrence of `from` replaced by `to`, scanning left to
/// right and never overlapping matches (what `str::replace` does); an empty
/// pattern matches at every character boundary.
pub open spec fn replace_spec(s: Seq<char>, from: Seq<char>, to: Seq<char>) -> Seq<char>
    decreases s.len(),
{
    if from.len() == 0 {
        interleave_spec(s, to)
    } else if s.len() < from.len() {
        s
    } else if s.take(from.len() as int) == from {
        to + replace_spec(s.skip(from.len() as int), from, to)
    } else {
        seq![s[0]] + replace_spec(s.drop_first(), from, to)
    }
}

/// `p` occurs in `s` starting at position `i`.
pub open spec fn occurs_at(s: Seq<char>, p: Seq<char>, i: int) -> bool {
    0 <= i && i + p.len() <= s.len() && s.subrange(i, i + p.len()) == p
}

/// `p` occurs somewhere in `s` (`str::contains`).
pub open spec fn contains_spec(s: Seq<char>, p: Seq<char>) -> bool {
    exists|i: int| occurs_at(s, p, i)
}

fn matches_at(s: &Vec<char>, p: &Vec<char>, i: usize) -> (r: bool)
    requires
        i <= s.len(),
    ensures
        r == occurs_at(s@, p@, i as int),
{
    if p.len() > s.len() - i {
        return false;
    }
    let mut k: usize = 0;
    while k < p.len()
        invariant
            k <= p.len(),
            i + p.len() <= s.len(),
            forall|j: int| 0 <= j < k ==> s@[i + j] == p@[j],
        decreases p.len() - k,
    {
        if s[i + k] != p[k] {
            assert(s@.subrange(i as int, i + p.len())[k as int] != p@[k as int]);
            return false;
        }
        k = k + 1;
    }
    assert(s@.subrange(i as int, i + p.len()) =~= p@);
    true
}

/// Replaces every occurrence of `from` in `s` by `to`, as `str::replace`
/// does.
pub fn replace_all(s: &str, from: &str, to: &str) -> (r: String)
    ensures
        r@ == replace_spec(s@, from@, to@),
{
    let sv = str_chars(s);
    let fv = str_chars(from);
    if fv.len() == 0 {
        let mut out: Vec<char> = Vec::new();
        let mut i: usize = 0;
        assert(sv@.skip(0) =~= sv@);
        assert(out@ + sv@ =~= sv@);
        while i < sv.len()
            invariant
                i <= sv.len(),
                sv@ == s@,
                out@ + interleave_spec(sv@.skip(i as int), to@) == interleave_spec(sv@, to@),
            decreases sv.len() - i,
        {
            let ghost rest = sv@.skip(i as int);
            let ghost before = out@;
            assert(rest.drop_first() =~= sv@.skip(i + 1));
            append_str(&mut out, to);
            out.push(sv[i]);
            assert(out@ + interleave_spec(sv@.skip(i + 1), to@) =~= before + (to@ + seq![rest[0]]
                + interleave_spec(rest.drop_first(), to@)));
            i = i + 1;
        }
        assert(sv@.skip(sv.len() as int) =~= Seq::<char>::empty());
        append_str(&mut out, to);
        return string_from_chars(&out);
    }
    let mut out: Vec<char> = Vec::new();
    let mut i: usize = 0;
    assert(sv@.skip(0) =~= sv@);
    assert(out@ + sv@ =~= sv@);
    while i < sv.len()
        invariant
            i <= sv.len(),
            sv@ == s@,
            fv@ == from@,
            fv@.len() > 0,
            out@ + replace_spec(sv@.skip(i as int), fv@, to@) == replace_spec(sv@, fv@, to@),
        decreases sv.len() - i,
    {
        let ghost rest = sv@.skip(i as int);
        if matches_at(&sv, &fv, i) {
            assert(rest.take(fv@.len() as int) == fv@);
            assert(rest.skip(fv@.len() as int) == sv@.skip(i + fv@.len()));
            let ghost before = out@;
            append_str(&mut out, to);
            assert(out@ + replace_spec(sv@.skip(i + fv@.len()), fv@, to@) == before + (to@ + replace_spec(
                rest.skip(fv@.len() as int),
                fv@,
                to@,
            )));
            i = i + fv.len();
        } else {
            proof {
                if rest.len() >= fv@.len() {
                    assert(rest.take(fv@.len() as int) == sv@.subrange(i as int, i + fv@.len()));
                }
                assert(rest.drop_first() == sv@.skip(i + 1));
            }
            let ghost before = out@;
            out.push(sv[i]);
            assert(out@ + replace_spec(sv@.skip(i + 1), fv@, to@) == before + (seq![rest[0]] + replace_spec(
                rest.drop_first(),
                fv@,
                to@,
            )));
            i = i + 1;
        }
    }
    assert(sv@.skip(sv.len() as int) =~= Seq::<char>::empty());
    assert(out@ + Seq::<char>::empty() == out@);
    string_from_chars(&out)
}

/// Whether `p` occurs in `s` (`str::contains`).
pub fn contains(s: &Vec<char>, p: &Vec<char>) -> (r: bool)
    ensures
        r == contains_spec(s@, p@),
{
    let mut i: usize = 0;
    while i < s.len()
        invariant
            i <= s.len(),
            forall|j: int| 0 <= j < i ==> !occurs_at(s@, p@, j),
        decreases s.len() - i,
    {
        if matches_at(s, p, i) {
            return true;
        }
        i = i + 1;
    }
    if matches_at(s, p, i) {
        return true;
    }
    assert forall|j: int| !occurs_at(s@, p@, j) by {
        if 0 <= j <= i {
        }
    }
    false
}

/// What `str::to_lowercase` returns (Unicode lower-casing).
pub uninterp spec fn lowercase_spec(s: Seq<char>) -> Seq<char>;

/// What `str::to_uppercase` returns (Unicode upper-casing).
pub uninterp spec fn uppercase_spec(s: Seq<char>) -> Seq<char>;

/// `str::to_lowercase`.
#[verifier::external_body]
pub(crate) fn to_lowercase(s: &str) -> (r: String)
    ensures
        r@ == lowercase_spec(s@),
{
    s.to_lowercase()
}

/// `str::to_uppercase`.
#[verifier::external_body]
pub(crate) fn to_uppercase(s: &str) -> (r: String)
    ensures
        r@ == uppercase_spec(s@),
{
    s.to_uppercase()
}

/// Whether two strings hold the same characters.
pub fn str_eq(a: &str, b: &str) -> (r: bool)
    ensures
        r == (a@ == b@),
{
    let av = str_chars(a);
    let bv = str_chars(b);
    if av.len() != bv.len() {
        return false;
    }
    let mut i: usize = 0;
    while i < av.len()
        invariant
            i <= av.len(),
            av.len() == bv.len(),
            av@ == a@,
            bv@ == b@,
            forall|j: int| 0 <= j < i ==> av@[j] == bv@[j],
        decreases av.len() - i,
    {
        if av[i] != bv[i] {
            return false;
        }
        i = i + 1;
    }
    assert(av@ =~= bv@);
    true
}

} // verus!
