use vstd::prelude::*;

use crate::text::str_chars;

verus! {

/// The UTF-16 code units of one character: itself below `0x10000`,
/// otherwise a high and a low surrogate.
pub open spec fn utf16_of(c: char) -> Seq<u16> {
    let v = (c as u32) as int;
    if v < 0x10000 {
        seq![v as u16]
    } else {
        let u = v - 0x10000;
        seq![(0xD800 + u / 1024) as u16, (0xDC00 + u % 1024) as u16]
    }
}

/// The UTF-16 encoding of a text (`str::encode_utf16`).
pub open spec fn utf16_encode(s: Seq<char>) -> Seq<u16>
    decreases s.len(),
{
    if s.len() == 0 {
        Seq::empty()
    } else {
        utf16_encode(s.drop_last()) + utf16_of(s.last())
    }
}

/// The text as UTF-16 code units followed by a terminating zero, as Win32
/// wide-string parameters take it.
pub fn to_wide(s: &str) -> (w: Vec<u16>)
    ensures
        w@ == utf16_encode(s@).push(0u16),
{
    let chars = str_chars(s);
    let mut w: Vec<u16> = Vec::new();
    let mut i: usize = 0;
    while i < chars.len()
        invariant
            i <= chars.len(),
            chars@ == s@,
            w@ == utf16_encode(chars@.take(i as int)),
        decreases chars.len() - i,
    {
        let c = chars[i];
        let v = c as u32;
        proof {
            vstd::utf8::char_is_scalar(c);
        }
        assert(chars@.take(i + 1).drop_last() == chars@.take(i as int));
        if v < 0x10000 {
            w.push(v as u16);
        } else {
            let u = v - 0x10000;
            assert(u / 1024 < 1024 && u % 1024 < 1024);
            w.push((0xD800 + u / 1024) as u16);
            w.push((0xDC00 + u % 1024) as u16);
        }
        assert(w@ == utf16_encode(chars@.take(i + 1)));
        i = i + 1;
    }
    assert(chars@.take(chars.len() as int) == s@);
    w.push(0);
    w
}

/// A text without NUL characters encodes to UTF-16 without zero units, so
/// the zero appended by `to_wide` is the string's only terminator.
pub proof fn lemma_wide_single_terminator(s: Seq<char>)
    requires
        forall|i: int| 0 <= i < s.len() ==> s[i] != '\0',
    ensures
        forall|i: int| 0 <= i < utf16_encode(s).len() ==> utf16_encode(s)[i] != 0u16,
    decreases s.len(),
{
    if s.len() > 0 {
        let init = s.drop_last();
        assert forall|i: int| 0 <= i < init.len() implies init[i] != '\0' by {
            assert(init[i] == s[i]);
        }
        lemma_wide_single_terminator(init);
        let c = s.last();
        vstd::utf8::char_is_scalar(c);
        assert(c != '\0');
        assert((c as u32) != 0) by {
            vstd::utf8::char_u32_cast(c, c as u32);
        }
        let e = utf16_encode(s);
        assert forall|i: int| 0 <= i < e.len() implies e[i] != 0u16 by {
            if i >= utf16_encode(init).len() {
                let u = (c as u32) as int - 0x10000;
                if (c as u32) >= 0x10000 {
                    assert(u / 1024 < 1024 && u % 1024 < 1024);
                }
            }
        }
    }
}

} // verus!
