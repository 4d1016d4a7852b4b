//! UTF-16 ("wide") text as Windows APIs take and give it.
use vstd::prelude::*;
use crate::text::chars_of;

verus! {

pub open spec fn is_high_surrogate(u: u16) -> bool {
    0xD800 <= u <= 0xDBFF
}

pub open spec fn is_low_surrogate(u: u16) -> bool {
    0xDC00 <= u <= 0xDFFF
}

/// The UTF-16 code units of one character: the scalar itself below 0x10000,
/// else a high and a low surrogate.
pub open spec fn encode_char_utf16(c: char) -> Seq<u16> {
    let v = c as u32;
    if v < 0x10000 {
        seq![v as u16]
    } else {
        let w = v - 0x10000;
        seq![(0xD800 + w / 0x400) as u16, (0xDC00 + w % 0x400) as u16]
    }
}

/// The UTF-16 encoding of a character sequence.
pub open spec fn encode_utf16(s: Seq<char>) -> Seq<u16>
    decreases s.len(),
{
    if s.len() == 0 {
        Seq::empty()
    } else {
        encode_char_utf16(s[0]) + encode_utf16(s.drop_first())
    }
}

/// The characters that UTF-16 code units decode to, with every unit that is
/// an unpaired surrogate replaced by U+FFFD (`String::from_utf16_lossy`).
pub open spec fn decode_utf16_lossy(u: Seq<u16>) -> Seq<char>
    decreases u.len(),
{
    if u.len() == 0 {
        Seq::empty()
    } else if is_high_surrogate(u[0]) && u.len() >= 2 && is_low_surrogate(u[1]) {
        seq![(0x10000 + (u[0] - 0xD800) * 0x400 + (u[1] - 0xDC00)) as char] + decode_utf16_lossy(
            u.skip(2),
        )
    } else if is_high_surrogate(u[0]) || is_low_surrogate(u[0]) {
        seq!['\u{FFFD}'] + decode_utf16_lossy(u.drop_first())
    } else {
        seq![u[0] as char] + decode_utf16_lossy(u.drop_first())
    }
}

proof fn lemma_encode_utf16_append(a: Seq<char>, b: Seq<char>)
    ensures
        encode_utf16(a + b) == encode_utf16(a) + encode_utf16(b),
    decreases a.len(),
{
    if a.len() == 0 {
        assert(a + b =~= b);
    } else {
        assert((a + b).drop_first() =~= a.drop_first() + b);
        lemma_encode_utf16_append(a.drop_first(), b);
        assert(encode_utf16(a + b) =~= encode_utf16(a) + encode_utf16(b));
    }
}

/// Decoding the UTF-16 encoding of any text gives the text back.
pub proof fn lemma_decode_encode_utf16(s: Seq<char>)
    ensures
        decode_utf16_lossy(encode_utf16(s)) == s,
    decreases s.len(),
{
    if s.len() > 0 {
        let c = s[0];
        let rest = s.drop_first();
        let e = encode_char_utf16(c);
        let u = encode_utf16(s);
        assert(u == e + encode_utf16(rest));
        lemma_decode_encode_utf16(rest);
        vstd::utf8::char_is_scalar(c);
        let v = c as u32;
        if v < 0x10000 {
            assert(e == seq![v as u16]);
            assert(u[0] == e[0]);
            assert((v as u16) as u32 == v);
            assert(u.drop_first() =~= encode_utf16(rest));
            assert((u[0] as u32) == v);
            vstd::utf8::char_u32_cast(c, u[0] as u32);
            assert(decode_utf16_lossy(u) =~= seq![c] + rest);
        } else {
            let w = v as int - 0x10000;
            assert(w / 0x400 < 0x400 && w % 0x400 < 0x400) by (nonlinear_arith)
                requires
                    0 <= w <= 0xFFFFF,
            ;
            assert(w == (w / 0x400) * 0x400 + w % 0x400) by (nonlinear_arith)
                requires
                    0 <= w,
            ;
            assert(u.skip(2) =~= encode_utf16(rest));
            let d = (0x10000 + (u[0] - 0xD800) * 0x400 + (u[1] - 0xDC00)) as u32;
            assert(d == v);
            vstd::utf8::char_u32_cast(c, d);
            assert(decode_utf16_lossy(u) =~= seq![c] + rest);
        }
        assert(seq![c] + rest =~= s);
    }
}

/// The UTF-16 units of `s` followed by a terminating 0, as Windows APIs
/// take strings.
pub fn to_wide(s: &str) -> (w: Vec<u16>)
    ensures
        w@ == encode_utf16(s@).push(0),
{
    let chars = chars_of(s);
    let mut out: Vec<u16> = Vec::new();
    let mut i: usize = 0;
    assert(chars@.take(0) =~= Seq::<char>::empty());
    while i < chars.len()
        invariant
            i <= chars@.len(),
            out@ == encode_utf16(chars@.take(i as int)),
        decreases chars@.len() - i,
    {
        let c = chars[i];
        let v = c as u32;
        proof {
            vstd::utf8::char_is_scalar(c);
            lemma_encode_utf16_append(chars@.take(i as int), seq![c]);
            assert(chars@.take(i + 1) =~= chars@.take(i as int) + seq![c]);
            assert(seq![c].drop_first() =~= Seq::<char>::empty());
            assert(seq![c][0] == c);
            assert(encode_utf16(Seq::<char>::empty()) == Seq::<u16>::empty());
            assert(encode_utf16(seq![c]) =~= encode_char_utf16(c));
        }
        if v < 0x10000 {
            out.push(v as u16);
            assert(encode_char_utf16(c) == seq![v as u16]);
        } else {
            let x = v - 0x10000;
            assert(x / 0x400 < 0x400) by (nonlinear_arith)
                requires
                    x <= 0xFFFFF,
            ;
            out.push((0xD800 + x / 0x400) as u16);
            out.push((0xDC00 + x % 0x400) as u16);
            assert(encode_char_utf16(c) == seq![(0xD800 + x / 0x400) as u16, (0xDC00 + x % 0x400) as u16]);
        }
        assert(out@ =~= encode_utf16(chars@.take(i as int)) + encode_char_utf16(c));
        i = i + 1;
    }
    assert(chars@.take(chars@.len() as int) =~= chars@);
    out.push(0);
    out
}

/// `String::from_utf16_lossy`: the text that UTF-16 code units decode to,
/// every unpaired surrogate replaced by U+FFFD. Its contract claims that std
/// decodes as `decode_utf16_lossy` states; nothing here proves it.
#[verifier::external_body]
pub(crate) fn string_from_utf16_lossy(units: &[u16]) -> (s: String)
    ensures
        s@ == decode_utf16_lossy(units@),
{
    String::from_utf16_lossy(units)
}

} // verus!
