//! Unsigned integer parsing with the semantics of std's `from_str_radix`
//! (an optional leading `+`, then one or more digits of the radix, no overflow).
use vstd::prelude::*;
use crate::text::{decimal, digit_char};

verus! {

/// The value of `c` as a digit of `radix` (`0-9`, then `a-z` / `A-Z` for 10 and up).
pub open spec fn digit_value(c: char, radix: nat) -> Option<nat> {
    let v: int = if '0' <= c && c <= '9' {
        c as int - '0' as int
    } else if 'a' <= c && c <= 'z' {
        c as int - 'a' as int + 10
    } else if 'A' <= c && c <= 'Z' {
        c as int - 'A' as int + 10
    } else {
        36
    };
    if v < radix {
        Some(v as nat)
    } else {
        None
    }
}

/// The number that the digit string `s` denotes in `radix`, or `None` if one
/// of its characters is not a digit of `radix`. The empty string denotes 0.
pub open spec fn digits_value(s: Seq<char>, radix: nat) -> Option<nat>
    decreases s.len(),
{
    if s.len() == 0 {
        Some(0)
    } else {
        match (digits_value(s.drop_last(), radix), digit_value(s.last(), radix)) {
            (Some(p), Some(d)) => Some(p * radix + d),
            _ => None,
        }
    }
}

/// The digits of `s` once an optional leading `+` is removed.
pub open spec fn unsigned_body(s: Seq<char>) -> Seq<char> {
    if s.len() > 0 && s[0] == '+' {
        s.drop_first()
    } else {
        s
    }
}

/// What `from_str_radix` returns for an unsigned type whose largest value is
/// `max`: the value of the digits after an optional `+`, when there is at least
/// one digit, every character is a digit, and the value does not exceed `max`.
pub open spec fn parse_unsigned(s: Seq<char>, radix: nat, max: nat) -> Option<nat> {
    let body = unsigned_body(s);
    if body.len() == 0 {
        None
    } else {
        match digits_value(body, radix) {
            Some(v) => if v <= max {
                Some(v)
            } else {
                None
            },
            None => None,
        }
    }
}

/// A digit string that is invalid stays invalid when extended, and a valid
/// one never loses value when extended.
pub proof fn lemma_digits_extend(s: Seq<char>, j: int, radix: nat)
    requires
        0 <= j <= s.len(),
        radix >= 1,
    ensures
        digits_value(s.take(j), radix) is None ==> digits_value(s, radix) is None,
        digits_value(s.take(j), radix) matches Some(v) ==> (digits_value(s, radix) matches Some(w)
            ==> v <= w),
    decreases s.len() - j,
{
    if j == s.len() {
        assert(s.take(j) =~= s);
    } else {
        let t = s.drop_last();
        assert(t.take(j) =~= s.take(j));
        lemma_digits_extend(t, j, radix);
        if let Some(p) = digits_value(t, radix) {
            assert(p * radix >= p) by (nonlinear_arith)
                requires
                    radix >= 1,
            ;
        }
    }
}

/// The value of the digit `c` in `radix`, computed.
fn digit_of(c: char, radix: u32) -> (r: Option<u32>)
    requires
        2 <= radix <= 36,
    ensures
        match r {
            Some(d) => digit_value(c, radix as nat) == Some(d as nat),
            None => digit_value(c, radix as nat) is None,
        },
{
    let v: u32 = if '0' <= c && c <= '9' {
        (c as u32) - ('0' as u32)
    } else if 'a' <= c && c <= 'z' {
        (c as u32) - ('a' as u32) + 10
    } else if 'A' <= c && c <= 'Z' {
        (c as u32) - ('A' as u32) + 10
    } else {
        36
    };
    if v < radix {
        Some(v)
    } else {
        None
    }
}

/// Parses `chars[start..end]` as `from_str_radix` does for an unsigned type
/// whose largest value is `max`.
pub fn parse_unsigned_range(chars: &Vec<char>, start: usize, end: usize, radix: u32, max: u64) -> (r:
    Option<u64>)
    requires
        start <= end <= chars@.len(),
        2 <= radix <= 36,
    ensures
        match r {
            Some(v) => parse_unsigned(chars@.subrange(start as int, end as int), radix as nat, max as nat)
                == Some(v as nat),
            None => parse_unsigned(chars@.subrange(start as int, end as int), radix as nat, max as nat)
                is None,
        },
{
    let ghost s = chars@.subrange(start as int, end as int);
    let b: usize = if start < end && chars[start] == '+' {
        start + 1
    } else {
        start
    };
    let ghost body = chars@.subrange(b as int, end as int);
    assert(body =~= unsigned_body(s));
    if b == end {
        return None;
    }
    let mut acc: u64 = 0;
    let mut i: usize = b;
    while i < end
        invariant
            start <= b <= i <= end <= chars@.len(),
            2 <= radix <= 36,
            body == chars@.subrange(b as int, end as int),
            s == chars@.subrange(start as int, end as int),
            body == unsigned_body(s),
            body.len() > 0,
            digits_value(body.take(i - b), radix as nat) == Some(acc as nat),
            acc <= max,
        decreases end - i,
    {
        let c = chars[i];
        assert(body.take(i - b + 1).drop_last() =~= body.take(i - b));
        assert(body.take(i - b + 1).last() == c);
        match digit_of(c, radix) {
            None => {
                proof {
                    lemma_digits_extend(body, i - b + 1, radix as nat);
                }
                return None;
            },
            Some(d) => {
                assert((acc as u128) * (radix as u128) <= 36 * 0xffff_ffff_ffff_ffffu128) by (nonlinear_arith)
                    requires
                        acc <= 0xffff_ffff_ffff_ffffu64,
                        radix <= 36,
                ;
                let next: u128 = (acc as u128) * (radix as u128) + (d as u128);
                if next > max as u128 {
                    proof {
                        lemma_digits_extend(body, i - b + 1, radix as nat);
                    }
                    return None;
                }
                acc = next as u64;
            },
        }
        i = i + 1;
    }
    assert(body.take(end - b) =~= body);
    Some(acc)
}


proof fn lemma_digits_of_decimal(n: nat)
    ensures
        digits_value(decimal(n), 10) == Some(n),
        decimal(n).len() > 0,
        '0' <= decimal(n)[0] <= '9',
    decreases n,
{
    let d = digit_char(n % 10);
    assert(d as int == n % 10 + 48);
    assert('0' <= d && d <= '9');
    assert(digit_value(d, 10) == Some(n % 10));
    if n < 10 {
        assert(decimal(n) == seq![d]);
        assert(seq![d].drop_last() =~= Seq::<char>::empty());
        assert(decimal(n).last() == d);
        assert(digits_value(Seq::<char>::empty(), 10) == Some(0nat));
    } else {
        lemma_digits_of_decimal(n / 10);
        assert(decimal(n).drop_last() =~= decimal(n / 10));
        assert(decimal(n).last() == d);
        assert(decimal(n)[0] == decimal(n / 10)[0]);
        assert((n / 10) * 10 + n % 10 == n);
    }
}

/// Parsing the decimal notation of a number that fits gives the number back.
pub proof fn lemma_parse_decimal(n: nat, max: nat)
    requires
        n <= max,
    ensures
        parse_unsigned(decimal(n), 10, max) == Some(n),
{
    lemma_digits_of_decimal(n);
}


/// In radix 16 the digits `0`-`9` have their decimal values, `a`-`f` and
/// `A`-`F` the values 10 to 15, and no other character is a digit; in radix
/// 10 only `0`-`9` are digits.
pub proof fn lemma_hex_and_decimal_digits(c: char)
    ensures
        '0' <= c <= '9' ==> digit_value(c, 16) == Some((c as int - 48) as nat) && digit_value(c, 10)
            == Some((c as int - 48) as nat),
        'a' <= c <= 'f' ==> digit_value(c, 16) == Some((c as int - 97 + 10) as nat),
        'A' <= c <= 'F' ==> digit_value(c, 16) == Some((c as int - 65 + 10) as nat),
        !('0' <= c <= '9' || 'a' <= c <= 'f' || 'A' <= c <= 'F') ==> digit_value(c, 16) is None,
        !('0' <= c <= '9') ==> digit_value(c, 10) is None,
{
}

/// The value of a hexadecimal digit character: `0`-`9` are 0 to 9, `a`-`f`
/// and `A`-`F` are 10 to 15.
pub open spec fn hex_char_value(c: char) -> int {
    if '0' <= c <= '9' {
        c as int - 48
    } else if 'a' <= c <= 'f' {
        c as int - 87
    } else {
        c as int - 55
    }
}

/// A two-character hexadecimal string parses to sixteen times the value of
/// its first digit plus the value of its second.
pub proof fn lemma_two_hex_digits(c1: char, c2: char)
    requires
        '0' <= c1 <= '9' || 'a' <= c1 <= 'f' || 'A' <= c1 <= 'F',
        '0' <= c2 <= '9' || 'a' <= c2 <= 'f' || 'A' <= c2 <= 'F',
    ensures
        parse_unsigned(seq![c1, c2], 16, 0xff) == Some((16 * hex_char_value(c1) + hex_char_value(c2)) as nat),
{
    let s = seq![c1, c2];
    assert(s[0] == c1 && s[1] == c2);
    assert(unsigned_body(s) == s);
    assert(s.drop_last() =~= seq![c1]);
    assert(seq![c1].drop_last() =~= Seq::<char>::empty());
    assert(seq![c1].last() == c1);
    assert(s.last() == c2);
    lemma_hex_and_decimal_digits(c1);
    lemma_hex_and_decimal_digits(c2);
    assert(digit_value(c1, 16) == Some(hex_char_value(c1) as nat));
    assert(digit_value(c2, 16) == Some(hex_char_value(c2) as nat));
    assert(digits_value(Seq::<char>::empty(), 16) == Some(0nat));
    assert(digits_value(seq![c1], 16) == Some(hex_char_value(c1) as nat));
    assert(digits_value(s, 16) == Some((16 * hex_char_value(c1) + hex_char_value(c2)) as nat));
}

} // verus!
