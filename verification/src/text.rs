//! Character-level helpers on `&str`, stated over the string's view (`Seq<char>`).
use vstd::prelude::*;
use vstd::string::StringExecFns;

verus! {

/// Copies the characters of `s` into a vector.
pub fn chars_of(s: &str) -> (v: Vec<char>)
    ensures
        v@ == s@,
{
    let n = s.unicode_len();
    let mut v: Vec<char> = Vec::new();
    let mut i: usize = 0;
    while i < n
        invariant
            n == s@.len(),
            i <= n,
            v@ == s@.take(i as int),
        decreases n - i,
    {
        let c = s.get_char(i);
        v.push(c);
        i = i + 1;
        assert(v@ =~= s@.take(i as int));
    }
    assert(v@ =~= s@);
    v
}

/// Whether `chars[start..end]` spells exactly `lit`.
pub fn range_eq_str(chars: &Vec<char>, start: usize, end: usize, lit: &str) -> (r: bool)
    requires
        start <= end <= chars@.len(),
    ensures
        r == (chars@.subrange(start as int, end as int) == lit@),
{
    let n = lit.unicode_len();
    if end - start != n {
        assert(chars@.subrange(start as int, end as int).len() != lit@.len());
        return false;
    }
    let mut i: usize = 0;
    while i < n
        invariant
            n == lit@.len(),
            end - start == n,
            start <= end <= chars@.len(),
            i <= n,
            forall|k: int| 0 <= k < i ==> chars@[start + k] == lit@[k],
        decreases n - i,
    {
        if chars[start + i] != lit.get_char(i) {
            assert(chars@.subrange(start as int, end as int)[i as int] != lit@[i as int]);
            return false;
        }
        i = i + 1;
    }
    assert(chars@.subrange(start as int, end as int) =~= lit@);
    true
}

/// Whether `chars[start..end]` begins with `lit`.
pub fn range_starts_with(chars: &Vec<char>, start: usize, end: usize, lit: &str) -> (r: bool)
    requires
        start <= end <= chars@.len(),
    ensures
        r == (lit@.len() <= end - start && chars@.subrange(start as int, start + lit@.len())
            == lit@),
{
    let n = lit.unicode_len();
    if n > end - start {
        return false;
    }
    range_eq_str(chars, start, start + n, lit)
}

/// Whether `chars[start..end]` ends with `lit`.
pub fn range_ends_with(chars: &Vec<char>, start: usize, end: usize, lit: &str) -> (r: bool)
    requires
        start <= end <= chars@.len(),
    ensures
        r == (lit@.len() <= end - start && chars@.subrange(end - lit@.len(), end as int)
            == lit@),
{
    let n = lit.unicode_len();
    if n > end - start {
        return false;
    }
    range_eq_str(chars, end - n, end, lit)
}

/// Whether `s` spells exactly `lit`.
pub fn str_eq(s: &str, lit: &str) -> (r: bool)
    ensures
        r == (s@ == lit@),
{
    let v = chars_of(s);
    let r = range_eq_str(&v, 0, v.len(), lit);
    assert(v@.subrange(0, v@.len() as int) =~= v@);
    r
}


/// The separator sets by which text is split into fields.
#[derive(PartialEq, Eq, Structural, Clone, Copy, Debug)]
pub enum Separators {
    /// `:`
    Colon,
    /// `:` or `.`
    ColonOrDot,
    /// `\n`
    Newline,
}

pub open spec fn is_separator(kind: Separators, c: char) -> bool {
    match kind {
        Separators::Colon => c == ':',
        Separators::ColonOrDot => c == ':' || c == '.',
        Separators::Newline => c == '\n',
    }
}

/// The fields of `s` between separators, as `str::split` yields them: one more
/// field than there are separators, empty fields included.
pub open spec fn split_fields(s: Seq<char>, kind: Separators) -> Seq<Seq<char>>
    decreases s.len(),
{
    if s.len() == 0 {
        seq![Seq::<char>::empty()]
    } else {
        let prev = split_fields(s.drop_last(), kind);
        if is_separator(kind, s.last()) {
            prev.push(Seq::<char>::empty())
        } else {
            prev.update(prev.len() - 1, prev.last().push(s.last()))
        }
    }
}

pub proof fn lemma_split_fields_nonempty(s: Seq<char>, kind: Separators)
    ensures
        split_fields(s, kind).len() >= 1,
    decreases s.len(),
{
    if s.len() > 0 {
        lemma_split_fields_nonempty(s.drop_last(), kind);
    }
}

/// `l` without one trailing carriage return.
pub open spec fn strip_cr(l: Seq<char>) -> Seq<char> {
    if l.len() > 0 && l.last() == '\r' {
        l.drop_last()
    } else {
        l
    }
}

/// The lines of `s` as `str::lines` yields them: split at `\n`, a `\r` right
/// before a `\n` removed, and no final empty line after a trailing `\n`.
pub open spec fn lines_of(s: Seq<char>) -> Seq<Seq<char>> {
    let p = split_fields(s, Separators::Newline);
    let terminated = p.drop_last().map_values(|l: Seq<char>| strip_cr(l));
    if p.last().len() == 0 {
        terminated
    } else {
        terminated.push(p.last())
    }
}

/// Whether `c` has the Unicode `White_Space` property (`char::is_whitespace`).
pub open spec fn is_whitespace(c: char) -> bool {
    ('\u{9}' <= c && c <= '\u{d}') || c == ' ' || c == '\u{85}' || c == '\u{a0}' || c == '\u{1680}'
        || ('\u{2000}' <= c && c <= '\u{200a}') || c == '\u{2028}' || c == '\u{2029}' || c
        == '\u{202f}' || c == '\u{205f}' || c == '\u{3000}'
}

/// `s` without its trailing whitespace (`str::trim_end`).
pub open spec fn trim_end(s: Seq<char>) -> Seq<char>
    decreases s.len(),
{
    if s.len() > 0 && is_whitespace(s.last()) {
        trim_end(s.drop_last())
    } else {
        s
    }
}

fn char_is_whitespace(c: char) -> (r: bool)
    ensures
        r == is_whitespace(c),
{
    ('\u{9}' <= c && c <= '\u{d}') || c == ' ' || c == '\u{85}' || c == '\u{a0}' || c == '\u{1680}'
        || ('\u{2000}' <= c && c <= '\u{200a}') || c == '\u{2028}' || c == '\u{2029}' || c
        == '\u{202f}' || c == '\u{205f}' || c == '\u{3000}'
}

/// The end of `chars[start..end]` once trailing whitespace is trimmed.
pub fn trim_end_range(chars: &Vec<char>, start: usize, end: usize) -> (e: usize)
    requires
        start <= end <= chars@.len(),
    ensures
        start <= e <= end,
        chars@.subrange(start as int, e as int) == trim_end(
            chars@.subrange(start as int, end as int),
        ),
{
    let mut e = end;
    while e > start && char_is_whitespace(chars[e - 1])
        invariant
            start <= e <= end <= chars@.len(),
            trim_end(chars@.subrange(start as int, end as int)) == trim_end(
                chars@.subrange(start as int, e as int),
            ),
        decreases e,
    {
        assert(chars@.subrange(start as int, e as int).drop_last() =~= chars@.subrange(
            start as int,
            e - 1,
        ));
        e = e - 1;
    }
    e
}

/// The ranges of `chars` that hold the fields of `split_fields(chars@, kind)`.
pub fn field_ranges(chars: &Vec<char>, kind: Separators) -> (r: Vec<(usize, usize)>)
    ensures
        r@.len() == split_fields(chars@, kind).len(),
        forall|k: int|
            #![trigger r@[k]] 0 <= k < r@.len() ==> r@[k].0 <= r@[k].1 <= chars@.len()
                && split_fields(chars@, kind)[k] == chars@.subrange(r@[k].0 as int, r@[k].1 as int),
{
    let n = chars.len();
    let mut r: Vec<(usize, usize)> = Vec::new();
    let mut cur: usize = 0;
    let mut i: usize = 0;
    assert(chars@.take(0) =~= Seq::<char>::empty());
    while i < n
        invariant
            n == chars@.len(),
            cur <= i <= n,
            r@.len() + 1 == split_fields(chars@.take(i as int), kind).len(),
            forall|k: int|
                #![trigger r@[k]] 0 <= k < r@.len() ==> r@[k].0 <= r@[k].1 <= i && split_fields(
                    chars@.take(i as int),
                    kind,
                )[k] == chars@.subrange(r@[k].0 as int, r@[k].1 as int),
            split_fields(chars@.take(i as int), kind).last() == chars@.subrange(
                cur as int,
                i as int,
            ),
        decreases n - i,
    {
        let ghost f = split_fields(chars@.take(i as int), kind);
        let c = chars[i];
        assert(chars@.take(i + 1).drop_last() =~= chars@.take(i as int));
        assert(chars@.take(i + 1).last() == c);
        let sep = match kind {
            Separators::Colon => c == ':',
            Separators::ColonOrDot => c == ':' || c == '.',
            Separators::Newline => c == '\n',
        };
        let ghost old_r = r@;
        let ghost f2 = split_fields(chars@.take(i + 1), kind);
        if sep {
            assert(f2 == f.push(Seq::<char>::empty()));
            r.push((cur, i));
            cur = i + 1;
            assert(chars@.subrange(cur as int, i + 1) =~= Seq::<char>::empty());
            assert forall|k: int| 0 <= k < r@.len() implies r@[k].0 <= r@[k].1 <= i + 1
                && f2[k] == chars@.subrange(r@[k].0 as int, r@[k].1 as int) by {
                if k < old_r.len() {
                    assert(r@[k] == old_r[k]);
                    assert(f2[k] == f[k]);
                } else {
                    assert(f2[k] == f.last());
                }
            }
        } else {
            assert(f2 == f.update(f.len() - 1, f.last().push(c)));
            assert(chars@.subrange(cur as int, i + 1) =~= chars@.subrange(cur as int, i as int).push(
                c,
            ));
            assert forall|k: int| 0 <= k < r@.len() implies r@[k].0 <= r@[k].1 <= i + 1
                && f2[k] == chars@.subrange(r@[k].0 as int, r@[k].1 as int) by {
                assert(f2[k] == f[k]);
            }
        }
        i = i + 1;
    }
    r.push((cur, n));
    assert(chars@.take(n as int) =~= chars@);
    r
}

/// The ranges of `chars` that hold the lines of `lines_of(chars@)`.
pub fn line_ranges(chars: &Vec<char>) -> (r: Vec<(usize, usize)>)
    ensures
        r@.len() == lines_of(chars@).len(),
        forall|k: int|
            #![trigger r@[k]] 0 <= k < r@.len() ==> r@[k].0 <= r@[k].1 <= chars@.len() && lines_of(
                chars@,
            )[k] == chars@.subrange(r@[k].0 as int, r@[k].1 as int),
{
    let pieces = field_ranges(chars, Separators::Newline);
    let ghost p = split_fields(chars@, Separators::Newline);
    proof {
        lemma_split_fields_nonempty(chars@, Separators::Newline);
    }
    let ghost terminated = p.drop_last().map_values(|l: Seq<char>| strip_cr(l));
    let m = pieces.len() - 1;
    let mut r: Vec<(usize, usize)> = Vec::new();
    let mut k: usize = 0;
    while k < m
        invariant
            m + 1 == pieces@.len(),
            pieces@.len() == p.len(),
            p == split_fields(chars@, Separators::Newline),
            terminated == p.drop_last().map_values(|l: Seq<char>| strip_cr(l)),
            forall|j: int|
                #![trigger pieces@[j]] 0 <= j < pieces@.len() ==> pieces@[j].0 <= pieces@[j].1 <= chars@.len()
                    && p[j] == chars@.subrange(pieces@[j].0 as int, pieces@[j].1 as int),
            k <= m,
            r@.len() == k,
            forall|j: int|
                #![trigger r@[j]] 0 <= j < k ==> r@[j].0 <= r@[j].1 <= chars@.len() && terminated[j]
                    == chars@.subrange(r@[j].0 as int, r@[j].1 as int),
        decreases m - k,
    {
        let (s, e) = pieces[k];
        assert(pieces@[k as int].0 <= pieces@[k as int].1);
        let ghost l = chars@.subrange(s as int, e as int);
        assert(terminated[k as int] == strip_cr(p[k as int]));
        if e > s && chars[e - 1] == '\r' {
            assert(l.drop_last() =~= chars@.subrange(s as int, e - 1));
            r.push((s, e - 1));
        } else {
            r.push((s, e));
        }
        k = k + 1;
    }
    let (s, e) = pieces[m];
    assert(pieces@[m as int].0 <= pieces@[m as int].1);
    assert(p.last() == p[m as int]);
    if e > s {
        r.push((s, e));
    }
    assert(lines_of(chars@) =~= (if p.last().len() == 0 {
        terminated
    } else {
        terminated.push(p.last())
    }));
    r
}


/// The character of a decimal digit.
pub open spec fn digit_char(d: nat) -> char {
    (d + 48) as char
}

/// The decimal notation of `n`, without leading zeros.
pub open spec fn decimal(n: nat) -> Seq<char>
    decreases n,
{
    if n < 10 {
        seq![digit_char(n)]
    } else {
        decimal(n / 10).push(digit_char(n % 10))
    }
}

fn digit_str(d: u32) -> (s: &'static str)
    requires
        d < 10,
    ensures
        s@ == seq![digit_char(d as nat)],
{
    match d {
        0 => {
            proof {
                reveal_strlit("0");
            }
            "0"
        },
        1 => {
            proof {
                reveal_strlit("1");
            }
            "1"
        },
        2 => {
            proof {
                reveal_strlit("2");
            }
            "2"
        },
        3 => {
            proof {
                reveal_strlit("3");
            }
            "3"
        },
        4 => {
            proof {
                reveal_strlit("4");
            }
            "4"
        },
        5 => {
            proof {
                reveal_strlit("5");
            }
            "5"
        },
        6 => {
            proof {
                reveal_strlit("6");
            }
            "6"
        },
        7 => {
            proof {
                reveal_strlit("7");
            }
            "7"
        },
        8 => {
            proof {
                reveal_strlit("8");
            }
            "8"
        },
        _ => {
            proof {
                reveal_strlit("9");
            }
            "9"
        },
    }
}

/// The decimal notation of `n` (as `n.to_string()` writes it).
pub fn decimal_string(n: u32) -> (s: String)
    ensures
        s@ == decimal(n as nat),
    decreases n,
{
    if n < 10 {
        String::from_str(digit_str(n))
    } else {
        let mut s = decimal_string(n / 10);
        s.append(digit_str(n % 10));
        s
    }
}

} // verus!
