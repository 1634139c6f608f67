//! Character-level text utilities with exact specifications.

use vstd::prelude::*;

verus! {

/// Appends one character to a `String` (`String::push`): the documented
/// effect is that the character is added at the end.
#[verifier::external_body]
fn string_push(s: &mut String, c: char)
    ensures
        final(s)@ == old(s)@.push(c),
{
    s.push(c);
}

/// The characters of each string.
pub open spec fn texts(v: Seq<String>) -> Seq<Seq<char>> {
    v.map_values(|s: String| s@)
}

/// An optional text, by its characters.
pub open spec fn opt_chars(o: Option<String>) -> Option<Seq<char>> {
    match o {
        Some(t) => Some(t@),
        None => None,
    }
}

/// The characters of a string slice, in order.
pub fn chars_of(s: &str) -> (v: Vec<char>)
    ensures
        v@ == s@,
{
    let mut v: Vec<char> = Vec::new();
    for c in it: s.chars()
        invariant
            it.seq() == s@,
            v@ == it.seq().take(it.index()),
    {
        v.push(c);
    }
    v
}

/// A `String` holding exactly the given characters.
pub fn string_of(v: &[char]) -> (s: String)
    ensures
        s@ == v@,
{
    let mut s = String::new();
    let mut i: usize = 0;
    while i < v.len()
        invariant
            0 <= i <= v.len(),
            s@ == v@.take(i as int),
        decreases v.len() - i,
    {
        string_push(&mut s, v[i]);
        assert(v@.take(i as int).push(v@[i as int]) =~= v@.take(i + 1));
        i = i + 1;
    }
    assert(v@.take(v.len() as int) =~= v@);
    s
}

}

verus! {

/// Characters that `trim`-style operations strip: Unicode `White_Space`
/// characters, the double quote, or the line-end characters `\r` and `\n`.
#[derive(Clone, Copy, PartialEq, Eq, Debug)]
pub enum CharClass {
    Whitespace,
    Quote,
    LineEnd,
}

/// The Unicode `White_Space` property (the set used by `char::is_whitespace`).
pub open spec fn is_ws(c: char) -> bool {
    let u = c as u32;
    ||| 0x9 <= u <= 0xd
    ||| u == 0x20
    ||| u == 0x85
    ||| u == 0xa0
    ||| u == 0x1680
    ||| 0x2000 <= u <= 0x200a
    ||| u == 0x2028
    ||| u == 0x2029
    ||| u == 0x202f
    ||| u == 0x205f
    ||| u == 0x3000
}

pub open spec fn in_class(c: char, cls: CharClass) -> bool {
    match cls {
        CharClass::Whitespace => is_ws(c),
        CharClass::Quote => c == '"',
        CharClass::LineEnd => c == '\r' || c == '\n',
    }
}

/// Exec test for [`is_ws`].
pub fn is_whitespace(c: char) -> (b: bool)
    ensures
        b == is_ws(c),
{
    let u = c as u32;
    (0x9 <= u && u <= 0xd) || u == 0x20 || u == 0x85 || u == 0xa0 || u == 0x1680 || (0x2000 <= u
        && u <= 0x200a) || u == 0x2028 || u == 0x2029 || u == 0x202f || u == 0x205f || u == 0x3000
}

fn char_in_class(c: char, cls: CharClass) -> (b: bool)
    ensures
        b == in_class(c, cls),
{
    match cls {
        CharClass::Whitespace => is_whitespace(c),
        CharClass::Quote => c == '"',
        CharClass::LineEnd => c == '\r' || c == '\n',
    }
}

/// `s` without its leading characters of class `cls`.
pub open spec fn trim_start(s: Seq<char>, cls: CharClass) -> Seq<char>
    decreases s.len(),
{
    if s.len() > 0 && in_class(s[0], cls) {
        trim_start(s.drop_first(), cls)
    } else {
        s
    }
}

/// `s` without its trailing characters of class `cls`.
pub open spec fn trim_end(s: Seq<char>, cls: CharClass) -> Seq<char>
    decreases s.len(),
{
    if s.len() > 0 && in_class(s.last(), cls) {
        trim_end(s.drop_last(), cls)
    } else {
        s
    }
}

/// `s` without leading and trailing characters of class `cls`
/// (`str::trim` for whitespace, `str::trim_matches('"')` for quotes).
pub open spec fn trim(s: Seq<char>, cls: CharClass) -> Seq<char> {
    trim_end(trim_start(s, cls), cls)
}

proof fn lemma_trim_start_step(v: Seq<char>, a: int, hi: int, cls: CharClass)
    requires
        0 <= a < hi <= v.len(),
        in_class(v[a], cls),
    ensures
        trim_start(v.subrange(a, hi), cls) == trim_start(v.subrange(a + 1, hi), cls),
{
    assert(v.subrange(a, hi).drop_first() =~= v.subrange(a + 1, hi));
}

proof fn lemma_trim_end_step(v: Seq<char>, lo: int, b: int, cls: CharClass)
    requires
        0 <= lo < b <= v.len(),
        in_class(v[b - 1], cls),
    ensures
        trim_end(v.subrange(lo, b), cls) == trim_end(v.subrange(lo, b - 1), cls),
{
    assert(v.subrange(lo, b).drop_last() =~= v.subrange(lo, b - 1));
}

/// Bounds `(a, b)` such that `v[a..b]` is `v[lo..hi]` trimmed of class `cls`.
pub fn trim_bounds(v: &[char], lo: usize, hi: usize, cls: CharClass) -> (r: (usize, usize))
    requires
        lo <= hi <= v.len(),
    ensures
        lo <= r.0 <= r.1 <= hi,
        v@.subrange(r.0 as int, r.1 as int) == trim(v@.subrange(lo as int, hi as int), cls),
{
    let mut a = lo;
    while a < hi && char_in_class(v[a], cls)
        invariant
            lo <= a <= hi <= v.len(),
            trim_start(v@.subrange(lo as int, hi as int), cls) == trim_start(
                v@.subrange(a as int, hi as int),
                cls,
            ),
        decreases hi - a,
    {
        proof {
            lemma_trim_start_step(v@, a as int, hi as int, cls);
        }
        a = a + 1;
    }
    let mut b = hi;
    while b > a && char_in_class(v[b - 1], cls)
        invariant
            lo <= a <= b <= hi <= v.len(),
            trim_start(v@.subrange(lo as int, hi as int), cls) == trim_start(
                v@.subrange(a as int, hi as int),
                cls,
            ),
            a == hi || !in_class(v@[a as int], cls),
            trim(v@.subrange(lo as int, hi as int), cls) == trim_end(
                v@.subrange(a as int, b as int),
                cls,
            ),
        decreases b - a,
    {
        proof {
            lemma_trim_end_step(v@, a as int, b as int, cls);
        }
        b = b - 1;
    }
    (a, b)
}

/// Length of `v` without its trailing characters of class `cls`.
pub fn trim_end_len(v: &[char], cls: CharClass) -> (r: usize)
    ensures
        r <= v.len(),
        v@.take(r as int) == trim_end(v@, cls),
{
    let mut b = v.len();
    assert(v@.subrange(0, b as int) =~= v@);
    while b > 0 && char_in_class(v[b - 1], cls)
        invariant
            b <= v.len(),
            trim_end(v@, cls) == trim_end(v@.subrange(0, b as int), cls),
        decreases b,
    {
        proof {
            lemma_trim_end_step(v@, 0, b as int, cls);
        }
        b = b - 1;
    }
    assert(v@.take(b as int) =~= v@.subrange(0, b as int));
    b
}

/// The characters of `v[lo..hi]` as a vector.
pub fn slice_vec(v: &[char], lo: usize, hi: usize) -> (r: Vec<char>)
    requires
        lo <= hi <= v.len(),
    ensures
        r@ == v@.subrange(lo as int, hi as int),
{
    let mut r: Vec<char> = Vec::new();
    let mut i = lo;
    while i < hi
        invariant
            lo <= i <= hi <= v.len(),
            r@ == v@.subrange(lo as int, i as int),
        decreases hi - i,
    {
        r.push(v[i]);
        assert(v@.subrange(lo as int, i as int).push(v@[i as int]) =~= v@.subrange(
            lo as int,
            i + 1,
        ));
        i = i + 1;
    }
    r
}

/// Whether `v[lo..hi]` equals the string `lit`.
pub fn range_eq_str(v: &[char], lo: usize, hi: usize, lit: &str) -> (b: bool)
    requires
        lo <= hi <= v.len(),
    ensures
        b == (v@.subrange(lo as int, hi as int) == lit@),
{
    let n = lit.unicode_len();
    if hi - lo != n {
        return false;
    }
    let mut i: usize = 0;
    while i < n
        invariant
            lo <= hi <= v.len(),
            hi - lo == n == lit@.len(),
            0 <= i <= n,
            forall|j: int| 0 <= j < i ==> v@[lo + j] == lit@[j],
        decreases n - i,
    {
        if v[lo + i] != lit.get_char(i) {
            assert(v@.subrange(lo as int, hi as int)[i as int] != lit@[i as int]);
            return false;
        }
        i = i + 1;
    }
    assert(v@.subrange(lo as int, hi as int) =~= lit@);
    true
}

/// Whether the vector equals the string `lit`.
pub fn vec_eq_str(v: &[char], lit: &str) -> (b: bool)
    ensures
        b == (v@ == lit@),
{
    let r = range_eq_str(v, 0, v.len(), lit);
    assert(v@.subrange(0, v@.len() as int) =~= v@);
    r
}

/// Whether `lit` is a prefix of `v`.
pub fn vec_starts_with(v: &[char], lit: &str) -> (b: bool)
    ensures
        b == (lit@.len() <= v@.len() && v@.take(lit@.len() as int) == lit@),
{
    let n = lit.unicode_len();
    if n > v.len() {
        return false;
    }
    range_eq_str(v, 0, n, lit)
}

/// Number of characters of `s` before its first `c` (`s.len()` when `c` does not occur).
pub open spec fn char_pos(s: Seq<char>, c: char) -> nat
    decreases s.len(),
{
    if s.len() == 0 {
        0
    } else if s[0] == c {
        0
    } else {
        1 + char_pos(s.drop_first(), c)
    }
}

pub proof fn lemma_char_pos(s: Seq<char>, c: char, r: int)
    requires
        0 <= r <= s.len(),
        forall|j: int| 0 <= j < r ==> s[j] != c,
        r < s.len() ==> s[r] == c,
    ensures
        char_pos(s, c) == r,
    decreases r,
{
    if r > 0 {
        lemma_char_pos(s.drop_first(), c, r - 1);
    }
}

/// Index of the first `c` in `v[lo..hi]`, or `hi` when there is none.
pub fn find_char(v: &[char], lo: usize, hi: usize, c: char) -> (r: usize)
    requires
        lo <= hi <= v.len(),
    ensures
        lo <= r <= hi,
        forall|j: int| lo <= j < r ==> v@[j] != c,
        r < hi ==> v@[r as int] == c,
        r - lo == char_pos(v@.subrange(lo as int, hi as int), c),
{
    let mut i = lo;
    while i < hi && v[i] != c
        invariant
            lo <= i <= hi <= v.len(),
            forall|j: int| lo <= j < i ==> v@[j] != c,
        decreases hi - i,
    {
        i = i + 1;
    }
    proof {
        lemma_char_pos(v@.subrange(lo as int, hi as int), c, i - lo);
    }
    i
}

} // verus!

verus! {

/// The whitespace-separated words of `s` (`str::split_whitespace`), read from
/// left to right with `cur` the word begun so far.
pub open spec fn words_from(s: Seq<char>, cur: Seq<char>) -> Seq<Seq<char>>
    decreases s.len(),
{
    if s.len() == 0 {
        if cur.len() > 0 {
            seq![cur]
        } else {
            seq![]
        }
    } else if is_ws(s[0]) {
        if cur.len() > 0 {
            seq![cur] + words_from(s.drop_first(), seq![])
        } else {
            words_from(s.drop_first(), seq![])
        }
    } else {
        words_from(s.drop_first(), cur.push(s[0]))
    }
}

/// The maximal runs of non-whitespace characters of `s`, in order.
pub open spec fn words(s: Seq<char>) -> Seq<Seq<char>> {
    words_from(s, seq![])
}

/// The words of `v[lo..hi]`, as in [`words`].
pub fn split_words(v: &[char], lo: usize, hi: usize) -> (r: Vec<Vec<char>>)
    requires
        lo <= hi <= v.len(),
    ensures
        r@.map_values(|w: Vec<char>| w@) == words(v@.subrange(lo as int, hi as int)),
{
    let mut out: Vec<Vec<char>> = Vec::new();
    let mut cur: Vec<char> = Vec::new();
    let mut i = lo;
    while i < hi
        invariant
            lo <= i <= hi <= v.len(),
            words(v@.subrange(lo as int, hi as int)) == out@.map_values(|w: Vec<char>| w@)
                + words_from(v@.subrange(i as int, hi as int), cur@),
        decreases hi - i,
    {
        let c = v[i];
        let ghost rest = v@.subrange(i as int, hi as int);
        assert(rest.drop_first() =~= v@.subrange(i + 1, hi as int));
        assert(rest[0] == c);
        if is_whitespace(c) {
            if cur.len() > 0 {
                let ghost before = out@.map_values(|w: Vec<char>| w@);
                let w = cur;
                out.push(w);
                cur = Vec::new();
                assert(out@.map_values(|w: Vec<char>| w@) =~= before.push(w@));
                assert(seq![w@] + words_from(rest.drop_first(), seq![]) == words_from(rest, w@));
                assert(before + (seq![w@] + words_from(rest.drop_first(), seq![])) =~= before.push(
                    w@,
                ) + words_from(rest.drop_first(), seq![]));
            } else {
                assert(cur@ =~= seq![]);
            }
        } else {
            cur.push(c);
        }
        i = i + 1;
    }
    let ghost last = v@.subrange(i as int, hi as int);
    assert(last.len() == 0);
    if cur.len() > 0 {
        let ghost before = out@.map_values(|w: Vec<char>| w@);
        let w = cur;
        out.push(w);
        assert(out@.map_values(|w: Vec<char>| w@) =~= before.push(w@));
        assert(before + seq![w@] =~= before.push(w@));
    } else {
        assert(out@.map_values(|w: Vec<char>| w@) + seq![] =~= out@.map_values(
            |w: Vec<char>| w@,
        ));
    }
    out
}

/// Why a decimal integer text failed to parse (as `core::num::IntErrorKind`).
#[derive(Clone, Copy, PartialEq, Eq, Debug)]
pub enum IntErrorKind {
    Empty,
    InvalidDigit,
    PosOverflow,
    NegOverflow,
}

pub open spec fn is_digit(c: char) -> bool {
    48 <= (c as u32) <= 57
}

pub open spec fn digit_value(c: char) -> int {
    (c as u32) - 48
}

/// Reads the digits `d` left to right onto `acc`, failing on the first
/// non-digit or as soon as the value exceeds `max`.
pub open spec fn scan_digits(d: Seq<char>, acc: int, max: int) -> Result<int, IntErrorKind>
    decreases d.len(),
{
    if d.len() == 0 {
        Ok(acc)
    } else if !is_digit(d[0]) {
        Err(IntErrorKind::InvalidDigit)
    } else if acc * 10 + digit_value(d[0]) > max {
        Err(IntErrorKind::PosOverflow)
    } else {
        scan_digits(d.drop_first(), acc * 10 + digit_value(d[0]), max)
    }
}

/// `FromStr` for an unsigned integer type whose largest value is `max`:
/// an optional `+` followed by one or more decimal digits.
pub open spec fn parse_unsigned(s: Seq<char>, max: int) -> Result<int, IntErrorKind> {
    if s.len() == 0 {
        Err(IntErrorKind::Empty)
    } else {
        let d = if s[0] == '+' {
            s.drop_first()
        } else {
            s
        };
        if d.len() == 0 {
            Err(IntErrorKind::InvalidDigit)
        } else {
            scan_digits(d, 0, max)
        }
    }
}

/// `FromStr` for `i64`: an optional sign followed by one or more decimal digits,
/// with the value in range.
pub open spec fn parse_i64_spec(s: Seq<char>) -> Option<i64> {
    if s.len() > 0 && s[0] == '-' {
        if s.len() > 1 {
            match scan_digits(s.drop_first(), 0, 0x8000_0000_0000_0000) {
                Ok(m) => Some((-m) as i64),
                Err(_) => None,
            }
        } else {
            None
        }
    } else {
        match parse_unsigned(s, i64::MAX as int) {
            Ok(v) => Some(v as i64),
            Err(_) => None,
        }
    }
}

proof fn lemma_scan_bound(d: Seq<char>, acc: int, max: int)
    requires
        0 <= acc <= max,
    ensures
        scan_digits(d, acc, max) matches Ok(v) ==> 0 <= v <= max,
    decreases d.len(),
{
    if d.len() > 0 && is_digit(d[0]) && acc * 10 + digit_value(d[0]) <= max {
        lemma_scan_bound(d.drop_first(), acc * 10 + digit_value(d[0]), max);
    }
}

/// A successful unsigned reading lies in `0..=max`.
pub proof fn lemma_parse_unsigned_bound(s: Seq<char>, max: int)
    requires
        0 <= max,
    ensures
        parse_unsigned(s, max) matches Ok(v) ==> 0 <= v <= max,
{
    if s.len() > 0 {
        let d = if s[0] == '+' {
            s.drop_first()
        } else {
            s
        };
        lemma_scan_bound(d, 0, max);
    }
}

/// Scans the digits of `v[lo..hi]` as [`scan_digits`] does from 0.
fn scan_u64(v: &[char], lo: usize, hi: usize, max: u64) -> (r: Result<u64, IntErrorKind>)
    requires
        lo <= hi <= v.len(),
    ensures
        match scan_digits(v@.subrange(lo as int, hi as int), 0, max as int) {
            Ok(x) => r == Ok::<u64, IntErrorKind>(x as u64),
            Err(e) => r == Err::<u64, IntErrorKind>(e),
        },
{
    let mut acc: u64 = 0;
    let mut i = lo;
    while i < hi
        invariant
            lo <= i <= hi <= v.len(),
            acc <= max,
            scan_digits(v@.subrange(lo as int, hi as int), 0, max as int) == scan_digits(
                v@.subrange(i as int, hi as int),
                acc as int,
                max as int,
            ),
        decreases hi - i,
    {
        let c = v[i];
        let ghost rest = v@.subrange(i as int, hi as int);
        assert(rest.drop_first() =~= v@.subrange(i + 1, hi as int));
        let u = c as u32;
        if u < 48 || u > 57 {
            return Err(IntErrorKind::InvalidDigit);
        }
        let dv = (u - 48) as u64;
        match acc.checked_mul(10) {
            None => {
                return Err(IntErrorKind::PosOverflow);
            },
            Some(m) => match m.checked_add(dv) {
                None => {
                    return Err(IntErrorKind::PosOverflow);
                },
                Some(n) => {
                    if n > max {
                        return Err(IntErrorKind::PosOverflow);
                    }
                    acc = n;
                },
            },
        }
        i = i + 1;
    }
    Ok(acc)
}

/// Parses `v[lo..hi]` as an unsigned integer no greater than `max` ([`parse_unsigned`]).
pub fn parse_unsigned_range(v: &[char], lo: usize, hi: usize, max: u64) -> (r: Result<
    u64,
    IntErrorKind,
>)
    requires
        lo <= hi <= v.len(),
    ensures
        match parse_unsigned(v@.subrange(lo as int, hi as int), max as int) {
            Ok(x) => r == Ok::<u64, IntErrorKind>(x as u64),
            Err(e) => r == Err::<u64, IntErrorKind>(e),
        },
{
    let ghost s = v@.subrange(lo as int, hi as int);
    if lo == hi {
        return Err(IntErrorKind::Empty);
    }
    let start = if v[lo] == '+' {
        lo + 1
    } else {
        lo
    };
    assert(s.drop_first() =~= v@.subrange(lo + 1, hi as int));
    if start == hi {
        return Err(IntErrorKind::InvalidDigit);
    }
    scan_u64(v, start, hi, max)
}

/// Parses `v[lo..hi]` as an `i64` ([`parse_i64_spec`]).
pub fn parse_i64_range(v: &[char], lo: usize, hi: usize) -> (r: Option<i64>)
    requires
        lo <= hi <= v.len(),
    ensures
        r == parse_i64_spec(v@.subrange(lo as int, hi as int)),
{
    let ghost s = v@.subrange(lo as int, hi as int);
    if lo < hi && v[lo] == '-' {
        assert(s.drop_first() =~= v@.subrange(lo + 1, hi as int));
        if hi - lo > 1 {
            proof {
                lemma_scan_bound(s.drop_first(), 0, 0x8000_0000_0000_0000);
            }
            match scan_u64(v, lo + 1, hi, 0x8000_0000_0000_0000u64) {
                Ok(m) => {
                    if m == 0x8000_0000_0000_0000u64 {
                        Some(i64::MIN)
                    } else {
                        Some(-(m as i64))
                    }
                },
                Err(_) => None,
            }
        } else {
            None
        }
    } else {
        proof {
            if s.len() > 0 {
                let d = if s[0] == '+' {
                    s.drop_first()
                } else {
                    s
                };
                lemma_scan_bound(d, 0, i64::MAX as int);
            }
        }
        match parse_unsigned_range(v, lo, hi, i64::MAX as u64) {
            Ok(x) => Some(x as i64),
            Err(_) => None,
        }
    }
}

/// The character of decimal digit `d`.
pub open spec fn digit_char(d: nat) -> char {
    (d + 48) as char
}

/// Decimal representation of `n` without leading zeros.
pub open spec fn decimal(n: nat) -> Seq<char>
    decreases n,
{
    if n < 10 {
        seq![digit_char(n)]
    } else {
        decimal(n / 10).push(digit_char(n % 10))
    }
}

/// Decimal representation of `i`, with a leading `-` when negative (`Display` for integers).
pub open spec fn signed_decimal(i: int) -> Seq<char> {
    if i < 0 {
        seq!['-'] + decimal((-i) as nat)
    } else {
        decimal(i as nat)
    }
}

fn digit_to_char(d: u64) -> (c: char)
    requires
        d < 10,
    ensures
        c == digit_char(d as nat),
{
    let b: u8 = (d as u8) + 48;
    b as char
}

/// Appends the decimal representation of `n` to `out`.
pub fn push_decimal(out: &mut Vec<char>, n: u64)
    ensures
        final(out)@ == old(out)@ + decimal(n as nat),
    decreases n,
{
    if n >= 10 {
        push_decimal(out, n / 10);
    }
    let ghost mid = out@;
    out.push(digit_to_char(n % 10));
    proof {
        if n >= 10 {
            assert(old(out)@ + decimal(n as nat) =~= mid.push(digit_char((n % 10) as nat)));
        } else {
            assert(old(out)@ + decimal(n as nat) =~= old(out)@.push(digit_char(n as nat)));
        }
    }
}

/// Appends the signed decimal representation of `i` to `out`.
pub fn push_signed_decimal(out: &mut Vec<char>, i: i64)
    ensures
        final(out)@ == old(out)@ + signed_decimal(i as int),
{
    if i < 0 {
        out.push('-');
        let m: u64 = if i == i64::MIN {
            0x8000_0000_0000_0000u64
        } else {
            (-i) as u64
        };
        let ghost mid = out@;
        push_decimal(out, m);
        assert(old(out)@ + signed_decimal(i as int) =~= mid + decimal(m as nat));
    } else {
        push_decimal(out, i as u64);
    }
}

/// Appends the characters of `s` to `out`.
pub fn push_str(out: &mut Vec<char>, s: &str)
    ensures
        final(out)@ == old(out)@ + s@,
{
    let n = s.unicode_len();
    let mut i: usize = 0;
    while i < n
        invariant
            n == s@.len(),
            0 <= i <= n,
            out@ == old(out)@ + s@.take(i as int),
        decreases n - i,
    {
        out.push(s.get_char(i));
        assert(old(out)@ + s@.take(i + 1) =~= (old(out)@ + s@.take(i as int)).push(s@[i as int]));
        i = i + 1;
    }
    assert(s@.take(n as int) =~= s@);
}

/// Appends the characters `v` to `out`.
pub fn push_chars(out: &mut Vec<char>, v: &[char])
    ensures
        final(out)@ == old(out)@ + v@,
{
    let mut i: usize = 0;
    while i < v.len()
        invariant
            0 <= i <= v.len(),
            out@ == old(out)@ + v@.take(i as int),
        decreases v.len() - i,
    {
        out.push(v[i]);
        assert(old(out)@ + v@.take(i + 1) =~= (old(out)@ + v@.take(i as int)).push(v@[i as int]));
        i = i + 1;
    }
    assert(v@.take(v.len() as int) =~= v@);
}

} // verus!

verus! {

/// The character of a decimal digit is a digit of that value.
pub proof fn lemma_digit_char(d: nat)
    requires
        d < 10,
    ensures
        is_digit(digit_char(d)),
        digit_value(digit_char(d)) == d,
{
    assert(((d + 48) as char) as u32 == d + 48);
}

/// Every character of a decimal representation is a digit, and there is one at least.
pub proof fn lemma_decimal_digits(n: nat)
    ensures
        decimal(n).len() > 0,
        forall|i: int| 0 <= i < decimal(n).len() ==> is_digit(#[trigger] decimal(n)[i]),
    decreases n,
{
    if n < 10 {
        lemma_digit_char(n);
    } else {
        lemma_digit_char(n % 10);
        lemma_decimal_digits(n / 10);
        let p = decimal(n / 10);
        assert forall|i: int| 0 <= i < decimal(n).len() implies is_digit(#[trigger] decimal(n)[i]) by {
            if i < p.len() {
                assert(decimal(n)[i] == p[i]);
            }
        }
    }
}

/// Scanning one more digit: the value so far times ten plus the digit, or
/// an overflow past `max`.
pub proof fn lemma_scan_push(a: Seq<char>, c: char, acc: int, max: int)
    requires
        is_digit(c),
    ensures
        scan_digits(a.push(c), acc, max) == match scan_digits(a, acc, max) {
            Ok(v) => if v * 10 + digit_value(c) > max {
                Err(IntErrorKind::PosOverflow)
            } else {
                Ok(v * 10 + digit_value(c))
            },
            Err(e) => Err(e),
        },
    decreases a.len(),
{
    if a.len() == 0 {
        assert(a.push(c).drop_first() =~= a);
        assert(a.push(c)[0] == c);
        assert(scan_digits(a, acc, max) == Ok::<int, IntErrorKind>(acc));
        assert(scan_digits(a.push(c).drop_first(), acc * 10 + digit_value(c), max) == Ok::<int, IntErrorKind>(
            acc * 10 + digit_value(c),
        ));
    } else {
        assert(a.push(c)[0] == a[0]);
        assert(a.push(c).drop_first() =~= a.drop_first().push(c));
        if is_digit(a[0]) && acc * 10 + digit_value(a[0]) <= max {
            lemma_scan_push(a.drop_first(), c, acc * 10 + digit_value(a[0]), max);
        }
    }
}

/// The digits of `n` scan back to `n` when it is at most `max`.
pub proof fn lemma_scan_decimal(n: nat, max: int)
    requires
        n <= max,
    ensures
        scan_digits(decimal(n), 0, max) == Ok::<int, IntErrorKind>(n as int),
    decreases n,
{
    if n < 10 {
        let s = decimal(n);
        lemma_digit_char(n);
        assert(s[0] == digit_char(n));
        assert(s.drop_first() =~= Seq::<char>::empty());
        assert(scan_digits(s.drop_first(), n as int, max) == Ok::<int, IntErrorKind>(n as int));
    } else {
        lemma_digit_char(n % 10);
        lemma_scan_decimal(n / 10, max);
        lemma_scan_push(decimal(n / 10), digit_char(n % 10), 0, max);
    }
}

/// Unsigned parsing reads a decimal representation back.
pub proof fn lemma_parse_unsigned_decimal(n: nat, max: int)
    requires
        n <= max,
    ensures
        parse_unsigned(decimal(n), max) == Ok::<int, IntErrorKind>(n as int),
{
    lemma_decimal_digits(n);
    lemma_scan_decimal(n, max);
    assert(is_digit(decimal(n)[0]));
}

/// `i64` parsing reads a signed decimal representation back.
pub proof fn lemma_parse_i64_signed_decimal(x: i64)
    ensures
        parse_i64_spec(signed_decimal(x as int)) == Some(x),
{
    if x < 0 {
        let m = (-x) as nat;
        let s = signed_decimal(x as int);
        lemma_decimal_digits(m);
        assert(s.drop_first() =~= decimal(m));
        lemma_scan_decimal(m, 0x8000_0000_0000_0000);
    } else {
        lemma_parse_unsigned_decimal(x as nat, i64::MAX as int);
        lemma_decimal_digits(x as nat);
        assert(is_digit(decimal(x as nat)[0]));
    }
}

} // verus!

verus! {

/// Splitting at a whitespace boundary: the words of `a + b`, where `b`
/// starts with whitespace, are those of `a` followed by those of `b`.
pub proof fn lemma_words_concat(a: Seq<char>, b: Seq<char>, cur: Seq<char>)
    requires
        b.len() > 0,
        is_ws(b[0]),
    ensures
        words_from(a + b, cur) == words_from(a, cur) + words_from(b, seq![]),
    decreases a.len(),
{
    if a.len() == 0 {
        assert(a + b =~= b);
        if cur.len() > 0 {
            assert(words_from(a, cur) =~= seq![cur]);
        } else {
            assert(words_from(a, cur) =~= Seq::<Seq<char>>::empty());
        }
        assert(words_from(b, seq![]) == words_from(b.drop_first(), seq![]));
        assert(words_from(a, cur) + words_from(b, seq![]) =~= words_from(b, cur));
    } else {
        assert((a + b)[0] == a[0]);
        assert((a + b).drop_first() =~= a.drop_first() + b);
        if is_ws(a[0]) {
            lemma_words_concat(a.drop_first(), b, seq![]);
            if cur.len() > 0 {
                assert(seq![cur] + words_from(a.drop_first() + b, seq![]) =~= (seq![cur] + words_from(
                    a.drop_first(),
                    seq![],
                )) + words_from(b, seq![]));
            }
        } else {
            lemma_words_concat(a.drop_first(), b, cur.push(a[0]));
        }
    }
}

/// A run without whitespace continues the word begun so far.
pub proof fn lemma_words_token(t: Seq<char>, cur: Seq<char>)
    requires
        forall|i: int| 0 <= i < t.len() ==> !is_ws(#[trigger] t[i]),
    ensures
        words_from(t, cur) == if (cur + t).len() > 0 {
            seq![cur + t]
        } else {
            Seq::<Seq<char>>::empty()
        },
    decreases t.len(),
{
    if t.len() == 0 {
        assert(cur + t =~= cur);
    } else {
        assert(!is_ws(t[0]));
        lemma_words_token(t.drop_first(), cur.push(t[0]));
        assert(cur.push(t[0]) + t.drop_first() =~= cur + t);
    }
}

/// The words of a space followed by a run without whitespace: that run.
pub proof fn lemma_words_spaced_token(t: Seq<char>)
    requires
        t.len() > 0,
        forall|i: int| 0 <= i < t.len() ==> !is_ws(#[trigger] t[i]),
    ensures
        words_from(seq![' '] + t, seq![]) == seq![t],
{
    let st = seq![' '] + t;
    assert(st[0] == ' ');
    assert(st.drop_first() =~= t);
    lemma_words_token(t, seq![]);
    assert(Seq::<char>::empty() + t =~= t);
}


/// Whether `t` occurs in `s`.
pub open spec fn has_infix(s: Seq<char>, t: Seq<char>) -> bool {
    exists|i: int| 0 <= i && i + t.len() <= s.len() && #[trigger] s.subrange(i, i + t.len()) == t
}

/// Whether `t` occurs in `s` (`str::contains`).
pub fn str_contains(s: &str, t: &str) -> (r: bool)
    ensures
        r == has_infix(s@, t@),
{
    let v = chars_of(s);
    let n = v.len();
    let m = t.unicode_len();
    if m > n {
        assert forall|i: int| 0 <= i && i + t@.len() <= s@.len() implies #[trigger] s@.subrange(i, i + t@.len()) != t@ by {}
        return false;
    }
    if m == 0 {
        assert(s@.subrange(0int, 0int + t@.len()) =~= t@);
        return true;
    }
    let mut i: usize = 0;
    while i <= n - m
        invariant
            m > 0,
            m == t@.len(),
            n == v@.len(),
            v@ == s@,
            m <= n,
            i <= n - m + 1,
            forall|j: int| 0 <= j < i ==> #[trigger] s@.subrange(j, j + t@.len()) != t@,
        decreases n - m + 1 - i,
    {
        if range_eq_str(&v, i, i + m, t) {
            assert(s@.subrange(i as int, i + t@.len()) == t@);
            return true;
        }
        i = i + 1;
    }
    assert forall|j: int| 0 <= j && j + t@.len() <= s@.len() implies #[trigger] s@.subrange(j, j + t@.len()) != t@ by {
        assert(j < i);
    }
    false
}

} // verus!
