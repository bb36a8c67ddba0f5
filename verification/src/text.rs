//! Text helpers on character sequences: prefixes, substrings, splitting at
//! a separator, and reading unsigned decimal numbers as `FromStr` does.

use vstd::prelude::*;
use vstd::string::StrSliceExecFns;

verus! {

/// Every character of `s` is ASCII.
pub open spec fn ascii_text(s: Seq<char>) -> bool {
    forall|i: int| 0 <= i < s.len() ==> (#[trigger] s[i] as u32) < 128
}

/// The ASCII upper case of `c`: `a`..`z` become `A`..`Z`, every other
/// character stays.
pub open spec fn ascii_upper(c: char) -> char {
    if 'a' <= c <= 'z' {
        ((c as u32) - 32) as char
    } else {
        c
    }
}

/// `s` with each character in ASCII upper case.
pub open spec fn ascii_uppercase(s: Seq<char>) -> Seq<char> {
    s.map_values(|c: char| ascii_upper(c))
}

/// `p` is a prefix of `s`.
pub open spec fn is_prefix_of(p: Seq<char>, s: Seq<char>) -> bool {
    p.len() <= s.len() && s.subrange(0, p.len() as int) == p
}

/// `p` occurs in `s` at position `i`.
pub open spec fn occurs_at(p: Seq<char>, s: Seq<char>, i: int) -> bool {
    0 <= i && i + p.len() <= s.len() && s.subrange(i, i + p.len()) == p
}

/// `p` occurs somewhere in `s`.
pub open spec fn occurs_in(p: Seq<char>, s: Seq<char>) -> bool {
    exists|i: int| occurs_at(p, s, i)
}

/// Whether `s` begins with `p`.
pub fn starts_with_text(s: &str, p: &str) -> (r: bool)
    ensures
        r == is_prefix_of(p@, s@),
{
    let n = p.unicode_len();
    let m = s.unicode_len();
    if n > m {
        return false;
    }
    let mut i: usize = 0;
    while i < n
        invariant
            i <= n <= m,
            n == p@.len(),
            m == s@.len(),
            forall|k: int| 0 <= k < i ==> s@[k] == p@[k],
        decreases n - i,
    {
        if s.get_char(i) != p.get_char(i) {
            assert(s@.subrange(0, n as int)[i as int] != p@[i as int]);
            return false;
        }
        i = i + 1;
    }
    assert(s@.subrange(0, n as int) =~= p@);
    true
}

/// Whether `a` and `b` are the same text.
pub fn same_text(a: &str, b: &str) -> (r: bool)
    ensures
        r == (a@ == b@),
{
    let n = a.unicode_len();
    if n != b.unicode_len() {
        return false;
    }
    let r = starts_with_text(a, b);
    assert(a@.subrange(0, n as int) =~= a@);
    r
}

/// Whether `p` occurs in `s` at position `i`.
fn matches_at(s: &str, p: &str, i: usize) -> (r: bool)
    requires
        i + p@.len() <= s@.len(),
    ensures
        r == occurs_at(p@, s@, i as int),
{
    let n = p.unicode_len();
    let m = s.unicode_len();
    let mut k: usize = 0;
    while k < n
        invariant
            k <= n,
            n == p@.len(),
            m == s@.len(),
            i + n <= m,
            forall|j: int| 0 <= j < k ==> s@[i + j] == p@[j],
        decreases n - k,
    {
        if s.get_char(i + k) != p.get_char(k) {
            assert(s@.subrange(i as int, i + n)[k as int] != p@[k as int]);
            return false;
        }
        k = k + 1;
    }
    assert(s@.subrange(i as int, i + n) =~= p@);
    true
}

/// Whether `p` occurs in `s`.
pub fn contains_text(s: &str, p: &str) -> (r: bool)
    ensures
        r == occurs_in(p@, s@),
{
    let n = p.unicode_len();
    let m = s.unicode_len();
    if n > m {
        assert forall|i: int| !occurs_at(p@, s@, i) by {}
        return false;
    }
    let mut i: usize = 0;
    while i < m - n
        invariant
            n <= m,
            n == p@.len(),
            m == s@.len(),
            i <= m - n,
            forall|j: int| 0 <= j < i ==> !occurs_at(p@, s@, j),
        decreases m - n - i,
    {
        if matches_at(s, p, i) {
            return true;
        }
        i = i + 1;
    }
    if matches_at(s, p, i) {
        return true;
    }
    assert forall|j: int| !occurs_at(p@, s@, j) by {
        if 0 <= j && j + n <= m {
            assert(j <= i);
        }
    }
    false
}

/// The position of the first `c` in `s`, or the length of `s` if there is none.
pub open spec fn char_index(s: Seq<char>, c: char) -> int
    decreases s.len(),
{
    if s.len() == 0 {
        0
    } else if s[0] == c {
        0
    } else {
        1 + char_index(s.drop_first(), c)
    }
}

proof fn lemma_char_index(s: Seq<char>, c: char, i: int)
    requires
        0 <= i <= s.len(),
        forall|k: int| 0 <= k < i ==> s[k] != c,
        i < s.len() ==> s[i] == c,
    ensures
        char_index(s, c) == i,
    decreases i,
{
    if i > 0 {
        lemma_char_index(s.drop_first(), c, i - 1);
    }
}

proof fn lemma_char_index_bound(s: Seq<char>, c: char)
    ensures
        0 <= char_index(s, c) <= s.len(),
    decreases s.len(),
{
    if s.len() > 0 && s[0] != c {
        lemma_char_index_bound(s.drop_first(), c);
    }
}

/// The text before the first `c` in `s` (all of `s` if there is none).
pub open spec fn before_char(s: Seq<char>, c: char) -> Seq<char> {
    s.take(char_index(s, c))
}

/// The text after the first `c` in `s`, if `c` occurs.
pub open spec fn after_char(s: Seq<char>, c: char) -> Option<Seq<char>> {
    if char_index(s, c) < s.len() {
        Some(s.skip(char_index(s, c) + 1))
    } else {
        None
    }
}

/// Splits `s` at the first occurrence of `c`: the text before it, and the
/// text after it if `c` occurs.
pub fn split_first(s: &str, c: char) -> (r: (String, Option<String>))
    ensures
        r.0@ == before_char(s@, c),
        r.1 is Some <==> after_char(s@, c) is Some,
        r.1 matches Some(t) ==> after_char(s@, c) == Some(t@),
        !r.0@.contains(c),
{
    let m = s.unicode_len();
    let mut i: usize = 0;
    while i < m
        invariant
            i <= m,
            m == s@.len(),
            forall|k: int| 0 <= k < i ==> s@[k] != c,
        decreases m - i,
    {
        if s.get_char(i) == c {
            proof {
                lemma_char_index(s@, c, i as int);
            }
            let head = s.substring_char(0, i).to_owned();
            let tail = s.substring_char(i + 1, m).to_owned();
            assert(s@ =~= head@ + seq![c] + tail@);
            assert(!head@.contains(c)) by {
                if head@.contains(c) {
                    let k = choose|k: int| 0 <= k < head@.len() && head@[k] == c;
                    assert(s@[k] == c);
                }
            }
            return (head, Some(tail));
        }
        i = i + 1;
    }
    let all = s.to_owned();
    proof {
        lemma_char_index(s@, c, m as int);
        assert(s@.take(m as int) =~= s@);
    }
    assert(!all@.contains(c)) by {
        if all@.contains(c) {
            let k = choose|k: int| 0 <= k < all@.len() && all@[k] == c;
            assert(s@[k] == c);
        }
    }
    (all, None)
}

// ----------------------------------------------------------------------------
// Unsigned decimal numbers
// ----------------------------------------------------------------------------

/// `c` is an ASCII decimal digit.
pub open spec fn is_digit(c: char) -> bool {
    '0' <= c <= '9'
}

/// The value of a decimal digit.
pub open spec fn digit_value(c: char) -> nat {
    (c as int - '0' as int) as nat
}

/// Every character of `s` is a decimal digit.
pub open spec fn all_digits(s: Seq<char>) -> bool {
    forall|i: int| 0 <= i < s.len() ==> is_digit(#[trigger] s[i])
}

/// The value of a string of decimal digits.
pub open spec fn digits_value(s: Seq<char>) -> nat
    decreases s.len(),
{
    if s.len() == 0 {
        0
    } else {
        digits_value(s.drop_last()) * 10 + digit_value(s.last())
    }
}

/// The digits of an unsigned number as `FromStr` reads it: one leading `+`
/// is allowed before at least one more character.
pub open spec fn unsigned_digits(s: Seq<char>) -> Seq<char> {
    if s.len() > 1 && s[0] == '+' {
        s.drop_first()
    } else {
        s
    }
}

/// The unsigned number written in `s`, if it is one and is at most `max`
/// (the reading of `u8`, `u16`, `u32` or `u64` from text).
pub open spec fn parse_unsigned(s: Seq<char>, max: nat) -> Option<nat> {
    let d = unsigned_digits(s);
    if d.len() > 0 && all_digits(d) && digits_value(d) <= max {
        Some(digits_value(d))
    } else {
        None
    }
}

proof fn lemma_digits_prefix(s: Seq<char>, i: int)
    requires
        0 <= i <= s.len(),
        all_digits(s),
    ensures
        digits_value(s.take(i)) <= digits_value(s),
    decreases s.len(),
{
    if i < s.len() {
        let init = s.drop_last();
        assert(all_digits(init)) by {
            assert forall|k: int| 0 <= k < init.len() implies is_digit(#[trigger] init[k]) by {
                assert(init[k] == s[k]);
            }
        }
        lemma_digits_prefix(init, i);
        assert(init.take(i) =~= s.take(i));
    } else {
        assert(s.take(i) =~= s);
    }
}

/// Reads an unsigned decimal number no greater than `max`.
pub fn parse_unsigned_text(s: &str, max: u64) -> (r: Option<u64>)
    ensures
        r is Some <==> parse_unsigned(s@, max as nat) is Some,
        r matches Some(v) ==> parse_unsigned(s@, max as nat) == Some(v as nat),
{
    let m = s.unicode_len();
    let start: usize = if m > 1 && s.get_char(0) == '+' {
        1
    } else {
        0
    };
    let ghost d = unsigned_digits(s@);
    assert(d =~= s@.subrange(start as int, m as int));
    if start == m {
        return None;
    }
    let mut acc: u64 = 0;
    let mut i: usize = start;
    while i < m
        invariant
            start <= i <= m,
            m == s@.len(),
            d == s@.subrange(start as int, m as int),
            d == unsigned_digits(s@),
            all_digits(d.take(i - start)),
            acc as nat == digits_value(d.take(i - start)),
            acc <= max,
        decreases m - i,
    {
        let c = s.get_char(i);
        let ghost k = i - start;
        assert(d[k] == c);
        if !('0' <= c && c <= '9') {
            assert(!all_digits(d));
            return None;
        }
        let dv = (c as u32 - '0' as u32) as u64;
        assert(d.take(k + 1).drop_last() =~= d.take(k));
        assert(dv == digit_value(c));
        if dv > max || acc > (max - dv) / 10 {
            proof {
                assert(acc * 10 + dv > max) by (nonlinear_arith)
                    requires
                        dv > max || acc > (max - dv) / 10,
                        dv <= 9,
                ;
                assert(all_digits(d.take(k + 1))) by {
                    assert forall|j: int| 0 <= j < k + 1 implies is_digit(#[trigger] d.take(k + 1)[j]) by {
                        if j < k {
                            assert(d.take(k + 1)[j] == d.take(k)[j]);
                        }
                    }
                }
                if all_digits(d) {
                    lemma_digits_prefix(d, k + 1);
                }
            }
            return None;
        }
        assert(acc * 10 + dv <= max) by (nonlinear_arith)
            requires
                acc <= (max - dv) / 10,
                dv <= max,
        ;
        acc = acc * 10 + dv;
        i = i + 1;
        assert(all_digits(d.take(i - start))) by {
            assert forall|j: int| 0 <= j < k + 1 implies is_digit(#[trigger] d.take(k + 1)[j]) by {
                if j < k {
                    assert(d.take(k + 1)[j] == d.take(k)[j]);
                }
            }
        }
    }
    assert(d.take(m - start) =~= d);
    Some(acc)
}

} // verus!

verus! {

// ----------------------------------------------------------------------------
// Decimal floating-point numbers
// ----------------------------------------------------------------------------

/// The ASCII lower case of `c`: `A`..`Z` become `a`..`z`, every other
/// character stays.
pub open spec fn ascii_lower(c: char) -> char {
    if 'A' <= c <= 'Z' {
        ((c as u32) + 32) as char
    } else {
        c
    }
}

/// `s` with each character in ASCII lower case.
pub open spec fn ascii_lowercase(s: Seq<char>) -> Seq<char> {
    s.map_values(|c: char| ascii_lower(c))
}

/// `c` is a sign.
pub open spec fn is_sign(c: char) -> bool {
    c == '+' || c == '-'
}

/// `s` without one leading sign.
pub open spec fn unsigned_part(s: Seq<char>) -> Seq<char> {
    if s.len() > 0 && is_sign(s[0]) {
        s.drop_first()
    } else {
        s
    }
}

/// Digits, with at most one `.` among them and at least one digit.
pub open spec fn mantissa_text(m: Seq<char>) -> bool {
    let a = before_char(m, '.');
    match after_char(m, '.') {
        None => a.len() > 0 && all_digits(a),
        Some(b) => all_digits(a) && all_digits(b) && a.len() + b.len() > 0,
    }
}

/// An exponent after the `e`: a sign, perhaps, and at least one digit.
pub open spec fn exponent_text(x: Seq<char>) -> bool {
    unsigned_part(x).len() > 0 && all_digits(unsigned_part(x))
}

/// A decimal number in lower case: a mantissa, then perhaps `e` and an
/// exponent.
pub open spec fn number_text(l: Seq<char>) -> bool {
    match after_char(l, 'e') {
        None => mantissa_text(l),
        Some(x) => mantissa_text(before_char(l, 'e')) && exponent_text(x),
    }
}

/// Text that `f64::from_str` (std) reads as a number. Its documentation
/// gives the grammar, read on the lowercased text, with no surrounding
/// white space:
/// `Sign? ('inf' | 'infinity' | 'nan' | Number)`, where a `Number` is
/// `(Digit+ | Digit+ '.' Digit* | Digit* '.' Digit+) ('e' Sign? Digit+)?`.
pub open spec fn float_text(s: Seq<char>) -> bool {
    let l = ascii_lowercase(unsigned_part(s));
    l == "inf"@ || l == "infinity"@ || l == "nan"@ || number_text(l)
}

/// Whether every character of `s` is a decimal digit.
pub fn only_digits(s: &str) -> (r: bool)
    ensures
        r == all_digits(s@),
{
    let n = s.unicode_len();
    let mut i: usize = 0;
    while i < n
        invariant
            i <= n,
            n == s@.len(),
            forall|k: int| 0 <= k < i ==> is_digit(#[trigger] s@[k]),
        decreases n - i,
    {
        let c = s.get_char(i);
        if !('0' <= c && c <= '9') {
            return false;
        }
        i = i + 1;
    }
    true
}

/// `s` in ASCII lower case.
pub fn ascii_lower_text(s: &str) -> (r: String)
    ensures
        r@ == ascii_lowercase(s@),
{
    let n = s.unicode_len();
    let mut r = String::new();
    let mut i: usize = 0;
    while i < n
        invariant
            i <= n,
            n == s@.len(),
            r@ == ascii_lowercase(s@.take(i as int)),
        decreases n - i,
    {
        let c = s.get_char(i);
        let lower: char = if 'A' <= c && c <= 'Z' {
            let b: u8 = c as u8;
            assert(b as u32 == c as u32);
            let lb: u8 = b + 32;
            lb as char
        } else {
            c
        };
        assert(lower == ascii_lower(c));
        crate::fmt::string_push(&mut r, lower);
        assert(ascii_lowercase(s@.take(i + 1)) =~= ascii_lowercase(s@.take(i as int)).push(ascii_lower(c)));
        i = i + 1;
    }
    assert(s@.take(n as int) =~= s@);
    r
}

/// `s` without one leading sign.
fn unsigned_text(s: &str) -> (r: String)
    ensures
        r@ == unsigned_part(s@),
{
    let n = s.unicode_len();
    if n > 0 && (s.get_char(0) == '+' || s.get_char(0) == '-') {
        let r = s.substring_char(1, n).to_owned();
        assert(r@ =~= s@.drop_first());
        r
    } else {
        s.to_owned()
    }
}

fn is_mantissa_text(m: &str) -> (r: bool)
    ensures
        r == mantissa_text(m@),
{
    let (a, b) = split_first(m, '.');
    match b {
        None => a.unicode_len() > 0 && only_digits(a.as_str()),
        Some(b) => only_digits(a.as_str()) && only_digits(b.as_str()) && (a.unicode_len() > 0
            || b.unicode_len() > 0),
    }
}

fn is_exponent_text(x: &str) -> (r: bool)
    ensures
        r == exponent_text(x@),
{
    let d = unsigned_text(x);
    d.unicode_len() > 0 && only_digits(d.as_str())
}

/// Whether `f64::from_str` (std) reads `s` as a number, by the grammar its
/// documentation gives.
pub fn is_float_text(s: &str) -> (r: bool)
    ensures
        r == float_text(s@),
{
    let u = unsigned_text(s);
    let l = ascii_lower_text(u.as_str());
    if same_text(l.as_str(), "inf") || same_text(l.as_str(), "infinity") || same_text(
        l.as_str(),
        "nan",
    ) {
        return true;
    }
    let (m, x) = split_first(l.as_str(), 'e');
    match x {
        None => {
            proof {
                lemma_char_index_bound(l@, 'e');
            }
            assert(m@ =~= l@);
            is_mantissa_text(m.as_str())
        },
        Some(x) => is_mantissa_text(m.as_str()) && is_exponent_text(x.as_str()),
    }
}

} // verus!
