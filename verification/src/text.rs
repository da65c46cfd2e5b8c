//! Character-level text utilities shared by the extraction logic: whitespace
//! and digit classification, index scanners, literal matching, and trimming.

use vstd::prelude::*;
use vstd::string::StrSliceExecFns;
use vstd::string::StringExecFns;

verus! {

/// Whitespace as the site's markup uses it: the characters of the Unicode
/// White_Space property, notably the no-break space that Polish-language
/// markup puts inside numbers and around labels.
pub open spec fn is_space(c: char) -> bool {
    c == ' ' || c == '\t' || c == '\n' || c == '\r' || c == '\u{b}' || c == '\u{c}' || c
        == '\u{85}' || c == '\u{a0}' || c == '\u{1680}' || ('\u{2000}' <= c && c <= '\u{200a}') || c
        == '\u{2028}' || c == '\u{2029}' || c == '\u{202f}' || c == '\u{205f}' || c == '\u{3000}'
}

pub open spec fn is_digit(c: char) -> bool {
    '0' <= c && c <= '9'
}

/// Numeric value of an ASCII digit character.
pub open spec fn digit_val(c: char) -> nat
    recommends
        is_digit(c),
{
    (c as u32 - '0' as u32) as nat
}

/// First index at or after `i` whose character is not a space, or `s.len()`.
pub open spec fn skip_spaces(s: Seq<char>, i: int) -> int
    recommends
        0 <= i <= s.len(),
    decreases s.len() - i,
{
    if i < s.len() && is_space(s[i]) {
        skip_spaces(s, i + 1)
    } else {
        i
    }
}

/// First index at or after `i` whose character is not a digit, or `s.len()`.
pub open spec fn skip_digits(s: Seq<char>, i: int) -> int
    recommends
        0 <= i <= s.len(),
    decreases s.len() - i,
{
    if i < s.len() && is_digit(s[i]) {
        skip_digits(s, i + 1)
    } else {
        i
    }
}

/// First index at or after `i` holding the character `c`, or `s.len()`.
pub open spec fn scan_to(s: Seq<char>, i: int, c: char) -> int
    recommends
        0 <= i <= s.len(),
    decreases s.len() - i,
{
    if i < s.len() && s[i] != c {
        scan_to(s, i + 1, c)
    } else {
        i
    }
}

/// Largest index at or below `i` such that no space stands right before it.
pub open spec fn rskip_spaces(s: Seq<char>, i: int) -> int
    recommends
        0 <= i <= s.len(),
    decreases i,
{
    if 0 < i && i <= s.len() && is_space(s[i - 1]) {
        rskip_spaces(s, i - 1)
    } else {
        i
    }
}

/// The literal `lit` occurs in `s` starting at index `i`.
pub open spec fn has_lit_at(s: Seq<char>, i: int, lit: Seq<char>) -> bool {
    0 <= i && i + lit.len() <= s.len() && s.subrange(i, i + lit.len()) == lit
}

/// `s` with leading and trailing spaces removed.
pub open spec fn trim_spec(s: Seq<char>) -> Seq<char> {
    let a = skip_spaces(s, 0);
    let b = rskip_spaces(s, s.len() as int);
    if a <= b {
        s.subrange(a, b)
    } else {
        Seq::empty()
    }
}

pub proof fn lemma_skip_spaces_bounds(s: Seq<char>, i: int)
    requires
        0 <= i <= s.len(),
    ensures
        i <= skip_spaces(s, i) <= s.len(),
    decreases s.len() - i,
{
    if i < s.len() && is_space(s[i]) {
        lemma_skip_spaces_bounds(s, i + 1);
    }
}

pub proof fn lemma_skip_digits_bounds(s: Seq<char>, i: int)
    requires
        0 <= i <= s.len(),
    ensures
        i <= skip_digits(s, i) <= s.len(),
    decreases s.len() - i,
{
    if i < s.len() && is_digit(s[i]) {
        lemma_skip_digits_bounds(s, i + 1);
    }
}

pub proof fn lemma_scan_to_bounds(s: Seq<char>, i: int, c: char)
    requires
        0 <= i <= s.len(),
    ensures
        i <= scan_to(s, i, c) <= s.len(),
        scan_to(s, i, c) < s.len() ==> s[scan_to(s, i, c)] == c,
    decreases s.len() - i,
{
    if i < s.len() && s[i] != c {
        lemma_scan_to_bounds(s, i + 1, c);
    }
}

pub proof fn lemma_rskip_spaces_bounds(s: Seq<char>, i: int)
    requires
        0 <= i <= s.len(),
    ensures
        0 <= rskip_spaces(s, i) <= i,
    decreases i,
{
    if 0 < i && is_space(s[i - 1]) {
        lemma_rskip_spaces_bounds(s, i - 1);
    }
}

/// All characters of `s` in `[i, skip_digits(s, i))` are digits.
pub proof fn lemma_skip_digits_all_digits(s: Seq<char>, i: int, j: int)
    requires
        0 <= i <= j < skip_digits(s, i),
        i <= s.len(),
    ensures
        is_digit(s[j]),
    decreases s.len() - i,
{
    lemma_skip_digits_bounds(s, i);
    if i < s.len() && is_digit(s[i]) {
        if j > i {
            lemma_skip_digits_all_digits(s, i + 1, j);
        }
    }
}

/// Exec counterpart of `skip_spaces`.
pub fn scan_spaces(s: &str, from: usize) -> (r: usize)
    requires
        from <= s@.len(),
    ensures
        r == skip_spaces(s@, from as int),
        from <= r <= s@.len(),
{
    let n = s.unicode_len();
    let mut j = from;
    while j < n && is_space_exec(s.get_char(j))
        invariant
            from <= j <= n,
            n == s@.len(),
            skip_spaces(s@, from as int) == skip_spaces(s@, j as int),
        decreases n - j,
    {
        j = j + 1;
    }
    proof {
        lemma_skip_spaces_bounds(s@, j as int);
    }
    j
}

/// Exec counterpart of `skip_digits`.
pub fn scan_digits(s: &str, from: usize) -> (r: usize)
    requires
        from <= s@.len(),
    ensures
        r == skip_digits(s@, from as int),
        from <= r <= s@.len(),
{
    let n = s.unicode_len();
    let mut j = from;
    while j < n && is_digit_exec(s.get_char(j))
        invariant
            from <= j <= n,
            n == s@.len(),
            skip_digits(s@, from as int) == skip_digits(s@, j as int),
        decreases n - j,
    {
        j = j + 1;
    }
    proof {
        lemma_skip_digits_bounds(s@, j as int);
    }
    j
}

/// Exec counterpart of `scan_to`.
pub fn scan_to_char(s: &str, from: usize, c: char) -> (r: usize)
    requires
        from <= s@.len(),
    ensures
        r == scan_to(s@, from as int, c),
        from <= r <= s@.len(),
{
    let n = s.unicode_len();
    let mut j = from;
    while j < n && s.get_char(j) != c
        invariant
            from <= j <= n,
            n == s@.len(),
            scan_to(s@, from as int, c) == scan_to(s@, j as int, c),
        decreases n - j,
    {
        j = j + 1;
    }
    proof {
        lemma_scan_to_bounds(s@, j as int, c);
    }
    j
}

pub fn is_space_exec(c: char) -> (r: bool)
    ensures
        r == is_space(c),
{
    c == ' ' || c == '\t' || c == '\n' || c == '\r' || c == '\u{b}' || c == '\u{c}' || c
        == '\u{85}' || c == '\u{a0}' || c == '\u{1680}' || ('\u{2000}' <= c && c <= '\u{200a}') || c
        == '\u{2028}' || c == '\u{2029}' || c == '\u{202f}' || c == '\u{205f}' || c == '\u{3000}'
}

pub fn is_digit_exec(c: char) -> (r: bool)
    ensures
        r == is_digit(c),
{
    '0' <= c && c <= '9'
}

/// Does the literal `lit` occur in `s` at character position `i`?
pub fn lit_at(s: &str, i: usize, lit: &str) -> (r: bool)
    requires
        i <= s@.len(),
    ensures
        r == has_lit_at(s@, i as int, lit@),
{
    let n = s.unicode_len();
    let m = lit.unicode_len();
    if m > n - i {
        proof {
            assert(i + lit@.len() > s@.len());
        }
        return false;
    }
    let mut k: usize = 0;
    while k < m
        invariant
            0 <= k <= m,
            m == lit@.len(),
            n == s@.len(),
            i + m <= n,
            forall|t: int| 0 <= t < k ==> s@[i + t] == lit@[t],
        decreases m - k,
    {
        if s.get_char(i + k) != lit.get_char(k) {
            proof {
                assert(s@.subrange(i as int, i + lit@.len())[k as int] != lit@[k as int]);
            }
            return false;
        }
        k = k + 1;
    }
    proof {
        assert(s@.subrange(i as int, i + lit@.len()) =~= lit@);
    }
    true
}

/// The trimmed copy of `s`: leading and trailing spaces removed.
pub fn trim(s: &str) -> (r: String)
    ensures
        r@ == trim_spec(s@),
{
    let n = s.unicode_len();
    let a = scan_spaces(s, 0);
    let mut b = n;
    while b > a && is_space_exec(s.get_char(b - 1))
        invariant
            a <= b <= n,
            n == s@.len(),
            a == skip_spaces(s@, 0),
            rskip_spaces(s@, n as int) == rskip_spaces(s@, b as int),
        decreases b,
    {
        b = b - 1;
    }
    proof {
        lemma_rskip_spaces_bounds(s@, b as int);
    }
    if b <= a {
        // The right scanner ended at or below the left one: the trimmed
        // result is empty.
        proof {
            let bs = rskip_spaces(s@, s@.len() as int);
            assert(bs <= b <= a);
            if a <= bs {
                assert(a == bs);
                assert(s@.subrange(a as int, a as int) =~= Seq::<char>::empty());
            }
        }
        String::new()
    } else {
        // b stopped on a non-space (or at a), so rskip ends exactly at b.
        let sub = s.substring_char(a, b);
        String::from_str(sub)
    }
}

} // verus!
