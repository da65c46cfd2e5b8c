//! The numeric normalizer: parses locale-formatted magnitude strings such as
//! `"4.23 mln zł"` into integer units.
//!
//! Grammar: optional spaces, a run of digits with an optional `.`-separated
//! fraction, optional spaces, an optional magnitude suffix (`tys.` for
//! thousands, `mln` for millions), optional spaces, an optional currency
//! marker `zł`, optional spaces. A string outside the grammar normalizes
//! to 0; a value beyond `u32::MAX` saturates.

use vstd::prelude::*;
use vstd::arithmetic::div_mod::lemma_fundamental_div_mod_converse;
use vstd::string::StrSliceExecFns;

use crate::text::{
    digit_val, has_lit_at, is_digit, is_digit_exec, lemma_skip_digits_all_digits, lit_at,
    scan_digits, scan_spaces, skip_digits, skip_spaces,
};

verus! {

/// Ten to the `k`.
pub open spec fn pow10(k: nat) -> nat
    decreases k,
{
    if k == 0 {
        1
    } else {
        10 * pow10((k - 1) as nat)
    }
}

/// The integer a run of decimal digit characters denotes.
pub open spec fn digits_val(s: Seq<char>) -> nat
    decreases s.len(),
{
    if s.len() == 0 {
        0
    } else {
        digits_val(s.drop_last()) * 10 + digit_val(s.last())
    }
}

pub open spec fn tys_lit() -> Seq<char> {
    "tys."@
}

pub open spec fn mln_lit() -> Seq<char> {
    "mln"@
}

pub open spec fn zl_lit() -> Seq<char> {
    "zł"@
}

/// Deterministic parse of the magnitude grammar: on success, the integer
/// digits, the fraction digits (possibly empty), and the suffix scale as a
/// power of ten (0 for none, 3 for `tys.`, 6 for `mln`).
pub open spec fn magnitude_of(s: Seq<char>) -> Option<(Seq<char>, Seq<char>, nat)> {
    let i0 = skip_spaces(s, 0);
    let i1 = skip_digits(s, i0);
    if i1 == i0 {
        None
    } else {
        let has_frac = i1 + 1 < s.len() && s[i1] == '.' && is_digit(s[i1 + 1]);
        let i2 = if has_frac {
            skip_digits(s, i1 + 1)
        } else {
            i1
        };
        let i3 = skip_spaces(s, i2);
        let scale: nat = if has_lit_at(s, i3, tys_lit()) {
            3
        } else if has_lit_at(s, i3, mln_lit()) {
            6
        } else {
            0
        };
        let i4 = if has_lit_at(s, i3, tys_lit()) {
            i3 + tys_lit().len()
        } else if has_lit_at(s, i3, mln_lit()) {
            i3 + mln_lit().len()
        } else {
            i3
        };
        let i5 = skip_spaces(s, i4);
        let i6 = if has_lit_at(s, i5, zl_lit()) {
            i5 + zl_lit().len()
        } else {
            i5
        };
        let i7 = skip_spaces(s, i6);
        if i7 == s.len() {
            Some(
                (
                    s.subrange(i0, i1),
                    if has_frac {
                        s.subrange(i1 + 1, i2)
                    } else {
                        Seq::empty()
                    },
                    scale,
                ),
            )
        } else {
            None
        }
    }
}

/// The exact value a parsed magnitude denotes: every written digit read as
/// one integer, multiplied by the suffix scale, floor-divided by ten to the
/// number of fraction digits. Floor of a non-negative value is truncation
/// toward zero.
pub open spec fn magnitude_value(ipart: Seq<char>, fpart: Seq<char>, scale: nat) -> nat {
    digits_val(ipart + fpart) * pow10(scale) / pow10(fpart.len())
}

/// What `parse_number` returns before saturation: the magnitude's value, or 0
/// for a string outside the grammar.
pub open spec fn parse_number_spec(s: Seq<char>) -> nat {
    match magnitude_of(s) {
        Some((ip, fp, sc)) => magnitude_value(ip, fp, sc),
        None => 0,
    }
}

pub open spec fn clamp_u32(n: nat) -> u32 {
    if n > u32::MAX {
        u32::MAX
    } else {
        n as u32
    }
}

pub proof fn lemma_pow10_pos(k: nat)
    ensures
        pow10(k) >= 1,
    decreases k,
{
    if k > 0 {
        lemma_pow10_pos((k - 1) as nat);
    }
}

pub proof fn lemma_pow10_add(a: nat, b: nat)
    ensures
        pow10(a + b) == pow10(a) * pow10(b),
    decreases a,
{
    if a == 0 {
        assert(pow10(0 + b) == 1 * pow10(b)) by {
            lemma_pow10_pos(b);
        }
    } else {
        lemma_pow10_add((a - 1) as nat, b);
        assert(pow10(a + b) == 10 * pow10((a + b - 1) as nat));
        assert(10 * (pow10((a - 1) as nat) * pow10(b)) == (10 * pow10((a - 1) as nat)) * pow10(b))
            by (nonlinear_arith);
    }
}

pub proof fn lemma_pow10_small()
    ensures
        pow10(0) == 1,
        pow10(1) == 10,
        pow10(2) == 100,
        pow10(3) == 1000,
        pow10(4) == 10000,
        pow10(5) == 100000,
        pow10(6) == 1000000,
{
    reveal_with_fuel(pow10, 7);
}

pub proof fn lemma_pow10_mono(a: nat, b: nat)
    requires
        a <= b,
    ensures
        pow10(a) <= pow10(b),
    decreases b,
{
    if a < b {
        lemma_pow10_mono(a, (b - 1) as nat);
        lemma_pow10_pos((b - 1) as nat);
    }
}

/// A run of `n` digits denotes a value below ten to the `n`.
pub proof fn lemma_digits_bound(s: Seq<char>)
    requires
        forall|t: int| 0 <= t < s.len() ==> is_digit(s[t]),
    ensures
        digits_val(s) < pow10(s.len()),
    decreases s.len(),
{
    if s.len() > 0 {
        lemma_digits_bound(s.drop_last());
        assert(is_digit(s.last()));
        assert(digit_val(s.last()) <= 9);
        assert(digits_val(s.drop_last()) * 10 + 9 < pow10(s.drop_last().len()) * 10) by {
            assert(digits_val(s.drop_last()) + 1 <= pow10(s.drop_last().len()));
            assert((digits_val(s.drop_last()) + 1) * 10 <= pow10(s.drop_last().len()) * 10)
                by (nonlinear_arith)
                requires digits_val(s.drop_last()) + 1 <= pow10(s.drop_last().len());
        }
        assert(pow10(s.len()) == 10 * pow10(s.drop_last().len()));
    }
}

/// Reading digit runs `a` then `b` as one run shifts `a` by `b`'s length.
pub proof fn lemma_digits_append(a: Seq<char>, b: Seq<char>)
    ensures
        digits_val(a + b) == digits_val(a) * pow10(b.len()) + digits_val(b),
    decreases b.len(),
{
    if b.len() == 0 {
        assert(a + b =~= a);
        assert(digits_val(b) == 0);
        assert(pow10(b.len()) == 1);
        assert(digits_val(a) * 1 == digits_val(a));
    } else {
        lemma_digits_append(a, b.drop_last());
        assert((a + b).drop_last() =~= a + b.drop_last());
        assert((a + b).last() == b.last());
        assert(digits_val(a + b) == digits_val(a + b.drop_last()) * 10 + digit_val(b.last()));
        let x = digits_val(a);
        let y = digits_val(b.drop_last());
        let p = pow10(b.drop_last().len());
        assert(pow10(b.len()) == 10 * p);
        assert((x * p + y) * 10 == x * (10 * p) + y * 10) by (nonlinear_arith);
        assert(digits_val(b) == y * 10 + digit_val(b.last()));
        assert(digits_val(a + b) == (x * p + y) * 10 + digit_val(b.last()));
        assert(digits_val(a + b) == x * (10 * p) + digits_val(b));
        assert(x * (10 * p) == x * pow10(b.len()));
        assert(digits_val(a + b) == x * pow10(b.len()) + digits_val(b));
    }
}

/// Splitting a digit string at the decimal point: the overall floor-divided
/// value is the integer part scaled, plus the fraction's leading digits
/// scaled by what remains of the suffix.
pub proof fn lemma_magnitude_decompose(ip: Seq<char>, fp: Seq<char>, e: nat)
    requires
        forall|t: int| 0 <= t < fp.len() ==> is_digit(fp[t]),
    ensures
        magnitude_value(ip, fp, e) == digits_val(ip) * pow10(e) + digits_val(
            fp.take(if fp.len() <= e { fp.len() as int } else { e as int }),
        ) * pow10(if fp.len() <= e { (e - fp.len()) as nat } else { 0 }),
{
    let k = fp.len();
    let x = digits_val(ip);
    let big = digits_val(ip + fp);
    let pe = pow10(e);
    let pk = pow10(k);
    lemma_digits_append(ip, fp);
    lemma_pow10_pos(e);
    lemma_pow10_pos(k);
    if k <= e {
        assert(fp.take(k as int) =~= fp);
        let f = digits_val(fp);
        let pek = pow10((e - k) as nat);
        lemma_pow10_add((e - k) as nat, k);
        assert(pe == pek * pk);
        let q = x * pe + f * pek;
        assert(big * pe == q * pk) by {
            assert((x * pk + f) * (pek * pk) == (x * (pek * pk) + f * pek) * pk)
                by (nonlinear_arith);
        }
        lemma_fundamental_div_mod_converse((big * pe) as int, pk as int, q as int, 0);
        assert(magnitude_value(ip, fp, e) == q);
    } else {
        let a = digits_val(fp.take(e as int));
        let b = digits_val(fp.skip(e as int));
        assert(fp =~= fp.take(e as int) + fp.skip(e as int));
        lemma_digits_append(fp.take(e as int), fp.skip(e as int));
        assert(forall|t: int| 0 <= t < fp.skip(e as int).len() ==> is_digit(
            #[trigger] fp.skip(e as int)[t],
        ));
        lemma_digits_bound(fp.skip(e as int));
        let pke = pow10((k - e) as nat);
        assert(b < pke);
        lemma_pow10_add((k - e) as nat, e);
        assert(pk == pke * pe);
        let q = x * pe + a;
        assert(big == x * pk + a * pke + b);
        assert(big * pe == q * pk + b * pe) by {
            assert((x * (pke * pe) + a * pke + b) * pe == (x * pe + a) * (pke * pe) + b * pe)
                by (nonlinear_arith);
        }
        assert(b * pe < pke * pe) by (nonlinear_arith)
            requires b < pke, pe >= 1;
        lemma_fundamental_div_mod_converse((big * pe) as int, pk as int, q as int, (b * pe) as int);
        assert(magnitude_value(ip, fp, e) == q);
        lemma_pow10_small();
        assert(a * pow10(0) == a);
    }
}

/// For every string inside the magnitude grammar, normalization yields the
/// written digits read as one integer, times the suffix multiplier,
/// truncated toward zero by the fraction's length — before clamping to the
/// result width.
pub proof fn lemma_normalize_exact(s: Seq<char>, ip: Seq<char>, fp: Seq<char>, sc: nat)
    requires
        magnitude_of(s) == Some((ip, fp, sc)),
    ensures
        parse_number_spec(s) == digits_val(ip + fp) * pow10(sc) / pow10(fp.len()),
{
}

/// A string outside the magnitude grammar normalizes to zero.
pub proof fn lemma_normalize_malformed(s: Seq<char>)
    requires
        magnitude_of(s) is None,
    ensures
        parse_number_spec(s) == 0,
{
}

/// Appending one digit to a run multiplies its value by ten and adds the digit.
pub proof fn lemma_digits_push(s: Seq<char>, c: char)
    ensures
        digits_val(s.push(c)) == digits_val(s) * 10 + digit_val(c),
{
    assert(s.push(c).drop_last() =~= s);
    assert(s.push(c).last() == c);
}

fn char_digit(c: char) -> (d: u64)
    requires
        is_digit(c),
    ensures
        d == digit_val(c),
        d <= 9,
{
    (c as u32 - '0' as u32) as u64
}

fn pow10_exec(k: usize) -> (r: u64)
    requires
        k <= 6,
    ensures
        r == pow10(k as nat),
        r <= 1000000,
{
    let mut r: u64 = 1;
    let mut c: usize = 0;
    while c < k
        invariant
            0 <= c <= k <= 6,
            r == pow10(c as nat),
        decreases k - c,
    {
        proof {
            lemma_pow10_small();
            lemma_pow10_mono(c as nat, 5);
        }
        r = r * 10;
        c = c + 1;
    }
    proof {
        lemma_pow10_small();
        lemma_pow10_mono(k as nat, 6);
    }
    r
}

/// Parse a magnitude string into integer units; 0 for a string outside the
/// grammar, `u32::MAX` when the value does not fit.
pub fn parse_number(s: &str) -> (r: u32)
    ensures
        r == clamp_u32(parse_number_spec(s@)),
{
    proof {
        reveal_strlit("tys.");
        reveal_strlit("mln");
        reveal_strlit("zł");
    }
    let n = s.unicode_len();
    let i0 = scan_spaces(s, 0);
    let i1 = scan_digits(s, i0);
    if i1 == i0 {
        return 0;
    }
    let has_frac = if i1 < n && s.get_char(i1) == '.' {
        i1 + 1 < n && is_digit_exec(s.get_char(i1 + 1))
    } else {
        false
    };
    let i2 = if has_frac {
        scan_digits(s, i1 + 1)
    } else {
        i1
    };
    let i3 = scan_spaces(s, i2);
    let tys_here = lit_at(s, i3, "tys.");
    let mln_here = !tys_here && lit_at(s, i3, "mln");
    let scale: usize = if tys_here {
        3
    } else if mln_here {
        6
    } else {
        0
    };
    let i4 = if tys_here {
        i3 + 4
    } else if mln_here {
        i3 + 3
    } else {
        i3
    };
    let i5 = scan_spaces(s, i4);
    let i6 = if lit_at(s, i5, "zł") {
        i5 + 2
    } else {
        i5
    };
    let i7 = scan_spaces(s, i6);
    if i7 != n {
        return 0;
    }
    let ghost ip = s@.subrange(i0 as int, i1 as int);
    let ghost fp = if has_frac {
        s@.subrange(i1 + 1, i2 as int)
    } else {
        Seq::<char>::empty()
    };
    proof {
        assert(magnitude_of(s@) == Some((ip, fp, scale as nat)));
        assert(forall|t: int| 0 <= t < fp.len() ==> is_digit(fp[t])) by {
            if has_frac {
                assert forall|t: int| 0 <= t < fp.len() implies is_digit(fp[t]) by {
                    lemma_skip_digits_all_digits(s@, i1 + 1, i1 + 1 + t);
                }
            }
        }
        assert(forall|t: int| 0 <= t < ip.len() ==> is_digit(ip[t])) by {
            assert forall|t: int| 0 <= t < ip.len() implies is_digit(ip[t]) by {
                lemma_skip_digits_all_digits(s@, i0 as int, i0 + t);
            }
        }
        lemma_magnitude_decompose(ip, fp, scale as nat);
    }
    // Integer part, saturating once it can no longer affect a clamped result.
    let mut acc: u64 = 0;
    let mut sat = false;
    let mut i = i0;
    while i < i1
        invariant
            i0 <= i <= i1 <= s@.len(),
            i1 == skip_digits(s@, i0 as int),
            ip == s@.subrange(i0 as int, i1 as int),
            forall|t: int| 0 <= t < ip.len() ==> is_digit(ip[t]),
            sat ==> digits_val(s@.subrange(i0 as int, i as int)) >= 0x1_0000_0000,
            !sat ==> acc == digits_val(s@.subrange(i0 as int, i as int)) && acc < 0x1_0000_0000,
        decreases i1 - i,
    {
        let c = s.get_char(i);
        proof {
            lemma_skip_digits_all_digits(s@, i0 as int, i as int);
            assert(s@.subrange(i0 as int, i + 1) =~= s@.subrange(i0 as int, i as int).push(
                s@[i as int],
            ));
            lemma_digits_push(s@.subrange(i0 as int, i as int), s@[i as int]);
        }
        let d = char_digit(c);
        if !sat {
            let next = acc * 10 + d;
            if next >= 0x1_0000_0000 {
                sat = true;
            } else {
                acc = next;
            }
        }
        i = i + 1;
    }
    proof {
        assert(s@.subrange(i0 as int, i1 as int) == ip);
    }
    if sat {
        // The integer part alone is at least 2^32, so the value clamps.
        proof {
            lemma_pow10_pos(scale as nat);
            assert(digits_val(ip) * pow10(scale as nat) >= digits_val(ip) * 1) by (nonlinear_arith)
                requires pow10(scale as nat) >= 1, digits_val(ip) >= 0;
            assert(parse_number_spec(s@) >= digits_val(ip));
        }
        return u32::MAX;
    }
    // Fraction part: only the first `scale` fraction digits can matter.
    let klen: usize = if has_frac {
        i2 - (i1 + 1)
    } else {
        0
    };
    let m: usize = if klen < scale {
        klen
    } else {
        scale
    };
    let mut fr: u64 = 0;
    let mut p: usize = 0;
    proof {
        assert(fp.len() == klen);
    }
    while p < m
        invariant
            0 <= p <= m <= scale <= 6,
            m <= klen,
            klen == fp.len(),
            !has_frac ==> klen == 0,
            has_frac ==> i1 + 1 + klen == i2 <= s@.len(),
            has_frac ==> fp == s@.subrange(i1 + 1, i2 as int),
            forall|t: int| 0 <= t < fp.len() ==> is_digit(fp[t]),
            fr == digits_val(fp.take(p as int)),
            fr < pow10(p as nat),
        decreases m - p,
    {
        proof {
            lemma_pow10_small();
            lemma_pow10_mono(p as nat, 5);
        }
        let c = s.get_char(i1 + 1 + p);
        proof {
            assert(fp[p as int] == s@[i1 + 1 + p]);
            assert(fp.take(p + 1) =~= fp.take(p as int).push(fp[p as int]));
            lemma_digits_push(fp.take(p as int), fp[p as int]);
            lemma_digits_bound(fp.take(p + 1));
        }
        let d = char_digit(c);
        fr = fr * 10 + d;
        p = p + 1;
    }
    let tail = pow10_exec(scale - m);
    proof {
        lemma_pow10_small();
        lemma_pow10_pos((scale - m) as nat);
        lemma_pow10_mono(m as nat, 6);
        assert(fr * tail < pow10(m as nat) * pow10((scale - m) as nat)) by (nonlinear_arith)
            requires
                fr < pow10(m as nat),
                tail == pow10((scale - m) as nat),
                tail >= 1,
        ;
        lemma_pow10_add(m as nat, (scale - m) as nat);
        lemma_pow10_mono(scale as nat, 6);
    }
    let frac_units = fr * tail;
    let mult = pow10_exec(scale);
    proof {
        assert(acc * mult <= 0xFFFF_FFFFu64 * 1000000) by (nonlinear_arith)
            requires acc < 0x1_0000_0000u64, mult <= 1000000u64;
    }
    let total = acc * mult + frac_units;
    proof {
        let jm = if fp.len() <= scale as nat {
            fp.len() as int
        } else {
            scale as int
        };
        assert(jm == m as int);
        assert(total == magnitude_value(ip, fp, scale as nat));
    }
    if total > 0xFFFF_FFFF {
        u32::MAX
    } else {
        total as u32
    }
}

} // verus!
