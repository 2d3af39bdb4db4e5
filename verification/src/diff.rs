//! Run-over-run percentage deltas. Equal values yield the no-change marker;
//! otherwise the delta `(new - old) / old x 100` is rendered in fixed-point
//! decimal with a precision that scales down as the magnitude grows, so the
//! report stays legible at any scale.

use vstd::prelude::*;

use crate::bytes::dec_digits;
use crate::bytes::pad_left;
use crate::bytes::pad_left_bytes;
use crate::bytes::u128_to_dec;

verus! {

/// Ten to the `p`.
pub open spec fn pow10(p: nat) -> int
    decreases p,
{
    if p == 0 {
        1
    } else {
        10 * pow10((p - 1) as nat)
    }
}

/// Fractional digits used for a percentage of magnitude `a / b` (`b >= 1`):
/// six below ten per cent, one fewer for each factor of ten beyond that,
/// none from a million per cent on.
pub open spec fn pct_precision(a: int, b: int) -> nat {
    if a < 10 * b {
        6
    } else if a < 100 * b {
        5
    } else if a < 1000 * b {
        4
    } else if a < 10000 * b {
        3
    } else if a < 100000 * b {
        2
    } else if a < 1000000 * b {
        1
    } else {
        0
    }
}

/// `num / den`, rounded to the nearest integer, halves away from zero
/// (`den >= 1`, `num >= 0`).
pub open spec fn round_div(num: int, den: int) -> int {
    (2 * num + den) / (2 * den)
}

/// `n` zeroes.
pub open spec fn zeroes(n: int) -> Seq<u8> {
    Seq::new(if n >= 0 { n as nat } else { 0 }, |i: int| 48u8)
}

/// `s` padded on the left with zeroes to width `w`.
pub open spec fn zero_pad(s: Seq<u8>, w: int) -> Seq<u8> {
    if s.len() >= w {
        s
    } else {
        zeroes(w - s.len()) + s
    }
}

/// A sign followed by `r` scaled down by `p` decimal places: integer part,
/// and for positive `p` a point and exactly `p` fractional digits.
pub open spec fn render_signed_fixed(neg: bool, r: int, p: nat) -> Seq<u8> {
    let sign = if neg {
        seq![45u8]
    } else {
        seq![43u8]
    };
    if p == 0 {
        sign + dec_digits(r)
    } else {
        sign + dec_digits(r / pow10(p)) + seq![46u8] + zero_pad(dec_digits(r % pow10(p)), p as int)
    }
}

/// The marker printed where a counter did not change.
pub open spec fn no_change_marker() -> Seq<u8> {
    seq![32u8, 40u8, 78u8, 111u8, 32u8, 99u8, 104u8, 97u8, 110u8, 103u8, 101u8, 41u8]
}

/// The rendered delta of a counter against its previous value: the no-change
/// marker where equal; an infinity marker where the previous value was zero;
/// otherwise the percentage, right-aligned to six columns between a leading
/// ` (` and a closing `%)`.
pub open spec fn percentage_diff_spec(new: u64, old: u64) -> Seq<u8> {
    if new == old {
        no_change_marker()
    } else if old == 0 {
        seq![32u8, 40u8] + pad_left(seq![43u8, 105u8, 110u8, 102u8], 6) + seq![37u8, 41u8]
    } else {
        let a = 100 * (if new >= old {
            new - old
        } else {
            old - new
        });
        let p = pct_precision(a, old as int);
        let r = round_div(a * pow10(p), old as int);
        seq![32u8, 40u8] + pad_left(render_signed_fixed(new < old, r, p), 6) + seq![37u8, 41u8]
    }
}

/// Ten to the `p`, for the precisions in use.
fn pow10_u64(p: usize) -> (r: u64)
    requires
        p <= 6,
    ensures
        r == pow10(p as nat),
        1 <= r <= 1000000,
{
    let mut r: u64 = 1;
    let mut k: usize = 0;
    while k < p
        invariant
            k <= p <= 6,
            r == pow10(k as nat),
            1 <= r <= 1000000,
        decreases p - k,
    {
        proof {
            lemma_pow10_values();
            lemma_pow10_mono(k as nat, 5);
        }
        r = r * 10;
        k = k + 1;
    }
    r
}

/// The powers of ten for the precisions in use.
pub proof fn lemma_pow10_values()
    ensures
        pow10(0) == 1,
        pow10(1) == 10,
        pow10(2) == 100,
        pow10(3) == 1000,
        pow10(4) == 10000,
        pow10(5) == 100000,
        pow10(6) == 1000000,
{
    assert(pow10(0) == 1);
    assert(pow10(1) == 10);
    assert(pow10(2) == 100);
    assert(pow10(3) == 1000);
    assert(pow10(4) == 10000);
    assert(pow10(5) == 100000);
    assert(pow10(6) == 1000000);
}

/// Ten to the power never shrinks as the exponent grows.
pub proof fn lemma_pow10_mono(k1: nat, k2: nat)
    requires
        k1 <= k2,
    ensures
        pow10(k1) <= pow10(k2),
    decreases k2,
{
    if k1 < k2 {
        lemma_pow10_mono(k1, (k2 - 1) as nat);
        lemma_pow10_positive((k2 - 1) as nat);
    }
}

/// The fractional digits used for a percentage of magnitude `a / b`.
fn pct_precision_exec(a: u128, b: u64) -> (r: usize)
    requires
        b >= 1,
    ensures
        r == pct_precision(a as int, b as int),
        r <= 6,
{
    let wb = b as u128;
    if a < 10 * wb {
        6
    } else if a < 100 * wb {
        5
    } else if a < 1000 * wb {
        4
    } else if a < 10000 * wb {
        3
    } else if a < 100000 * wb {
        2
    } else if a < 1000000 * wb {
        1
    } else {
        0
    }
}

/// Renders the sign and the scaled value `r` with `p` decimal places.
fn render_signed_fixed_exec(neg: bool, r: u128, p: usize) -> (out: Vec<u8>)
    requires
        p <= 6,
        2 * (r as int) * pow10(p as nat) <= u128::MAX,
    ensures
        out@ == render_signed_fixed(neg, r as int, p as nat),
{
    let mut out: Vec<u8> = Vec::new();
    if neg {
        out.push(45u8);
    } else {
        out.push(43u8);
    }
    if p == 0 {
        let mut digits = u128_to_dec(r);
        proof {
            assert(out@ + digits@ =~= render_signed_fixed(neg, r as int, p as nat));
        }
        out.append(&mut digits);
        out
    } else {
        let scale: u64 = pow10_u64(p);
        proof {
            assert(pow10(p as nat) >= 1) by {
                lemma_pow10_positive(p as nat);
            }
        }
        let ipart: u128 = r / (scale as u128);
        let fpart: u128 = r % (scale as u128);
        let mut idigits = u128_to_dec(ipart);
        out.append(&mut idigits);
        out.push(46u8);
        let fdigits = u128_to_dec(fpart);
        let mut padded: Vec<u8> = Vec::new();
        let mut z: usize = 0;
        let zcount: usize = if fdigits.len() >= p {
            0
        } else {
            p - fdigits.len()
        };
        while z < zcount
            invariant
                z <= zcount,
                padded@ =~= zeroes(z as int),
            decreases zcount - z,
        {
            padded.push(48u8);
            proof {
                assert(padded@ =~= zeroes(z + 1));
            }
            z = z + 1;
        }
        let mut ftail = fdigits;
        proof {
            if ftail@.len() >= p {
                assert(zeroes(0) =~= Seq::<u8>::empty());
                assert(padded@ + ftail@ =~= ftail@);
            }
            assert(padded@ + ftail@ =~= zero_pad(dec_digits(fpart as int), p as int));
        }
        padded.append(&mut ftail);
        proof {
            assert(out@ + padded@ =~= render_signed_fixed(neg, r as int, p as nat));
        }
        out.append(&mut padded);
        out
    }
}

/// Ten to any power is positive.
pub proof fn lemma_pow10_positive(p: nat)
    ensures
        pow10(p) >= 1,
    decreases p,
{
    if p > 0 {
        lemma_pow10_positive((p - 1) as nat);
    }
}

/// The delta of a counter against its previous value, rendered for the
/// report. Equal values give the no-change marker; a zero previous value
/// gives an infinity marker; otherwise the percentage
/// `(new - old) / old x 100` with `pct_precision` decimal places, rounded
/// half away from zero, right-aligned to six columns.
pub fn percentage_diff(new: u64, old: u64) -> (r: Vec<u8>)
    ensures
        r@ == percentage_diff_spec(new, old),
{
    if new == old {
        let marker: [u8; 12] = [
            32u8,
            40u8,
            78u8,
            111u8,
            32u8,
            99u8,
            104u8,
            97u8,
            110u8,
            103u8,
            101u8,
            41u8,
        ];
        let r = vstd::slice::slice_to_vec(marker.as_slice());
        proof {
            assert(r@ =~= no_change_marker());
        }
        return r;
    }
    let body: Vec<u8> = if old == 0 {
        let inf: [u8; 4] = [43u8, 105u8, 110u8, 102u8];
        let r = vstd::slice::slice_to_vec(inf.as_slice());
        proof {
            assert(r@ =~= seq![43u8, 105u8, 110u8, 102u8]);
        }
        r
    } else {
        let mag: u64 = if new >= old {
            new - old
        } else {
            old - new
        };
        let a: u128 = 100 * (mag as u128);
        let p: usize = pct_precision_exec(a, old);
        let scale: u64 = pow10_u64(p);
        proof {
            lemma_pow10_positive(p as nat);
            assert(a <= 100 * (u64::MAX as int));
            assert(scale <= 1000000);
            assert(a * (scale as int) <= 100 * (u64::MAX as int) * 1000000) by (nonlinear_arith)
                requires
                    0 <= a <= 100 * (u64::MAX as int),
                    1 <= scale <= 1000000,
            ;
        }
        let num: u128 = a * (scale as u128);
        let den: u128 = old as u128;
        let rounded: u128 = (2 * num + den) / (2 * den);
        proof {
            assert(rounded == round_div(a as int * pow10(p as nat), old as int));
            assert(rounded <= num / den + 1) by (nonlinear_arith)
                requires
                    den >= 1,
                    num >= 0,
                    rounded == (2 * num + den) / (2 * den),
            ;
            assert(num / den <= num) by (nonlinear_arith)
                requires
                    den >= 1,
                    num >= 0,
            ;
            assert(2 * (rounded as int) * pow10(p as nat) <= u128::MAX) by (nonlinear_arith)
                requires
                    0 <= rounded <= num + 1,
                    num <= 100 * (u64::MAX as int) * 1000000,
                    1 <= pow10(p as nat) <= 1000000,
                    pow10(p as nat) == scale as int,
            ;
        }
        render_signed_fixed_exec(new < old, rounded, p)
    };
    let padded = pad_left_bytes(&body, 6);
    let mut r: Vec<u8> = Vec::new();
    r.push(32u8);
    r.push(40u8);
    let mut padded = padded;
    proof {
        assert(r@ =~= seq![32u8, 40u8]);
    }
    r.append(&mut padded);
    r.push(37u8);
    r.push(41u8);
    proof {
        assert(r@ =~= percentage_diff_spec(new, old));
    }
    r
}

/// Comparing a counter with itself always yields the no-change marker.
pub proof fn lemma_no_change_on_equal(x: u64)
    ensures
        percentage_diff_spec(x, x) == no_change_marker(),
{
}

/// The precision bands: six decimal digits below ten per cent, then one
/// fewer for each order of magnitude the percentage crosses, down to none
/// from a million per cent on.
pub proof fn lemma_precision_bands(a: int, b: int)
    requires
        b >= 1,
        a >= 0,
    ensures
        pct_precision(a, b) == 6 <==> a < 10 * b,
        pct_precision(a, b) == 5 <==> (10 * b <= a && a < 100 * b),
        pct_precision(a, b) == 4 <==> (100 * b <= a && a < 1000 * b),
        pct_precision(a, b) == 3 <==> (1000 * b <= a && a < 10000 * b),
        pct_precision(a, b) == 2 <==> (10000 * b <= a && a < 100000 * b),
        pct_precision(a, b) == 1 <==> (100000 * b <= a && a < 1000000 * b),
        pct_precision(a, b) == 0 <==> a >= 1000000 * b,
{
}

/// Precision never grows with the magnitude of the percentage: crossing any
/// order-of-magnitude threshold strictly lowers it.
pub proof fn lemma_precision_antitone(a1: int, a2: int, b: int)
    requires
        b >= 1,
        0 <= a1 <= a2,
    ensures
        pct_precision(a2, b) <= pct_precision(a1, b),
{
}

/// The rendered delta carries exactly `pct_precision` fractional digits:
/// everything after the decimal point is the zero-padded remainder, `p`
/// digits wide.
pub proof fn lemma_rendered_fraction_width(neg: bool, r: int, p: nat)
    requires
        0 <= r,
        1 <= p <= 6,
    ensures
        render_signed_fixed(neg, r, p).len() == 1 + dec_digits(r / pow10(p)).len() + 1 + p,
{
    lemma_pow10_positive(p);
    assert(0 <= r % pow10(p) < pow10(p));
    lemma_dec_digits_len_le(r % pow10(p), p);
    assert(zero_pad(dec_digits(r % pow10(p)), p as int).len() == p);
}

/// A number below ten to the `k` takes at most `k` digits (`k >= 1`).
pub proof fn lemma_dec_digits_len_le(n: int, k: nat)
    requires
        0 <= n < pow10(k),
        k >= 1,
    ensures
        dec_digits(n).len() <= k,
    decreases k,
{
    if n < 10 {
    } else {
        assert(pow10(k) == 10 * pow10((k - 1) as nat));
        lemma_dec_digits_len_le(n / 10, (k - 1) as nat);
    }
}

} // verus!
