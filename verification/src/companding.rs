//! The companding of G.711 in powers of two: which samples a mu-law byte stands
//! for, and which byte a sample is sent as.

use crate::codec::{biased_magnitude, scaled, segment, slin_of, step, ulaw_of};
use vstd::arithmetic::power2::{lemma2_to64, pow2};
use vstd::prelude::*;

verus! {

/// Scaling is multiplication by a power of two.
proof fn lemma_scaled(v: int, k: nat)
    requires
        k < 8,
    ensures
        scaled(v, k as int) == v * pow2(k),
        step(k as int) == pow2(k + 3),
{
    lemma2_to64();
    let p = pow2(k) as int;
    if k == 0 {
        assert(v * p == v) by (nonlinear_arith)
            requires
                p == 1,
        ;
    } else if k == 1 {
        assert(v * p == 2 * v) by (nonlinear_arith)
            requires
                p == 2,
        ;
    } else if k == 2 {
        assert(v * p == 4 * v) by (nonlinear_arith)
            requires
                p == 4,
        ;
    } else if k == 3 {
        assert(v * p == 8 * v) by (nonlinear_arith)
            requires
                p == 8,
        ;
    } else if k == 4 {
        assert(v * p == 16 * v) by (nonlinear_arith)
            requires
                p == 16,
        ;
    } else if k == 5 {
        assert(v * p == 32 * v) by (nonlinear_arith)
            requires
                p == 32,
        ;
    } else if k == 6 {
        assert(v * p == 64 * v) by (nonlinear_arith)
            requires
                p == 64,
        ;
    } else {
        assert(v * p == 128 * v) by (nonlinear_arith)
            requires
                p == 128,
        ;
    }
}

/// What a mu-law byte stands for: inverted, its lowest four bits are a position
/// `m`, the next three a segment `k` and the highest the sign, and the magnitude
/// is `(8m + 132) * 2^k - 132`.
pub proof fn law_decoded_value(k: nat, m: int)
    requires
        k < 8,
        0 <= m < 16,
    ensures
        slin_of(255 - (16 * k + m)) == (8 * m + 132) * pow2(k) - 132,
        slin_of(127 - (16 * k + m)) == -((8 * m + 132) * pow2(k) - 132),
{
    lemma_scaled(8 * m + 132, k);
    assert((16 * k + m) % 16 == m && (16 * k + m) / 16 == k);
    assert((128 + 16 * k + m) % 16 == m && ((128 + 16 * k + m) / 16) % 8 == k);
}

/// A larger byte of one sign stands for a smaller magnitude.
pub proof fn law_decoding_ordered(a: int, b: int)
    requires
        128 <= a < b <= 255,
    ensures
        slin_of(a) > slin_of(b) >= 0,
        slin_of(a - 128) < slin_of(b - 128) <= 0,
{
    lemma2_to64();
    let (x, y) = (255 - a, 255 - b);
    law_decoded_value((x / 16) as nat, x % 16);
    law_decoded_value((y / 16) as nat, y % 16);
    lemma_scaled(8 * (x % 16) + 132, (x / 16) as nat);
    lemma_scaled(8 * (y % 16) + 132, (y / 16) as nat);
    assert(x == 16 * (x / 16) + x % 16 && y == 16 * (y / 16) + y % 16);
}

/// The byte of a sample: with 132 added to its magnitude, which is at most 32635,
/// it falls into step `m` of the sixteen steps of width `2^(k+3)` into which
/// segment `k` is divided. The byte holds the sign, `k` and `m`, inverted.
pub proof fn law_encoded_value(sample: int, k: nat, m: int)
    requires
        k < 8,
        0 <= m < 16,
        ({
            let magnitude = if sample < 0 {
                -sample
            } else {
                sample
            };
            let biased = 132 + (if magnitude > 32635 {
                32635
            } else {
                magnitude
            });
            (16 + m) * pow2(k + 3) <= biased < (17 + m) * pow2(k + 3)
        }),
    ensures
        ulaw_of(sample) == (if sample < 0 {
            127int
        } else {
            255
        }) - (16 * k + m),
{
    lemma2_to64();
    lemma_scaled(0, k);
    let biased = biased_magnitude(sample);
    let w = step(k as int);
    let q = biased / w;
    assert(q == 16 + m) by (nonlinear_arith)
        requires
            q == biased / w,
            w > 0,
            (16 + m) * w <= biased < (17 + m) * w,
    ;
    assert(16 * w <= biased < 32 * w) by (nonlinear_arith)
        requires
            (16 + m) * w <= biased < (17 + m) * w,
            0 <= m < 16,
            w > 0,
    ;
    assert(segment(biased) == k);
}

} // verus!
