//! Round-trip times as bit patterns.
//!
//! A mean round-trip time is a double-precision number of milliseconds. The
//! library holds it as the bit pattern of that number in the IEEE 754
//! binary64 format: one sign bit, eleven bits of exponent, fifty-two bits
//! of fraction. For numbers that are finite and not negative the order of
//! the patterns is the order of the numbers, so that times can be compared
//! as integers.

use vstd::prelude::*;
use vstd::arithmetic::mul::{lemma_mul_inequality, lemma_mul_left_inequality};
use vstd::arithmetic::mul::lemma_mul_strict_inequality;
use vstd::arithmetic::power2::{lemma_pow2_pos, lemma_pow2_strictly_increases, lemma_pow2_unfold};
use vstd::arithmetic::power2::pow2;

verus! {

/// The bit pattern of positive infinity. Every pattern below it stands for
/// a finite number that is not negative.
pub const RTT_BITS_INFINITY: u64 = 0x7FF0_0000_0000_0000;

/// The number of fractions: two to the power of 52.
pub const RTT_FRACTIONS: u64 = 0x10_0000_0000_0000;

/// Whether `bits` stands for a finite round-trip time that is not negative.
pub open spec fn finite_rtt(bits: u64) -> bool {
    bits < RTT_BITS_INFINITY
}

/// The exponent field of a pattern without sign.
pub open spec fn rtt_exponent(bits: u64) -> nat {
    (bits / RTT_FRACTIONS) as nat
}

/// The fraction field of a pattern.
pub open spec fn rtt_fraction(bits: u64) -> nat {
    (bits % RTT_FRACTIONS) as nat
}

/// The time that a pattern without sign stands for, as a multiple of the
/// smallest positive double: the fraction itself where the exponent is 0,
/// else the fraction with its leading one, doubled once for each step of
/// the exponent above 1.
pub open spec fn rtt_magnitude(bits: u64) -> nat {
    if rtt_exponent(bits) == 0 {
        rtt_fraction(bits)
    } else {
        ((RTT_FRACTIONS + rtt_fraction(bits)) * pow2((rtt_exponent(bits) - 1) as nat)) as nat
    }
}

/// The times of one exponent lie between two powers of two.
proof fn lemma_magnitude_bounds(bits: u64)
    ensures
        rtt_exponent(bits) == 0 ==> rtt_magnitude(bits) < RTT_FRACTIONS,
        rtt_exponent(bits) > 0 ==> RTT_FRACTIONS * pow2((rtt_exponent(bits) - 1) as nat)
            <= rtt_magnitude(bits) < RTT_FRACTIONS * pow2(rtt_exponent(bits)),
{
    let e = rtt_exponent(bits);
    let f = rtt_fraction(bits);
    if e > 0 {
        let half = pow2((e - 1) as nat);
        lemma_pow2_pos((e - 1) as nat);
        lemma_pow2_unfold(e);
        lemma_mul_inequality(RTT_FRACTIONS as int, RTT_FRACTIONS + f, half as int);
        lemma_mul_strict_inequality(RTT_FRACTIONS + f, 2 * RTT_FRACTIONS, half as int);
        assert((2 * RTT_FRACTIONS) * half == RTT_FRACTIONS * (2 * half)) by (nonlinear_arith);
    }
}

/// A greater pattern stands for a greater time.
proof fn lemma_magnitude_increases(a: u64, b: u64)
    requires
        a < b,
    ensures
        rtt_magnitude(a) < rtt_magnitude(b),
{
    let ea = rtt_exponent(a);
    let eb = rtt_exponent(b);
    let fa = rtt_fraction(a);
    let fb = rtt_fraction(b);
    assert(ea <= eb);
    if ea == eb {
        assert(fa < fb);
        if ea > 0 {
            lemma_pow2_pos((ea - 1) as nat);
            lemma_mul_strict_inequality(
                RTT_FRACTIONS + fa,
                RTT_FRACTIONS + fb,
                pow2((ea - 1) as nat) as int,
            );
        }
    } else {
        lemma_magnitude_bounds(a);
        lemma_magnitude_bounds(b);
        let below = pow2((eb - 1) as nat);
        if ea == 0 {
            lemma_pow2_pos((eb - 1) as nat);
            lemma_mul_left_inequality(RTT_FRACTIONS as int, 1, below as int);
        } else {
            if ea < eb - 1 {
                lemma_pow2_strictly_increases(ea, (eb - 1) as nat);
            }
            lemma_mul_left_inequality(RTT_FRACTIONS as int, pow2(ea) as int, below as int);
        }
    }
}

/// The order of the patterns is the order of the times they stand for.
pub proof fn rtt_order_is_order_of_times(a: u64, b: u64)
    requires
        finite_rtt(a),
        finite_rtt(b),
    ensures
        a <= b <==> rtt_magnitude(a) <= rtt_magnitude(b),
{
    if a < b {
        lemma_magnitude_increases(a, b);
    } else if b < a {
        lemma_magnitude_increases(b, a);
    }
}

} // verus!
