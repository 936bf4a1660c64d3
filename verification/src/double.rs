//! Double-precision numbers by their IEEE 754 bits.
use vstd::arithmetic::power2::{
    lemma2_to64, lemma_pow2_adds, lemma_pow2_pos, lemma_pow2_unfold, pow2,
};
use vstd::prelude::*;

verus! {

/// The biased exponent.
pub open spec fn exponent(bits: u64) -> int {
    bits as int / 0x10_0000_0000_0000 % 0x800
}

/// The stored part of the significand.
pub open spec fn fraction(bits: u64) -> int {
    bits as int % 0x10_0000_0000_0000
}

/// Whether the bits stand for a number: neither infinite nor not-a-number.
pub open spec fn is_finite(bits: u64) -> bool {
    exponent(bits) < 0x7ff
}

/// Whether the sign bit is set.
pub open spec fn is_negative(bits: u64) -> bool {
    bits >= 0x8000_0000_0000_0000
}

/// The absolute value, in units of the smallest positive number (2 to the power of -1074).
pub open spec fn magnitude(bits: u64) -> int {
    if exponent(bits) == 0 {
        fraction(bits)
    } else {
        (0x10_0000_0000_0000 + fraction(bits)) * pow2((exponent(bits) - 1) as nat)
    }
}

/// The value, in units of the smallest positive number.
pub open spec fn value(bits: u64) -> int {
    if is_negative(bits) {
        -magnitude(bits)
    } else {
        magnitude(bits)
    }
}

/// A number that is zero or more, cut down to `max`; nothing of any other.
pub open spec fn at_most(bits: u64, max: u64) -> Option<u64> {
    if is_finite(bits) && value(bits) >= 0 {
        Some(
            if value(bits) <= value(max) {
                bits
            } else {
                max
            },
        )
    } else {
        None
    }
}

proof fn lemma_pow2_grows(a: nat, b: nat)
    requires
        a <= b,
    ensures
        0 < pow2(a) <= pow2(b),
    decreases b - a,
{
    lemma_pow2_pos(a);
    if a < b {
        lemma_pow2_grows(a, (b - 1) as nat);
        lemma_pow2_unfold(b);
    }
}

/// Finite numbers without a sign are ordered as their bits are.
pub proof fn law_bits_order(a: u64, b: u64)
    requires
        !is_negative(a),
        !is_negative(b),
        is_finite(a),
        is_finite(b),
        a < b,
    ensures
        0 <= value(a) < value(b),
{
    let k: int = 0x10_0000_0000_0000;
    let (ea, eb) = (exponent(a), exponent(b));
    let (fa, fb) = (fraction(a), fraction(b));
    assert(a as int == ea * k + fa);
    assert(b as int == eb * k + fb);
    if ea == eb {
        if ea > 0 {
            let p = pow2((ea - 1) as nat) as int;
            lemma_pow2_pos((ea - 1) as nat);
            assert((k + fa) * p < (k + fb) * p && 0 <= (k + fa) * p) by (nonlinear_arith)
                requires
                    fa < fb,
                    p > 0,
                    0 <= k + fa,
            ;
        }
    } else {
        assert(ea < eb);
        let pb = pow2((eb - 1) as nat) as int;
        lemma_pow2_grows(ea as nat, (eb - 1) as nat);
        assert(k * pb <= (k + fb) * pb) by (nonlinear_arith)
            requires
                0 <= fb,
                0 < pb,
        ;
        let q = pow2(ea as nat) as int;
        assert(k * q <= k * pb) by (nonlinear_arith)
            requires
                0 < k,
                q <= pb,
        ;
        if ea == 0 {
            lemma2_to64();
            assert(q == 1);
        } else {
            let pa = pow2((ea - 1) as nat) as int;
            lemma_pow2_pos((ea - 1) as nat);
            lemma_pow2_unfold(ea as nat);
            assert((k + fa) * pa < k * q && 0 <= (k + fa) * pa) by (nonlinear_arith)
                requires
                    q == 2 * pa,
                    0 <= fa < k,
                    0 < pa,
            ;
        }
    }
}

proof fn lemma_magnitude_of_zero(bits: u64)
    requires
        is_finite(bits),
    ensures
        0 <= magnitude(bits),
        magnitude(bits) == 0 <==> bits == 0 || bits == 0x8000_0000_0000_0000,
{
    let (e, f) = (exponent(bits), fraction(bits));
    if e > 0 {
        let p = pow2((e - 1) as nat) as int;
        lemma_pow2_pos((e - 1) as nat);
        assert(0 < (0x10_0000_0000_0000 + f) * p) by (nonlinear_arith)
            requires
                0 <= f,
                0 < p,
        ;
    }
}

/// A number that is kept is finite, not below zero and not above the limit.
pub proof fn law_kept_number_is_in_range(bits: u64, max: u64)
    requires
        is_finite(max),
        !is_negative(max),
    ensures
        at_most(bits, max) matches Some(kept) ==> is_finite(kept) && 0 <= value(kept) <= value(max),
{
    lemma_magnitude_of_zero(max);
}

/// Cuts a number down to `max`.
pub fn cut_down(bits: u64, max: u64) -> (res: Option<u64>)
    requires
        !is_negative(max),
        is_finite(max),
    ensures
        res == at_most(bits, max),
{
    proof {
        if is_finite(bits) {
            lemma_magnitude_of_zero(bits);
            lemma_magnitude_of_zero(max);
            if !is_negative(bits) {
                if bits < max {
                    law_bits_order(bits, max);
                } else if max < bits {
                    law_bits_order(max, bits);
                }
            }
        }
    }
    if bits == 0x8000_0000_0000_0000 {
        Some(bits)
    } else if bits < 0x7ff0_0000_0000_0000 {
        if bits <= max {
            Some(bits)
        } else {
            Some(max)
        }
    } else {
        None
    }
}

/// The value of a whole number, in units of the smallest positive number.
pub open spec fn whole(n: int) -> int {
    n * pow2(1074)
}

/// A number whose bits hold `n` shifted left by `shift` is the whole number `n`.
pub proof fn lemma_whole(bits: u64, n: int, shift: nat)
    requires
        0 < exponent(bits) < 0x7ff,
        !is_negative(bits),
        exponent(bits) - 1 + shift == 1074,
        0x10_0000_0000_0000 + fraction(bits) == n * pow2(shift),
    ensures
        value(bits) == whole(n),
{
    let e = (exponent(bits) - 1) as nat;
    lemma_pow2_adds(shift, e);
    assert((n * pow2(shift)) * pow2(e) == n * (pow2(shift) * pow2(e))) by (nonlinear_arith);
}

/// A number is kept as it is up to the limit and cut down to the limit above it. Numbers that are
/// not below zero are in the order of their bits up to infinity, whose bits are 0x7ff0000000000000;
/// minus zero is kept, and nothing is kept of numbers below zero and of what is no finite number.
pub proof fn law_bits_are_cut_down(bits: u64, max: u64)
    requires
        max < 0x7ff0_0000_0000_0000,
    ensures
        at_most(bits, max) == if bits < 0x7ff0_0000_0000_0000 {
            Some(
                if bits <= max {
                    bits
                } else {
                    max
                },
            )
        } else if bits == 0x8000_0000_0000_0000 {
            Some(bits)
        } else {
            None
        },
{
    assert(is_finite(max) && !is_negative(max));
    if is_finite(bits) {
        lemma_magnitude_of_zero(bits);
        lemma_magnitude_of_zero(max);
        if !is_negative(bits) {
            if bits < max {
                law_bits_order(bits, max);
            } else if max < bits {
                law_bits_order(max, bits);
            }
        }
    }
}

} // verus!
