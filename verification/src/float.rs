use vstd::arithmetic::div_mod::{
    lemma_div_denominator, lemma_div_is_ordered, lemma_div_multiples_vanish,
    lemma_fundamental_div_mod,
};
use vstd::arithmetic::mul::lemma_mul_is_commutative;
use vstd::arithmetic::power2::{
    lemma2_to64, lemma2_to64_rest, lemma_pow2_adds, lemma_pow2_pos, lemma_pow2_strictly_increases,
    lemma_pow2_unfold, pow2,
};
use vstd::prelude::*;

verus! {

/// The sign bit of a double.
pub const SIGN_BIT: u64 = 0x8000_0000_0000_0000;

/// The weight of a double's implicit leading significand bit, 2^52.
pub const HIDDEN_BIT: u64 = 0x10_0000_0000_0000;

/// The position of the highest set bit of `m`; 0 for `m < 2`.
pub open spec fn floor_log2(m: nat) -> nat
    decreases m,
{
    if m < 2 {
        0
    } else {
        1 + floor_log2(m / 2)
    }
}

/// `m / d` rounded to the nearest integer, a tie going to the even neighbour.
pub open spec fn round_half_even(m: nat, d: nat) -> nat {
    let q = m / d;
    let r = m % d;
    if 2 * r > d || (2 * r == d && q % 2 == 1) {
        q + 1
    } else {
        q
    }
}

/// The 53-bit significand that a double gives to the magnitude `m > 0`:
/// `m` scaled so that its highest bit lands on bit 52, rounded where bits are lost.
pub open spec fn significand_of(m: nat) -> nat {
    let e = floor_log2(m);
    if e <= 52 {
        m * pow2((52 - e) as nat)
    } else {
        round_half_even(m, pow2((e - 52) as nat))
    }
}

/// The IEEE-754 binary64 bit pattern of the double nearest to the integer `i`
/// (round to nearest, ties to even): sign, biased exponent and fraction.
/// A significand that rounds up to 2^53 carries into the exponent.
pub open spec fn float_bits_of(i: int) -> int {
    if i == 0 {
        0
    } else {
        let m = (if i < 0 { -i } else { i }) as nat;
        let sign = if i < 0 { pow2(63) as int } else { 0 };
        sign + (floor_log2(m) + 1023) * pow2(52) + (significand_of(m) - pow2(52))
    }
}

/// The magnitude `m > 0` lies between the power of two that `floor_log2`
/// names and the next one.
pub proof fn lemma_floor_log2_bounds(m: nat)
    requires
        m > 0,
    ensures
        pow2(floor_log2(m)) <= m < pow2(floor_log2(m) + 1),
    decreases m,
{
    lemma2_to64();
    if m >= 2 {
        lemma_floor_log2_bounds(m / 2);
        let e = floor_log2(m / 2);
        lemma_pow2_unfold(e + 1);
        lemma_pow2_unfold(e + 2);
        lemma_fundamental_div_mod(m as int, 2);
    }
}

/// The significand of a magnitude `m > 0` is normal: it has its highest bit
/// on bit 52, or is exactly 2^53 where rounding carried. Up to 53 bits of
/// magnitude are kept exactly; beyond that, the double differs from `m` by at
/// most half the weight of its last bit, and where `m` lies half way between
/// two doubles the one with the even significand is taken.
pub proof fn lemma_significand(m: nat)
    requires
        m > 0,
    ensures
        pow2(52) <= significand_of(m) <= pow2(53),
        floor_log2(m) <= 52 ==> significand_of(m) == m * pow2((52 - floor_log2(m)) as nat),
        floor_log2(m) > 52 ==> -pow2((floor_log2(m) - 52) as nat) <= 2 * (significand_of(m) * pow2(
            (floor_log2(m) - 52) as nat,
        ) - m) <= pow2((floor_log2(m) - 52) as nat),
        floor_log2(m) > 52 && 2 * (m % pow2((floor_log2(m) - 52) as nat)) == pow2(
            (floor_log2(m) - 52) as nat,
        ) ==> significand_of(m) % 2 == 0,
{
    let e = floor_log2(m);
    lemma_floor_log2_bounds(m);
    lemma_pow2_unfold(e + 1);
    lemma_pow2_unfold(53);
    if e <= 52 {
        let scale = pow2((52 - e) as nat);
        lemma_pow2_pos((52 - e) as nat);
        lemma_pow2_adds(e, (52 - e) as nat);
        assert(m * scale >= pow2(e) * scale) by (nonlinear_arith)
            requires
                m >= pow2(e),
                scale > 0,
        ;
        assert(m * scale < 2 * (pow2(e) * scale)) by (nonlinear_arith)
            requires
                m < 2 * pow2(e),
                scale > 0,
        ;
    } else {
        let d = pow2((e - 52) as nat);
        lemma_pow2_pos((e - 52) as nat);
        lemma_pow2_adds(52, (e - 52) as nat);
        lemma_fundamental_div_mod(m as int, d as int);
        let q = m / d;
        let r = m % d;
        assert(q >= pow2(52)) by (nonlinear_arith)
            requires
                d > 0,
                m >= pow2(52) * d,
                m == d * q + r,
                r < d,
        ;
        assert(q < 2 * pow2(52)) by (nonlinear_arith)
            requires
                d > 0,
                m < 2 * (pow2(52) * d),
                m == d * q + r,
                0 <= r,
        ;
        assert((q + 1) * d - m == d - r) by (nonlinear_arith)
            requires
                m == d * q + r,
        ;
        assert(q * d - m == -r) by (nonlinear_arith)
            requires
                m == d * q + r,
        ;
    }
}

proof fn lemma_floor_log2_step(m: nat, p: nat)
    requires
        p > 0,
        m / p >= 2,
    ensures
        floor_log2(m / p) == 1 + floor_log2(m / (2 * p)),
{
    lemma_div_denominator(m as int, p as int, 2);
    lemma_mul_is_commutative(p as int, 2);
}

/// Bit pattern of the double nearest to `i`.
pub fn float_bits_from_int(i: i64) -> (bits: u64)
    ensures
        bits == float_bits_of(i as int),
{
    if i == 0 {
        return 0;
    }
    let negative = i < 0;
    let m: u64 = if negative {
        ((-(i + 1)) as u64) + 1
    } else {
        i as u64
    };
    let mut e: u64 = 0;
    let mut p: u64 = 1;
    proof {
        lemma2_to64();
        lemma2_to64_rest();
    }
    while p <= m / 2
        invariant
            1 <= m <= 0x8000_0000_0000_0000,
            p == pow2(e as nat),
            1 <= p <= m,
            e <= 63,
            floor_log2(m as nat) == e + floor_log2((m / p) as nat),
        decreases m - p,
    {
        proof {
            lemma_pow2_unfold((e + 1) as nat);
            assert(2 * p <= m);
            assert(m / p >= 2) by {
                lemma_div_is_ordered(2 * p as int, m as int, p as int);
                lemma_div_multiples_vanish(2, p as int);
            }
            lemma_floor_log2_step(m as nat, p as nat);
            if e >= 63 {
                lemma2_to64_rest();
            }
        }
        p = p * 2;
        e = e + 1;
    }
    proof {
        lemma2_to64_rest();
        assert(m < 2 * p);
        assert(m / p == 1) by {
            lemma_fundamental_div_mod(m as int, p as int);
            assert(0 <= m % p < p);
            if m / p >= 2 {
                assert(p * (m / p) >= p * 2) by (nonlinear_arith)
                    requires
                        p > 0,
                        m / p >= 2,
                ;
            }
            if m / p <= 0 {
                assert(p * (m / p) <= 0) by (nonlinear_arith)
                    requires
                        p > 0,
                        m / p <= 0,
                ;
            }
        }
        assert(floor_log2(m as nat) == e);
    }
    let sig: u64 = if e <= 52 {
        let scale = HIDDEN_BIT / p;
        proof {
            lemma_pow2_adds(e as nat, (52 - e) as nat);
            lemma_div_multiples_vanish(pow2((52 - e) as nat) as int, p as int);
            lemma_mul_is_commutative(pow2((52 - e) as nat) as int, p as int);
            assert(scale == pow2((52 - e) as nat));
            assert(m * scale < 2 * (p * scale)) by (nonlinear_arith)
                requires
                    m < 2 * p,
                    scale > 0,
            ;
            assert(m * scale >= p * scale) by (nonlinear_arith)
                requires
                    m >= p,
                    scale > 0,
            ;
            assert(p * scale == HIDDEN_BIT);
        }
        m * scale
    } else {
        let d = p / HIDDEN_BIT;
        proof {
            lemma_pow2_adds(52, (e - 52) as nat);
            lemma_div_multiples_vanish(pow2((e - 52) as nat) as int, HIDDEN_BIT as int);
            lemma_mul_is_commutative(pow2((e - 52) as nat) as int, HIDDEN_BIT as int);
            assert(d == pow2((e - 52) as nat));
            lemma_pow2_pos((e - 52) as nat);
            lemma_pow2_strictly_increases((e - 52) as nat, 12);
            assert(d * HIDDEN_BIT == p);
            lemma_fundamental_div_mod(m as int, d as int);
            assert(m / d < 2 * HIDDEN_BIT) by (nonlinear_arith)
                requires
                    d > 0,
                    m < 2 * (d * HIDDEN_BIT),
                    m == d * (m / d) + m % d,
                    0 <= m % d,
            ;
            assert(m / d >= HIDDEN_BIT) by (nonlinear_arith)
                requires
                    d > 0,
                    m >= d * HIDDEN_BIT,
                    m == d * (m / d) + m % d,
                    m % d < d,
            ;
        }
        let q = m / d;
        let r = m % d;
        if 2 * r > d || (2 * r == d && q % 2 == 1) {
            q + 1
        } else {
            q
        }
    };
    assert(sig == significand_of(m as nat));
    assert(HIDDEN_BIT <= sig <= 2 * HIDDEN_BIT);
    let sign = if negative {
        SIGN_BIT
    } else {
        0
    };
    sign + (e + 1023) * HIDDEN_BIT + (sig - HIDDEN_BIT)
}

} // verus!
