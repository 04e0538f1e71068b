//! The floating-point computations made on numbers of the mapping, carried out on
//! whole numbers.

use crate::float::{Double, Single};
use crate::rounding;
use vstd::arithmetic::div_mod::*;
use vstd::arithmetic::power2::*;
use vstd::prelude::*;

verus! {

/// The whole number nearest to `units` units of 2^-1074, halves upwards.
pub open spec fn nearest_integer(units: nat) -> nat {
    (units + pow2(1073)) / pow2(1074)
}

/// Seconds in whole milliseconds, for a positive finite number of seconds: the
/// product with 1000, as a double, rounded to a whole number. What does not fit in
/// 64 bits is no time; 2^64 itself, which as a double is the largest 64-bit number,
/// counts as that number.
pub open spec fn milliseconds_of(seconds: Double) -> Option<u64> {
    if seconds.finite() && seconds.units() > 0 {
        let n = nearest_integer(rounding::round_to(1000 * seconds.magnitude(), 53));
        if n <= u64::MAX {
            Some(n as u64)
        } else if n == u64::MAX + 1 {
            Some(u64::MAX)
        } else {
            None
        }
    } else {
        None
    }
}

/// Rounds `q * 2^t` units of 2^-1074 to a whole number, halves upwards; `None` above
/// 2^64.
fn whole(q: u128, t: u32) -> (n: Option<u128>)
    requires
        0 < q <= 0x20_0000_0000_0000,
        t <= 3000,
    ensures
        match n {
            Some(n) => n == nearest_integer(q as nat * pow2(t as nat)) && n
                <= 0x1_0000_0000_0000_0000,
            None => nearest_integer(q as nat * pow2(t as nat)) > 0x1_0000_0000_0000_0000,
        },
{
    let ghost x = q as nat * pow2(t as nat);
    proof {
        lemma2_to64();
        lemma2_to64_rest();
        lemma_pow2_pos(1073);
        lemma_pow2_unfold(1074);
    }
    if t >= 1074 {
        let s: u32 = t - 1074;
        let ghost product = q as nat * pow2(s as nat);
        proof {
            lemma_pow2_adds(s as nat, 1074);
            assert(x == product * pow2(1074)) by (nonlinear_arith)
                requires
                    x == q as nat * (pow2(s as nat) * pow2(1074)),
                    product == q as nat * pow2(s as nat),
            ;
            lemma_fundamental_div_mod_converse(
                (x + pow2(1073)) as int,
                pow2(1074) as int,
                product as int,
                pow2(1073) as int,
            );
            lemma_pow2_adds(64, 1);
            if s > 65 {
                lemma_pow2_strictly_increases(65, s as nat);
            }
            assert(product >= pow2(s as nat)) by (nonlinear_arith)
                requires
                    product == q as nat * pow2(s as nat),
                    q >= 1,
            ;
        }
        if s >= 65 {
            return None;
        }
        proof {
            if s < 64 {
                lemma_pow2_strictly_increases(s as nat, 64);
            }
            assert(product <= 0x20_0000_0000_0000 * 0x1_0000_0000_0000_0000) by (nonlinear_arith)
                requires
                    product == q as nat * pow2(s as nat),
                    q <= 0x20_0000_0000_0000,
                    pow2(s as nat) <= 0x1_0000_0000_0000_0000,
            ;
        }
        let p: u128 = rounding::power_of_two(s);
        let n: u128 = q * p;
        if n <= 0x1_0000_0000_0000_0000 {
            Some(n)
        } else {
            None
        }
    } else {
        let s: u32 = 1074 - t;
        let ghost half = pow2((s - 1) as nat);
        proof {
            lemma_pow2_adds((s - 1) as nat, t as nat);
            lemma_pow2_adds(s as nat, t as nat);
            assert((s - 1) as nat + t as nat == 1073);
            lemma_pow2_pos(t as nat);
            lemma_pow2_pos(s as nat);
            assert(x + pow2(1073) == (q as nat + half) * pow2(t as nat)) by (nonlinear_arith)
                requires
                    x == q as nat * pow2(t as nat),
                    pow2(1073) == half * pow2(t as nat),
            ;
            rounding::lemma_half_even_scale(
                (q as nat + half) as nat,
                pow2(s as nat),
                pow2(t as nat),
            );
            assert(nearest_integer(x) == (q as nat + half) as nat / pow2(s as nat));
            lemma_pow2_unfold(s as nat);
        }
        if s >= 64 {
            proof {
                if s > 64 {
                    lemma_pow2_strictly_increases(63, (s - 1) as nat);
                }
                lemma_fundamental_div_mod_converse(
                    (q as nat + half) as int,
                    pow2(s as nat) as int,
                    0,
                    (q as nat + half) as int,
                );
            }
            return Some(0);
        }
        proof {
            lemma_pow2_strictly_increases((s - 1) as nat, 64);
        }
        let p: u128 = rounding::power_of_two(s);
        let h: u128 = rounding::power_of_two(s - 1);
        let n: u128 = (q + h) / p;
        proof {
            assert(n <= q + h) by (nonlinear_arith)
                requires
                    n == (q + h) as nat / p as nat,
                    p >= 1,
            ;
        }
        Some(n)
    }
}

/// Converts a number of seconds to whole milliseconds.
pub fn milliseconds(value: Double) -> (ms: Option<u64>)
    ensures
        ms == milliseconds_of(value),
{
    if !value.is_finite() || value.is_negative() || value.is_zero() {
        return None;
    }
    let (significand, scale): (u64, u32) = value.parts();
    let product: u128 = 1000 * significand as u128;
    let length: u32 = rounding::length_in_bits(product);
    let shift: u32 = if length > 53 {
        length - 53
    } else {
        0
    };
    proof {
        lemma2_to64();
        lemma2_to64_rest();
        lemma_pow2_pos(scale as nat);
        assert(significand > 0) by {
            if significand == 0 {
                assert(0 * pow2(scale as nat) == 0);
            }
        }
        rounding::lemma_bit_length_at_most(product as nat, 63);
        rounding::lemma_half_even_bound(product as nat, 53);
        rounding::lemma_round_scale(product as nat, scale as nat, 53);
        assert(1000 * value.magnitude() == product as nat * pow2(scale as nat)) by (nonlinear_arith)
            requires
                value.magnitude() == significand as nat * pow2(scale as nat),
                product as nat == 1000 * significand as nat,
        ;
    }
    let q: u128 = rounding::shift_half_even(product, shift);
    proof {
        lemma_pow2_adds(shift as nat, scale as nat);
        assert((q as nat * pow2(shift as nat)) * pow2(scale as nat) == q as nat * (pow2(
            shift as nat,
        ) * pow2(scale as nat))) by (nonlinear_arith);
    }
    match whole(q, shift + scale) {
        Some(n) => if n <= u64::MAX as u128 {
            Some(n as u64)
        } else {
            Some(u64::MAX)
        },
        None => None,
    }
}

/// The double nearest to a whole number of units, in units.
pub open spec fn rounded(x: int) -> int {
    if x < 0 {
        -(rounding::round_to((-x) as nat, 53) as int)
    } else {
        rounding::round_to(x as nat, 53) as int
    }
}

/// The bits of 0.001 as a double.
pub const THOUSANDTH_BITS: u64 = 0x3F50_624D_D2F1_A9FC;

/// 0.001, as a double.
pub open spec fn thousandth() -> Double {
    Double { bits: THOUSANDTH_BITS }
}

/// Whether `elapsed`, a thousandth added to it, still lies below `old`: the sum is
/// rounded to a double before it is compared.
pub open spec fn fell_back(elapsed: Double, old: Double) -> bool {
    !old.nan() && rounded(elapsed.units() + thousandth().units()) < old.units()
}

/// What is less than a quarter of the last place of a number does not move it.
proof fn lemma_round_absorbs(m: nat, j: nat, delta: nat)
    requires
        0x10_0000_0000_0000 <= m < 0x20_0000_0000_0000,
        j >= 2,
        delta < pow2((j - 2) as nat),
    ensures
        m * pow2(j) > delta,
        rounding::round_to(m * pow2(j) + delta, 53) == m * pow2(j),
        rounding::round_to((m * pow2(j) - delta) as nat, 53) == m * pow2(j),
{
    let d = pow2(j);
    let h = pow2((j - 1) as nat);
    lemma2_to64();
    lemma2_to64_rest();
    lemma_pow2_unfold(j);
    lemma_pow2_unfold((j - 1) as nat);
    lemma_pow2_adds(52, j);
    lemma_pow2_adds(53, j);
    lemma_pow2_pos(j);
    let top = 0x10_0000_0000_0000 * d;
    assert(top <= m * d && m * d + d <= 2 * top) by (nonlinear_arith)
        requires
            0x10_0000_0000_0000 <= m < 0x20_0000_0000_0000,
            top == 0x10_0000_0000_0000 * d,
    ;
    let above = m * d + delta;
    rounding::lemma_bit_length_unique(above, 53 + j);
    lemma_fundamental_div_mod_converse(above as int, d as int, m as int, delta as int);
    if delta > 0 {
        let below = (m * d - delta) as nat;
        if m > 0x10_0000_0000_0000 {
            assert(m * d >= top + d) by (nonlinear_arith)
                requires
                    m >= 0x10_0000_0000_0001,
                    top == 0x10_0000_0000_0000 * d,
            ;
            rounding::lemma_bit_length_unique(below, 53 + j);
            assert(below == (m - 1) * d + (d - delta)) by (nonlinear_arith)
                requires
                    below == m * d - delta,
            ;
            lemma_fundamental_div_mod_converse(
                below as int,
                d as int,
                m - 1,
                d - delta,
            );
            assert(rounding::excess(below, 53) == j);
            assert(rounding::half_even(below, d) == m);
        } else {
            assert((53 + j - 1) as nat == 52 + j);
            lemma_pow2_unfold(52 + j);
            rounding::lemma_bit_length_unique(below, 52 + j);
            assert(below == 0x1f_ffff_ffff_ffff * h + (h - delta));
            lemma_fundamental_div_mod_converse(
                below as int,
                h as int,
                0x1f_ffff_ffff_ffff,
                h - delta,
            );
            assert(rounding::excess(below, 53) == (j - 1) as nat);
            assert(rounding::half_even(below, h) == 0x20_0000_0000_0000);
            assert(0x20_0000_0000_0000 * h == m * d) by (nonlinear_arith)
                requires
                    m == 0x10_0000_0000_0000,
                    d == 2 * h,
            ;
            assert(rounding::round_to(below, 53) == 0x20_0000_0000_0000 * h);
        }
    }
}

/// Whether `q * 2^t` is less than `m * 2^j`.
fn scaled_less(q: u128, t: u32, m: u128, j: u32) -> (less: bool)
    requires
        q <= 0x20_0000_0000_0000,
        m <= 0x20_0000_0000_0000,
    ensures
        less == (q * pow2(t as nat) < m * pow2(j as nat)),
{
    proof {
        lemma2_to64();
        lemma2_to64_rest();
        lemma_pow2_pos(t as nat);
        lemma_pow2_pos(j as nat);
    }
    if t >= j {
        let d: u32 = t - j;
        proof {
            lemma_pow2_adds(d as nat, j as nat);
            lemma_pow2_pos(d as nat);
            assert((q * pow2(t as nat) < m * pow2(j as nat)) == (q * pow2(d as nat) < m))
                by (nonlinear_arith)
                requires
                    pow2(t as nat) == pow2(d as nat) * pow2(j as nat),
                    pow2(j as nat) > 0,
            ;
            if d > 64 {
                lemma_pow2_strictly_increases(64, d as nat);
            }
        }
        if d >= 64 {
            proof {
                if q > 0 {
                    assert(q * pow2(d as nat) >= m) by (nonlinear_arith)
                        requires
                            q >= 1,
                            pow2(d as nat) >= m,
                    ;
                } else {
                    assert(q * pow2(d as nat) == 0) by (nonlinear_arith)
                        requires
                            q == 0,
                    ;
                }
            }
            return q == 0 && m > 0;
        }
        proof {
            lemma_pow2_strictly_increases(d as nat, 64);
            assert(q * pow2(d as nat) <= 0x20_0000_0000_0000 * 0x1_0000_0000_0000_0000)
                by (nonlinear_arith)
                requires
                    q <= 0x20_0000_0000_0000,
                    pow2(d as nat) <= 0x1_0000_0000_0000_0000,
            ;
        }
        q * rounding::power_of_two(d) < m
    } else {
        let d: u32 = j - t;
        proof {
            lemma_pow2_adds(d as nat, t as nat);
            lemma_pow2_pos(d as nat);
            assert((q * pow2(t as nat) < m * pow2(j as nat)) == (q < m * pow2(d as nat)))
                by (nonlinear_arith)
                requires
                    pow2(j as nat) == pow2(d as nat) * pow2(t as nat),
                    pow2(t as nat) > 0,
            ;
            if d > 64 {
                lemma_pow2_strictly_increases(64, d as nat);
            }
        }
        if d >= 64 {
            proof {
                if m > 0 {
                    assert(m * pow2(d as nat) > q) by (nonlinear_arith)
                        requires
                            m >= 1,
                            pow2(d as nat) > q,
                    ;
                } else {
                    assert(m * pow2(d as nat) == 0) by (nonlinear_arith)
                        requires
                            m == 0,
                    ;
                }
            }
            return m > 0;
        }
        proof {
            lemma_pow2_strictly_increases(d as nat, 64);
            assert(m * pow2(d as nat) <= 0x20_0000_0000_0000 * 0x1_0000_0000_0000_0000)
                by (nonlinear_arith)
                requires
                    m <= 0x20_0000_0000_0000,
                    pow2(d as nat) <= 0x1_0000_0000_0000_0000,
            ;
        }
        q < m * rounding::power_of_two(d)
    }
}

/// The value of [`thousandth`].
proof fn lemma_thousandth()
    ensures
        thousandth().finite(),
        !thousandth().negative(),
        thousandth().significand() == 0x10_624D_D2F1_A9FC,
        thousandth().scale() == 1012,
{
}

/// The sum of `a` and a thousandth, rounded: where the two are close enough in size to
/// meet, in the form `(-1)^negative * q * 2^t`.
fn sum(a: Double) -> (parts: (bool, u128, u32))
    requires
        a.finite(),
        958 <= a.scale() <= 1066,
    ensures
        parts.1 <= 0x20_0000_0000_0000,
        rounded(a.units() + thousandth().units()) == if parts.0 {
            -(parts.1 * pow2(parts.2 as nat))
        } else {
            parts.1 * pow2(parts.2 as nat)
        },
{
    let (m, j): (u64, u32) = a.parts();
    let c: u128 = 0x10_624D_D2F1_A9FC;
    let low: u32 = if j < 1012 {
        j
    } else {
        1012
    };
    let ghost unit = pow2(low as nat);
    proof {
        lemma_thousandth();
        lemma2_to64();
        lemma2_to64_rest();
        lemma_pow2_strictly_increases((j - low) as nat, 64);
        lemma_pow2_strictly_increases((1012 - low) as nat, 64);
        lemma_pow2_adds((j - low) as nat, low as nat);
        lemma_pow2_adds((1012 - low) as nat, low as nat);
        assert(m * pow2((j - low) as nat) <= 0x20_0000_0000_0000 * 0x1_0000_0000_0000_0000)
            by (nonlinear_arith)
            requires
                m <= 0x20_0000_0000_0000,
                pow2((j - low) as nat) <= 0x1_0000_0000_0000_0000,
        ;
        assert(c * pow2((1012 - low) as nat) <= 0x20_0000_0000_0000 * 0x1_0000_0000_0000_0000)
            by (nonlinear_arith)
            requires
                c <= 0x20_0000_0000_0000,
                pow2((1012 - low) as nat) <= 0x1_0000_0000_0000_0000,
        ;
    }
    let mine: u128 = m as u128 * rounding::power_of_two(j - low);
    let its: u128 = c * rounding::power_of_two(1012 - low);
    proof {
        assert(a.magnitude() == mine * unit) by (nonlinear_arith)
            requires
                a.magnitude() == m * (pow2((j - low) as nat) * unit),
                mine == m * pow2((j - low) as nat),
        ;
        assert(thousandth().units() == its * unit) by (nonlinear_arith)
            requires
                thousandth().units() == c * (pow2((1012 - low) as nat) * unit),
                its == c * pow2((1012 - low) as nat),
        ;
    }
    let (negative, total): (bool, u128) = if !a.is_negative() {
        (false, mine + its)
    } else if mine <= its {
        (false, its - mine)
    } else {
        (true, mine - its)
    };
    proof {
        assert(mine * unit + its * unit == (mine + its) * unit) by (nonlinear_arith);
        assert(its * unit - mine * unit == (its - mine) * unit) by (nonlinear_arith);
        assert(mine * unit - its * unit == (mine - its) * unit) by (nonlinear_arith);
        assert(a.units() + thousandth().units() == if negative {
            -(total * unit)
        } else {
            total * unit
        });
        lemma_pow2_pos(low as nat);
        assert(total * unit >= 0) by (nonlinear_arith)
            requires
                total >= 0,
                unit > 0,
        ;
        lemma_pow2_adds(64, 54);
        lemma_pow2_unfold(54);
        rounding::lemma_bit_length_at_most(total as nat, 118);
        rounding::lemma_half_even_bound(total as nat, 53);
        rounding::lemma_round_scale(total as nat, low as nat, 53);
    }
    let length: u32 = rounding::length_in_bits(total);
    let shift: u32 = if length > 53 {
        length - 53
    } else {
        0
    };
    let q: u128 = rounding::shift_half_even(total, shift);
    proof {
        lemma_pow2_adds(shift as nat, low as nat);
        assert((q as nat * pow2(shift as nat)) * unit == q as nat * (pow2(shift as nat) * unit))
            by (nonlinear_arith);
        if negative {
            assert(total * unit > 0) by (nonlinear_arith)
                requires
                    total > 0,
                    unit > 0,
            ;
        }
    }
    (negative, q, shift + low)
}

/// Whether the clock `elapsed` stands more than a thousandth behind `old`.
pub fn clock_fell_back(elapsed: Double, old: Double) -> (yes: bool)
    requires
        elapsed.finite(),
    ensures
        yes == fell_back(elapsed, old),
{
    let (m, j): (u64, u32) = elapsed.parts();
    proof {
        lemma_thousandth();
        lemma2_to64();
        lemma2_to64_rest();
    }
    if old.is_nan() {
        return false;
    }
    if j >= 1067 {
        proof {
            let delta = thousandth().magnitude();
            lemma_pow2_adds(53, 1012);
            lemma_pow2_pos(1012);
            if j > 1067 {
                lemma_pow2_strictly_increases(1065, (j - 2) as nat);
            }
            assert(delta < pow2(1065)) by (nonlinear_arith)
                requires
                    delta == 0x10_624D_D2F1_A9FC * pow2(1012),
                    pow2(1065) == 0x20_0000_0000_0000 * pow2(1012),
                    pow2(1012) > 0,
            ;
            lemma_round_absorbs(m as nat, j as nat, delta);
        }
        return elapsed.less_than(old);
    }
    if j < 958 {
        proof {
            let delta = elapsed.magnitude();
            lemma_pow2_adds(53, j as nat);
            lemma_pow2_pos(j as nat);
            if j < 957 {
                lemma_pow2_strictly_increases((53 + j) as nat, 1010);
            }
            assert(delta < pow2((53 + j) as nat)) by (nonlinear_arith)
                requires
                    delta == m * pow2(j as nat),
                    m < 0x20_0000_0000_0000,
                    pow2((53 + j) as nat) == 0x20_0000_0000_0000 * pow2(j as nat),
                    pow2(j as nat) > 0,
            ;
            lemma_round_absorbs(thousandth().significand(), 1012, delta);
        }
        return Double::from_bits(THOUSANDTH_BITS).less_than(old);
    }
    let (negative, q, t): (bool, u128, u32) = sum(elapsed);
    let (n, k): (u64, u32) = old.parts();
    let ghost left = q * pow2(t as nat);
    proof {
        lemma_pow2_pos(t as nat);
        assert(left >= 0) by (nonlinear_arith)
            requires
                left == q * pow2(t as nat),
                q >= 0,
                pow2(t as nat) > 0,
        ;
    }
    match (negative, old.is_negative()) {
        (false, false) => scaled_less(q, t, n as u128, k),
        (true, true) => scaled_less(n as u128, k, q, t),
        (true, false) => {
            proof {
                if q == 0 {
                    assert(left == 0) by (nonlinear_arith)
                        requires
                            left == q * pow2(t as nat),
                            q == 0,
                    ;
                } else {
                    assert(left > 0) by (nonlinear_arith)
                        requires
                            left == q * pow2(t as nat),
                            q > 0,
                            pow2(t as nat) > 0,
                    ;
                }
            }
            q > 0 || !old.is_zero()
        },
        (false, true) => false,
    }
}

/// Rounding does not pass a double: what is no less than a double is not rounded to less.
proof fn lemma_rounding_stops_at_doubles(x: int, number: Double)
    requires
        number.finite(),
        x >= number.units(),
    ensures
        rounded(x) >= number.units(),
{
    let y = number.magnitude();
    lemma2_to64();
    lemma2_to64_rest();
    assert(rounding::scaled(number.significand(), number.scale()) == y);
    assert(rounding::fits(y, 53));
    if x >= 0 {
        rounding::law_rounding_is_nearest(x as nat, 53, y);
    } else {
        rounding::law_rounding_is_nearest((-x) as nat, 53, y);
    }
}

/// A clock that runs on, or stands still, has not fallen back.
pub proof fn law_running_clock_has_not_fallen_back(elapsed: Double, old: Double)
    requires
        old.finite(),
        elapsed.units() >= old.units(),
    ensures
        !fell_back(elapsed, old),
{
    lemma_thousandth();
    assert(thousandth().units() >= 0);
    lemma_rounding_stops_at_doubles(elapsed.units() + thousandth().units(), old);
}

/// The last place, as a power of two in units of 2^-1074, of the single nearest to a
/// magnitude: 24 significant bits, but none below 2^-149.
pub open spec fn single_place(x: nat) -> nat {
    if rounding::bit_length(x) > 949 {
        (rounding::bit_length(x) - 24) as nat
    } else {
        925
    }
}

/// A pedal position: what is not finite or lies below zero is zero, what lies above one
/// is one, and anything else is the nearest single, with the sign of a zero kept. Each
/// power of two that the last place gains counts 2^23 in the bits.
pub open spec fn normalized(value: Double) -> Single {
    let x = value.magnitude();
    if !value.finite() || value.units() < 0 {
        Single { bits: 0 }
    } else if x > pow2(1074) {
        Single { bits: 0x3f80_0000 }
    } else {
        let unsigned = (single_place(x) - 925) * 0x80_0000 + rounding::half_even(
            x,
            pow2(single_place(x)),
        );
        Single {
            bits: (unsigned + if value.negative() {
                0x8000_0000int
            } else {
                0
            }) as u32,
        }
    }
}

/// The quotient by the last place of a magnitude up to one.
proof fn lemma_single_place(x: nat)
    requires
        x <= pow2(1074),
    ensures
        925 <= single_place(x) <= 1051,
        rounding::half_even(x, pow2(single_place(x))) <= 0x100_0000,
        single_place(x) > 925 ==> rounding::half_even(x, pow2(single_place(x))) >= 0x80_0000,
        single_place(x) == 1051 ==> rounding::half_even(x, pow2(single_place(x))) == 0x80_0000,
{
    let b = rounding::bit_length(x);
    let p = single_place(x);
    let d = pow2(p);
    lemma2_to64();
    lemma_pow2_pos(p);
    lemma_pow2_unfold(1075);
    lemma_pow2_pos(1074);
    rounding::lemma_bit_length_at_most(x, 1075);
    if b > 949 {
        rounding::lemma_half_even_bound(x, 24);
        rounding::lemma_bit_length_bounds(x);
        lemma_pow2_adds(23, p);
        lemma_fundamental_div_mod(x as int, d as int);
        assert(x / d >= 0x80_0000) by (nonlinear_arith)
            requires
                x >= 0x80_0000 * d,
                x == d * (x / d) + x % d,
                x % d < d,
                d > 0,
        ;
        if p == 1051 {
            assert(x == 0x80_0000 * d);
            rounding::lemma_half_even_exact(0x80_0000, d);
        }
    } else {
        if x > 0 {
            rounding::lemma_bit_length_bounds(x);
            if b < 949 {
                lemma_pow2_strictly_increases(b, 949);
            }
        } else {
            lemma_pow2_pos(949);
        }
        lemma_pow2_adds(24, 925);
        lemma_fundamental_div_mod(x as int, d as int);
        assert(x / d < 0x100_0000) by (nonlinear_arith)
            requires
                x < 0x100_0000 * d,
                x == d * (x / d) + x % d,
                x % d >= 0,
                d > 0,
        ;
    }
}

/// The bits of a quotient and its place make up the single with that value.
proof fn lemma_single_bits(t: nat, q: nat, r: Single)
    requires
        t <= 126,
        q <= 0x100_0000,
        t > 0 ==> q >= 0x80_0000,
        r.unsigned_bits() == t * 0x80_0000 + q,
    ensures
        r.finite(),
        r.magnitude() == q * pow2(t),
{
    lemma2_to64();
    lemma_pow2_unfold(t + 1);
    if q < 0x80_0000 {
        assert(r.exponent_field() == 0);
        assert(r.significand() == q);
        assert(q * pow2(0) == q);
    } else if q < 0x100_0000 {
        assert(r.exponent_field() == t + 1);
        assert(r.significand() == q);
    } else {
        assert(r.exponent_field() == t + 2);
        assert(r.significand() == 0x80_0000);
        assert(0x80_0000 * (2 * pow2(t)) == 0x100_0000 * pow2(t));
    }
}

/// A pedal position lies from zero to one, and that of a number from zero to one is the
/// nearest single: the number rounded to the last place that singles of its size have.
pub proof fn law_normalized_value(value: Double)
    ensures
        normalized(value).finite(),
        normalized(value).magnitude() <= pow2(149),
        normalized(value).negative() ==> normalized(value).magnitude() == 0,
        value.finite() && 0 <= value.units() <= pow2(1074) ==> normalized(value).magnitude() * pow2(
            925,
        ) == rounding::half_even(value.magnitude(), pow2(single_place(value.magnitude()))) * pow2(
            single_place(value.magnitude()),
        ),
{
    let x = value.magnitude();
    let r = normalized(value);
    lemma2_to64();
    if !value.finite() || value.units() < 0 {
        lemma_single_bits(0, 0, r);
        assert(0 * pow2(0) == 0);
        lemma_pow2_pos(149);
        if value.finite() && 0 <= value.units() {
            assert(false);
        }
    } else if x > pow2(1074) {
        lemma_single_bits(126, 0x80_0000, r);
        lemma_pow2_adds(23, 126);
    } else {
        lemma_single_place(x);
        let p = single_place(x);
        let t = (p - 925) as nat;
        let q = rounding::half_even(x, pow2(p));
        lemma_single_bits(t, q, r);
        lemma_pow2_adds(t, 925);
        assert((q * pow2(t)) * pow2(925) == q * (pow2(t) * pow2(925))) by (nonlinear_arith);
        lemma_pow2_adds(23, 126);
        lemma_pow2_adds(24, 125);
        if t < 126 {
            if t < 125 {
                lemma_pow2_strictly_increases(t, 125);
            }
            assert(q * pow2(t) <= 0x100_0000 * pow2(125)) by (nonlinear_arith)
                requires
                    q <= 0x100_0000,
                    pow2(t) <= pow2(125),
            ;
        }
        if value.negative() {
            assert(x == 0);
            lemma_pow2_pos(925);
            rounding::lemma_half_even_exact(0, pow2(925));
            assert(0 * pow2(925) == 0 && 0 * pow2(0) == 0) by (nonlinear_arith);
        }
    }
}

/// Converts a pedal input to a position from zero to one.
pub fn normalize_input(value: Double) -> (position: Single)
    ensures
        position == normalized(value),
{
    if !value.is_finite() || (value.is_negative() && !value.is_zero()) {
        return Single::from_bits(0);
    }
    let (m, j): (u64, u32) = value.parts();
    let length: u32 = rounding::length_in_bits(m as u128);
    proof {
        lemma2_to64();
        lemma2_to64_rest();
        lemma_pow2_pos(j as nat);
        rounding::lemma_bit_length_at_most(m as nat, 53);
        if m > 0 {
            rounding::lemma_bit_length_scale(m as nat, j as nat);
        } else {
            assert(value.magnitude() == 0) by (nonlinear_arith)
                requires
                    value.magnitude() == m * pow2(j as nat),
                    m == 0,
            ;
        }
        if j > 0 {
            rounding::lemma_bit_length_unique(m as nat, 53);
        }
    }
    let one: Double = Double::from_bits(0x3ff0_0000_0000_0000);
    proof {
        lemma_pow2_adds(52, 1022);
        assert(one.significand() == 0x10_0000_0000_0000 && one.scale() == 1022);
    }
    if one.less_than(value) {
        return Single::from_bits(0x3f80_0000);
    }
    let ghost x = value.magnitude();
    let place: u32 = if length + j > 949 {
        length + j - 24
    } else {
        925
    };
    let shift: u32 = place - j;
    proof {
        lemma_single_place(x);
        assert(place == single_place(x));
        lemma_pow2_adds(shift as nat, j as nat);
        lemma_pow2_pos(shift as nat);
        rounding::lemma_half_even_scale(m as nat, pow2(shift as nat), pow2(j as nat));
    }
    let q: u128 = if shift >= 64 {
        proof {
            if shift > 64 {
                lemma_pow2_strictly_increases(64, shift as nat);
            }
            lemma_fundamental_div_mod_converse(m as int, pow2(shift as nat) as int, 0, m as int);
        }
        0
    } else {
        rounding::shift_half_even(m as u128, shift)
    };
    let unsigned: u32 = (place - 925) * 0x80_0000 + q as u32;
    if value.is_negative() {
        Single::from_bits(0x8000_0000 + unsigned)
    } else {
        Single::from_bits(unsigned)
    }
}

/// The distance of two numbers.
spec fn distance(a: int, b: int) -> int {
    if a >= b {
        a - b
    } else {
        b - a
    }
}

/// No multiple of `d` is nearer than the one that a number is rounded to, and that one is no
/// further than half of `d`.
proof fn lemma_nearest_multiple(x: nat, d: nat, m: nat)
    requires
        d > 0,
    ensures
        2 * distance((rounding::half_even(x, d) * d) as int, x as int) <= d,
        distance((rounding::half_even(x, d) * d) as int, x as int) <= distance(
            (m * d) as int,
            x as int,
        ),
{
    let below = x / d;
    let rest = x % d;
    lemma_fundamental_div_mod(x as int, d as int);
    assert(x == below * d + rest) by (nonlinear_arith)
        requires
            x == d * below + rest,
    ;
    assert((below + 1) * d == below * d + d) by (nonlinear_arith);
    if m <= below {
        assert(m * d <= below * d) by (nonlinear_arith)
            requires
                m <= below,
        ;
    } else {
        assert(m * d >= (below + 1) * d) by (nonlinear_arith)
            requires
                m >= below + 1,
        ;
    }
}

/// The rounding to a double adds or takes no more than one part in 2^53.
proof fn lemma_relative_error(x: nat)
    ensures
        pow2(53) * distance(rounding::round_to(x, 53) as int, x as int) <= x,
{
    let e = rounding::excess(x, 53);
    let d = pow2(e);
    let far = distance(rounding::round_to(x, 53) as int, x as int);
    lemma_pow2_pos(e);
    lemma2_to64();
    lemma2_to64_rest();
    if e == 0 {
        rounding::lemma_half_even_exact(x, 1);
        assert(x * 1 == x);
        assert(far == 0);
        assert(pow2(53) * far == 0) by (nonlinear_arith)
            requires
                far == 0,
        ;
    } else {
        lemma_nearest_multiple(x, d, 0);
        rounding::lemma_bit_length_bounds(x);
        lemma_pow2_adds(52, e);
        assert((rounding::bit_length(x) - 1) as nat == 52 + e);
        assert(pow2(53) * far <= pow2(52) * d) by (nonlinear_arith)
            requires
                2 * far <= d,
                pow2(53) == 2 * pow2(52),
        ;
    }
}

/// A time in milliseconds lies within half a millisecond of 1000 times the seconds, but for
/// the rounding of that product to a double, which is one part in 2^53 at most. The seconds
/// count 2^-1074 here.
pub proof fn law_milliseconds_are_nearest(seconds: Double, ms: u64)
    requires
        milliseconds_of(seconds) == Some(ms),
        ms < u64::MAX,
    ensures
        ({
            let exact = 1000 * seconds.units();
            let found = ms * pow2(1074);
            let apart = if found >= exact {
                found - exact
            } else {
                exact - found
            };
            pow2(54) * apart <= pow2(1127) + 2 * exact
        }),
{
    let x = 1000 * seconds.magnitude();
    let p = rounding::round_to(x, 53);
    let d = pow2(1074);
    lemma_relative_error(x);
    lemma_pow2_pos(1073);
    lemma_pow2_unfold(1074);
    lemma2_to64();
    lemma2_to64_rest();
    let n = nearest_integer(p);
    lemma_fundamental_div_mod((p + pow2(1073)) as int, d as int);
    assert(n == ms);
    let rest = ((p + pow2(1073)) as int) % (d as int);
    assert(n * d == d * n) by (nonlinear_arith);
    let apart = distance((n * d) as int, x as int);
    let (one, two) = (distance((n * d) as int, p as int), distance(p as int, x as int));
    assert(2 * one <= d);
    assert(apart <= one + two);
    lemma_pow2_adds(53, 1074);
    lemma_pow2_unfold(54);
    assert(pow2(54) * apart <= pow2(53) * d + 2 * x) by (nonlinear_arith)
        requires
            apart <= one + two,
            2 * one <= d,
            pow2(53) * two <= x,
            pow2(54) == 2 * pow2(53),
            pow2(53) > 0,
    ;
}

/// A number of seconds has a time in milliseconds if it is finite, above zero and no more than
/// 2^64 milliseconds, and none if it is not finite, not above zero, or more than those by the
/// last place of a double.
pub proof fn law_which_times_are_known(seconds: Double)
    ensures
        seconds.finite() && 0 < seconds.units() && 1000 * seconds.units() <= pow2(1138)
            ==> milliseconds_of(seconds) is Some,
        !seconds.finite() || seconds.units() <= 0 || 1000 * seconds.units() >= pow2(1138) + pow2(
            1086,
        ) ==> milliseconds_of(seconds) is None,
{
    let x = 1000 * seconds.magnitude();
    let p = rounding::round_to(x, 53);
    let d = pow2(1074);
    lemma2_to64();
    lemma2_to64_rest();
    lemma_pow2_pos(1073);
    lemma_pow2_unfold(1074);
    lemma_pow2_adds(64, 1074);
    lemma_pow2_adds(12, 1074);
    lemma_pow2_adds(52, 1086);
    let n = nearest_integer(p);
    lemma_fundamental_div_mod((p + pow2(1073)) as int, d as int);
    assert(n * d == d * n) by (nonlinear_arith);
    if x <= pow2(1138) {
        let y = pow2(1138);
        assert(1 * y == y) by (nonlinear_arith);
        assert(rounding::scaled(1, 1138) == y);
        assert(rounding::fits(y, 53));
        rounding::law_rounding_is_nearest(x, 53, y);
        assert(p <= y);
        assert(n <= pow2(64)) by (nonlinear_arith)
            requires
                n * d <= p + pow2(1073),
                p <= pow2(64) * d,
                2 * pow2(1073) == d,
                d > 0,
        ;
    }
    if x >= pow2(1138) + pow2(1086) {
        let s = (pow2(52) + 1) as nat;
        let y = s * pow2(1086);
        assert(y == pow2(1138) + pow2(1086)) by (nonlinear_arith)
            requires
                y == s * pow2(1086),
                s == pow2(52) + 1,
                pow2(1138) == pow2(52) * pow2(1086),
        ;
        assert(rounding::scaled(s, 1086) == y);
        assert(rounding::fits(y, 53));
        rounding::law_rounding_is_nearest(x, 53, y);
        assert(p >= y);
        assert(n > pow2(64)) by (nonlinear_arith)
            requires
                n * d + d > p + pow2(1073),
                p >= pow2(64) * d + pow2(12) * d,
                pow2(12) == 4096,
                d > 0,
        ;
    }
}

/// The pedal position for a number from zero to one is the nearest single, with its sign: no
/// finite single is nearer. A single counts 2^-149, a double 2^-1074. What is above one has
/// the position one, what is below zero or not finite the position zero.
pub proof fn law_normalized_is_nearest(value: Double, other: Single)
    ensures
        value.finite() && 0 <= value.units() <= pow2(1074) && other.finite() ==> {
            let found = normalized(value).magnitude() * pow2(925);
            let rival = other.magnitude() * pow2(925);
            let exact = value.units();
            (if found >= exact { found - exact } else { exact - found }) <= (if rival >= exact {
                rival - exact
            } else {
                exact - rival
            })
        },
        value.finite() && 0 <= value.units() <= pow2(1074) ==> normalized(value).negative()
            == value.negative(),
        value.finite() && value.units() > pow2(1074) ==> normalized(value).bits == 0x3f80_0000,
        !value.finite() || value.units() < 0 ==> normalized(value).bits == 0,
{
    law_normalized_value(value);
    let x = value.magnitude();
    if value.finite() && 0 <= value.units() <= pow2(1074) {
        lemma_single_place(x);
        let p = single_place(x);
        lemma_pow2_pos(p);
        if other.finite() {
            let rival = other.magnitude() * pow2(925);
            if rounding::bit_length(x) > 949 {
                lemma2_to64();
                lemma_pow2_adds(other.scale(), 925);
                let (s, e) = (other.significand(), other.scale());
                assert(rival == s * pow2((e + 925) as nat)) by (nonlinear_arith)
                    requires
                        rival == (s * pow2(e)) * pow2(925),
                        pow2((e + 925) as nat) == pow2(e) * pow2(925),
                ;
                assert(rounding::scaled(s, (e + 925) as nat) == rival);
                assert(rounding::fits(rival, 24));
                rounding::law_rounding_is_nearest(x, 24, rival);
            } else {
                lemma_nearest_multiple(x, pow2(925), other.magnitude());
            }
        }
    }
}

/// The clock has not fallen back where, with a thousandth added, it lies no further back, and
/// it has where even a number between the sum and the old time is a double. The thousandth is
/// that of doubles, a little more than 2^1074 / 1000 units.
pub proof fn law_clock_falls_back_by_a_thousandth(elapsed: Double, old: Double, between: Double)
    ensures
        1000 * thousandth().units() == pow2(1074) + 96 * pow2(1012),
        old.finite() && elapsed.units() + thousandth().units() >= old.units() ==> !fell_back(
            elapsed,
            old,
        ),
        !old.nan() && between.finite() && elapsed.units() + thousandth().units() <= between.units()
            < old.units() ==> fell_back(elapsed, old),
        old.nan() ==> !fell_back(elapsed, old),
{
    lemma_thousandth();
    lemma2_to64();
    lemma2_to64_rest();
    lemma_pow2_adds(62, 1012);
    let sum = elapsed.units() + thousandth().units();
    if old.finite() && sum >= old.units() {
        lemma_rounding_stops_at_doubles(sum, old);
    }
    if between.finite() && sum <= between.units() {
        lemma_rounding_stops_above(sum, between);
    }
}

/// Rounding does not pass a double: what is no more than a double is not rounded to more.
proof fn lemma_rounding_stops_above(x: int, number: Double)
    requires
        number.finite(),
        x <= number.units(),
    ensures
        rounded(x) <= number.units(),
{
    let y = number.magnitude();
    lemma2_to64();
    lemma2_to64_rest();
    assert(rounding::scaled(number.significand(), number.scale()) == y);
    assert(rounding::fits(y, 53));
    if x >= 0 {
        rounding::law_rounding_is_nearest(x as nat, 53, y);
    } else {
        rounding::law_rounding_is_nearest((-x) as nat, 53, y);
    }
}

} // verus!
