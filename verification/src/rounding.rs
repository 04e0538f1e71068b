//! Rounding of whole numbers to a number of significant bits, to the nearest and
//! ties to even: the rounding of every floating-point operation.

use vstd::arithmetic::div_mod::*;
use vstd::arithmetic::mul::*;
use vstd::arithmetic::power2::*;
use vstd::prelude::*;

verus! {

/// How many bits the binary notation of `x` has; none for zero.
pub open spec fn bit_length(x: nat) -> nat
    decreases x,
{
    if x == 0 {
        0
    } else {
        1 + bit_length(x / 2)
    }
}

/// The whole number nearest to `x / d`; of two that are equally near, the even one.
pub open spec fn half_even(x: nat, d: nat) -> nat
    recommends
        d > 0,
{
    let below = x / d;
    let rest = x % d;
    if 2 * rest < d || (2 * rest == d && below % 2 == 0) {
        below
    } else {
        below + 1
    }
}

/// By how many bits the notation of `x` exceeds `precision` bits.
pub open spec fn excess(x: nat, precision: nat) -> nat {
    if bit_length(x) > precision {
        (bit_length(x) - precision) as nat
    } else {
        0
    }
}

/// `x` rounded to `precision` significant bits.
pub open spec fn round_to(x: nat, precision: nat) -> nat {
    half_even(x, pow2(excess(x, precision))) * pow2(excess(x, precision))
}

/// `s` followed by `e` zero bits.
pub open spec fn scaled(s: nat, e: nat) -> nat {
    s * pow2(e)
}

/// Whether `y` has at most `precision` significant bits.
pub open spec fn fits(y: nat, precision: nat) -> bool {
    exists|s: nat, e: nat| s < pow2(precision) && y == #[trigger] scaled(s, e)
}

pub proof fn lemma_bit_length_bounds(x: nat)
    requires
        x > 0,
    ensures
        bit_length(x) > 0,
        pow2((bit_length(x) - 1) as nat) <= x < pow2(bit_length(x)),
    decreases x,
{
    lemma2_to64();
    if x > 1 {
        lemma_bit_length_bounds(x / 2);
        lemma_pow2_unfold(bit_length(x));
        lemma_pow2_unfold(bit_length(x / 2));
    } else {
        assert(bit_length(1) == 1 + bit_length(0));
        assert(bit_length(0) == 0);
    }
}

/// `bit_length` is the only length with these bounds.
pub proof fn lemma_bit_length_unique(x: nat, n: nat)
    requires
        n > 0,
        pow2((n - 1) as nat) <= x < pow2(n),
    ensures
        bit_length(x) == n,
{
    lemma_pow2_pos((n - 1) as nat);
    lemma_bit_length_bounds(x);
    let b = bit_length(x);
    if b < n {
        if b < n - 1 {
            lemma_pow2_strictly_increases(b, (n - 1) as nat);
        }
    } else if b > n {
        if n < b - 1 {
            lemma_pow2_strictly_increases(n, (b - 1) as nat);
        }
    }
}

/// A length that bounds `x` bounds `bit_length`.
pub proof fn lemma_bit_length_at_most(x: nat, n: nat)
    requires
        x < pow2(n),
    ensures
        bit_length(x) <= n,
{
    if x > 0 {
        lemma_bit_length_bounds(x);
        if bit_length(x) > n {
            let b = (bit_length(x) - 1) as nat;
            if n < b {
                lemma_pow2_strictly_increases(n, b);
            }
        }
    }
}

/// Multiplying by a power of two appends that many bits.
pub proof fn lemma_bit_length_scale(x: nat, j: nat)
    requires
        x > 0,
    ensures
        bit_length(x * pow2(j)) == bit_length(x) + j,
{
    let n = bit_length(x);
    lemma_bit_length_bounds(x);
    lemma_pow2_adds((n - 1) as nat, j);
    lemma_pow2_adds(n, j);
    lemma_pow2_pos(j);
    let (lo, hi, c) = (pow2((n - 1) as nat), pow2(n), pow2(j));
    assert(lo * c <= x * c < hi * c) by (nonlinear_arith)
        requires
            lo <= x < hi,
            c > 0,
    ;
    assert((n - 1) as nat + j == (n + j - 1) as nat);
    lemma_bit_length_unique(x * c, n + j);
}

/// A common factor leaves quotient and rounding as they are.
pub proof fn lemma_half_even_scale(x: nat, d: nat, c: nat)
    requires
        d > 0,
        c > 0,
    ensures
        d * c > 0,
        half_even(x * c, d * c) == half_even(x, d),
        (x * c) / (d * c) == x / d,
{
    let q = x / d;
    let r = x % d;
    lemma_fundamental_div_mod(x as int, d as int);
    assert(d * c > 0) by (nonlinear_arith)
        requires
            d > 0,
            c > 0,
    ;
    assert(x * c == q * (d * c) + r * c) by (nonlinear_arith)
        requires
            x == d * q + r,
    ;
    assert(0 <= r * c < d * c) by (nonlinear_arith)
        requires
            0 <= r < d,
            c > 0,
    ;
    lemma_fundamental_div_mod_converse((x * c) as int, (d * c) as int, q as int, (r * c) as int);
    assert(2 * (r * c) < d * c <==> 2 * r < d) by (nonlinear_arith)
        requires
            c > 0,
    ;
    assert(2 * (r * c) == d * c <==> 2 * r == d) by (nonlinear_arith)
        requires
            c > 0,
    ;
}

/// A multiple of `d` is rounded to its quotient.
pub proof fn lemma_half_even_exact(q: nat, d: nat)
    requires
        d > 0,
    ensures
        half_even(q * d, d) == q,
{
    lemma_fundamental_div_mod_converse((q * d) as int, d as int, q as int, 0);
}

/// Rounding to a number of significant bits commutes with multiplication by a
/// power of two.
pub proof fn lemma_round_scale(x: nat, j: nat, precision: nat)
    ensures
        round_to(x * pow2(j), precision) == round_to(x, precision) * pow2(j),
{
    let c = pow2(j);
    lemma_pow2_pos(j);
    lemma2_to64();
    if x == 0 {
        assert(0 * c == 0);
        assert(bit_length(0) == 0);
        assert(half_even(0, 1) == 0);
        return ;
    }
    lemma_bit_length_scale(x, j);
    let k = excess(x, precision);
    let k2 = excess(x * c, precision);
    lemma_pow2_pos(k);
    lemma_pow2_pos(k2);
    if bit_length(x) > precision {
        assert(k2 == k + j);
        lemma_pow2_adds(k, j);
        lemma_half_even_scale(x, pow2(k), c);
        let q = half_even(x, pow2(k));
        assert(q * (pow2(k) * c) == (q * pow2(k)) * c) by (nonlinear_arith);
    } else {
        assert(k == 0 && k2 <= j);
        lemma_half_even_exact(x, 1);
        assert(x * 1 == x);
        let rest = (j - k2) as nat;
        lemma_pow2_adds(rest, k2);
        assert(x * (pow2(rest) * pow2(k2)) == (x * pow2(rest)) * pow2(k2)) by (nonlinear_arith);
        lemma_half_even_exact(x * pow2(rest), pow2(k2));
    }
}

/// A quotient of `precision` bits stays within them, or reaches the next power.
pub proof fn lemma_half_even_bound(x: nat, precision: nat)
    requires
        precision > 0,
    ensures
        half_even(x, pow2(excess(x, precision))) <= pow2(precision),
        x > 0 ==> half_even(x, pow2(excess(x, precision))) > 0,
{
    let k = excess(x, precision);
    lemma_pow2_pos(k);
    lemma_pow2_pos(precision);
    lemma2_to64();
    if x == 0 {
        assert(bit_length(0) == 0);
    } else {
        lemma_bit_length_bounds(x);
        let d = pow2(k);
        lemma_pow2_adds(precision, k);
        if bit_length(x) > precision {
            assert(x < pow2(precision) * d);
            lemma_fundamental_div_mod(x as int, d as int);
            let q = x / d;
            assert(q < pow2(precision)) by (nonlinear_arith)
                requires
                    x < pow2(precision) * d,
                    x >= d * q,
                    d > 0,
            ;
            if k < bit_length(x) - 1 {
                lemma_pow2_strictly_increases(k, (bit_length(x) - 1) as nat);
            }
            if q == 0 {
                assert(d * q == 0) by (nonlinear_arith)
                    requires
                        q == 0,
                ;
            }
        } else {
            lemma_half_even_exact(x, 1);
            if bit_length(x) < precision {
                lemma_pow2_strictly_increases(bit_length(x), precision);
            }
        }
    }
}

/// Of all numbers with at most `precision` significant bits, none is nearer to
/// `x` than `x` rounded.
pub proof fn law_rounding_is_nearest(x: nat, precision: nat, y: nat)
    requires
        precision > 0,
        fits(y, precision),
    ensures
        fits(round_to(x, precision), precision),
        if round_to(x, precision) >= x {
            round_to(x, precision) - x <= if y >= x { y - x } else { x - y }
        } else {
            x - round_to(x, precision) <= if y >= x { y - x } else { x - y }
        },
{
    let k = excess(x, precision);
    let d = pow2(k);
    let q = half_even(x, d);
    lemma_pow2_pos(k);
    lemma_pow2_pos(precision);
    lemma2_to64();
    lemma_half_even_bound(x, precision);
    if q == pow2(precision) {
        lemma_pow2_adds(precision, k);
        assert(pow2(precision) * d == 1 * pow2(precision + k));
        lemma_pow2_strictly_increases(0, precision);
        assert(round_to(x, precision) == scaled(1, precision + k));
    } else {
        assert(round_to(x, precision) == scaled(q, k));
    }
    if k == 0 {
        lemma_half_even_exact(x, 1);
        return ;
    }
    lemma_fundamental_div_mod(x as int, d as int);
    lemma_bit_length_bounds(x);
    let below = x / d;
    let rest = x % d;
    assert((below + 1) * d == below * d + d) by (nonlinear_arith);
    assert(below * d == d * below) by (nonlinear_arith);
    let bottom = pow2((bit_length(x) - 1) as nat);
    lemma_pow2_adds((precision - 1) as nat, k);
    assert((precision - 1) as nat + k == (bit_length(x) - 1) as nat);
    let top = pow2((precision - 1) as nat);
    assert(bottom == top * d);
    assert(below >= top) by (nonlinear_arith)
        requires
            x >= top * d,
            x == d * below + rest,
            rest < d,
            d > 0,
    ;
    if y >= bottom {
        let (s, e) = choose|s: nat, e: nat|
            s < pow2(precision) && y == #[trigger] scaled(s, e);
        if e < k {
            // a number this large with so small an exponent has too many bits
            lemma_pow2_pos(e);
            lemma_pow2_adds(precision, e);
            assert(s * pow2(e) < pow2(precision) * pow2(e)) by (nonlinear_arith)
                requires
                    s < pow2(precision),
                    pow2(e) > 0,
            ;
            if precision + e < bit_length(x) - 1 {
                lemma_pow2_strictly_increases(precision + e, (bit_length(x) - 1) as nat);
            }
            assert(false);
        }
        let extra = (e - k) as nat;
        lemma_pow2_adds(extra, k);
        let n = s * pow2(extra);
        assert(y == n * d) by (nonlinear_arith)
            requires
                y == s * (pow2(extra) * d),
                n == s * pow2(extra),
        ;
        if n <= below {
            assert(n * d <= below * d) by (nonlinear_arith)
                requires
                    n <= below,
            ;
        } else {
            assert(n * d >= (below + 1) * d) by (nonlinear_arith)
                requires
                    n >= below + 1,
            ;
        }
    } else {
        assert(below * d >= top * d) by (nonlinear_arith)
            requires
                below >= top,
        ;
    }
}

/// Two to the power `n`.
pub fn power_of_two(n: u32) -> (p: u128)
    requires
        n < 128,
    ensures
        p == pow2(n as nat),
{
    let mut p: u128 = 1;
    let mut i: u32 = 0;
    proof {
        lemma2_to64();
    }
    while i < n
        invariant
            i <= n < 128,
            p == pow2(i as nat),
        decreases n - i,
    {
        proof {
            lemma_pow2_unfold((i + 1) as nat);
            if i < 126 {
                lemma_pow2_strictly_increases((i + 1) as nat, 127);
            }
            lemma_pow2_127();
        }
        p = p * 2;
        i = i + 1;
    }
    p
}

proof fn lemma_pow2_127()
    ensures
        pow2(127) == 0x8000_0000_0000_0000_0000_0000_0000_0000,
        pow2(128) == 0x1_0000_0000_0000_0000_0000_0000_0000_0000,
{
    lemma2_to64();
    lemma2_to64_rest();
    lemma_pow2_adds(64, 63);
    lemma_pow2_adds(64, 64);
}

/// The bit length of `x`.
pub fn length_in_bits(x: u128) -> (n: u32)
    ensures
        n == bit_length(x as nat),
        n <= 128,
{
    let mut rest: u128 = x;
    let mut n: u32 = 0;
    proof {
        lemma_pow2_127();
        lemma_bit_length_at_most(x as nat, 128);
    }
    while rest > 0
        invariant
            bit_length(x as nat) == n + bit_length(rest as nat),
            bit_length(x as nat) <= 128,
        decreases rest,
    {
        rest = rest / 2;
        n = n + 1;
    }
    n
}

/// `x / 2^shift`, rounded to the nearest whole number, ties to even.
pub fn shift_half_even(x: u128, shift: u32) -> (q: u128)
    requires
        shift < 128,
    ensures
        q == half_even(x as nat, pow2(shift as nat)),
{
    let d: u128 = power_of_two(shift);
    proof {
        lemma_pow2_pos(shift as nat);
        lemma2_to64();
    }
    let below: u128 = x / d;
    let rest: u128 = x % d;
    if rest < d - rest || (rest == d - rest && below % 2 == 0) {
        below
    } else {
        proof {
            assert(d != 1 ==> below <= x / 2) by (nonlinear_arith)
                requires
                    d >= 1,
                    below == x / d,
            ;
        }
        below + 1
    }
}

} // verus!
