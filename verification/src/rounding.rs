//! How a count becomes the figure a readout prints, and a share of a peak
//! the height of a bar.
//!
//! A readout divides the count by a power of ten and prints the quotient to a
//! fixed number of places. The quotient is the one a binary double gives: the
//! count is first taken to the nearest double (53 significant bits), divided
//! to the nearest double, and the exact value of that double is rounded to the
//! printed places, a tie going to the even last digit. Halfway counts such as
//! 1 000 500 Hz therefore print as the double falls (`1.000`, not `1.001`),
//! and the model here says so exactly, in integers. A bar's height is
//! figured the same way (`scaled_round`), so a share that exact arithmetic
//! would put on a half is drawn as the double falls.
use vstd::prelude::*;
use crate::text::{fixed, push_char, push_dec_wide, push_zpad, pow10_u64};

verus! {

/// `a / b` to the nearest integer, a tie going to the even one.
pub open spec fn nearest(a: nat, b: nat) -> nat
    recommends
        b > 0,
{
    let q = a / b;
    let r = a % b;
    if 2 * r > b || (2 * r == b && q % 2 == 1) { q + 1 } else { q }
}

/// Two to the `k`.
pub open spec fn two_to(k: nat) -> nat
    decreases k,
{
    if k == 0 { 1 } else { 2 * two_to((k - 1) as nat) }
}

/// How many low bits of `n` lie below its 53 most significant ones: the
/// number of halvings (rounding down) before it fits in 53 bits.
pub open spec fn low_bits(n: nat) -> nat
    decreases n,
{
    if n < 0x20_0000_0000_0000 { 0 } else { 1 + low_bits(n / 2) }
}

/// `n` as the nearest double holds it: rounded to its 53 most significant
/// bits, a tie going to the even one.
pub open spec fn double_of(n: nat) -> nat {
    nearest(n, two_to(low_bits(n))) * two_to(low_bits(n))
}

/// The first `j >= k` (at most 128) at which `x * 2^j` reaches `2^52 * den`:
/// the scale at which the quotient `x / den` has its 53 significant bits in
/// the integer part.
pub open spec fn scale_from(x: nat, den: nat, k: nat) -> nat
    decreases 128 - k,
{
    if k >= 128 || x * two_to(k) >= 0x10_0000_0000_0000 * den {
        k
    } else {
        scale_from(x, den, k + 1)
    }
}

/// The printed figure, in units of the last place: `n / den` as a double
/// (both the count and the quotient taken to the nearest double; `den` is a
/// power of ten a double holds exactly), times
/// `unit` (ten to the number of places), rounded to the nearest integer with
/// ties to even. So `printed(1_000_500, 1_000_000, 1000)` is 1000: the
/// quotient 1.0005 is held just below the half, and prints as `1.000`.
pub open spec fn printed(n: nat, den: nat, unit: nat) -> nat {
    let x = double_of(n);
    if x == 0 {
        0
    } else {
        let k = scale_from(x, den, 0);
        nearest(nearest(x * two_to(k), den) * unit, two_to(k))
    }
}

/// A count as a share of `d`, scaled and rounded the way a bar's height is
/// figured in doubles: `n / d` to the nearest double, times `factor` (itself
/// taken to the nearest double) to the nearest double, times `extra` (a
/// power of two, so exactly), then to the nearest integer with halves away
/// from zero. So 61 hits of a peak of 112 on 7 rows of eighths
/// (`scaled_round(61, 112, 7, 8)`) is 30: the quotient is held just below
/// the half that exact arithmetic would round up to 31.
pub open spec fn scaled_round(n: nat, d: nat, factor: nat, extra: nat) -> nat {
    let x = double_of(n);
    if x == 0 {
        0
    } else {
        let p = double_of(d);
        let k = scale_from(x, p, 0);
        let m = nearest(x * two_to(k), p);
        let v = double_of(m * double_of(factor));
        (2 * v * extra + two_to(k)) / two_to(k + 1)
    }
}

proof fn lemma_two_to_values()
    ensures
        two_to(52) == 0x10_0000_0000_0000,
        two_to(53) == 0x20_0000_0000_0000,
{
    reveal_with_fuel(two_to, 54);
}

/// `a / b` to the nearest integer, ties to even.
fn nearest_u128(a: u128, b: u128) -> (r: u128)
    requires
        b >= 1,
    ensures
        r == nearest(a as nat, b as nat),
        r <= a / b + 1,
        r * b <= a + b,
        r >= a / b,
        r * b + b > a,
{
    let q = a / b;
    let rem = a % b;
    proof {
        assert(a == q * b + rem) by (nonlinear_arith)
            requires q == a / b, rem == a % b, b > 0;
        assert(q * b <= a) by (nonlinear_arith) requires a == q * b + rem, rem >= 0;
        assert(q * b + b > a) by (nonlinear_arith) requires a == q * b + rem, rem < b;
        assert((q + 1) * b + b > a) by (nonlinear_arith) requires q * b + b > a, b >= 1;
    }
    if rem > b - rem || (rem == b - rem && q % 2 == 1) {
        proof {
            assert(b >= 2);
            assert(q < 0xffff_ffff_ffff_ffff_ffff_ffff_ffff_ffff) by (nonlinear_arith)
                requires a == q * b + rem, b >= 2, a <= u128::MAX, rem >= 0, q >= 0;
            assert((q + 1) * b <= a + b) by (nonlinear_arith) requires q * b <= a;
        }
        q + 1
    } else {
        q
    }
}

/// `n` as the nearest double holds it.
fn double_of_wide(n: u128) -> (x: u128)
    requires
        n <= 0x0100_0000_0000_0000_0000_0000_0000_0000,
    ensures
        x == double_of(n as nat),
        x <= 2 * (n as nat) + 1,
        2 * x >= n,
{
    let mut m: u128 = n;
    let mut p: u128 = 1;
    let ghost mut i: nat = 0;
    proof {
        lemma_two_to_values();
    }
    while m >= 0x20_0000_0000_0000
        invariant
            low_bits(n as nat) == low_bits(m as nat) + i,
            p == two_to(i),
            (m as nat) * (p as nat) <= n,
            p >= 1,
            p == 1 || m >= 0x10_0000_0000_0000,
            n <= 0x0100_0000_0000_0000_0000_0000_0000_0000,
        decreases m,
    {
        proof {
            assert((m as nat) * (p as nat) >= p) by (nonlinear_arith)
                requires m >= 1, p >= 1;
            assert(((m / 2) as nat) * ((p * 2) as nat) <= (m as nat) * (p as nat)) by (nonlinear_arith)
                requires p >= 1;
        }
        m = m / 2;
        p = p * 2;
        proof {
            i = i + 1;
        }
    }
    assert(low_bits(m as nat) == 0);
    if p == 1 {
        assert(nearest(n as nat, 1) == n as nat);
        return n;
    }
    proof {
        assert((m as nat) * (p as nat) >= p) by (nonlinear_arith)
            requires m >= 1, p >= 1;
        assert(p * 0x10_0000_0000_0000 <= n) by (nonlinear_arith)
            requires m >= 0x10_0000_0000_0000, m * p <= n, p >= 1;
    }
    let r = nearest_u128(n, p);
    proof {
        assert(2 * (r * p) >= n) by (nonlinear_arith)
            requires r * p + p > n, p * 0x10_0000_0000_0000 <= n;
    }
    r * p
}

/// `n` as the nearest double holds it.
fn double_of_u64(n: u64) -> (x: u128)
    ensures
        x == double_of(n as nat),
        x <= 2 * (n as nat) + 1,
        2 * x >= n,
{
    double_of_wide(n as u128)
}

/// The printed figure `printed(n, den, unit)`.
pub fn printed_u64(n: u64, den: u64, unit: u64) -> (t: u128)
    requires
        1 <= den <= 1_000_000_000,
        unit <= 1_000_000,
    ensures
        t == printed(n as nat, den as nat, unit as nat),
{
    let x = double_of_u64(n);
    if x == 0 {
        return 0;
    }
    proof {
        lemma_two_to_values();
    }
    let target: u128 = 0x10_0000_0000_0000u128 * (den as u128);
    let mut k: u32 = 0;
    let mut p: u128 = 1;
    let mut xp: u128 = x;
    while k < 128 && xp < target
        invariant
            1 <= x <= 0x3_0000_0000_0000_0000,
            target == 0x10_0000_0000_0000 * den,
            1 <= den <= 1_000_000_000,
            k <= 128,
            p == two_to(k as nat),
            xp == x * p,
            1 <= p <= xp,
            k == 0 || xp < 2 * target,
            scale_from(x as nat, den as nat, 0) == scale_from(x as nat, den as nat, k as nat),
        decreases 128 - k,
    {
        proof {
            assert(xp * 2 == x * (p * 2)) by (nonlinear_arith) requires xp == x * p;
        }
        xp = xp * 2;
        p = p * 2;
        k = k + 1;
    }
    assert(scale_from(x as nat, den as nat, k as nat) == k);
    proof {
        assert(xp <= 0x3_0000_0000_0000_0000 || xp < 2 * target);
    }
    let q1 = nearest_u128(xp, den as u128);
    proof {
        assert(xp / (den as u128) <= xp) by (nonlinear_arith) requires den >= 1;
        assert(q1 * unit <= (xp + 1) * 1_000_000) by (nonlinear_arith)
            requires q1 <= xp / (den as u128) + 1, xp / (den as u128) <= xp, unit <= 1_000_000;
    }
    let q2 = q1 * (unit as u128);
    nearest_u128(q2, p)
}

/// `scaled_round(n, d, factor, extra)`, for a count no more than the whole
/// it is a share of.
pub fn scaled_round_u64(n: u64, d: u64, factor: u64, extra: u64) -> (e: u128)
    requires
        1 <= d,
        n <= d,
        extra <= 8,
    ensures
        e == scaled_round(n as nat, d as nat, factor as nat, extra as nat),
{
    let x = double_of_u64(n);
    if x == 0 {
        return 0;
    }
    let p = double_of_u64(d);
    proof {
        lemma_two_to_values();
        assert(x < 0x10_0000_0000_0000 * p) by (nonlinear_arith)
            requires x <= 2 * n + 1, 2 * p >= d, n <= d, d >= 1;
    }
    let target: u128 = 0x10_0000_0000_0000u128 * p;
    let mut k: u32 = 0;
    let mut q: u128 = 1;
    let mut xp: u128 = x;
    while k < 128 && xp < target
        invariant
            1 <= x <= 0x3_0000_0000_0000_0000,
            1 <= p <= 0x3_0000_0000_0000_0000,
            x < target,
            target == 0x10_0000_0000_0000 * p,
            k <= 128,
            q == two_to(k as nat),
            xp == x * q,
            1 <= q <= xp,
            k == 0 || xp < 2 * target,
            scale_from(x as nat, p as nat, 0) == scale_from(x as nat, p as nat, k as nat),
        decreases 128 - k,
    {
        proof {
            assert(xp * 2 == x * (q * 2)) by (nonlinear_arith) requires xp == x * q;
        }
        xp = xp * 2;
        q = q * 2;
        k = k + 1;
    }
    assert(scale_from(x as nat, p as nat, k as nat) == k);
    assert(k >= 1);
    let m = nearest_u128(xp, p);
    let f = double_of_u64(factor);
    proof {
        assert(xp / p < 0x20_0000_0000_0000) by (nonlinear_arith)
            requires xp < 2 * (0x10_0000_0000_0000 * p), p >= 1;
        assert(m <= 0x20_0000_0000_0000);
        assert(f <= 0x2_0000_0000_0000_0000);
        assert(m * f <= 0x40_0000_0000_0000_0000_0000_0000_0000) by (nonlinear_arith)
            requires m <= 0x20_0000_0000_0000, f <= 0x2_0000_0000_0000_0000, m >= 0, f >= 0;
    }
    let v = double_of_wide(m * f);
    proof {
        assert(q * 2 == two_to((k + 1) as nat));
        assert(2 * v * (extra as u128) <= 16 * v) by (nonlinear_arith)
            requires extra <= 8, v >= 0;
    }
    (2 * v * (extra as u128) + q) / (q * 2)
}

/// Appends a wide `t / 10^k` with `k` decimal places.
pub fn push_fixed_wide(s: &mut String, t: u128, k: u32)
    requires
        k <= 19,
    ensures
        final(s)@ == old(s)@ + fixed(t as nat, k as nat),
{
    if k == 0 {
        push_dec_wide(s, t);
    } else {
        let p = pow10_u64(k);
        push_dec_wide(s, t / (p as u128));
        push_char(s, '.');
        let low = t % (p as u128);
        assert(low < p);
        push_zpad(s, low as u64, k);
    }
}

} // verus!
