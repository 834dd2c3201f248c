//! Evenly spread positions, computed as double-precision numbers compute them.
//!
//! The position of the `i`-th of `n` picks from a list of length `len` is the product of `i` and
//! the quotient `len / n`, rounded to a whole number. Quotient and product are each rounded to the
//! 53 bits of a double, to the nearest value and to an even one in the middle, so that the
//! positions are those that floating-point arithmetic yields. The significand of a double lies
//! between `0x10_0000_0000_0000`, which is 2 to the power 52, and twice that.

use vstd::arithmetic::power2::{
    lemma_pow2_adds, lemma_pow2_pos, lemma_pow2_strictly_increases, lemma_pow2_unfold, pow2,
};
use vstd::prelude::*;

verus! {

/// `a / b` rounded to the nearest whole number, and to the even one in the middle.
pub open spec fn half_even(a: nat, b: nat) -> nat {
    let q = a / b;
    let r = a % b;
    if 2 * r < b || (2 * r == b && q % 2 == 0) {
        q
    } else {
        q + 1
    }
}

/// The first exponent from `s` on for which `num * 2^s / den` has 53 bits.
pub open spec fn scale_from(num: nat, den: nat, s: nat) -> nat
    decreases 0x20_0000_0000_0000 * den - num * pow2(s),
{
    if num == 0 || num * pow2(s) >= 0x10_0000_0000_0000 * den {
        s
    } else {
        proof {
            lemma_doubles(num, s);
        }
        scale_from(num, den, s + 1)
    }
}

pub proof fn lemma_doubles(num: nat, s: nat)
    ensures
        num * pow2(s + 1) == 2 * (num * pow2(s)),
        pow2(s) > 0,
        num > 0 ==> num * pow2(s) > 0,
{
    lemma_pow2_unfold(s + 1);
    lemma_pow2_pos(s);
    assert(num * (2 * pow2(s)) == 2 * (num * pow2(s))) by (nonlinear_arith);
    assert(num > 0 ==> num * pow2(s) > 0) by (nonlinear_arith)
        requires
            pow2(s) > 0,
    ;
}

/// The first exponent from `k` on for which `v / 2^k` has at most 53 bits.
pub open spec fn excess_from(v: nat, k: nat) -> nat
    decreases 2 * v - 0x20_0000_0000_0000 * pow2(k),
{
    if v < 0x20_0000_0000_0000 * pow2(k) {
        k
    } else {
        proof {
            lemma_doubles(0x10_0000_0000_0000nat, k);
        }
        excess_from(v, k + 1)
    }
}

/// The product of `i` and the quotient `len / n` as doubles, as a multiple of `2^-s`, together
/// with `s`.
pub open spec fn double_product(i: nat, len: nat, n: nat) -> (nat, nat) {
    let s = scale_from(len, n, 0);
    let quotient = half_even(len * pow2(s), n);
    let product = i * quotient;
    let k = excess_from(product, 0);
    (half_even(product, pow2(k)) * pow2(k), s)
}

/// The product of `i` and the quotient `len / n` as doubles, rounded to a whole number, upwards in
/// the middle.
pub open spec fn rounded_product(i: nat, len: nat, n: nat) -> nat {
    let (v, s) = double_product(i, len, n);
    (2 * v + pow2(s)) / (2 * pow2(s))
}

/// The position of the `i`-th of `n` picks from a list of length `len`.
pub open spec fn spread_position(i: nat, len: nat, n: nat) -> nat {
    let position = rounded_product(i, len, n);
    if position <= len - 1 {
        position
    } else {
        (len - 1) as nat
    }
}

fn half_even_u128(a: u128, b: u128) -> (q: u128)
    requires
        0 < b <= u128::MAX / 2,
        a / b < u128::MAX,
    ensures
        q == half_even(a as nat, b as nat),
{
    let q: u128 = a / b;
    let r: u128 = a % b;
    if 2 * r < b || (2 * r == b && q % 2 == 0) {
        q
    } else {
        q + 1
    }
}

/// The position of the `i`-th of `n` picks from a list of length `len`.
pub fn spread_index(i: usize, len: usize, n: usize) -> (position: usize)
    requires
        0 < n,
        i < n,
        0 < len,
        len < 0x10_0000_0000_0000,
        n < 0x10_0000_0000_0000,
    ensures
        position == spread_position(i as nat, len as nat, n as nat),
        position < len,
{
    let bound: u128 = 0x10_0000_0000_0000 * n as u128;
    let mut scaled: u128 = len as u128;
    let mut unit: u128 = 1;
    let ghost mut s: nat = 0;
    proof {
        vstd::arithmetic::power2::lemma2_to64();
    }
    while scaled < bound
        invariant
            0 < n < 0x10_0000_0000_0000,
            0 < len < 0x10_0000_0000_0000,
            bound == 0x10_0000_0000_0000 * n,
            scaled == len * pow2(s),
            unit == pow2(s),
            1 <= unit <= scaled < 2 * bound,
            scale_from(len as nat, n as nat, 0) == scale_from(len as nat, n as nat, s),
        decreases 2 * bound - scaled,
    {
        proof {
            lemma_doubles(len as nat, s);
            lemma_pow2_unfold(s + 1);
            s = s + 1;
        }
        scaled = scaled * 2;
        unit = unit * 2;
    }
    proof {
        let (x, y) = (scaled as int, n as int);
        assert(x / y < 0x20_0000_0000_0000) by (nonlinear_arith)
            requires
                x < 2 * (0x10_0000_0000_0000 * y),
                y > 0,
        ;
    }
    let quotient: u128 = half_even_u128(scaled, n as u128);
    proof {
        let (x, y) = (i as int, quotient as int);
        assert(x * y <= 0x10_0000_0000_0000 * (0x20_0000_0000_0000)) by (nonlinear_arith)
            requires
                0 <= x < 0x10_0000_0000_0000,
                0 <= y <= 0x20_0000_0000_0000,
        ;
    }
    let product: u128 = i as u128 * quotient;
    let mut limit: u128 = 0x20_0000_0000_0000;
    let mut step: u128 = 1;
    let ghost mut k: nat = 0;
    while product >= limit
        invariant
            product <= 0x10_0000_0000_0000 * (0x20_0000_0000_0000),
            limit == 0x20_0000_0000_0000 * step,
            step == pow2(k),
            1 <= step,
            limit <= 0x20_0000_0000_0000 + 2 * product,
            excess_from(product as nat, 0) == excess_from(product as nat, k),
        decreases 2 * product - limit,
    {
        proof {
            lemma_doubles(0x10_0000_0000_0000nat, k);
            lemma_pow2_unfold(k + 1);
            k = k + 1;
        }
        limit = limit * 2;
        step = step * 2;
    }
    proof {
        let (x, y) = (product as int, step as int);
        assert(x / y < 0x20_0000_0000_0000) by (nonlinear_arith)
            requires
                0 <= x < 0x20_0000_0000_0000 * y,
                y >= 1,
        ;
        let z = half_even(product as nat, step as nat) as int;
        assert(z * y <= 0x20_0000_0000_0000 * y) by (nonlinear_arith)
            requires
                0 <= z <= 0x20_0000_0000_0000,
                y >= 1,
        ;
    }
    let rounded: u128 = half_even_u128(product, step) * step;
    let position: u128 = (2 * rounded + unit) / (2 * unit);
    if position <= (len - 1) as u128 {
        position as usize
    } else {
        len - 1
    }
}

/// Rounding to a multiple of `b` is off by half of `b` at most.
proof fn lemma_half_even(a: nat, b: nat)
    requires
        b > 0,
    ensures
        2 * a - b <= 2 * (half_even(a, b) * b) <= 2 * a + b,
{
    let (q, r) = (a / b, a % b);
    vstd::arithmetic::div_mod::lemma_fundamental_div_mod(a as int, b as int);
    assert(q * b + r == a) by {
        assert(b * q == q * b) by (nonlinear_arith);
    }
    assert((q + 1) * b == q * b + b) by (nonlinear_arith);
}

/// The exponent of the quotient: scaled by it, the quotient has 53 bits.
proof fn lemma_scale(num: nat, den: nat, s: nat)
    requires
        num > 0,
    ensures
        num * pow2(scale_from(num, den, s)) >= 0x10_0000_0000_0000 * den,
    decreases 0x20_0000_0000_0000 * den - num * pow2(s),
{
    if num * pow2(s) < 0x10_0000_0000_0000 * den {
        lemma_doubles(num, s);
        lemma_scale(num, den, s + 1);
    }
}

/// Rounding to 53 bits changes a number by less than a part in 2 to the power 53.
proof fn lemma_excess(v: nat, k: nat)
    requires
        k == 0 || v >= 0x10_0000_0000_0000 * pow2(k),
    ensures
        ({
            let e = excess_from(v, k);
            e == 0 || v >= 0x10_0000_0000_0000 * pow2(e)
        }),
    decreases 2 * v - 0x20_0000_0000_0000 * pow2(k),
{
    if v >= 0x20_0000_0000_0000 * pow2(k) {
        lemma_doubles(0x10_0000_0000_0000nat, k);
        lemma_pow2_unfold(k + 1);
        lemma_excess(v, k + 1);
    }
}

proof fn lemma_rounded_to_53_bits(v: nat)
    ensures
        ({
            let unit = pow2(excess_from(v, 0));
            let r = half_even(v, unit) * unit;
            0x20_0000_0000_0000 * r <= 0x20_0000_0000_0000 * v + v && 0x20_0000_0000_0000 * v
                <= 0x20_0000_0000_0000 * r + v
        }),
{
    let k = excess_from(v, 0);
    let unit = pow2(k);
    lemma_excess(v, 0);
    lemma_pow2_pos(k);
    if k == 0 {
        vstd::arithmetic::power2::lemma2_to64();
        assert(half_even(v, 1) == v) by {
            assert(v / 1 == v && v % 1 == 0) by (nonlinear_arith);
        }
    } else {
        lemma_half_even(v, unit);
    }
}

proof fn lemma_scale_is_least(num: nat, den: nat, s: nat)
    requires
        num > 0,
        s == 0 || num * pow2(s) < 0x20_0000_0000_0000 * den,
    ensures
        ({
            let t = scale_from(num, den, s);
            t == 0 || num * pow2(t) < 0x20_0000_0000_0000 * den
        }),
    decreases 0x20_0000_0000_0000 * den - num * pow2(s),
{
    if num * pow2(s) < 0x10_0000_0000_0000 * den {
        lemma_doubles(num, s);
        lemma_scale_is_least(num, den, s + 1);
    }
}

proof fn lemma_excess_is_enough(v: nat, k: nat)
    ensures
        v < 0x20_0000_0000_0000 * pow2(excess_from(v, k)),
    decreases 2 * v - 0x20_0000_0000_0000 * pow2(k),
{
    if v >= 0x20_0000_0000_0000 * pow2(k) {
        lemma_doubles(0x10_0000_0000_0000nat, k);
        lemma_excess_is_enough(v, k + 1);
    }
}

/// The numbers on the way to a position, as multiples of `1 / u`: the quotient `q`, the exact
/// product `p`, and what it is rounded to, `z` times the unit `e` of 53 bits; then the whole number
/// `x`.
struct Steps {
    u: int,
    q: int,
    p: int,
    e: int,
    z: int,
    x: int,
}

spec fn steps(i: nat, len: nat, n: nat) -> Steps {
    let s = scale_from(len, n, 0);
    let q = half_even(len * pow2(s), n);
    let e = pow2(excess_from(i * q, 0));
    Steps {
        u: pow2(s) as int,
        q: q as int,
        p: (i * q) as int,
        e: e as int,
        z: half_even(i * q, e) as int,
        x: rounded_product(i, len, n) as int,
    }
}

/// How the numbers on the way to a position fit together. Half a unit is a multiple of the unit of
/// 53 bits: the multiple that is returned.
proof fn lemma_steps(i: nat, len: nat, n: nat) -> (c: int)
    requires
        i < n < 0x10_0000_0000_0000,
        0 < len < 0x10_0000_0000_0000,
    ensures
        ({
            let t = steps(i, len, n);
            &&& t.e >= 1
            &&& c >= 1
            &&& t.u == 2 * (c * t.e)
            &&& len * t.u >= 0x10_0000_0000_0000 * n
            &&& 0x10_0000_0000_0000 <= t.q <= 0x20_0000_0000_0000
            &&& 2 * (len * t.u) - n <= 2 * (t.q * n) <= 2 * (len * t.u) + n
            &&& t.p == i * t.q
            &&& t.p < 0x20_0000_0000_0000 * t.e
            &&& t.e == 1 || t.p >= 0x10_0000_0000_0000 * t.e
            &&& t.p < len * t.u
            &&& 2 * t.p - t.e <= 2 * (t.z * t.e) <= 2 * t.p + t.e
            &&& 2 * (t.u * t.x) <= 2 * (t.z * t.e) + t.u < 2 * (t.u * t.x) + 2 * t.u
        }),
{
    let s = scale_from(len, n, 0);
    let t = steps(i, len, n);
    let (ii, ll, nn) = (i as int, len as int, n as int);
    let a = (len * pow2(s)) as int;
    let k = excess_from(t.p as nat, 0);
    vstd::arithmetic::power2::lemma2_to64();
    lemma_pow2_pos(s);
    lemma_pow2_pos(k);
    lemma_scale(len, n, 0);
    lemma_scale_is_least(len, n, 0);
    lemma_half_even(a as nat, n);
    lemma_excess(t.p as nat, 0);
    lemma_excess_is_enough(t.p as nat, 0);
    lemma_half_even(t.p as nat, t.e as nat);
    assert(s > 0) by {
        if s == 0 {
            assert(ll * 1 < 0x10_0000_0000_0000 * nn) by (nonlinear_arith)
                requires
                    0 < ll < 0x10_0000_0000_0000,
                    nn >= 1,
            ;
        }
    }
    assert(0x10_0000_0000_0000 <= a / nn < 0x20_0000_0000_0000) by (nonlinear_arith)
        requires
            nn > 0,
            0x10_0000_0000_0000 * nn <= a < 0x20_0000_0000_0000 * nn,
    ;
    assert(t.p < ll * t.u) by (nonlinear_arith)
        requires
            0 <= ii < nn,
            t.p == ii * t.q,
            2 * (t.q * nn) <= 2 * (ll * t.u) + nn,
            ll * t.u >= 0x10_0000_0000_0000 * nn,
            nn < 0x10_0000_0000_0000,
    {
        assert(2 * (t.p * nn) == ii * (2 * (t.q * nn)));
        assert(ii * (2 * (t.q * nn)) <= ii * (2 * (ll * t.u) + nn));
        assert(ii * (2 * (ll * t.u) + nn) == 2 * (ii * (ll * t.u)) + ii * nn);
        assert(ii * (ll * t.u) <= (nn - 1) * (ll * t.u));
        assert((nn - 1) * (ll * t.u) == nn * (ll * t.u) - ll * t.u);
        assert(ii * nn < 0x10_0000_0000_0000 * nn);
        assert(t.p * nn < (ll * t.u) * nn);
    }
    let v = 2 * (t.z * t.e) + t.u;
    vstd::arithmetic::div_mod::lemma_fundamental_div_mod(v, 2 * t.u);
    assert((2 * t.u) * t.x == 2 * (t.u * t.x)) by (nonlinear_arith);
    if k == 0 {
        lemma_pow2_unfold(s);
        lemma_pow2_pos((s - 1) as nat);
        let c = pow2((s - 1) as nat) as int;
        assert(c * 1 == c) by (nonlinear_arith);
        c
    } else {
        assert(k < s) by {
            if k >= s {
                if k > s {
                    lemma_pow2_strictly_increases(s, k);
                }
                assert(ll * t.u < 0x10_0000_0000_0000 * t.e) by (nonlinear_arith)
                    requires
                        0 < ll < 0x10_0000_0000_0000,
                        0 < t.u <= t.e,
                ;
            }
        }
        let d = (s - 1 - k) as nat;
        lemma_pow2_unfold(s);
        lemma_pow2_adds(d, k);
        lemma_pow2_pos(d);
        pow2(d) as int
    }
}

/// A number above the middle below a multiple of the unit is rounded to that multiple at least.
proof fn lemma_reaches(w: int, e: int, z: int, m: int)
    requires
        e > 0,
        2 * w - e <= 2 * (z * e),
        2 * w > 2 * (m * e) - e,
    ensures
        z >= m,
        z * e >= m * e,
{
    assert(z > m - 1) by (nonlinear_arith)
        requires
            e > 0,
            2 * (z * e) > 2 * (m * e) - 2 * e,
    ;
    assert(z * e >= m * e) by (nonlinear_arith)
        requires
            z >= m,
            e > 0,
    ;
}

/// What the picks are rounded to is nearest to their even shares: as long as the pick times the
/// length of the list is below 2 to the power 51, the rounding of the double-precision numbers on
/// the way makes no difference, but for a share that lies in the middle.
pub proof fn law_positions_are_nearest(i: nat, len: nat, n: nat)
    requires
        i < n < 0x10_0000_0000_0000,
        0 < len < 0x10_0000_0000_0000,
        i * len < 0x8_0000_0000_0000,
    ensures
        2 * (i * len) - n <= 2 * (n * rounded_product(i, len, n)) <= 2 * (i * len) + n,
{
    let t = steps(i, len, n);
    let (ii, ll, nn) = (i as int, len as int, n as int);
    let (u, x, y) = (t.u, t.x, ii * ll);
    let r = t.z * t.e;
    lemma_steps(i, len, n);
    lemma_rounded_to_53_bits(t.p as nat);
    assert(2 * (y * u) - ii * nn <= 2 * (nn * t.p) <= 2 * (y * u) + ii * nn) by (nonlinear_arith)
        requires
            t.p == ii * t.q,
            y == ii * ll,
            0 <= ii,
            2 * (ll * u) - nn <= 2 * (t.q * nn) <= 2 * (ll * u) + nn,
    {
        assert(2 * (nn * t.p) == ii * (2 * (t.q * nn)));
        assert(ii * (2 * (ll * u) + nn) == 2 * (y * u) + ii * nn);
        assert(ii * (2 * (ll * u) - nn) == 2 * (y * u) - ii * nn);
    }
    assert(0x10_0000_0000_0000 * (ii * nn) <= y * u) by (nonlinear_arith)
        requires
            ll * u >= 0x10_0000_0000_0000 * nn,
            y == ii * ll,
            0 <= ii,
    {
        assert(ii * (ll * u) >= ii * (0x10_0000_0000_0000 * nn));
    }
    assert(y * u <= 0x8_0000_0000_0000 * u - u) by (nonlinear_arith)
        requires
            y + 1 <= 0x8_0000_0000_0000,
            u > 0,
    ;
    assert(0x20_0000_0000_0000 * (nn * r) <= 0x20_0000_0000_0000 * (nn * t.p) + nn * t.p
        && 0x20_0000_0000_0000 * (nn * t.p) <= 0x20_0000_0000_0000 * (nn * r) + nn * t.p)
        by (nonlinear_arith)
        requires
            nn > 0,
            0x20_0000_0000_0000 * r <= 0x20_0000_0000_0000 * t.p + t.p,
            0x20_0000_0000_0000 * t.p <= 0x20_0000_0000_0000 * r + t.p,
    ;
    assert(2 * (y * u) - u < 2 * (nn * r) < 2 * (y * u) + u);
    assert(nn * (2 * (u * x)) <= nn * (2 * r + u) < nn * (2 * (u * x) + 2 * u)) by (nonlinear_arith)
        requires
            nn > 0,
            2 * (u * x) <= 2 * r + u < 2 * (u * x) + 2 * u,
    ;
    assert(nn * (2 * r + u) == 2 * (nn * r) + nn * u && nn * (2 * (u * x)) == 2 * (nn * x) * u && nn
        * (2 * (u * x) + 2 * u) == 2 * (nn * x) * u + 2 * (nn * u)) by (nonlinear_arith);
    let (a, b) = (2 * (nn * x), 2 * y);
    assert(b * u == 2 * (y * u)) by (nonlinear_arith)
        requires
            b == 2 * y,
    ;
    assert(a * u < b * u + u + nn * u);
    assert(a * u > b * u - u - nn * u);
    assert(a < b + 1 + nn) by (nonlinear_arith)
        requires
            a * u < b * u + u + nn * u,
            u > 0,
    ;
    assert(a > b - 1 - nn) by (nonlinear_arith)
        requires
            a * u > b * u - u - nn * u,
            u > 0,
    ;
}

/// One unit of 53 bits is at least twice a smaller one.
proof fn lemma_units(k: nat, m: nat)
    requires
        pow2(k) < pow2(m),
    ensures
        2 * pow2(k) <= pow2(m),
{
    if m < k {
        lemma_pow2_strictly_increases(m, k);
    }
    assert(k < m);
    lemma_pow2_unfold(k + 1);
    if k + 1 < m {
        lemma_pow2_strictly_increases(k + 1, m);
    }
}

/// A unit does not shrink from one pick to the next.
proof fn lemma_unit_grows(i: nat, len: nat, n: nat)
    requires
        i + 1 < n < 0x10_0000_0000_0000,
        0 < len < 0x10_0000_0000_0000,
    ensures
        steps(i + 1, len, n).p == steps(i, len, n).p + steps(i, len, n).q,
        steps(i, len, n).e <= steps(i + 1, len, n).e,
        steps(i, len, n).e < steps(i + 1, len, n).e ==> 2 * steps(i, len, n).e <= steps(
            i + 1,
            len,
            n,
        ).e,
{
    let (t, w) = (steps(i, len, n), steps(i + 1, len, n));
    lemma_steps(i, len, n);
    lemma_steps(i + 1, len, n);
    let ii = i as int;
    assert((ii + 1) * t.q == ii * t.q + t.q) by (nonlinear_arith);
    if w.e < t.e {
        lemma_units(excess_from(w.p as nat, 0), excess_from(t.p as nat, 0));
    }
    if t.e < w.e {
        lemma_units(excess_from(t.p as nat, 0), excess_from(w.p as nat, 0));
    }
}

proof fn lemma_next_is_behind(i: nat, len: nat, n: nat)
    requires
        i + 1 < n <= len,
        len < 0x10_0000_0000_0000,
    ensures
        rounded_product(i, len, n) < rounded_product(i + 1, len, n),
{
    let (t, w) = (steps(i, len, n), steps(i + 1, len, n));
    let (ii, ll, nn) = (i as int, len as int, n as int);
    let c = lemma_steps(i, len, n);
    let d = lemma_steps(i + 1, len, n);
    lemma_unit_grows(i, len, n);
    let (u, q, r) = (t.u, t.q, t.x);
    assert(q >= u) by (nonlinear_arith)
        requires
            2 * (ll * u) - nn <= 2 * (q * nn),
            0 < nn <= ll,
            u > 0,
    {
        assert(ll * u >= nn * u);
        assert(2 * (q * nn) >= 2 * (u * nn) - nn);
    }
    let m = (2 * r + 1) * d;
    assert(2 * (m * w.e) == (2 * r + 1) * u) by (nonlinear_arith)
        requires
            m == (2 * r + 1) * d,
            u == 2 * (d * w.e),
    ;
    assert((2 * r + 1) * u == 2 * (u * r) + u) by (nonlinear_arith);
    assert(2 * w.p > (2 * r + 1) * u - w.e) by {
        assert(2 * t.p >= 2 * (u * r) - u - t.e);
        if t.e == w.e && q == u && 2 * t.p == 2 * (u * r) - u - t.e {
            assert(t.e >= u) by (nonlinear_arith)
                requires
                    t.p == ii * u,
                    2 * t.p == 2 * (u * r) - u - t.e,
                    t.e >= 1,
                    u > 0,
            {
                assert(t.e == (2 * r - 1 - 2 * ii) * u);
            }
            assert(u > t.e) by (nonlinear_arith)
                requires
                    u == 2 * (c * t.e),
                    c >= 1,
                    t.e >= 1,
            ;
        }
    }
    lemma_reaches(w.p, w.e, w.z, m);
    assert(w.x > r) by (nonlinear_arith)
        requires
            2 * (u * r) + 2 * u < 2 * (u * w.x) + 2 * u,
            u > 0,
    ;
}

proof fn lemma_within(i: nat, len: nat, n: nat)
    requires
        i < n <= len,
        len < 0x8_0000_0000_0000,
    ensures
        rounded_product(i, len, n) < len,
{
    let t = steps(i, len, n);
    let (ii, ll, nn) = (i as int, len as int, n as int);
    let c = lemma_steps(i, len, n);
    assert(t.u > 2 * nn) by (nonlinear_arith)
        requires
            ll * t.u >= 0x10_0000_0000_0000 * nn,
            0 < ll < 0x8_0000_0000_0000,
            nn > 0,
    ;
    assert(2 * t.p <= 2 * (ll * t.u) - 2 * t.u + nn) by (nonlinear_arith)
        requires
            0 <= ii < nn <= ll,
            t.p == ii * t.q,
            2 * (t.q * nn) <= 2 * (ll * t.u) + nn,
            t.u > 0,
    {
        let a = ll * t.u;
        assert(2 * (t.p * nn) == ii * (2 * (t.q * nn)));
        assert(ii * (2 * (t.q * nn)) <= ii * (2 * a + nn));
        assert(ii * (2 * a + nn) <= (nn - 1) * (2 * a + nn));
        assert((nn - 1) * (2 * a + nn) == nn * (2 * a + nn) - 2 * a - nn);
        assert(a >= nn * t.u);
        assert(nn * (2 * t.p) <= nn * (2 * a + nn) - nn * (2 * t.u));
        assert(nn * (2 * t.p) <= nn * (2 * a + nn - 2 * t.u));
    }
    assert(2 * t.e <= t.u) by (nonlinear_arith)
        requires
            t.u == 2 * (c * t.e),
            c >= 1,
            t.e >= 1,
    ;
    assert(t.x < ll) by (nonlinear_arith)
        requires
            2 * (t.u * t.x) < 2 * (ll * t.u),
            t.u > 0,
    ;
}

/// From a list at least as long as the number of picks, each pick comes from a place of its own,
/// behind that of the pick before.
pub proof fn law_picks_are_distinct(i: nat, j: nat, len: nat, n: nat)
    requires
        i < j < n,
        n <= len < 0x8_0000_0000_0000,
    ensures
        spread_position(i, len, n) < spread_position(j, len, n),
    decreases j,
{
    lemma_next_is_behind((j - 1) as nat, len, n);
    lemma_within((j - 1) as nat, len, n);
    lemma_within(j, len, n);
    if i < j - 1 {
        law_picks_are_distinct(i, (j - 1) as nat, len, n);
    }
}

proof fn lemma_next_is_not_before(i: nat, len: nat, n: nat)
    requires
        i + 1 < n < 0x10_0000_0000_0000,
        0 < len < 0x10_0000_0000_0000,
    ensures
        rounded_product(i, len, n) <= rounded_product(i + 1, len, n),
{
    let (t, w) = (steps(i, len, n), steps(i + 1, len, n));
    let ii = i as int;
    lemma_steps(i, len, n);
    let d = lemma_steps(i + 1, len, n);
    lemma_unit_grows(i, len, n);
    let (u, q, r) = (t.u, t.q, t.x);
    assert(t.e < q) by {
        if t.e > 1 {
            assert(t.e < q) by (nonlinear_arith)
                requires
                    ii * q >= 0x10_0000_0000_0000 * t.e,
                    0 <= ii < 0x10_0000_0000_0000,
                    q > 0,
            ;
        }
    }
    let m = (2 * r - 1) * d;
    assert(2 * (m * w.e) == (2 * r - 1) * u) by (nonlinear_arith)
        requires
            m == (2 * r - 1) * d,
            u == 2 * (d * w.e),
    ;
    assert((2 * r - 1) * u == 2 * (u * r) - u) by (nonlinear_arith);
    lemma_reaches(w.p, w.e, w.z, m);
    assert(w.x >= r) by (nonlinear_arith)
        requires
            2 * (u * r) < 2 * (u * w.x) + 2 * u,
            u > 0,
    ;
}

/// What would follow from picks that leave out a place: the unit doubles between them, and the
/// quotient is a bit less than one.
proof fn lemma_gap(i: nat, len: nat, n: nat)
    requires
        i + 1 < n < 0x10_0000_0000_0000,
        0 < len <= n,
        rounded_product(i + 1, len, n) > rounded_product(i, len, n) + 1,
    ensures
        ({
            let (t, w) = (steps(i, len, n), steps(i + 1, len, n));
            &&& t.u == 0x20_0000_0000_0000
            &&& t.q < t.u
            &&& w.e == 2 * t.e
            &&& 2 * (t.u - t.q) <= t.e
            &&& 2 * t.p <= (2 * t.x + 1) * t.u - t.e
            &&& 2 * w.p >= (2 * t.x + 3) * t.u - w.e
        }),
{
    let (t, w) = (steps(i, len, n), steps(i + 1, len, n));
    let (ii, ll, nn) = (i as int, len as int, n as int);
    let c = lemma_steps(i, len, n);
    let d = lemma_steps(i + 1, len, n);
    lemma_unit_grows(i, len, n);
    let (u, q, r) = (t.u, t.q, t.x);
    assert(q <= u) by (nonlinear_arith)
        requires
            2 * (q * nn) <= 2 * (ll * u) + nn,
            0 < ll <= nn,
            u > 0,
    {
        assert(ll * u <= nn * u);
        assert(2 * (q * nn) <= 2 * (u * nn) + nn);
    }
    let m = (2 * r + 1) * c;
    assert(2 * (m * t.e) == (2 * r + 1) * u) by (nonlinear_arith)
        requires
            m == (2 * r + 1) * c,
            u == 2 * (c * t.e),
    ;
    assert((2 * r + 1) * u == 2 * (u * r) + u) by (nonlinear_arith);
    assert((2 * r + 3) * u == 2 * (u * r) + 3 * u) by (nonlinear_arith);
    assert(t.z * t.e <= m * t.e - t.e) by (nonlinear_arith)
        requires
            t.e > 0,
            t.z * t.e < m * t.e,
    {
        assert(t.z < m);
        assert(t.z * t.e <= (m - 1) * t.e);
        assert((m - 1) * t.e == m * t.e - t.e);
    }
    assert(u * w.x >= u * r + 2 * u) by (nonlinear_arith)
        requires
            w.x >= r + 2,
            u > 0,
    ;
    assert(2 * t.p <= (2 * r + 1) * u - t.e);
    assert(2 * w.p >= (2 * r + 3) * u - w.e);
    assert(2 * w.e <= u) by (nonlinear_arith)
        requires
            u == 2 * (d * w.e),
            d >= 1,
            w.e >= 1,
    ;
    if q == u {
        assert(ii <= r) by (nonlinear_arith)
            requires
                t.p == ii * u,
                2 * t.p < (2 * r + 1) * u,
                u > 0,
        ;
        assert((ii + 1) * u <= u * r + u) by (nonlinear_arith)
            requires
                ii <= r,
                u > 0,
        ;
        assert(w.p == (ii + 1) * u);
        assert(false);
    }
    let s = scale_from(len, n, 0);
    vstd::arithmetic::power2::lemma2_to64_rest();
    if s < 53 {
        if s < 52 {
            lemma_pow2_strictly_increases(s, 52);
        }
        assert(false);
    }
    if s > 53 {
        lemma_pow2_unfold(54);
        if s > 54 {
            lemma_pow2_strictly_increases(54, s);
        }
        assert(false);
    }
    assert(w.e < 4 * t.e);
    let (j, k) = (excess_from(t.p as nat, 0), excess_from(w.p as nat, 0));
    if 2 * t.e < w.e {
        lemma_pow2_unfold(j + 1);
        lemma_units(j + 1, k);
    }
}

proof fn lemma_next_is_near(i: nat, len: nat, n: nat)
    requires
        i + 1 < n < 0x10_0000_0000_0000,
        0 < len <= n,
        len <= 0x1000_0000,
    ensures
        rounded_product(i + 1, len, n) <= rounded_product(i, len, n) + 1,
{
    if rounded_product(i + 1, len, n) > rounded_product(i, len, n) + 1 {
        let (t, w) = (steps(i, len, n), steps(i + 1, len, n));
        let (ii, ll) = (i as int, len as int);
        lemma_steps(i, len, n);
        lemma_steps(i + 1, len, n);
        lemma_unit_grows(i, len, n);
        lemma_gap(i, len, n);
        let (b, r) = (t.e, t.x);
        let d = t.u - t.q;
        let k = excess_from(t.p as nat, 0);
        assert(ll * t.u <= 0x1000_0000 * 0x20_0000_0000_0000) by (nonlinear_arith)
            requires
                0 <= ll <= 0x1000_0000,
                t.u == 0x20_0000_0000_0000,
        ;
        assert(b < 0x1000_0000);
        vstd::arithmetic::power2::lemma2_to64();
        assert(b <= 0x800_0000) by {
            if k > 27 {
                if k > 28 {
                    lemma_pow2_strictly_increases(28, k);
                }
                assert(false);
            }
            if k < 27 {
                lemma_pow2_strictly_increases(k, 27);
            }
        }
        assert(r == b - 1);
        let m = ii * d;
        assert(t.p == ii * t.u - m && m >= 0) by (nonlinear_arith)
            requires
                t.p == ii * t.q,
                m == ii * d,
                d == t.u - t.q,
                ii >= 0,
                d >= 0,
        ;
        assert(ii >= b);
        let j = ii - b;
        assert(2 * m <= b * b + j * b) by (nonlinear_arith)
            requires
                m == ii * d,
                2 * d <= b,
                ii == b + j,
                ii >= 0,
        ;
        assert(b * b <= 0x800_0000 * 0x800_0000 && j * b <= j * 0x800_0000) by (nonlinear_arith)
            requires
                0 <= b <= 0x800_0000,
                j >= 0,
        ;
        assert(2 * m >= (2 * j + 1) * 0x20_0000_0000_0000 + b);
        assert(j == 0);
        assert(b == 0x800_0000) by {
            if k > 27 {
                lemma_pow2_strictly_increases(27, k);
            }
            if k < 27 {
                if k < 26 {
                    lemma_pow2_strictly_increases(k, 26);
                }
                assert(b * b <= 0x400_0000 * 0x400_0000) by (nonlinear_arith)
                    requires
                        0 <= b <= 0x400_0000,
                ;
                assert(false);
            }
        }
        assert(m == 0x800_0000 * d);
        assert(false);
    }
}

/// From a list no longer than the number of picks, the picks start at the first place, go on by one
/// place at most, and end at the last one, so that no place is left out. This holds of lists of up
/// to 2 to the power 28 members: on longer ones the rounding of the product may pass over a place.
pub proof fn law_picks_leave_no_gap(i: nat, len: nat, n: nat)
    requires
        i < n < 0x10_0000_0000_0000,
        0 < len <= n,
        len <= 0x1000_0000,
    ensures
        spread_position(0, len, n) == 0,
        spread_position((n - 1) as nat, len, n) == len - 1,
        i + 1 < n ==> spread_position(i, len, n) <= spread_position(i + 1, len, n)
            <= spread_position(i, len, n) + 1,
{
    let (ll, nn) = (len as int, n as int);
    let first = steps(0, len, n);
    let last = steps((n - 1) as nat, len, n);
    lemma_steps(0, len, n);
    let c = lemma_steps((n - 1) as nat, len, n);
    assert(first.p == 0) by (nonlinear_arith)
        requires
            first.p == 0 * first.q,
    ;
    assert(first.x == 0) by (nonlinear_arith)
        requires
            2 * (first.u * first.x) <= 2 * (first.z * first.e) + first.u,
            2 * (first.z * first.e) <= first.e,
            first.e < first.u,
            first.x >= 0,
            first.u > 0,
    ;
    assert(2 * last.p >= 2 * ((ll - 1) * last.u) - nn) by (nonlinear_arith)
        requires
            last.p == (nn - 1) * last.q,
            2 * (ll * last.u) - nn <= 2 * (last.q * nn),
            0 < ll <= nn,
            last.u > 0,
    {
        let a = ll * last.u;
        assert(2 * (last.p * nn) == (nn - 1) * (2 * (last.q * nn)));
        assert((nn - 1) * (2 * (last.q * nn)) >= (nn - 1) * (2 * a - nn));
        assert((nn - 1) * (2 * a - nn) == nn * (2 * a - nn) - 2 * a + nn);
        assert(a <= nn * last.u);
        assert(nn * (2 * last.p) >= nn * (2 * a - nn) - nn * (2 * last.u));
        assert(nn * (2 * last.p) >= nn * (2 * a - nn - 2 * last.u));
        assert((ll - 1) * last.u == a - last.u);
    }
    assert(last.u >= 4 * nn) by (nonlinear_arith)
        requires
            ll * last.u >= 0x10_0000_0000_0000 * nn,
            0 < ll <= 0x1000_0000,
            nn > 0,
    ;
    assert(2 * last.e <= last.u) by (nonlinear_arith)
        requires
            last.u == 2 * (c * last.e),
            c >= 1,
            last.e >= 1,
    ;
    assert(last.x >= ll - 1) by (nonlinear_arith)
        requires
            2 * ((ll - 1) * last.u) < 2 * (last.u * last.x) + 2 * last.u,
            last.u > 0,
    ;
    if i + 1 < n {
        lemma_next_is_not_before(i, len, n);
        lemma_next_is_near(i, len, n);
    }
}

} // verus!
