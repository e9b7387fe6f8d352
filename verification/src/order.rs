//! How arithmetic on doubles keeps their order, and how far rounding moves its results.
//!
//! The order of results holds for all operands, infinite ones too, as long as no result is NaN.

use vstd::arithmetic::power2::*;
use vstd::prelude::*;

use crate::num::{
    adding_keeps_order, largest, lemma_landing, lemma_one, lemma_over_key, lemma_plus_key,
    lemma_representable, lemma_rounded_key_order, lemma_times_key, lemma_value_order, rounded_key,
    scaling_keeps_order, Num, ONE, UNIT, ZERO,
};
use crate::rounding::{
    lemma_gap, lemma_rounded, lemma_units_mono, lemma_units_packed, rounded,
    rounding_is_monotone, rounding_keeps_doubles, units, INFINITE, STEP,
};

verus! {

/// A NaN makes every result NaN.
pub proof fn nan_spreads(a: Num, b: Num)
    requires
        a.nan() || b.nan(),
    ensures
        a.plus_of(b).nan(),
        a.minus_of(b).nan(),
        a.times_of(b).nan(),
        a.over_of(b).nan(),
{
    reveal(Num::plus_of);
    reveal(Num::times_of);
    reveal(Num::over_of);
}

/// Sums keep the order of their terms.
pub proof fn sums_keep_order(a: Num, b: Num, c: Num, d: Num)
    requires
        a.le(b),
        c.le(d),
        !a.plus_of(c).nan(),
        !b.plus_of(d).nan(),
    ensures
        a.plus_of(c).le(b.plus_of(d)),
{
    if !a.inf() && !b.inf() && !c.inf() && !d.inf() {
        adding_keeps_order(a, b, c, d);
    } else {
        reveal(Num::plus_of);
    }
}

/// Differences keep the order of what is subtracted from, and reverse that of what is subtracted.
pub proof fn differences_keep_order(a: Num, b: Num, c: Num, d: Num)
    requires
        a.le(b),
        d.le(c),
        !a.minus_of(c).nan(),
        !b.minus_of(d).nan(),
    ensures
        a.minus_of(c).le(b.minus_of(d)),
{
    sums_keep_order(a, b, c.negate_of(), d.negate_of());
}

/// Products with a factor that is not negative keep the order of the other factor.
pub proof fn products_keep_order(f: Num, a: Num, b: Num)
    requires
        (Num { bits: ZERO }).le(f),
        a.le(b),
        !f.times_of(a).nan(),
        !f.times_of(b).nan(),
    ensures
        f.times_of(a).le(f.times_of(b)),
        a.times_of(f).le(b.times_of(f)),
{
    crate::num::arithmetic_commutes(f, a);
    crate::num::arithmetic_commutes(f, b);
    if !f.inf() && !a.inf() && !b.inf() {
        scaling_keeps_order(f, a, b);
    } else {
        reveal(Num::times_of);
    }
}

/// Quotients by a positive divisor keep the order of the dividends.
pub proof fn quotients_keep_order(a: Num, b: Num, c: Num)
    requires
        a.le(b),
        (Num { bits: ZERO }).lt(c),
        !a.over_of(c).nan(),
        !b.over_of(c).nan(),
    ensures
        a.over_of(c).le(b.over_of(c)),
{
    if !a.inf() && !b.inf() && !c.inf() {
        lemma_over_key(a, c);
        lemma_over_key(b, c);
        lemma_value_order(a, b);
        let u = pow2(UNIT as nat) as int;
        lemma_pow2_pos(UNIT as nat);
        let d = units(c.mag());
        assert((a.value() * u) * d <= (b.value() * u) * d) by (nonlinear_arith)
            requires
                a.value() <= b.value(),
                u > 0,
                d > 0,
        ;
        lemma_rounded_key_order(a.value() * u, d, b.value() * u, d);
    } else {
        reveal(Num::over_of);
    }
}

/// Quotients of a dividend that is not negative reverse the order of positive divisors.
pub proof fn quotients_reverse_order(c: Num, a: Num, b: Num)
    requires
        (Num { bits: ZERO }).le(c),
        (Num { bits: ZERO }).lt(a),
        a.le(b),
        !c.over_of(a).nan(),
        !c.over_of(b).nan(),
    ensures
        c.over_of(b).le(c.over_of(a)),
{
    if !a.inf() && !b.inf() && !c.inf() {
        lemma_over_key(c, a);
        lemma_over_key(c, b);
        lemma_value_order(a, b);
        lemma_value_order(Num { bits: ZERO }, c);
        lemma_value_order(c, c);
        lemma_units_mono(a.mag(), b.mag());
        let u = pow2(UNIT as nat) as int;
        lemma_pow2_pos(UNIT as nat);
        let n = c.value() * u;
        let p = units(a.mag());
        let q = units(b.mag());
        assert(n * p <= n * q) by (nonlinear_arith)
            requires
                n == c.value() * u,
                c.value() >= 0,
                u > 0,
                p <= q,
        ;
        lemma_rounded_key_order(n, q, n, p);
    } else {
        reveal(Num::over_of);
        if !c.inf() && !a.inf() {
            lemma_over_key(c, a);
            lemma_rounded(units(c.mag()) * pow2(UNIT as nat), units(a.mag()));
        }
    }
}

/// Nothing times a finite number is nothing.
pub proof fn nothing_times(f: Num, z: Num)
    requires
        !f.nan(),
        !f.inf(),
        z.same(Num { bits: ZERO }),
    ensures
        f.times_of(z).same(Num { bits: ZERO }),
        z.times_of(f).same(Num { bits: ZERO }),
{
    crate::num::arithmetic_commutes(f, z);
    lemma_times_key(f, z);
    lemma_value_order(z, z);
    let u = pow2(UNIT as nat) as int;
    rounding_keeps_doubles(0, u);
    assert(f.value() * z.value() == 0) by (nonlinear_arith)
        requires
            z.value() == 0,
    ;
    assert(0 * u == 0);
}

/// Nothing added to a finite number leaves it as it is.
pub proof fn nothing_added(a: Num, z: Num)
    requires
        !a.nan(),
        z.same(Num { bits: ZERO }),
    ensures
        a.plus_of(z).same(a),
        z.plus_of(a).same(a),
{
    crate::num::arithmetic_commutes(a, z);
    lemma_value_order(z, z);
    lemma_value_order(a, a);
    if a.inf() {
        reveal(Num::plus_of);
    } else {
        lemma_plus_key(a, z);
        rounding_keeps_doubles(a.mag(), 1);
    }
}

/// Once a number is itself.
pub proof fn one_times(a: Num)
    requires
        !a.nan(),
    ensures
        a.times_of(Num { bits: ONE }).same(a),
        (Num { bits: ONE }).times_of(a).same(a),
{
    let one = Num { bits: ONE };
    crate::num::arithmetic_commutes(a, one);
    if a.inf() {
        reveal(Num::times_of);
    } else {
        lemma_one();
        lemma_times_key(a, one);
        lemma_value_order(a, a);
        let u = pow2(UNIT as nat) as int;
        rounding_keeps_doubles(a.mag(), u);
        let n = a.value() * one.value();
        assert(one.value() == u);
        assert(n == a.value() * u);
        let m = units(a.mag());
        if a.value() < 0 {
            assert(-n == m * u && n < 0) by (nonlinear_arith)
                requires
                    m == -a.value(),
                    n == a.value() * u,
                    a.value() < 0,
                    u > 0,
            ;
        } else {
            assert(n == m * u && n >= 0) by (nonlinear_arith)
                requires
                    m == a.value(),
                    n == a.value() * u,
                    a.value() >= 0,
                    u > 0,
            ;
        }
    }
}

/// A number divided by itself is 1.
pub proof fn quotient_of_equals(a: Num)
    requires
        !a.nan(),
        !a.inf(),
        !a.same(Num { bits: ZERO }),
    ensures
        a.over_of(a).same(Num { bits: ONE }),
{
    lemma_one();
    lemma_over_key(a, a);
    lemma_value_order(a, a);
    let d = units(a.mag());
    rounding_keeps_doubles(ONE as int, d);
    let u = pow2(UNIT as nat) as int;
    assert(u * d == d * u) by (nonlinear_arith);
    if a.neg() {
        assert(-(a.value() * u) == d * u) by (nonlinear_arith)
            requires
                a.value() == -d,
        ;
    }
}

/// Whole numbers up to the largest 64-bit one keep their order as doubles.
pub proof fn whole_numbers_keep_order(a: int, b: int)
    requires
        0 <= a <= b <= u64::MAX,
    ensures
        Num::of_int(a).le(Num::of_int(b)),
        (Num { bits: ZERO }).le(Num::of_int(a)),
        !Num::of_int(b).inf(),
        !Num::of_int(b).neg(),
        a > 0 ==> (Num { bits: ONE }).le(Num::of_int(a)),
        a == 0 ==> Num::of_int(a) == (Num { bits: ZERO }),
{
    reveal(Num::of_int);
    lemma_one();
    let u = pow2(UNIT as nat) as int;
    lemma_pow2_adds(64, UNIT as nat);
    lemma2_to64_rest();
    let m = lemma_representable(1, 64 + UNIT as int);
    lemma_small_power(m);
    lemma_rounded(a * u, 1);
    lemma_rounded(b * u, 1);
    assert(0 <= a * u <= b * u <= 0x1_0000_0000_0000_0000 * u) by (nonlinear_arith)
        requires
            0 <= a <= b <= 0x1_0000_0000_0000_0000,
            u > 0,
    ;
    rounding_is_monotone(a * u, 1, b * u, 1);
    rounding_is_monotone(b * u, 1, units(m) * 1, 1);
    rounding_keeps_doubles(m, 1);
    if a > 0 {
        assert(u <= a * u) by (nonlinear_arith)
            requires
                a >= 1,
                u > 0,
        ;
        rounding_is_monotone(u, 1, a * u, 1);
        rounding_keeps_doubles(ONE as int, 1);
    } else {
        assert(a * u == 0) by (nonlinear_arith)
            requires
                a == 0,
        ;
        rounding_keeps_doubles(0, 1);
    }
}

/// 2^64 is far below infinity.
proof fn lemma_small_power(m: int)
    requires
        0 <= m,
        units(m) == pow2(64 + UNIT as nat),
    ensures
        m < INFINITE,
{
    lemma_units_packed(STEP as int, 2045);
    lemma_pow2_strictly_increases(64 + UNIT as nat, 2045);
    if m >= INFINITE {
        assert(2045 * STEP + STEP <= INFINITE);
        lemma_units_mono(2045 * STEP + STEP, m);
        assert(STEP * pow2(2045) >= pow2(2045)) by (nonlinear_arith)
            requires
                STEP >= 1,
                pow2(2045) > 0,
        ;
    }
}

/// `r` is the ratio `n / d` up to rounding: it is off by no more than a 2^48th of a size, and a few
/// units of the smallest double.
pub open spec fn near(r: Num, n: int, d: int, size: int) -> bool {
    &&& !r.nan()
    &&& !r.inf()
    &&& 0x1_0000_0000_0000 * (d * r.value() - n) <= d * (size + 0x10_0000_0000_0000)
    &&& 0x1_0000_0000_0000 * (n - d * r.value()) <= d * (size + 0x10_0000_0000_0000)
}

/// A product is near the exact one.
pub proof fn product_is_near(a: Num, b: Num, size: int)
    requires
        !a.nan() && !a.inf() && !b.nan() && !b.inf(),
        -(pow2(UNIT as nat) * size) <= a.value() * b.value() <= pow2(UNIT as nat) * size,
        0 <= size <= largest(),
    ensures
        near(a.times_of(b), a.value() * b.value(), pow2(UNIT as nat) as int, size),
        off_by(a.times_of(b), a.value() * b.value(), pow2(UNIT as nat) as int, size),
{
    lemma_times_key(a, b);
    lemma_landing(a.value() * b.value(), pow2(UNIT as nat) as int, a.times_of(b), size);
    lemma_off(a.times_of(b), a.value() * b.value(), pow2(UNIT as nat) as int, size);
}

/// A sum is near the exact one.
pub proof fn sum_is_near(a: Num, b: Num, size: int)
    requires
        !a.nan() && !a.inf() && !b.nan() && !b.inf(),
        -size <= a.value() + b.value() <= size,
        0 <= size <= largest(),
    ensures
        near(a.plus_of(b), a.value() + b.value(), 1, size),
        off_by(a.plus_of(b), a.value() + b.value(), 1, size),
{
    lemma_plus_key(a, b);
    lemma_landing(a.value() + b.value(), 1, a.plus_of(b), size);
    lemma_off(a.plus_of(b), a.value() + b.value(), 1, size);
}

/// A quotient by a positive divisor is near the exact one.
pub proof fn quotient_is_near(a: Num, b: Num, size: int)
    requires
        !a.nan() && !a.inf() && !b.inf(),
        (Num { bits: ZERO }).lt(b),
        -(b.value() * size) <= a.value() * pow2(UNIT as nat) <= b.value() * size,
        0 <= size <= largest(),
    ensures
        b.value() > 0,
        near(a.over_of(b), a.value() * pow2(UNIT as nat), b.value(), size),
        off_by(a.over_of(b), a.value() * pow2(UNIT as nat), b.value(), size),
{
    lemma_over_key(a, b);
    lemma_value_order(b, b);
    lemma_landing(a.value() * pow2(UNIT as nat), b.value(), a.over_of(b), size);
    lemma_off(a.over_of(b), a.value() * pow2(UNIT as nat), b.value(), size);
}

/// `r` is the ratio `n / d`, off by what one rounding moves it by.
pub open spec fn off_by(r: Num, n: int, d: int, size: int) -> bool {
    &&& !r.nan()
    &&& !r.inf()
    &&& 0x10_0000_0000_0000 * (d * r.value() - n) <= d * (size + 0x10_0000_0000_0000)
    &&& 0x10_0000_0000_0000 * (n - d * r.value()) <= d * (size + 0x10_0000_0000_0000)
}

proof fn lemma_off(r: Num, n: int, d: int, size: int)
    requires
        d > 0,
        0 <= size,
        !r.nan() && !r.inf(),
        0x20_0000_0000_0000 * (d * r.value() - n) <= d * (2 * size + 0x20_0000_0000_0000),
        0x20_0000_0000_0000 * (n - d * r.value()) <= d * (2 * size + 0x20_0000_0000_0000),
    ensures
        off_by(r, n, d, size),
        near(r, n, d, size),
{
    let c = 0x10_0000_0000_0000int;
    let x = d * r.value() - n;
    assert(d * (2 * size + 2 * c) == 2 * (d * (size + c))) by (nonlinear_arith);
    assert(d * (size + c) >= 0) by (nonlinear_arith)
        requires
            d > 0,
            size >= 0,
            c > 0,
    ;
}

/// A rate plus a fraction of another is near the exact sum.
pub proof fn rate_plus_share_is_near(rate: Num, other: Num, fraction: Num, size: int)
    requires
        (Num { bits: ZERO }).le(rate) && !rate.inf(),
        (Num { bits: ZERO }).le(other) && !other.inf(),
        (Num { bits: ZERO }).le(fraction) && fraction.le(Num { bits: ONE }),
        rate.value() + other.value() <= size <= largest(),
    ensures
        ({
            let u = pow2(UNIT as nat) as int;
            near(
                rate.plus_of(other.times_of(fraction)),
                u * rate.value() + other.value() * fraction.value(),
                u,
                size,
            )
        }),
{
    let zero = Num { bits: ZERO };
    let u = pow2(UNIT as nat) as int;
    lemma_one();
    lemma_value_order(zero, rate);
    lemma_value_order(rate, rate);
    lemma_value_order(zero, other);
    lemma_value_order(other, other);
    lemma_value_order(zero, fraction);
    lemma_value_order(fraction, Num { bits: ONE });
    lemma_value_order(fraction, fraction);
    let c = rate.value();
    let o = other.value();
    let f = fraction.value();
    let p = other.times_of(fraction);
    assert(0 <= o * f <= u * size) by (nonlinear_arith)
        requires
            0 <= o <= size,
            0 <= f <= u,
    ;
    product_is_near(other, fraction, size);
    crate::num::scaling_down(other, fraction);
    lemma_value_order(zero, p);
    lemma_value_order(p, other);
    lemma_value_order(p, p);
    sum_is_near(rate, p, size);
    let pv = p.value();
    let r = rate.plus_of(p).value();
    let e1 = u * pv - o * f;
    let e2 = r - (c + pv);
    let off = u * r - (u * c + o * f);
    assert(off == u * e2 + e1) by (nonlinear_arith)
        requires
            e1 == u * pv - o * f,
            e2 == r - (c + pv),
            off == u * r - (u * c + o * f),
    ;
    let k = 0x10_0000_0000_0000int;
    let t = u * (size + k);
    assert(-t <= k * (u * e2) <= t) by (nonlinear_arith)
        requires
            -(size + k) <= k * e2 <= size + k,
            t == u * (size + k),
            u > 0,
    ;
    assert(t >= 0) by (nonlinear_arith)
        requires
            t == u * (size + k),
            u > 0,
            size >= 0,
            k > 0,
    ;
    assert(k * off == k * (u * e2) + k * e1) by (nonlinear_arith)
        requires
            off == u * e2 + e1,
    ;
}

/// A product does not pass a double that the exact one does not pass.
pub proof fn product_against(a: Num, b: Num, line: Num)
    requires
        !a.nan() && !a.inf() && !b.nan() && !b.inf() && !line.nan() && !line.inf(),
    ensures
        !a.times_of(b).nan(),
        a.value() * b.value() <= pow2(UNIT as nat) * line.value() ==> a.times_of(b).le(line),
        a.value() * b.value() >= pow2(UNIT as nat) * line.value() ==> line.le(a.times_of(b)),
{
    let u = pow2(UNIT as nat) as int;
    lemma_pow2_pos(UNIT as nat);
    lemma_times_key(a, b);
    let n = a.value() * b.value();
    lemma_ratio_against(n, u, line);
}

/// A sum does not pass a double that the exact one does not pass.
pub proof fn sum_against(a: Num, b: Num, line: Num)
    requires
        !a.nan() && !a.inf() && !b.nan() && !b.inf() && !line.nan() && !line.inf(),
    ensures
        !a.plus_of(b).nan(),
        a.value() + b.value() <= line.value() ==> a.plus_of(b).le(line),
        a.value() + b.value() >= line.value() ==> line.le(a.plus_of(b)),
{
    lemma_plus_key(a, b);
    lemma_ratio_against(a.value() + b.value(), 1, line);
}

/// A quotient does not pass a double that the exact one does not pass.
pub proof fn quotient_against(a: Num, b: Num, line: Num)
    requires
        !a.nan() && !a.inf() && !b.inf() && !line.nan() && !line.inf(),
        (Num { bits: ZERO }).lt(b),
    ensures
        !a.over_of(b).nan(),
        a.value() * pow2(UNIT as nat) <= b.value() * line.value() ==> a.over_of(b).le(line),
        a.value() * pow2(UNIT as nat) >= b.value() * line.value() ==> line.le(a.over_of(b)),
{
    lemma_over_key(a, b);
    lemma_value_order(b, b);
    lemma_ratio_against(a.value() * pow2(UNIT as nat), b.value(), line);
}

proof fn lemma_ratio_against(n: int, d: int, line: Num)
    requires
        d > 0,
        !line.nan() && !line.inf(),
    ensures
        n <= d * line.value() ==> rounded_key(n, d) <= line.key(),
        n >= d * line.value() ==> rounded_key(n, d) >= line.key(),
{
    let m = units(line.mag());
    let v = line.value();
    lemma_value_order(line, line);
    rounding_keeps_doubles(line.mag(), d);
    let k = v * d;
    assert(k == d * v) by (nonlinear_arith)
        requires
            k == v * d,
    ;
    if v < 0 {
        assert(-k == m * d && k < 0) by (nonlinear_arith)
            requires
                m == -v,
                k == v * d,
                v < 0,
                d > 0,
        ;
    } else {
        assert(k == m * d && k >= 0) by (nonlinear_arith)
            requires
                m == v,
                k == v * d,
                v >= 0,
                d > 0,
        ;
    }
    assert(rounded_key(k, d) == line.key());
    if n <= k {
        assert(n * d <= k * d) by (nonlinear_arith)
            requires
                n <= k,
                d > 0,
        ;
        lemma_rounded_key_order(n, d, k, d);
    }
    if n >= k {
        assert(k * d <= n * d) by (nonlinear_arith)
            requires
                n >= k,
                d > 0,
        ;
        lemma_rounded_key_order(k, d, n, d);
    }
}

/// A double is the decimal fraction `p / q`, up to a 2^50th.
pub open spec fn decimal(f: Num, p: int, q: int) -> bool {
    let u = pow2(UNIT as nat) as int;
    &&& !f.nan()
    &&& !f.inf()
    &&& 0x4_0000_0000_0000 * (q * f.value() - p * u) <= q * u
    &&& 0x4_0000_0000_0000 * (p * u - q * f.value()) <= q * u
}

/// The value of a literal with a given significand and exponent.
pub proof fn literal_is_decimal(f: Num, sig: int, k: int, e: int, p: int, q: int)
    requires
        0 < k <= UNIT,
        STEP <= sig < 2 * STEP,
        f.bits == k * STEP + sig,
        pow2((UNIT - k) as nat) == e,
        q > 0,
        0x4_0000_0000_0000 * (q * sig - p * e) <= q * e,
        0x4_0000_0000_0000 * (p * e - q * sig) <= q * e,
    ensures
        decimal(f, p, q),
        f.value() == sig * pow2(k as nat),
        pow2(UNIT as nat) == e * pow2(k as nat),
        pow2(k as nat) > 0,
        f.key() > 0,
        q * sig == p * e ==> q * f.value() == p * pow2(UNIT as nat),
{
    let u = pow2(UNIT as nat) as int;
    let w = pow2(k as nat) as int;
    lemma_units_packed(sig, k);
    lemma_pow2_adds((UNIT - k) as nat, k as nat);
    assert(f.value() == sig * w);
    let x = q * sig - p * e;
    assert(q * (sig * w) - p * (e * w) == x * w) by (nonlinear_arith)
        requires
            x == q * sig - p * e,
    ;
    if x == 0 {
        assert(x * w == 0) by (nonlinear_arith)
            requires
                x == 0,
        ;
    }
    assert(0x4_0000_0000_0000 * (x * w) <= (q * e) * w && 0x4_0000_0000_0000 * (-(x * w)) <= (q
        * e) * w) by (nonlinear_arith)
        requires
            0x4_0000_0000_0000 * x <= q * e,
            0x4_0000_0000_0000 * (-x) <= q * e,
            w > 0,
    ;
    assert(q * (e * w) == (q * e) * w) by (nonlinear_arith);
}

/// A rate times 1 and an offset of at most 1 is near the exact product.
pub proof fn rate_times_offset_is_near(rate: Num, offset: Num, size: int)
    requires
        (Num { bits: ZERO }).le(rate) && !rate.inf(),
        !offset.nan() && !offset.inf(),
        -pow2(UNIT as nat) <= offset.value() <= pow2(UNIT as nat),
        rate.value() <= size,
        4 * size <= largest(),
    ensures
        ({
            let u = pow2(UNIT as nat) as int;
            near(
                rate.times_of((Num { bits: ONE }).plus_of(offset)),
                rate.value() * (u + offset.value()),
                u,
                16 * size,
            )
        }),
        !(Num { bits: ONE }).plus_of(offset).nan(),
        !(Num { bits: ONE }).plus_of(offset).inf(),
        (Num { bits: ZERO }).le((Num { bits: ONE }).plus_of(offset)),
{
    let one = Num { bits: ONE };
    let u = pow2(UNIT as nat) as int;
    let k = 0x10_0000_0000_0000int;
    lemma_one();
    lemma_value_order(Num { bits: ZERO }, rate);
    lemma_units_mono(ONE as int + STEP, INFINITE - 1);
    lemma_units_packed(STEP as int, 1023);
    lemma_pow2_unfold(1023);
    lemma_pow2_adds(52, 1023);
    lemma2_to64_rest();
    assert(1023 * STEP + STEP == ONE + STEP);
    assert(u >= k) by {
        lemma_pow2_strictly_increases(52, UNIT as nat);
    }
    lemma_pow2_adds(1, UNIT as nat);
    lemma2_to64();
    assert(2 * u <= largest());
    let f = one.plus_of(offset);
    sum_is_near(one, offset, 2 * u);
    sum_against(one, offset, Num { bits: ZERO });
    lemma_value_order(Num { bits: ZERO }, f);
    let c = rate.value();
    let o = offset.value();
    let fv = f.value();
    let e1 = fv - (u + o);
    assert(fv <= 3 * u);
    assert(-(u * (3 * size)) <= c * fv <= u * (3 * size)) by (nonlinear_arith)
        requires
            0 <= c <= size,
            0 <= fv <= 3 * u,
    ;
    product_is_near(rate, f, 3 * size);
    let r = rate.times_of(f).value();
    let e2 = u * r - c * fv;
    let exact = c * (u + o);
    assert(u * r - exact == e2 + c * e1) by (nonlinear_arith)
        requires
            e2 == u * r - c * fv,
            e1 == fv - (u + o),
            exact == c * (u + o),
    ;
    let t = u * size;
    assert(-(3 * t) <= k * (c * e1) <= 3 * t) by (nonlinear_arith)
        requires
            -(2 * u + k) <= k * e1 <= 2 * u + k,
            k <= u,
            0 <= c <= size,
            t == u * size,
            k > 0,
    ;
    assert(u * (3 * size + k) == 3 * t + u * k && u * (16 * size + k) == 16 * t + u * k)
        by (nonlinear_arith)
        requires
            t == u * size,
    ;
    assert(t >= 0 && u * k >= 0) by (nonlinear_arith)
        requires
            t == u * size,
            u > 0,
            size >= 0,
            k > 0,
    ;
    let x = c * e1;
    assert(k * (e2 + x) == k * e2 + k * x) by (nonlinear_arith);
}

/// A share of a rate, for a share that is a decimal fraction.
pub proof fn share_is_near(rate: Num, f: Num, p: int, q: int, size: int)
    requires
        (Num { bits: ZERO }).le(rate) && !rate.inf(),
        (Num { bits: ZERO }).le(f) && f.le(Num { bits: ONE }),
        decimal(f, p, q),
        0 < q,
        rate.value() <= size <= largest(),
    ensures
        near(rate.times_of(f), p * rate.value(), q, 2 * size),
{
    let zero = Num { bits: ZERO };
    let u = pow2(UNIT as nat) as int;
    lemma_one();
    lemma_value_order(zero, rate);
    lemma_value_order(rate, rate);
    lemma_value_order(zero, f);
    lemma_value_order(f, Num { bits: ONE });
    let x = rate.value();
    let a = f.value();
    assert(-(u * size) <= x * a <= u * size) by (nonlinear_arith)
        requires
            0 <= x <= size,
            0 <= a <= u,
    ;
    product_is_near(rate, f, size);
    let r = rate.times_of(f).value();
    let h = 0x1_0000_0000_0000int;
    let k = 0x10_0000_0000_0000int;
    let miss = q * a - p * u;
    assert(q * (x * a) - p * (x * u) == x * miss) by (nonlinear_arith)
        requires
            miss == q * a - p * u,
    ;
    let qu = q * u;
    assert(q * (x * u) == x * qu) by (nonlinear_arith)
        requires
            qu == q * u,
    ;
    assert(-(x * qu) <= 4 * h * (x * miss) <= x * qu) by (nonlinear_arith)
        requires
            -qu <= 4 * h * miss <= qu,
            x >= 0,
    ;
    let exact = x * a;
    let y = x * u;
    assert(y <= size * u) by (nonlinear_arith)
        requires
            y == x * u,
            x <= size,
            u > 0,
    ;
    let px = p * x;
    assert(p * y == px * u) by (nonlinear_arith)
        requires
            y == x * u,
            px == p * x,
    ;
    let g = q * r - px;
    let e1 = u * r - exact;
    let e2 = q * exact - px * u;
    assert(u * g == q * e1 + e2) by (nonlinear_arith)
        requires
            g == q * r - px,
            e1 == u * r - exact,
            e2 == q * exact - px * u,
    ;
    let t = u * (size + k);
    assert(-(q * t) <= h * (q * e1) <= q * t) by (nonlinear_arith)
        requires
            -t <= h * e1 <= t,
            q > 0,
    ;
    let z = q * (size * u);
    assert(q * y <= z && z >= 0) by (nonlinear_arith)
        requires
            y <= size * u,
            q > 0,
            z == q * (size * u),
            size >= 0,
            u > 0,
    ;
    assert(h * (u * g) == h * (q * e1) + h * e2) by (nonlinear_arith)
        requires
            u * g == q * e1 + e2,
    ;
    let limit = q * (2 * size + k);
    assert(q * t + z == u * limit) by (nonlinear_arith)
        requires
            t == u * (size + k),
            z == q * (size * u),
            limit == q * (2 * size + k),
    ;
    assert(-(u * limit) <= h * (u * g) <= u * limit);
    assert(-limit <= h * g <= limit) by (nonlinear_arith)
        requires
            -(u * limit) <= h * (u * g) <= u * limit,
            u > 0,
    ;
}

/// A product of magnitudes is a magnitude.
pub proof fn product_of_magnitudes(a: Num, b: Num)
    requires
        (Num { bits: ZERO }).le(a),
        (Num { bits: ZERO }).le(b),
        !a.times_of(b).nan(),
    ensures
        (Num { bits: ZERO }).le(a.times_of(b)),
{
    if !a.inf() && !b.inf() {
        product_against(a, b, Num { bits: ZERO });
        lemma_value_order(Num { bits: ZERO }, a);
        lemma_value_order(Num { bits: ZERO }, b);
        lemma_value_order(Num { bits: ZERO }, Num { bits: ZERO });
        assert(a.value() * b.value() >= pow2(UNIT as nat) * 0) by (nonlinear_arith)
            requires
                a.value() >= 0,
                b.value() >= 0,
        ;
    } else {
        reveal(Num::times_of);
    }
}

/// A magnitude times a number that is not positive is not positive.
pub proof fn product_of_opposites(a: Num, b: Num)
    requires
        (Num { bits: ZERO }).le(a),
        b.le(Num { bits: ZERO }),
        !a.times_of(b).nan(),
    ensures
        a.times_of(b).le(Num { bits: ZERO }),
{
    if !a.inf() && !b.inf() {
        product_against(a, b, Num { bits: ZERO });
        lemma_value_order(Num { bits: ZERO }, a);
        lemma_value_order(b, Num { bits: ZERO });
        lemma_value_order(Num { bits: ZERO }, Num { bits: ZERO });
        assert(a.value() * b.value() <= pow2(UNIT as nat) * 0) by (nonlinear_arith)
            requires
                a.value() >= 0,
                b.value() <= 0,
        ;
    } else {
        reveal(Num::times_of);
    }
}

/// There is room for far more than 1 below the largest double.
pub proof fn lemma_room()
    ensures
        0x1000_0000_0000_0000 * pow2(UNIT as nat) <= largest(),
        pow2(UNIT as nat) >= 0x10_0000_0000_0000,
{
    lemma_units_packed(2 * STEP - 1, 2045);
    assert(2045 * STEP + (2 * STEP - 1) == INFINITE - 1);
    lemma_pow2_adds(60, UNIT as nat);
    lemma2_to64();
    lemma2_to64_rest();
    lemma_pow2_strictly_increases(60 + UNIT as nat, 2045);
    lemma_pow2_strictly_increases(52, UNIT as nat);
    assert((2 * STEP - 1) * pow2(2045) >= pow2(2045)) by (nonlinear_arith)
        requires
            2 * STEP - 1 >= 1,
            pow2(2045) > 0,
    ;
}

/// A sum that is a double is exact.
pub proof fn sum_is_exact(a: Num, b: Num, v: Num)
    requires
        !a.nan() && !a.inf() && !b.nan() && !b.inf() && !v.nan() && !v.inf(),
        a.value() + b.value() == v.value(),
    ensures
        a.plus_of(b).same(v),
        a.plus_of(b).value() == v.value(),
        !a.plus_of(b).inf(),
{
    sum_against(a, b, v);
    lemma_value_order(a.plus_of(b), v);
    lemma_value_order(v, a.plus_of(b));
}

/// A difference that is a double is exact.
pub proof fn difference_is_exact(a: Num, b: Num, v: Num)
    requires
        !a.nan() && !a.inf() && !b.nan() && !b.inf() && !v.nan() && !v.inf(),
        a.value() - b.value() == v.value(),
    ensures
        a.minus_of(b).same(v),
        a.minus_of(b).value() == v.value(),
        !a.minus_of(b).inf(),
{
    assert(b.negate_of().value() == -b.value());
    sum_is_exact(a, b.negate_of(), v);
}

/// A small whole number as a double.
pub proof fn whole(n: int) -> (r: Num)
    requires
        0 <= n < 2 * STEP,
    ensures
        r == Num::of_int(n),
        r.value() == n * pow2(UNIT as nat),
        !r.nan() && !r.inf() && !r.neg(),
{
    crate::num::whole_numbers_are_exact(n);
    Num::of_int(n)
}

/// A quotient is finite where the exact one stays below the largest double.
pub proof fn quotient_is_finite(a: Num, b: Num, size: int)
    requires
        !a.nan() && !a.inf() && !b.nan() && !b.inf() && b.mag() != 0,
        units(a.mag()) * pow2(UNIT as nat) <= units(b.mag()) * size,
        0 <= size <= largest(),
    ensures
        !a.over_of(b).nan(),
        !a.over_of(b).inf(),
        a.over_of(b).key() == 0 || (a.over_of(b).key() > 0) == (a.neg() == b.neg()),
        a.mag() == 0 ==> a.over_of(b).key() == 0,
{
    reveal(Num::over_of);
    lemma_pow2_pos(UNIT as nat);
    lemma_units_mono(0, a.mag());
    lemma_units_mono(0, b.mag());
    let n = units(a.mag()) * pow2(UNIT as nat);
    assert(n >= 0) by (nonlinear_arith)
        requires
            n == units(a.mag()) * pow2(UNIT as nat),
            units(a.mag()) >= 0,
    ;
    lemma_rounded(n, units(b.mag()));
    crate::rounding::rounding_error_is_small(n, units(b.mag()), size);
    if a.mag() == 0 {
        assert(n == 0) by (nonlinear_arith)
            requires
                n == units(a.mag()) * pow2(UNIT as nat),
                units(a.mag()) == 0,
        ;
        rounding_keeps_doubles(0, units(b.mag()));
        assert(0 * units(b.mag()) == 0);
    }
}

/// The units of 1 are more than enough to make one of them negligible.
pub proof fn lemma_fine()
    ensures
        pow2(UNIT as nat) >= 0x1_0000_0000_0000_0000_0000_0000_0000,
{
    lemma_pow2_adds(56, 56);
    lemma2_to64();
    lemma2_to64_rest();
    lemma_pow2_strictly_increases(112, UNIT as nat);
    assert(0x100_0000_0000_0000 * 0x100_0000_0000_0000
        == 0x1_0000_0000_0000_0000_0000_0000_0000int);
}

/// `n` lies below `d` by more than rounding moves a result: by a 2^32nd part.
pub open spec fn below(n: int, d: int) -> bool {
    0x1_0000_0000 * n <= 0xffff_ffff * d
}

/// A whole number as a double is off by a 2^51st part at most.
pub proof fn whole_is_near(n: int)
    requires
        0 <= n <= u64::MAX,
    ensures
        !Num::of_int(n).nan() && !Num::of_int(n).inf(),
        Num::of_int(n).value() >= 0,
        n > 0 ==> Num::of_int(n).value() >= pow2(UNIT as nat),
        0x8_0000_0000_0000 * (Num::of_int(n).value() - n * pow2(UNIT as nat)) <= n * pow2(
            UNIT as nat,
        ),
        0x8_0000_0000_0000 * (n * pow2(UNIT as nat) - Num::of_int(n).value()) <= n * pow2(
            UNIT as nat,
        ),
{
    let u = pow2(UNIT as nat) as int;
    let x = Num::of_int(n);
    let nu = n * u;
    lemma_one();
    whole_numbers_keep_order(n, n);
    lemma_value_order(Num { bits: ZERO }, x);
    lemma_value_order(Num { bits: ONE }, x);
    lemma_value_order(x, x);
    assert((Num { bits: ONE }).value() == u);
    if n == 0 {
        assert(nu == 0) by (nonlinear_arith)
            requires
                nu == n * u,
                n == 0,
        ;
    } else {
        lemma_room();
        assert(nu >= u) by (nonlinear_arith)
            requires
                nu == n * u,
                n >= 1,
                u > 0,
        ;
        assert(x.mag() == rounded(nu, 1)) by {
            reveal(Num::of_int);
            lemma_rounded(nu, 1);
        }
        assert(nu <= 1 * nu);
        crate::rounding::rounding_error_is_small(nu, 1, nu);
    }
}

/// A quotient lies on the side of a threshold on which the exact one lies by more than rounding
/// moves it.
proof fn lemma_clears(a: Num, b: Num, line: Num, p: int, q: int)
    requires
        (Num { bits: ZERO }).le(a) && !a.inf(),
        (Num { bits: ZERO }).lt(b) && !b.inf(),
        decimal(line, p, q),
        line.key() > 0,
        0 < q <= 2000 * p,
    ensures
        !a.over_of(b).nan(),
        0x4_0000_0000 * (q * a.value()) <= 0x3_ffff_ffff * (p * b.value()) ==> a.over_of(b).lt(
            line,
        ),
        0x4_0000_0000 * (p * b.value()) <= 0x3_ffff_ffff * (q * a.value()) && line.mag() + 1
            < INFINITE ==> line.lt(a.over_of(b)),
{
    let u = pow2(UNIT as nat) as int;
    let m = line.mag();
    let zero = Num { bits: ZERO };
    lemma_fine();
    lemma_value_order(line, line);
    lemma_value_order(zero, a);
    lemma_value_order(zero, b);
    lemma_value_order(b, zero);
    let v = line.value();
    let x = a.value();
    let y = b.value();
    let lo = Num { bits: (m - 1) as u64 };
    let hi = Num { bits: (m + 1) as u64 };
    let vl = units(m - 1);
    let vh = units(m + 1);
    lemma_units_mono(0, m - 1);
    lemma_gap(m - 1);
    lemma_gap(m);
    assert(lo.value() == vl);
    let pu = p * u;
    let qu = q * u;
    let qv = q * v;
    assert(qu <= 2000 * pu && qu >= u * 1) by (nonlinear_arith)
        requires
            qu == q * u,
            pu == p * u,
            0 < q <= 2000 * p,
            u > 0,
    ;
    assert(0x1_0000_0000_0000_0000_0000_0000_0000 * q <= qu) by (nonlinear_arith)
        requires
            qu == q * u,
            u >= 0x1_0000_0000_0000_0000_0000_0000_0000,
            q > 0,
    ;
    quotient_against(a, b, lo);
    let (qvl, qvh) = (q * vl, q * vh);
    assert(qv - qvl == q * (v - vl) && qvh - qv == q * (vh - v)) by (nonlinear_arith)
        requires
            qv == q * v,
            qvl == q * vl,
            qvh == q * vh,
    ;
    assert(0x10_0000_0000_0000 * (q * (v - vl)) <= qvl + 0x10_0000_0000_0000 * q)
        by (nonlinear_arith)
        requires
            (v - vl) * 0x10_0000_0000_0000 <= vl + 0x10_0000_0000_0000,
            qvl == q * vl,
            q > 0,
    ;
    assert(0x10_0000_0000_0000 * (q * (vh - v)) <= qv + 0x10_0000_0000_0000 * q)
        by (nonlinear_arith)
        requires
            (vh - v) * 0x10_0000_0000_0000 <= v + 0x10_0000_0000_0000,
            qv == q * v,
            q > 0,
    ;
    assert(0x40_0000_0000 * qvl >= 0x3f_ffff_ffff * pu);
    assert(0x40_0000_0000 * qvh <= 0x40_0000_0001 * pu);
    let xs = (q * x) * u;
    let ys = (p * y) * u;
    let zl = qvl * y;
    let zh = qvh * y;
    assert(0x40_0000_0000 * zl >= 0x3f_ffff_ffff * ys) by (nonlinear_arith)
        requires
            0x40_0000_0000 * qvl >= 0x3f_ffff_ffff * pu,
            zl == qvl * y,
            ys == (p * y) * u,
            pu == p * u,
            y > 0,
    ;
    assert(0x40_0000_0000 * zh <= 0x40_0000_0001 * ys) by (nonlinear_arith)
        requires
            0x40_0000_0000 * qvh <= 0x40_0000_0001 * pu,
            zh == qvh * y,
            ys == (p * y) * u,
            pu == p * u,
            y > 0,
    ;
    assert(ys >= 0 && xs >= 0) by (nonlinear_arith)
        requires
            ys == (p * y) * u,
            xs == (q * x) * u,
            p > 0,
            q > 0,
            y > 0,
            x >= 0,
            u > 0,
    ;
    let (qx, py) = (q * x, p * y);
    if 0x4_0000_0000 * qx <= 0x3_ffff_ffff * py {
        assert(0x4_0000_0000 * xs <= 0x3_ffff_ffff * ys) by (nonlinear_arith)
            requires
                0x4_0000_0000 * qx <= 0x3_ffff_ffff * py,
                xs == qx * u,
                ys == py * u,
                u > 0,
        ;
        assert(xs <= zl);
        assert(x * u <= y * vl) by (nonlinear_arith)
            requires
                xs <= zl,
                xs == (q * x) * u,
                zl == (q * vl) * y,
                q > 0,
        ;
        assert(a.over_of(b).le(lo));
    }
    if 0x4_0000_0000 * py <= 0x3_ffff_ffff * qx && m + 1 < INFINITE {
        assert(hi.value() == vh);
        quotient_against(a, b, hi);
        assert(0x4_0000_0000 * ys <= 0x3_ffff_ffff * xs) by (nonlinear_arith)
            requires
                0x4_0000_0000 * py <= 0x3_ffff_ffff * qx,
                xs == qx * u,
                ys == py * u,
                u > 0,
        ;
        assert(zh <= xs);
        assert(y * vh <= x * u) by (nonlinear_arith)
            requires
                zh <= xs,
                xs == (q * x) * u,
                zh == (q * vh) * y,
                q > 0,
        ;
        assert(hi.le(a.over_of(b)));
    }
}

/// A quotient of doubles against a threshold of `p / q`.
pub proof fn quotient_clears(a: Num, b: Num, line: Num, p: int, q: int)
    requires
        (Num { bits: ZERO }).le(a) && !a.inf(),
        (Num { bits: ZERO }).lt(b) && !b.inf(),
        decimal(line, p, q),
        0 < line.key() < INFINITE - 1,
        0 < q <= 2000 * p,
    ensures
        !a.over_of(b).nan(),
        below(q * a.value(), p * b.value()) ==> a.over_of(b).lt(line),
        below(p * b.value(), q * a.value()) ==> line.lt(a.over_of(b)),
{
    let zero = Num { bits: ZERO };
    lemma_clears(a, b, line, p, q);
    lemma_value_order(zero, a);
    lemma_value_order(zero, b);
    let (qx, py) = (q * a.value(), p * b.value());
    assert(qx >= 0 && py >= 0) by (nonlinear_arith)
        requires
            qx == q * a.value(),
            py == p * b.value(),
            a.value() >= 0,
            b.value() >= 0,
            p > 0,
            q > 0,
    ;
}

/// A share of a count against a threshold of `p / q`.
pub proof fn count_share_clears(part: int, total: int, line: Num, p: int, q: int)
    requires
        0 <= part <= u64::MAX,
        0 < total <= u64::MAX,
        decimal(line, p, q),
        0 < line.key() < INFINITE - 1,
        0 < q <= 2000 * p,
    ensures
        !Num::of_int(part).over_of(Num::of_int(total)).nan(),
        below(q * part, p * total) ==> Num::of_int(part).over_of(Num::of_int(total)).lt(line),
        below(p * total, q * part) ==> line.lt(Num::of_int(part).over_of(Num::of_int(total))),
{
    let (a, b) = (Num::of_int(part), Num::of_int(total));
    let zero = Num { bits: ZERO };
    let u = pow2(UNIT as nat) as int;
    lemma_one();
    whole_is_near(part);
    whole_is_near(total);
    lemma_value_order(zero, a);
    lemma_value_order(zero, b);
    lemma_value_order(b, zero);
    lemma_clears(a, b, line, p, q);
    let (x, y) = (a.value(), b.value());
    let (qx, py) = (q * x, p * y);
    let (qn, pn) = ((q * part) * u, (p * total) * u);
    assert(0x8_0000_0000_0000 * (qx - qn) <= qn && 0x8_0000_0000_0000 * (qn - qx) <= qn && qn >= 0)
        by (nonlinear_arith)
        requires
            0x8_0000_0000_0000 * (x - part * u) <= part * u,
            0x8_0000_0000_0000 * (part * u - x) <= part * u,
            qx == q * x,
            qn == (q * part) * u,
            q > 0,
            part >= 0,
            u > 0,
    ;
    assert(0x8_0000_0000_0000 * (py - pn) <= pn && 0x8_0000_0000_0000 * (pn - py) <= pn && pn >= 0)
        by (nonlinear_arith)
        requires
            0x8_0000_0000_0000 * (y - total * u) <= total * u,
            0x8_0000_0000_0000 * (total * u - y) <= total * u,
            py == p * y,
            pn == (p * total) * u,
            p > 0,
            total >= 0,
            u > 0,
    ;
    let (s, t) = (q * part, p * total);
    if below(s, t) {
        assert(0x1_0000_0000 * qn <= 0xffff_ffff * pn) by (nonlinear_arith)
            requires
                0x1_0000_0000 * s <= 0xffff_ffff * t,
                qn == s * u,
                pn == t * u,
                u > 0,
        ;
    }
    if below(t, s) {
        assert(0x1_0000_0000 * pn <= 0xffff_ffff * qn) by (nonlinear_arith)
            requires
                0x1_0000_0000 * t <= 0xffff_ffff * s,
                qn == s * u,
                pn == t * u,
                u > 0,
        ;
    }
}

/// A double against a threshold of `p / q`.
pub proof fn value_clears(a: Num, line: Num, p: int, q: int)
    requires
        (Num { bits: ZERO }).le(a) && !a.inf(),
        decimal(line, p, q),
        0 < q <= 2000 * p,
    ensures
        below(q * a.value(), p * pow2(UNIT as nat)) ==> a.lt(line),
        below(p * pow2(UNIT as nat), q * a.value()) ==> line.lt(a),
{
    let u = pow2(UNIT as nat) as int;
    lemma_pow2_pos(UNIT as nat);
    lemma_value_order(a, line);
    lemma_value_order(line, a);
    lemma_value_order(Num { bits: ZERO }, a);
    let (qx, pu, qv) = (q * a.value(), p * u, q * line.value());
    assert(q * u <= 2000 * pu && pu > 0) by (nonlinear_arith)
        requires
            pu == p * u,
            0 < q <= 2000 * p,
            u > 0,
    ;
    if below(qx, pu) {
        assert(qx < qv);
        assert(a.value() < line.value()) by (nonlinear_arith)
            requires
                qx < qv,
                qx == q * a.value(),
                qv == q * line.value(),
                q > 0,
        ;
    }
    if below(pu, qx) {
        assert(qv < qx);
        assert(line.value() < a.value()) by (nonlinear_arith)
            requires
                qv < qx,
                qx == q * a.value(),
                qv == q * line.value(),
                q > 0,
        ;
    }
}

/// A product that is a double is exact.
pub proof fn product_is_exact(a: Num, b: Num, v: Num)
    requires
        !a.nan() && !a.inf() && !b.nan() && !b.inf() && !v.nan() && !v.inf(),
        a.value() * b.value() == pow2(UNIT as nat) * v.value(),
    ensures
        a.times_of(b).same(v),
        a.times_of(b).value() == v.value(),
        !a.times_of(b).inf(),
{
    product_against(a, b, v);
    lemma_value_order(a.times_of(b), v);
    lemma_value_order(v, a.times_of(b));
}

/// A quotient that is a double is exact.
pub proof fn quotient_is_exact(a: Num, b: Num, v: Num)
    requires
        !a.nan() && !a.inf() && !b.inf() && !v.nan() && !v.inf(),
        (Num { bits: ZERO }).lt(b),
        a.value() * pow2(UNIT as nat) == b.value() * v.value(),
    ensures
        a.over_of(b).same(v),
        a.over_of(b).value() == v.value(),
        !a.over_of(b).inf(),
{
    quotient_against(a, b, v);
    lemma_value_order(a.over_of(b), v);
    lemma_value_order(v, a.over_of(b));
}

/// A multiple of a rate against another one, the factor being `p / q`.
pub proof fn product_clears(a: Num, b: Num, f: Num, p: int, q: int)
    requires
        (Num { bits: ZERO }).le(a) && !a.inf(),
        0x10_0000_0000_0000 <= a.value(),
        4 * a.value() <= largest(),
        (Num { bits: ZERO }).le(b) && !b.inf(),
        decimal(f, p, q),
        0 < q <= 2000 * p,
        p <= 3 * q,
    ensures
        !a.times_of(f).nan() && !a.times_of(f).inf(),
        below(p * a.value(), q * b.value()) ==> a.times_of(f).lt(b),
        below(q * b.value(), p * a.value()) ==> b.lt(a.times_of(f)),
{
    let u = pow2(UNIT as nat) as int;
    lemma_one();
    lemma_room();
    lemma_value_order(Num { bits: ZERO }, a);
    lemma_value_order(Num { bits: ZERO }, b);
    let (x, v, y) = (a.value(), f.value(), b.value());
    let (qv, pu, qu) = (q * v, p * u, q * u);
    let (xu, xv) = (x * u, x * v);
    let (qxv, pxu, qxu) = (q * xv, p * xu, q * xu);
    assert(0x4_0000_0000_0000 * (qxv - pxu) <= qxu && 0x4_0000_0000_0000 * (pxu - qxv) <= qxu)
        by (nonlinear_arith)
        requires
            0x4_0000_0000_0000 * (q * v - p * u) <= q * u,
            0x4_0000_0000_0000 * (p * u - q * v) <= q * u,
            qxv == q * (x * v),
            pxu == p * (x * u),
            qxu == q * (x * u),
            x >= 0,
    ;
    assert(0 <= xu && 0 <= qxu <= 2000 * pxu && pxu <= 3 * qxu && 0 < pxu) by (nonlinear_arith)
        requires
            xu == x * u,
            qxu == q * xu,
            pxu == p * xu,
            0 < q <= 2000 * p,
            p <= 3 * q,
            x > 0,
            u > 0,
    ;
    assert(-(4 * qxu) <= qxv <= 4 * qxu);
    assert(-(u * (4 * x)) <= xv <= u * (4 * x)) by (nonlinear_arith)
        requires
            -(4 * (q * (x * u))) <= q * xv <= 4 * (q * (x * u)),
            q > 0,
    ;
    product_is_near(a, f, 4 * x);
    let t = a.times_of(f);
    let tv = t.value();
    lemma_value_order(t, b);
    lemma_value_order(b, t);
    let ut = u * tv;
    assert(u * (4 * x + 0x10_0000_0000_0000) <= 5 * xu) by (nonlinear_arith)
        requires
            xu == x * u,
            x >= 0x10_0000_0000_0000,
            u > 0,
    ;
    let qut = q * ut;
    assert(0x1_0000_0000_0000 * (qut - qxv) <= 5 * qxu && 0x1_0000_0000_0000 * (qxv - qut) <= 5
        * qxu) by (nonlinear_arith)
        requires
            0x1_0000_0000_0000 * (ut - xv) <= 5 * xu,
            0x1_0000_0000_0000 * (xv - ut) <= 5 * xu,
            qut == q * ut,
            qxv == q * xv,
            qxu == q * xu,
            q > 0,
    ;
    let qyu = (q * y) * u;
    if below(p * x, q * y) {
        assert(0x1_0000_0000 * pxu <= 0xffff_ffff * qyu) by (nonlinear_arith)
            requires
                0x1_0000_0000 * (p * x) <= 0xffff_ffff * (q * y),
                pxu == p * (x * u),
                qyu == (q * y) * u,
                u > 0,
        ;
        assert(qut < qyu);
        assert(tv < y) by (nonlinear_arith)
            requires
                qut < qyu,
                qut == q * (u * tv),
                qyu == (q * y) * u,
                q > 0,
                u > 0,
        ;
    }
    if below(q * y, p * x) {
        assert(0x1_0000_0000 * qyu <= 0xffff_ffff * pxu) by (nonlinear_arith)
            requires
                0x1_0000_0000 * (q * y) <= 0xffff_ffff * (p * x),
                pxu == p * (x * u),
                qyu == (q * y) * u,
                u > 0,
        ;
        assert(qyu < qut);
        assert(y < tv) by (nonlinear_arith)
            requires
                qyu < qut,
                qut == q * (u * tv),
                qyu == (q * y) * u,
                q > 0,
                u > 0,
        ;
    }
}

/// Whole seconds are exact.
pub proof fn whole_seconds_are_exact(secs: u64)
    requires
        secs <= 18_000_000_000,
    ensures
        ({
            let s = crate::num::seconds_of((secs * 1_000_000_000) as u64);
            &&& !s.nan() && !s.inf()
            &&& s.value() == secs * pow2(UNIT as nat)
        }),
{
    let n = (secs * 1_000_000_000) as u64;
    let u = pow2(UNIT as nat) as int;
    lemma_one();
    let a = whole(secs as int);
    let z = whole(0);
    let d = whole(1_000_000_000);
    lemma_value_order(d, Num { bits: ZERO });
    lemma_value_order(Num { bits: ZERO }, d);
    lemma_value_order(z, z);
    assert(z.value() * u == d.value() * 0) by (nonlinear_arith)
        requires
            z.value() == 0,
    ;
    quotient_is_exact(z, d, z);
    assert(n as int / 1_000_000_000 == secs && n as int % 1_000_000_000 == 0);
    sum_is_exact(a, z.over_of(d), a);
}

/// Seconds are a billionth of nanoseconds.
pub proof fn seconds_are_near(nanos: u64)
    ensures
        near(
            crate::num::seconds_of(nanos),
            nanos * pow2(UNIT as nat),
            1_000_000_000,
            (nanos as int / 1_000_000_000 + 3) * pow2(UNIT as nat),
        ),
{
    let u = pow2(UNIT as nat) as int;
    let g = 1_000_000_000int;
    let k = 0x10_0000_0000_0000int;
    lemma_one();
    lemma_room();
    let w = nanos as int / g;
    let r = nanos as int % g;
    let a = whole(w);
    let b = whole(r);
    let d = whole(g);
    lemma_value_order(d, Num { bits: ZERO });
    lemma_value_order(Num { bits: ZERO }, d);
    let (wu, ru) = (w * u, r * u);
    assert(0 <= ru <= g * u && 0 <= wu <= 18_446_744_074 * u && d.value() == g * u)
        by (nonlinear_arith)
        requires
            ru == r * u,
            wu == w * u,
            0 <= r <= g,
            0 <= w <= 18_446_744_074,
            d.value() == g * u,
            u > 0,
    ;
    assert(-((g * u) * u) <= ru * u <= (g * u) * u) by (nonlinear_arith)
        requires
            0 <= ru <= g * u,
            u > 0,
    ;
    quotient_is_near(b, d, u);
    let f = b.over_of(d);
    let fv = f.value();
    assert(k * (g * fv - ru) <= g * (u + k) && k * (ru - g * fv) <= g * (u + k))
        by (nonlinear_arith)
        requires
            k * ((g * u) * fv - ru * u) <= (g * u) * (u + k),
            k * (ru * u - (g * u) * fv) <= (g * u) * (u + k),
            u > 0,
    ;
    let size = (w + 3) * u;
    assert(size == wu + 3 * u) by (nonlinear_arith)
        requires
            size == (w + 3) * u,
            wu == w * u,
    ;
    sum_is_near(a, f, size);
    assert(nanos * u == g * wu + ru) by (nonlinear_arith)
        requires
            nanos == g * w + r,
            wu == w * u,
            ru == r * u,
    ;
}

} // verus!
