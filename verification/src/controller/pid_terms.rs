//! What the terms of a PID loop add up to, and how the rate follows them.

use vstd::arithmetic::power2::*;
use vstd::prelude::*;

use crate::controller::autotune::{STEP_DOWN, STEP_UP, TWENTIETH};
use crate::num::{lemma_one, lemma_value_order, Num, ONE, UNIT, ZERO};
use crate::order::{
    lemma_room, literal_is_decimal, nan_spreads, near, nothing_added, nothing_times, one_times,
    product_is_near, product_of_magnitudes, product_of_opposites, products_keep_order,
    rate_times_offset_is_near, sum_is_near, sums_keep_order,
};

verus! {

/// No part of a sum of terms is NaN where the sum is not.
proof fn lemma_parts(kp: Num, e: Num, ki: Num, i: Num, kd: Num, d: Num)
    requires
        !kp.times_of(e).plus_of(ki.times_of(i)).plus_of(kd.times_of(d)).nan(),
    ensures
        !kp.times_of(e).nan(),
        !ki.times_of(i).nan(),
        !kd.times_of(d).nan(),
        !kp.times_of(e).plus_of(ki.times_of(i)).nan(),
        !kp.nan() && !e.nan() && !ki.nan() && !i.nan() && !kd.nan() && !d.nan(),
{
    let a = kp.times_of(e);
    let b = ki.times_of(i);
    let c = kd.times_of(d);
    if a.plus_of(b).nan() || c.nan() {
        nan_spreads(a.plus_of(b), c);
    }
    if a.nan() || b.nan() {
        nan_spreads(a, b);
    }
    if kp.nan() || e.nan() {
        nan_spreads(kp, e);
    }
    if ki.nan() || i.nan() {
        nan_spreads(ki, i);
    }
    if kd.nan() || d.nan() {
        nan_spreads(kd, d);
    }
}

/// With gains that are not negative, the terms add up to no less where none of the inputs is less.
pub proof fn terms_keep_order(
    kp: Num,
    ki: Num,
    kd: Num,
    e1: Num,
    e2: Num,
    i1: Num,
    i2: Num,
    d1: Num,
    d2: Num,
)
    requires
        (Num { bits: ZERO }).le(kp),
        (Num { bits: ZERO }).le(ki),
        (Num { bits: ZERO }).le(kd),
        e1.le(e2),
        i1.le(i2),
        d1.le(d2),
        !kp.times_of(e1).plus_of(ki.times_of(i1)).plus_of(kd.times_of(d1)).nan(),
        !kp.times_of(e2).plus_of(ki.times_of(i2)).plus_of(kd.times_of(d2)).nan(),
    ensures
        kp.times_of(e1).plus_of(ki.times_of(i1)).plus_of(kd.times_of(d1)).le(
            kp.times_of(e2).plus_of(ki.times_of(i2)).plus_of(kd.times_of(d2)),
        ),
{
    lemma_parts(kp, e1, ki, i1, kd, d1);
    lemma_parts(kp, e2, ki, i2, kd, d2);
    products_keep_order(kp, e1, e2);
    products_keep_order(ki, i1, i2);
    products_keep_order(kd, d1, d2);
    let (a1, b1, c1) = (kp.times_of(e1), ki.times_of(i1), kd.times_of(d1));
    let (a2, b2, c2) = (kp.times_of(e2), ki.times_of(i2), kd.times_of(d2));
    sums_keep_order(a1, a2, b1, b2);
    sums_keep_order(a1.plus_of(b1), a2.plus_of(b2), c1, c2);
}

/// Terms that all push upwards add up to no push downwards. The derivative has no say where its
/// gain is zero.
pub proof fn terms_push_up(kp: Num, ki: Num, kd: Num, e: Num, i: Num, d: Num)
    requires
        (Num { bits: ZERO }).le(kp),
        (Num { bits: ZERO }).le(ki),
        (Num { bits: ZERO }).le(kd),
        (Num { bits: ZERO }).le(e),
        (Num { bits: ZERO }).le(i),
        (Num { bits: ZERO }).le(d) || kd.same(Num { bits: ZERO }),
        !kp.times_of(e).plus_of(ki.times_of(i)).plus_of(kd.times_of(d)).nan(),
    ensures
        (Num { bits: ZERO }).le(
            kp.times_of(e).plus_of(ki.times_of(i)).plus_of(kd.times_of(d)),
        ),
{
    let zero = Num { bits: ZERO };
    lemma_parts(kp, e, ki, i, kd, d);
    product_of_magnitudes(kp, e);
    product_of_magnitudes(ki, i);
    lemma_derivative(kd, d);
    if zero.le(d) {
        product_of_magnitudes(kd, d);
    }
    let (a, b, c) = (kp.times_of(e), ki.times_of(i), kd.times_of(d));
    nothing_added(zero, zero);
    sums_keep_order(zero, a, zero, b);
    nothing_added(a.plus_of(b), zero);
    sums_keep_order(zero, a.plus_of(b), zero, c);
}

/// Terms that all push downwards add up to no push upwards.
pub proof fn terms_push_down(kp: Num, ki: Num, kd: Num, e: Num, i: Num, d: Num)
    requires
        (Num { bits: ZERO }).le(kp),
        (Num { bits: ZERO }).le(ki),
        (Num { bits: ZERO }).le(kd),
        e.le(Num { bits: ZERO }),
        i.le(Num { bits: ZERO }),
        d.le(Num { bits: ZERO }) || kd.same(Num { bits: ZERO }),
        !kp.times_of(e).plus_of(ki.times_of(i)).plus_of(kd.times_of(d)).nan(),
    ensures
        kp.times_of(e).plus_of(ki.times_of(i)).plus_of(kd.times_of(d)).le(Num { bits: ZERO }),
{
    let zero = Num { bits: ZERO };
    lemma_parts(kp, e, ki, i, kd, d);
    product_of_opposites(kp, e);
    product_of_opposites(ki, i);
    lemma_derivative(kd, d);
    if d.le(zero) {
        product_of_opposites(kd, d);
    }
    let (a, b, c) = (kp.times_of(e), ki.times_of(i), kd.times_of(d));
    nothing_added(zero, zero);
    sums_keep_order(a, zero, b, zero);
    sums_keep_order(a.plus_of(b), zero, c, zero);
}

proof fn lemma_derivative(kd: Num, d: Num)
    requires
        !kd.times_of(d).nan(),
        !d.nan(),
        !kd.nan(),
    ensures
        kd.same(Num { bits: ZERO }) ==> kd.times_of(d).same(Num { bits: ZERO }),
{
    if kd.same(Num { bits: ZERO }) {
        if d.inf() {
            reveal(Num::times_of);
        } else {
            nothing_times(d, kd);
        }
    }
}

/// The rate follows the output: by a twentieth of it, at most a fifth either way, and a larger
/// output never leads to a lower rate.
pub proof fn rate_follows_output(out1: Num, out2: Num, current: Num, lo: Num, hi: Num)
    requires
        out1.le(out2),
        (Num { bits: ZERO }).le(current),
        lo.le(hi),
    ensures
        ({
            let adj1 = out1.times_of(Num { bits: TWENTIETH }).clamp_of(
                Num { bits: STEP_DOWN },
                Num { bits: STEP_UP },
            );
            let adj2 = out2.times_of(Num { bits: TWENTIETH }).clamp_of(
                Num { bits: STEP_DOWN },
                Num { bits: STEP_UP },
            );
            let r1 = current.times_of((Num { bits: ONE }).plus_of(adj1));
            let r2 = current.times_of((Num { bits: ONE }).plus_of(adj2));
            &&& r1.le(r2)
            &&& r1.clamp_of(lo, hi).le(r2.clamp_of(lo, hi))
            &&& (Num { bits: ZERO }).le(out1) ==> current.le(r1) && current.clamp_of(lo, hi).le(
                r1.clamp_of(lo, hi),
            )
            &&& out1.le(Num { bits: ZERO }) ==> r1.le(current) && r1.clamp_of(lo, hi).le(
                current.clamp_of(lo, hi),
            )
        }),
{
    let zero = Num { bits: ZERO };
    let one = Num { bits: ONE };
    lemma_adjustment(out1);
    lemma_adjustment(out2);
    let t = Num { bits: TWENTIETH };
    products_keep_order(t, out1, out2);
    let adj1 = out1.times_of(t).clamp_of(Num { bits: STEP_DOWN }, Num { bits: STEP_UP });
    let adj2 = out2.times_of(t).clamp_of(Num { bits: STEP_DOWN }, Num { bits: STEP_UP });
    let f1 = one.plus_of(adj1);
    let f2 = one.plus_of(adj2);
    sums_keep_order(one, one, adj1, adj2);
    lemma_scaled(current, f1);
    lemma_scaled(current, f2);
    products_keep_order(current, f1, f2);
    one_times(current);
    nothing_added(one, zero);
    lemma_scaled(current, one);
    if zero.le(out1) {
        product_of_magnitudes(t, out1);
        crate::num::arithmetic_commutes(t, out1);
        sums_keep_order(one, one, zero, adj1);
        products_keep_order(current, one, f1);
    }
    if out1.le(zero) {
        product_of_opposites(t, out1);
        crate::num::arithmetic_commutes(t, out1);
        sums_keep_order(one, one, adj1, zero);
        products_keep_order(current, f1, one);
    }
}

/// A rate times a positive finite factor is a number.
proof fn lemma_scaled(current: Num, f: Num)
    requires
        (Num { bits: ZERO }).le(current),
        (Num { bits: ZERO }).lt(f),
        !f.inf(),
    ensures
        !current.times_of(f).nan(),
{
    if current.inf() {
        reveal(Num::times_of);
    } else {
        crate::num::lemma_times_key(current, f);
    }
}

proof fn lemma_adjustment(out: Num)
    requires
        !out.nan(),
    ensures
        ({
            let t = Num { bits: TWENTIETH };
            let adj = out.times_of(t).clamp_of(Num { bits: STEP_DOWN }, Num { bits: STEP_UP });
            &&& (Num { bits: ZERO }).lt(t)
            &&& !t.inf()
            &&& !out.times_of(t).nan()
            &&& !t.times_of(out).nan()
            &&& !adj.nan()
            &&& !adj.inf()
            &&& !(Num { bits: ONE }).plus_of(adj).nan()
            &&& !(Num { bits: ONE }).plus_of(adj).inf()
            &&& (Num { bits: ZERO }).lt((Num { bits: ONE }).plus_of(adj))
        }),
{
    let t = Num { bits: TWENTIETH };
    let one = Num { bits: ONE };
    let down = Num { bits: STEP_DOWN };
    let up = Num { bits: STEP_UP };
    crate::num::arithmetic_commutes(out, t);
    if out.inf() {
        reveal(Num::times_of);
    } else {
        crate::num::lemma_times_key(out, t);
    }
    let adj = out.times_of(t).clamp_of(down, up);
    lemma_one();
    let u = pow2(UNIT as nat) as int;
    lemma2_to64();
    lemma2_to64_rest();
    literal_is_decimal(up, 0x19_9999_9999_999a, 1019, 0x80_0000_0000_0000, 2, 10);
    lemma_value_order(adj, up);
    lemma_value_order(down, adj);
    lemma_value_order(up, up);
    lemma_value_order(down, down);
    assert(down.value() == -up.value());
    assert(4 * up.value() <= u);
    // The sum lies between one half and two.
    lemma_room();
    sum_is_near(one, adj, 2 * u);
    let f = one.plus_of(adj);
    lemma_value_order(f, Num { bits: ZERO });
    lemma_value_order(Num { bits: ZERO }, f);
}

/// Within the step limit, the rate changes by a twentieth of the sum of the terms: each gain times
/// its input. No term exceeds 16, and their sum does not exceed 4.
pub proof fn rate_is_near(
    kp: Num,
    ki: Num,
    kd: Num,
    e: Num,
    i: Num,
    d: Num,
    current: Num,
)
    requires
        !kp.nan() && !kp.inf() && !ki.nan() && !ki.inf() && !kd.nan() && !kd.inf(),
        !e.nan() && !e.inf() && !i.nan() && !i.inf() && !d.nan() && !d.inf(),
        within(kp.value() * e.value(), 16),
        within(ki.value() * i.value(), 16),
        within(kd.value() * d.value(), 16),
        within(kp.value() * e.value() + ki.value() * i.value() + kd.value() * d.value(), 4),
        (Num { bits: ZERO }).le(current) && !current.inf(),
        4 * current.value() <= crate::num::largest(),
    ensures
        ({
            let out = kp.times_of(e).plus_of(ki.times_of(i)).plus_of(kd.times_of(d));
            let adj = out.times_of(Num { bits: TWENTIETH }).clamp_of(
                Num { bits: STEP_DOWN },
                Num { bits: STEP_UP },
            );
            let u = pow2(UNIT as nat) as int;
            let sum = kp.value() * e.value() + ki.value() * i.value() + kd.value() * d.value();
            near(
                current.times_of((Num { bits: ONE }).plus_of(adj)),
                current.value() * (20 * (u * u) + sum),
                20 * (u * u),
                64 * current.value(),
            )
        }),
{
    let u = pow2(UNIT as nat) as int;
    let t = Num { bits: TWENTIETH };
    let up = Num { bits: STEP_UP };
    let down = Num { bits: STEP_DOWN };
    let one = Num { bits: ONE };
    lemma_room();
    lemma_one();
    lemma2_to64();
    lemma2_to64_rest();
    let k = 0x10_0000_0000_0000int;
    let x1 = kp.value() * e.value();
    let x2 = ki.value() * i.value();
    let x3 = kd.value() * d.value();
    let sum = x1 + x2 + x3;
    assert(u * (16 * u) == 16 * (u * u)) by (nonlinear_arith);
    product_is_near(kp, e, 16 * u);
    product_is_near(ki, i, 16 * u);
    product_is_near(kd, d, 16 * u);
    let (a, b, c) = (kp.times_of(e), ki.times_of(i), kd.times_of(d));
    lemma_term_size(a.value(), x1, u);
    lemma_term_size(b.value(), x2, u);
    lemma_term_size(c.value(), x3, u);
    sum_is_near(a, b, 40 * u);
    let ab = a.plus_of(b);
    sum_is_near(ab, c, 64 * u);
    let out = ab.plus_of(c);
    let o = out.value();
    let e0 = o - (a.value() + b.value() + c.value());
    assert(-(106 * u) <= k * e0 <= 106 * u);
    let e1 = u * a.value() - x1;
    let e2 = u * b.value() - x2;
    let e3 = u * c.value() - x3;
    let off = u * o - sum;
    assert(off == u * e0 + e1 + e2 + e3) by (nonlinear_arith)
        requires
            e0 == o - (a.value() + b.value() + c.value()),
            e1 == u * a.value() - x1,
            e2 == u * b.value() - x2,
            e3 == u * c.value() - x3,
            off == u * o - sum,
            sum == x1 + x2 + x3,
    ;
    let uu = u * u;
    assert(u * (16 * u + k) <= 17 * uu) by (nonlinear_arith)
        requires
            uu == u * u,
            u >= k,
            k > 0,
    ;
    assert(-(106 * uu) <= k * (u * e0) <= 106 * uu) by (nonlinear_arith)
        requires
            -(106 * u) <= k * e0 <= 106 * u,
            uu == u * u,
            u > 0,
    ;
    assert(k * off == k * (u * e0) + k * e1 + k * e2 + k * e3) by (nonlinear_arith)
        requires
            off == u * e0 + e1 + e2 + e3,
    ;
    assert(-(160 * uu) <= k * off <= 160 * uu);
    // A twentieth of the output.
    literal_is_decimal(t, 0x19_9999_9999_999a, 1017, 0x200_0000_0000_0000, 1, 20);
    literal_is_decimal(up, 0x19_9999_9999_999a, 1019, 0x80_0000_0000_0000, 2, 10);
    let tv = t.value();
    assert(-(5 * u) <= o <= 5 * u) by (nonlinear_arith)
        requires
            off == u * o - sum,
            -(160 * uu) <= k * off <= 160 * uu,
            -(4 * uu) <= sum <= 4 * uu,
            uu == u * u,
            u > 0,
            k == 0x10_0000_0000_0000,
    ;
    assert(-(u * u) <= o * tv <= u * u) by (nonlinear_arith)
        requires
            -(5 * u) <= o <= 5 * u,
            0 <= tv,
            10 * tv <= u,
            u > 0,
    ;
    product_is_near(out, t, u);
    let scaled = out.times_of(t);
    let s = scaled.value();
    let q = 0x4_0000_0000_0000int;
    let g = 20 * tv - u;
    assert(-(5 * (20 * uu)) <= q * (o * g) <= 5 * (20 * uu)) by (nonlinear_arith)
        requires
            -(20 * u) <= q * g <= 20 * u,
            -(5 * u) <= o <= 5 * u,
            uu == u * u,
            u > 0,
    ;
    let ot = o * tv;
    assert(20 * ot - u * o == o * g) by (nonlinear_arith)
        requires
            ot == o * tv,
            g == 20 * tv - u,
    ;
    let e4 = u * s - ot;
    assert(u * (u + k) <= 2 * uu) by (nonlinear_arith)
        requires
            uu == u * u,
            u >= k,
            k > 0,
    ;
    assert(-(2 * uu) <= k * e4 <= 2 * uu);
    // The step limit moves it by no more than rounding does.
    let adj = scaled.clamp_of(down, up);
    lemma_value_order(adj, scaled);
    lemma_value_order(scaled, adj);
    lemma_value_order(scaled, up);
    lemma_value_order(up, scaled);
    lemma_value_order(scaled, down);
    lemma_value_order(down, scaled);
    lemma_value_order(up, up);
    lemma_value_order(down, down);
    assert(down.value() == -up.value());
    let v = adj.value();
    let limit = up.value();
    // In units of a twentieth: where the exact sum leads, where the product went.
    let us = u * s;
    assert(20 * us == sum + off + o * g + 20 * e4) by {
        assert(u * o == sum + off);
    }
    let drift = 20 * us - sum;
    assert(-(700 * uu) <= k * drift <= 700 * uu);
    let uv = u * v;
    assert(-(720 * uu) <= k * (20 * uv - sum) <= 720 * uu) by {
        if s > limit {
            assert(v == limit);
            assert(uv <= us) by (nonlinear_arith)
                requires
                    uv == u * v,
                    us == u * s,
                    v <= s,
                    u > 0,
            ;
            let gap = 2 * u - 10 * limit;
            assert(4 * uu - 20 * uv == 2 * (u * gap)) by (nonlinear_arith)
                requires
                    uv == u * limit,
                    gap == 2 * u - 10 * limit,
                    uu == u * u,
            ;
            assert(q * (u * gap) <= 10 * uu) by (nonlinear_arith)
                requires
                    q * gap <= 10 * u,
                    uu == u * u,
                    u > 0,
            ;
        } else if s < -limit {
            assert(v == -limit);
            assert(uv >= us) by (nonlinear_arith)
                requires
                    uv == u * v,
                    us == u * s,
                    v >= s,
                    u > 0,
            ;
            let gap = 2 * u - 10 * limit;
            assert(4 * uu + 20 * uv == 2 * (u * gap)) by (nonlinear_arith)
                requires
                    uv == u * (-limit),
                    gap == 2 * u - 10 * limit,
                    uu == u * u,
            ;
            assert(q * (u * gap) <= 10 * uu) by (nonlinear_arith)
                requires
                    q * gap <= 10 * u,
                    uu == u * u,
                    u > 0,
            ;
        } else {
            assert(v == s);
        }
    }
    // The rate.
    let r0 = current.value();
    lemma_value_order(Num { bits: ZERO }, current);
    rate_times_offset_is_near(current, adj, r0);
    let rate = current.times_of(one.plus_of(adj)).value();
    lemma_rate_error(rate, r0, u, v, sum);
}

/// A sum of products does not exceed a whole number.
pub open spec fn within(n: int, limit: int) -> bool {
    let u = pow2(UNIT as nat) as int;
    -(limit * (u * u)) <= n <= limit * (u * u)
}

proof fn lemma_term_size(a: int, x: int, u: int)
    requires
        u >= 0x10_0000_0000_0000,
        -(16 * (u * u)) <= x <= 16 * (u * u),
        0x10_0000_0000_0000 * (u * a - x) <= u * (16 * u + 0x10_0000_0000_0000),
        0x10_0000_0000_0000 * (x - u * a) <= u * (16 * u + 0x10_0000_0000_0000),
    ensures
        -(17 * u) <= a <= 17 * u,
{
    let k = 0x10_0000_0000_0000int;
    assert(-(17 * u) <= a <= 17 * u) by (nonlinear_arith)
        requires
            u >= k,
            -(16 * (u * u)) <= x <= 16 * (u * u),
            k * (u * a - x) <= u * (16 * u + k),
            k * (x - u * a) <= u * (16 * u + k),
            k == 0x10_0000_0000_0000,
    ;
}

proof fn lemma_rate_error(rate: int, r0: int, u: int, v: int, sum: int)
    requires
        u > 0,
        r0 >= 0,
        0x1_0000_0000_0000 * (u * rate - r0 * (u + v)) <= u * (16 * r0 + 0x10_0000_0000_0000),
        0x1_0000_0000_0000 * (r0 * (u + v) - u * rate) <= u * (16 * r0 + 0x10_0000_0000_0000),
        -(720 * (u * u)) <= 0x10_0000_0000_0000 * (20 * (u * v) - sum) <= 720 * (u * u),
    ensures
        0x1_0000_0000_0000 * ((20 * (u * u)) * rate - r0 * (20 * (u * u) + sum)) <= (20 * (u * u))
            * (64 * r0 + 0x10_0000_0000_0000),
        0x1_0000_0000_0000 * (r0 * (20 * (u * u) + sum) - (20 * (u * u)) * rate) <= (20 * (u * u))
            * (64 * r0 + 0x10_0000_0000_0000),
{
    let h = 0x1_0000_0000_0000int;
    let k = 0x10_0000_0000_0000int;
    let uu = u * u;
    let x = u * rate - r0 * (u + v);
    let y = 20 * (u * v) - sum;
    let goal = (20 * uu) * rate - r0 * (20 * uu + sum);
    assert(goal == 20 * (u * x) + r0 * y) by (nonlinear_arith)
        requires
            goal == (20 * uu) * rate - r0 * (20 * uu + sum),
            uu == u * u,
            x == u * rate - r0 * (u + v),
            y == 20 * (u * v) - sum,
    ;
    let w = uu * (16 * r0 + k);
    assert(-w <= h * (u * x) <= w) by (nonlinear_arith)
        requires
            -(u * (16 * r0 + k)) <= h * x <= u * (16 * r0 + k),
            w == uu * (16 * r0 + k),
            uu == u * u,
            u > 0,
    ;
    let z = r0 * uu;
    assert(-(720 * z) <= k * (r0 * y) <= 720 * z) by (nonlinear_arith)
        requires
            -(720 * uu) <= k * y <= 720 * uu,
            z == r0 * uu,
            r0 >= 0,
    ;
    assert(w == 16 * z + uu * k && (20 * uu) * (64 * r0 + k) == 1280 * z + 20 * (uu * k))
        by (nonlinear_arith)
        requires
            w == uu * (16 * r0 + k),
            z == r0 * uu,
    ;
    assert(z >= 0 && uu * k >= 0) by (nonlinear_arith)
        requires
            z == r0 * uu,
            uu == u * u,
            r0 >= 0,
            k > 0,
    ;
    let p = u * x;
    let s = r0 * y;
    assert(h * (20 * p + s) == 20 * (h * p) + h * s) by (nonlinear_arith);
}

/// An output that is NaN leads to no rate.
pub proof fn nan_output_gives_no_rate(out: Num, current: Num, lo: Num, hi: Num)
    ensures
        ({
            let adj = out.times_of(Num { bits: TWENTIETH }).clamp_of(
                Num { bits: STEP_DOWN },
                Num { bits: STEP_UP },
            );
            let rate = current.times_of((Num { bits: ONE }).plus_of(adj));
            out.nan() ==> rate.nan() && rate.clamp_of(lo, hi).nan()
        }),
{
    let t = Num { bits: TWENTIETH };
    let one = Num { bits: ONE };
    let adj = out.times_of(t).clamp_of(Num { bits: STEP_DOWN }, Num { bits: STEP_UP });
    if out.nan() {
        nan_spreads(out, t);
        nan_spreads(one, adj);
        nan_spreads(current, one.plus_of(adj));
    }
}

/// Where the terms add up to a number, so does each of their parts.
pub proof fn parts_are_numbers(kp: Num, ki: Num, kd: Num, e: Num, i: Num, d: Num)
    requires
        !kp.times_of(e).plus_of(ki.times_of(i)).plus_of(kd.times_of(d)).nan(),
    ensures
        !e.nan() && !i.nan() && !d.nan(),
{
    lemma_parts(kp, e, ki, i, kd, d);
}

/// A step moves the rate by no more than a fifth, either way.
pub proof fn step_is_limited(out: Num, current: Num)
    requires
        !out.nan(),
        (Num { bits: ZERO }).le(current) && !current.inf(),
        4 * current.value() <= crate::num::largest(),
    ensures
        ({
            let adj = out.times_of(Num { bits: TWENTIETH }).clamp_of(
                Num { bits: STEP_DOWN },
                Num { bits: STEP_UP },
            );
            let rate = current.times_of((Num { bits: ONE }).plus_of(adj));
            &&& !rate.nan() && !rate.inf()
            &&& rate.value() * 1000 <= current.value() * 1201 + 1000000
            &&& rate.value() * 1000 >= current.value() * 799 - 1000000
        }),
{
    let up = Num { bits: STEP_UP };
    let down = Num { bits: STEP_DOWN };
    lemma_adjustment(out);
    let adj = out.times_of(Num { bits: TWENTIETH }).clamp_of(down, up);
    lemma_fifth(adj, current);
}

proof fn lemma_fifth(adj: Num, current: Num)
    requires
        (Num { bits: STEP_DOWN }).le(adj),
        adj.le(Num { bits: STEP_UP }),
        (Num { bits: ZERO }).le(current) && !current.inf(),
        4 * current.value() <= crate::num::largest(),
    ensures
        ({
            let rate = current.times_of((Num { bits: ONE }).plus_of(adj));
            &&& !rate.nan() && !rate.inf()
            &&& rate.value() * 1000 <= current.value() * 1201 + 1000000
            &&& rate.value() * 1000 >= current.value() * 799 - 1000000
            &&& adj == (Num { bits: STEP_DOWN }) ==> rate.value() * 1000 <= current.value() * 801
                + 1000000
        }),
{
    let up = Num { bits: STEP_UP };
    let down = Num { bits: STEP_DOWN };
    let u = pow2(UNIT as nat) as int;
    lemma2_to64();
    lemma2_to64_rest();
    lemma_pow2_pos(UNIT as nat);
    literal_is_decimal(up, 0x19_9999_9999_999a, 1019, 0x80_0000_0000_0000, 2, 10);
    lemma_value_order(adj, up);
    lemma_value_order(down, adj);
    lemma_value_order(up, up);
    lemma_value_order(down, down);
    lemma_value_order(Num { bits: ZERO }, current);
    assert(down.value() == -up.value());
    let c = current.value();
    rate_times_offset_is_near(current, adj, c);
    let r = current.times_of((Num { bits: ONE }).plus_of(adj)).value();
    let v = adj.value();
    let h = 0x1_0000_0000_0000int;
    let k = 0x10_0000_0000_0000int;
    assert(10000 * (c * (u + v)) <= 12001 * (c * u) && 10000 * (c * (u + v)) >= 7999 * (c * u))
        by (nonlinear_arith)
        requires
            10000 * v <= 2001 * u,
            10000 * v >= -(2001 * u),
            c >= 0,
    ;
    assert(10000 * (h * r) <= 12001 * (h * c) + 10000 * (16 * c + k)) by (nonlinear_arith)
        requires
            h * (u * r - c * (u + v)) <= u * (16 * c + k),
            10000 * (c * (u + v)) <= 12001 * (c * u),
            u > 0,
            h > 0,
    ;
    assert(10000 * (h * r) >= 7999 * (h * c) - 10000 * (16 * c + k)) by (nonlinear_arith)
        requires
            h * (c * (u + v) - u * r) <= u * (16 * c + k),
            10000 * (c * (u + v)) >= 7999 * (c * u),
            u > 0,
            h > 0,
    ;
    if adj == down {
        assert(10000 * (c * (u + v)) <= 8001 * (c * u)) by (nonlinear_arith)
            requires
                10000 * v <= -(1999 * u),
                c >= 0,
        ;
        assert(10000 * (h * r) <= 8001 * (h * c) + 10000 * (16 * c + k)) by (nonlinear_arith)
            requires
                h * (u * r - c * (u + v)) <= u * (16 * c + k),
                10000 * (c * (u + v)) <= 8001 * (c * u),
                u > 0,
                h > 0,
        ;
    }
}

/// A cut lowers the rate by no more than a fifth, and by that where the output asks for it.
pub proof fn cut_is_limited(out: Num, current: Num)
    requires
        out.le(Num { bits: ZERO }),
        (Num { bits: ZERO }).le(current) && !current.inf(),
        4 * current.value() <= crate::num::largest(),
    ensures
        ({
            let adj = out.times_of(Num { bits: TWENTIETH }).clamp_of(
                Num { bits: STEP_DOWN },
                Num { bits: ZERO },
            );
            let rate = current.times_of((Num { bits: ONE }).plus_of(adj));
            &&& !rate.nan() && !rate.inf()
            &&& rate.le(current)
            &&& out.inf() || out.value() <= -(5 * pow2(UNIT as nat)) ==> rate.value() * 1000
                <= current.value() * 801 + 1000000
        }),
{
    let zero = Num { bits: ZERO };
    let one = Num { bits: ONE };
    let t = Num { bits: TWENTIETH };
    let down = Num { bits: STEP_DOWN };
    let up = Num { bits: STEP_UP };
    lemma_adjustment(out);
    product_of_opposites(t, out);
    crate::num::arithmetic_commutes(t, out);
    let adj = out.times_of(t).clamp_of(down, zero);
    assert(adj == out.times_of(t).clamp_of(down, up));
    lemma_fifth(adj, current);
    let f = one.plus_of(adj);
    nothing_added(one, zero);
    sums_keep_order(one, one, adj, zero);
    lemma_scaled(current, f);
    lemma_scaled(current, one);
    one_times(current);
    products_keep_order(current, f, one);
    if out.inf() {
        reveal(Num::times_of);
    } else if out.value() <= -(5 * pow2(UNIT as nat)) {
        let u = pow2(UNIT as nat) as int;
        lemma2_to64();
        lemma2_to64_rest();
        lemma_pow2_pos(UNIT as nat);
        literal_is_decimal(t, 0x19_9999_9999_999a, 1017, 0x200_0000_0000_0000, 1, 20);
        literal_is_decimal(up, 0x19_9999_9999_999a, 1019, 0x80_0000_0000_0000, 2, 10);
        lemma_value_order(up, up);
        lemma_value_order(down, down);
        assert(down.value() == -up.value());
        crate::order::product_against(out, t, down);
        assert(out.value() * t.value() <= u * down.value()) by (nonlinear_arith)
            requires
                out.value() <= -(5 * u),
                1000 * t.value() >= 49 * u,
                1000 * down.value() >= -(201 * u),
                u > 0,
        ;
    }
}

} // verus!
