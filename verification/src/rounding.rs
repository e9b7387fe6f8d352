//! Rounding to the nearest double.
//!
//! Every finite double is a whole number of units of 2^-1074, the smallest positive double. The
//! bit pattern of a double, sign bit aside, grows with its value, and is even exactly when its
//! significand is. Rounding to nearest, ties to even, is therefore a statement on bit patterns
//! and whole numbers alone.

use vstd::arithmetic::power2::*;
use vstd::prelude::*;

verus! {

/// 2^52: the weight of the exponent field.
pub const STEP: u64 = 0x0010_0000_0000_0000;

/// The bit pattern of positive infinity.
pub const INFINITE: u64 = 0x7ff0_0000_0000_0000;

/// How many units the double with magnitude `m` is worth. Infinity counts as the power of two
/// that follows the largest double.
pub open spec fn units(m: int) -> int {
    if m < STEP {
        m
    } else {
        (STEP + m % STEP as int) * pow2((m / STEP as int - 1) as nat)
    }
}

/// `m` is the magnitude nearest to `n / d` units; of two that are equally near, the even one.
pub open spec fn nearest(m: int, n: int, d: int) -> bool {
    &&& 0 <= m <= INFINITE
    &&& m > 0 ==> {
        ||| 2 * n > d * (units(m - 1) + units(m))
        ||| 2 * n == d * (units(m - 1) + units(m)) && m % 2 == 0
    }
    &&& m < INFINITE ==> {
        ||| 2 * n < d * (units(m) + units(m + 1))
        ||| 2 * n == d * (units(m) + units(m + 1)) && m % 2 == 0
    }
}

/// The magnitude nearest to `n / d` units.
pub open spec fn rounded(n: int, d: int) -> int {
    choose|m: int| nearest(m, n, d)
}

/// A significand and an exponent as they are packed into a magnitude.
pub open spec fn packable(q: int, k: int) -> bool {
    &&& 0 <= k
    &&& 0 <= q < 2 * STEP
    &&& k > 0 ==> STEP <= q
}

pub proof fn lemma_units_packed(q: int, k: int)
    requires
        packable(q, k),
    ensures
        units(k * STEP + q) == q * pow2(k as nat),
        units(k * STEP + q + 1) == (q + 1) * pow2(k as nat),
        pow2(k as nat) > 0,
{
    lemma_pow2_pos(k as nat);
    assert(pow2(0) == 1) by {
        lemma2_to64();
    }
    let m = k * STEP + q;
    if q < STEP {
        assert(k == 0);
    } else {
        assert(m / STEP as int == k + 1 && m % STEP as int == q - STEP) by {
            vstd::arithmetic::div_mod::lemma_fundamental_div_mod_converse(
                m,
                STEP as int,
                k + 1,
                q - STEP,
            );
        }
    }
    if q + 1 < STEP {
    } else if q + 1 < 2 * STEP {
        vstd::arithmetic::div_mod::lemma_fundamental_div_mod_converse(
            m + 1,
            STEP as int,
            k + 1,
            q + 1 - STEP,
        );
    } else {
        vstd::arithmetic::div_mod::lemma_fundamental_div_mod_converse(
            m + 1,
            STEP as int,
            k + 2,
            0,
        );
        lemma_pow2_unfold((k + 1) as nat);
        assert(STEP * pow2((k + 1) as nat) == (q + 1) * pow2(k as nat)) by (nonlinear_arith)
            requires
                pow2((k + 1) as nat) == 2 * pow2(k as nat),
                q + 1 == 2 * STEP,
        ;
    }
}

/// Every magnitude is packed from some significand and exponent.
pub proof fn lemma_unpack(m: int) -> (r: (int, int))
    requires
        0 <= m,
    ensures
        packable(r.0, r.1),
        m == r.1 * STEP + r.0,
{
    if m < STEP {
        (m, 0)
    } else {
        vstd::arithmetic::div_mod::lemma_fundamental_div_mod(m, STEP as int);
        (STEP + m % STEP as int, m / STEP as int - 1)
    }
}

/// Units grow strictly with the magnitude.
pub proof fn lemma_units_step(m: int)
    requires
        0 <= m,
    ensures
        0 <= units(m) < units(m + 1),
{
    let (q, k) = lemma_unpack(m);
    lemma_units_packed(q, k);
    assert(0 <= q * pow2(k as nat) < (q + 1) * pow2(k as nat)) by (nonlinear_arith)
        requires
            pow2(k as nat) > 0,
            q >= 0,
    ;
}

pub proof fn lemma_units_mono(a: int, b: int)
    requires
        0 <= a <= b,
    ensures
        0 <= units(a) <= units(b),
        a < b ==> units(a) < units(b),
    decreases b - a,
{
    lemma_units_step(a);
    if a < b {
        lemma_units_mono(a + 1, b);
    }
}

proof fn lemma_nearest_not_above(a: int, b: int, n: int, d: int)
    requires
        nearest(a, n, d),
        nearest(b, n, d),
        d > 0,
    ensures
        a >= b,
{
    if a < b {
        lemma_units_mono(a, b - 1);
        lemma_units_mono(a + 1, b);
        let x = units(a) + units(a + 1);
        let y = units(b - 1) + units(b);
        assert(d * x <= d * y) by (nonlinear_arith)
            requires
                x <= y,
                d > 0,
        ;
        assert(d * x == d * y);
        assert(x == y) by (nonlinear_arith)
            requires
                d * x == d * y,
                d > 0,
        ;
        if a + 1 < b {
            lemma_units_mono(a, b - 1);
            assert(false);
        }
        assert(a % 2 == 0 && b % 2 == 0);
        assert(false);
    }
}

/// There is only one nearest magnitude.
pub proof fn lemma_nearest_unique(m: int, n: int, d: int)
    requires
        nearest(m, n, d),
        d > 0,
    ensures
        rounded(n, d) == m,
{
    let c = rounded(n, d);
    assert(nearest(c, n, d));
    lemma_nearest_not_above(m, c, n, d);
    lemma_nearest_not_above(c, m, n, d);
}

/// Whether `n / d` is at least as near to `m` as to the magnitude below it.
spec fn reaches(m: int, n: int, d: int) -> bool {
    ||| m == 0
    ||| 2 * n > d * (units(m - 1) + units(m))
    ||| 2 * n == d * (units(m - 1) + units(m)) && m % 2 == 0
}

proof fn lemma_nearest_from(m: int, n: int, d: int)
    requires
        0 <= m <= INFINITE,
        reaches(m, n, d),
    ensures
        exists|k: int| nearest(k, n, d),
    decreases INFINITE - m,
{
    if m == INFINITE || !reaches(m + 1, n, d) {
        assert(nearest(m, n, d));
    } else {
        lemma_nearest_from(m + 1, n, d);
    }
}

/// Every ratio has a nearest magnitude.
pub proof fn lemma_rounded(n: int, d: int)
    ensures
        nearest(rounded(n, d), n, d),
{
    lemma_nearest_from(0, n, d);
}

/// Rounding keeps the order.
pub proof fn rounding_is_monotone(n1: int, d1: int, n2: int, d2: int)
    requires
        d1 > 0,
        d2 > 0,
        n1 * d2 <= n2 * d1,
    ensures
        rounded(n1, d1) <= rounded(n2, d2),
{
    lemma_rounded(n1, d1);
    lemma_rounded(n2, d2);
    let a = rounded(n1, d1);
    let b = rounded(n2, d2);
    if a > b {
        lemma_units_mono(b, a - 1);
        lemma_units_mono(b + 1, a);
        let x = units(a - 1) + units(a);
        let y = units(b) + units(b + 1);
        assert(2 * n1 >= d1 * x);
        assert(2 * n2 <= d2 * y);
        assert(d1 * d2 * x <= 2 * n1 * d2) by (nonlinear_arith)
            requires
                2 * n1 >= d1 * x,
                d2 > 0,
        ;
        assert(2 * n2 * d1 <= d1 * d2 * y) by (nonlinear_arith)
            requires
                2 * n2 <= d2 * y,
                d1 > 0,
        ;
        assert(2 * n1 * d2 <= 2 * n2 * d1) by (nonlinear_arith)
            requires
                n1 * d2 <= n2 * d1,
        ;
        let dd = d1 * d2;
        assert(dd > 0) by (nonlinear_arith)
            requires
                dd == d1 * d2,
                d1 > 0,
                d2 > 0,
        ;
        assert(dd * x <= dd * y);
        assert(x <= y) by (nonlinear_arith)
            requires
                dd * x <= dd * y,
                dd > 0,
        ;
        assert(x == y);
        if b + 1 < a {
            lemma_units_mono(b, a - 1);
            assert(false);
        }
        assert(2 * n1 * d2 == d1 * d2 * x && 2 * n2 * d1 == d1 * d2 * y);
        assert(2 * n1 == d1 * x) by (nonlinear_arith)
            requires
                2 * n1 * d2 == d1 * d2 * x,
                d2 > 0,
        ;
        assert(2 * n2 == d2 * y) by (nonlinear_arith)
            requires
                2 * n2 * d1 == d1 * d2 * y,
                d1 > 0,
        ;
        assert(a % 2 == 0 && b % 2 == 0);
        assert(false);
    }
}

/// What is a double already stays as it is.
pub proof fn rounding_keeps_doubles(m: int, d: int)
    requires
        0 <= m <= INFINITE,
        d > 0,
    ensures
        rounded(units(m) * d, d) == m,
{
    let n = units(m) * d;
    if m > 0 {
        lemma_units_step(m - 1);
        let u = units(m - 1);
        let v = units(m);
        assert(2 * (v * d) > d * (u + v)) by (nonlinear_arith)
            requires
                u < v,
                d > 0,
        ;
    }
    lemma_units_step(m);
    let v = units(m);
    let w = units(m + 1);
    assert(2 * (v * d) < d * (v + w)) by (nonlinear_arith)
        requires
            v < w,
            d > 0,
    ;
    lemma_nearest_unique(m, n, d);
}

/// No double is nearer to a ratio than the one it is rounded to.
pub proof fn rounding_is_nearest(n: int, d: int, m: int)
    requires
        d > 0,
        0 <= n,
        0 <= m <= INFINITE,
    ensures
        n - d * units(rounded(n, d)) <= d * units(m) - n || n - d * units(rounded(n, d)) <= n - d
            * units(m),
        d * units(rounded(n, d)) - n <= d * units(m) - n || d * units(rounded(n, d)) - n <= n - d
            * units(m),
{
    lemma_rounded(n, d);
    let r = rounded(n, d);
    let ur = units(r);
    let um = units(m);
    if m > r {
        lemma_units_mono(r, r + 1);
        lemma_units_mono(r + 1, m);
        let up = units(r + 1);
        assert(d * (ur + up) == d * ur + d * up) by (nonlinear_arith);
        assert(d * up <= d * um && d * ur <= d * up) by (nonlinear_arith)
            requires
                ur <= up <= um,
                d > 0,
        ;
    } else if m < r {
        lemma_units_mono(m, r - 1);
        lemma_units_mono(r - 1, r);
        let down = units(r - 1);
        assert(d * (down + ur) == d * down + d * ur) by (nonlinear_arith);
        assert(d * um <= d * down && d * down <= d * ur) by (nonlinear_arith)
            requires
                um <= down <= ur,
                d > 0,
        ;
    }
}

/// Neighbouring doubles lie no further apart than one unit or a 2^52nd of their size.
pub proof fn lemma_gap(m: int)
    requires
        0 <= m,
    ensures
        (units(m + 1) - units(m)) * 0x10_0000_0000_0000 <= units(m) + 0x10_0000_0000_0000,
{
    let (q, k) = lemma_unpack(m);
    lemma_units_packed(q, k);
    let w = pow2(k as nat) as int;
    assert((q + 1) * w == q * w + w) by (nonlinear_arith);
    if k > 0 {
        assert(w * STEP <= q * w) by (nonlinear_arith)
            requires
                STEP <= q,
                w > 0,
        ;
    } else {
        assert(w == 1) by {
            lemma2_to64();
        }
    }
}

/// How far rounding moves a ratio of at most `bound` units, as long as it does not overflow: half
/// a unit and a 2^52nd of the bound, at most.
pub proof fn rounding_error_is_small(n: int, d: int, bound: int)
    requires
        d > 0,
        0 <= n <= d * bound,
        bound <= units(INFINITE - 1) || rounded(n, d) < INFINITE,
    ensures
        rounded(n, d) < INFINITE,
        0 <= units(rounded(n, d)) <= 2 * bound + 1,
        0x20_0000_0000_0000 * (d * units(rounded(n, d)) - n) <= d * (2 * bound
            + 0x20_0000_0000_0000),
        0x20_0000_0000_0000 * (n - d * units(rounded(n, d))) <= d * (2 * bound
            + 0x20_0000_0000_0000),
{
    lemma_rounded(n, d);
    let m = rounded(n, d);
    let top = INFINITE - 1;
    let ut = units(top);
    if bound <= ut {
        assert(n * d <= (ut * d) * d) by (nonlinear_arith)
            requires
                n <= d * bound,
                bound <= ut,
                d > 0,
        ;
        rounding_is_monotone(n, d, ut * d, d);
        rounding_keeps_doubles(top, d);
    }
    assert(m <= top);
    let u = units(m);
    let g = units(m + 1) - u;
    lemma_units_mono(0, m);
    lemma_units_step(m);
    lemma_gap(m);
    assert(d * (u + units(m + 1)) == 2 * (d * u) + d * g) by (nonlinear_arith)
        requires
            g == units(m + 1) - u,
    ;
    assert(2 * (n - d * u) <= d * g);
    let low = if m > 0 {
        u - units(m - 1)
    } else {
        0
    };
    if m > 0 {
        lemma_units_step(m - 1);
        lemma_gap(m - 1);
        assert(d * (units(m - 1) + u) == 2 * (d * u) - d * low) by (nonlinear_arith)
            requires
                low == u - units(m - 1),
        ;
    } else {
        assert(u == 0);
        assert(d * u == 0) by (nonlinear_arith)
            requires
                u == 0,
        ;
        assert(d * low == 0) by (nonlinear_arith)
            requires
                low == 0,
        ;
    }
    assert(2 * (d * u - n) <= d * low);
    let c = 0x10_0000_0000_0000int;
    // The doubles below m are no further apart than those above it.
    assert(low * c <= u + c);
    assert(2 * (d * u) <= 2 * (d * bound) + d * low);
    assert(2 * u <= 2 * bound + low) by (nonlinear_arith)
        requires
            2 * (d * u) <= 2 * (d * bound) + d * low,
            d > 0,
    ;
    assert(2 * u * c <= 2 * bound * c + u + c);
    assert(u <= 2 * bound + 1);
    assert(2 * c * (d * u - n) <= d * (u + c)) by (nonlinear_arith)
        requires
            2 * (d * u - n) <= d * low,
            low * c <= u + c,
            d > 0,
            c > 0,
    ;
    assert(2 * c * (n - d * u) <= d * (u + c)) by (nonlinear_arith)
        requires
            2 * (n - d * u) <= d * g,
            g * c <= u + c,
            d > 0,
            c > 0,
    ;
    assert(d * (u + c) <= d * (2 * bound + 2 * c)) by (nonlinear_arith)
        requires
            u <= 2 * bound + 1,
            1 <= c,
            d > 0,
    ;
}

/// `n / d` lies in the interval of `q * 2^k` and `(q + 1) * 2^k`, the upper end excluded; `half`
/// tells whether it lies in the upper half of it, `rest` whether it differs from the lower end
/// of that half.
pub open spec fn located(n: int, d: int, q: int, k: int, half: bool, rest: bool) -> bool {
    let nn = if k >= 0 {
        n
    } else {
        n * pow2((-k) as nat)
    };
    let dd = if k >= 0 {
        d * pow2(k as nat)
    } else {
        d
    };
    located_in(nn, dd, q, half, rest)
}

pub open spec fn located_in(nn: int, dd: int, q: int, half: bool, rest: bool) -> bool {
    &&& q * dd <= nn < (q + 1) * dd
    &&& half <==> 2 * (nn - q * dd) >= dd
    &&& rest <==> 2 * (nn - q * dd) != (if half {
        dd
    } else {
        0
    })
}

proof fn lemma_halve(nn: int, dd: int, n2: int, d2: int, q: int, half: bool, rest: bool)
    requires
        located_in(nn, dd, q, half, rest),
        dd > 0,
        (n2 == nn && d2 == 2 * dd) || (nn == 2 * n2 && d2 == dd),
        q >= 0,
    ensures
        located_in(n2, d2, q / 2, q % 2 == 1, rest || half),
{
    let h = q / 2;
    let b = q % 2;
    assert(q == 2 * h + b);
    let t = h * dd;
    assert(q * dd == 2 * t + b * dd) by (nonlinear_arith)
        requires
            q == 2 * h + b,
            t == h * dd,
    ;
    assert((q + 1) * dd == q * dd + dd) by (nonlinear_arith);
    assert(b * dd == if b == 1 { dd } else { 0 }) by (nonlinear_arith)
        requires
            b == 0 || b == 1,
    ;
    if n2 == nn && d2 == 2 * dd {
        assert(h * d2 == 2 * t) by (nonlinear_arith)
            requires
                d2 == 2 * dd,
                t == h * dd,
        ;
    } else {
        assert(h * d2 == t);
    }
    assert((h + 1) * d2 == h * d2 + d2) by (nonlinear_arith);
}

proof fn lemma_shift_right(n: int, d: int, q: int, k: int, half: bool, rest: bool)
    requires
        located(n, d, q, k, half, rest),
        d > 0,
        q >= 0,
    ensures
        located(n, d, q / 2, k + 1, q % 2 == 1, rest || half),
{
    if k >= 0 {
        lemma_pow2_pos(k as nat);
        lemma_pow2_unfold((k + 1) as nat);
        let dd = d * pow2(k as nat);
        let d2 = d * pow2((k + 1) as nat);
        assert(dd > 0 && d2 == 2 * dd) by (nonlinear_arith)
            requires
                dd == d * pow2(k as nat),
                d2 == d * pow2((k + 1) as nat),
                pow2((k + 1) as nat) == 2 * pow2(k as nat),
                pow2(k as nat) > 0,
                d > 0,
        ;
        lemma_halve(n, dd, n, d2, q, half, rest);
    } else {
        lemma_pow2_unfold((-k) as nat);
        let nn = n * pow2((-k) as nat);
        let n2 = n * pow2((-k - 1) as nat);
        assert(nn == 2 * n2) by (nonlinear_arith)
            requires
                nn == n * pow2((-k) as nat),
                n2 == n * pow2((-k - 1) as nat),
                pow2((-k) as nat) == 2 * pow2((-k - 1) as nat),
        ;
        assert(((-k) - 1) as nat == (-(k + 1)) as nat);
        assert(pow2(0) == 1) by {
            lemma2_to64();
        }
        if k == -1 {
            assert((-k - 1) as nat == 0);
            assert(n2 == n) by (nonlinear_arith)
                requires
                    n2 == n * 1,
            ;
            assert(d * 1 == d);
        }
        lemma_halve(nn, d, n2, d, q, half, rest);
    }
}

proof fn lemma_shift_left(n: int, d: int, q: int, k: int)
    requires
        located(n, d, q, k, false, false),
        d > 0,
        q >= 0,
        k > 0,
    ensures
        located(n, d, 2 * q, k - 1, false, false),
{
    lemma_pow2_pos((k - 1) as nat);
    lemma_pow2_unfold(k as nat);
    let p = pow2((k - 1) as nat) as int;
    let dd = d * pow2(k as nat);
    let d2 = d * p;
    assert(dd == 2 * d2 && d2 > 0 && q * dd == 2 * q * d2 && (2 * q + 1) * d2 == 2 * q * d2 + d2)
        by (nonlinear_arith)
        requires
            dd == d * pow2(k as nat),
            d2 == d * p,
            pow2(k as nat) == 2 * p,
            p > 0,
            d > 0,
    ;
}

proof fn lemma_packed_nearest(n: int, d: int, q: int, k: int, half: bool, rest: bool)
    requires
        located(n, d, q, k, half, rest),
        d > 0,
        packable(q, k),
        k <= 2045,
    ensures
        nearest(
            k * STEP + q + (if half && (rest || q % 2 == 1) {
                1int
            } else {
                0int
            }),
            n,
            d,
        ),
{
    let m0 = k * STEP + q;
    let p = pow2(k as nat) as int;
    let dd = d * p;
    lemma_units_packed(q, k);
    lemma_units_step(m0);
    assert(units(m0) == q * p && units(m0 + 1) == (q + 1) * p);
    assert(d * units(m0) == q * dd && d * units(m0 + 1) == (q + 1) * dd && (q + 1) * dd == q * dd
        + dd) by (nonlinear_arith)
        requires
            units(m0) == q * p,
            units(m0 + 1) == (q + 1) * p,
            dd == d * p,
    ;
    assert(d * (units(m0) + units(m0 + 1)) == d * units(m0) + d * units(m0 + 1))
        by (nonlinear_arith);
    if half && (rest || q % 2 == 1) {
        let m = m0 + 1;
        lemma_units_step(m);
        let u = units(m);
        let v = units(m + 1);
        assert(d * (u + v) > 2 * (d * u)) by (nonlinear_arith)
            requires
                u < v,
                d > 0,
        ;
    } else {
        if m0 > 0 {
            lemma_units_step(m0 - 1);
            let u = units(m0 - 1);
            let v = units(m0);
            assert(d * (u + v) < 2 * (d * v)) by (nonlinear_arith)
                requires
                    u < v,
                    d > 0,
            ;
        }
    }
}

proof fn lemma_overflow_nearest(n: int, d: int, q: int, k: int, half: bool, rest: bool)
    requires
        located(n, d, q, k, half, rest),
        d > 0,
        packable(q, k),
        k >= 2046,
    ensures
        nearest(INFINITE as int, n, d),
{
    let m = INFINITE as int;
    lemma_units_packed(STEP as int, 2046);
    assert(m == 2046 * STEP + STEP);
    if k > 2046 {
        lemma_pow2_strictly_increases(2046, k as nat);
    }
    let p = pow2(k as nat) as int;
    let dd = d * p;
    assert(q * dd >= d * units(m)) by (nonlinear_arith)
        requires
            units(m) == STEP * pow2(2046),
            p >= pow2(2046),
            q >= STEP,
            dd == d * p,
            d > 0,
    ;
    lemma_units_step(m - 1);
    let u = units(m - 1);
    let v = units(m);
    assert(d * (u + v) < 2 * (d * v)) by (nonlinear_arith)
        requires
            u < v,
            d > 0,
    ;
}

proof fn lemma_pow2_width()
    ensures
        pow2(53) == 2 * STEP,
        pow2(128) == 0x1_0000_0000_0000_0000_0000_0000_0000_0000,
{
    lemma2_to64();
    lemma2_to64_rest();
    lemma_pow2_adds(64, 64);
}

/// Rounds `n / d` units, known to lie at `p * 2^x` or, with `sticky`, strictly between that and
/// `(p + 1) * 2^x`.
pub fn round_to_nearest(
    p: u128,
    x: i32,
    sticky: bool,
    Ghost(n): Ghost<int>,
    Ghost(d): Ghost<int>,
) -> (m: u64)
    requires
        d > 0,
        -100000 < x < 100000,
        sticky ==> p >= 4 * STEP,
        exists|half: bool, rest: bool|
            #[trigger] located(n, d, p as int, x as int, half, rest) && sticky == (half || rest),
    ensures
        m == rounded(n, d),
        m <= INFINITE,
{
    let ghost (h0, r0) = choose|half: bool, rest: bool|
        #[trigger] located(n, d, p as int, x as int, half, rest) && sticky == (half || rest);
    let mut q: u128 = p;
    let mut k: i32 = x;
    let mut half: bool = false;
    let mut rest: bool = sticky;
    if q >= 2 * STEP as u128 || k < 0 {
        proof {
            lemma_shift_right(n, d, q as int, k as int, h0, r0);
        }
        half = q % 2 == 1;
        q = q / 2;
        k = k + 1;
    }
    while k < 0
        invariant
            d > 0,
            located(n, d, q as int, k as int, half, rest),
            -100000 < k <= 100000,
            half || rest ==> q >= STEP || k <= 0,
        decreases -k,
    {
        proof {
            lemma_shift_right(n, d, q as int, k as int, half, rest);
        }
        rest = rest || half;
        half = q % 2 == 1;
        q = q / 2;
        k = k + 1;
    }
    let mut i: i32 = 0;
    proof {
        lemma_pow2_width();
    }
    while q >= 2 * STEP as u128
        invariant
            d > 0,
            located(n, d, q as int, k as int, half, rest),
            0 <= i <= 75,
            0 <= k <= 100000 + i,
            q < pow2((128 - i) as nat),
            pow2(53) == 2 * STEP,
            half || rest ==> q >= STEP || k <= 0,
        decreases q,
    {
        proof {
            lemma_shift_right(n, d, q as int, k as int, half, rest);
            if i == 75 {
                assert(false);
            }
            lemma_pow2_unfold((128 - i) as nat);
        }
        rest = rest || half;
        half = q % 2 == 1;
        q = q / 2;
        k = k + 1;
        i = i + 1;
    }
    while q < STEP as u128 && k > 0
        invariant
            d > 0,
            located(n, d, q as int, k as int, half, rest),
            0 <= k < 200000,
            q < 2 * STEP,
            half || rest ==> q >= STEP || k <= 0,
        decreases k,
    {
        proof {
            lemma_shift_left(n, d, q as int, k as int);
        }
        q = q * 2;
        k = k - 1;
    }
    let up: u64 = if half && (rest || q % 2 == 1) {
        1
    } else {
        0
    };
    if k >= 2046 {
        proof {
            lemma_overflow_nearest(n, d, q as int, k as int, half, rest);
            lemma_nearest_unique(INFINITE as int, n, d);
        }
        INFINITE
    } else {
        proof {
            lemma_packed_nearest(n, d, q as int, k as int, half, rest);
        }
        let m: u64 = k as u64 * STEP + q as u64 + up;
        proof {
            lemma_nearest_unique(m as int, n, d);
        }
        m
    }
}

} // verus!
