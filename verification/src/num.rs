//! Measured quantities, held as the bit pattern of an IEEE-754 double.
//!
//! Rates, severities and metric values are doubles. Everything the library does with them,
//! comparing as well as arithmetic, is done on bit patterns with integer operations, so that what
//! it decides and computes can be proved. Sums, products and quotients are correctly rounded:
//! they agree with those of the hardware on every operand, the sign and payload of a NaN aside.

use vstd::arithmetic::power2::*;
use vstd::prelude::*;

use crate::rounding::{
    lemma_gap, lemma_rounded, lemma_units_mono, lemma_units_packed, located, located_in, packable,
    round_to_nearest, rounded, rounding_error_is_small, rounding_is_monotone,
    rounding_keeps_doubles, units, INFINITE, STEP,
};

verus! {

/// The weight of the sign bit.
pub const SIGN: u64 = 0x8000_0000_0000_0000;

/// The bit pattern that stands for every NaN an operation gives.
pub const NAN: u64 = 0x7ff8_0000_0000_0000;

/// The exponent of the unit: every finite double is a multiple of 2^-1074.
pub const UNIT: i32 = 1074;

/// The bit pattern of 0.0.
pub const ZERO: u64 = 0;

/// The bit pattern of 1.0.
pub const ONE: u64 = 0x3ff0_0000_0000_0000;

/// The bit pattern of 100.0.
pub const HUNDRED: u64 = 0x4059_0000_0000_0000;

/// A double, represented by its bit pattern.
#[derive(Clone, Copy, Debug, PartialEq, Eq, Structural)]
pub struct Num {
    pub bits: u64,
}

impl Num {
    /// The bit pattern without its sign bit.
    pub open spec fn mag(self) -> int {
        if self.bits < SIGN {
            self.bits as int
        } else {
            self.bits - SIGN
        }
    }

    pub open spec fn nan(self) -> bool {
        self.mag() > INFINITE
    }

    /// An integer that orders all doubles but NaN by value; both zeros map to 0.
    pub open spec fn key(self) -> int {
        if self.bits < SIGN {
            self.mag()
        } else {
            -self.mag()
        }
    }

    /// `self < other` on doubles: false as soon as one side is NaN.
    pub open spec fn lt(self, other: Num) -> bool {
        !self.nan() && !other.nan() && self.key() < other.key()
    }

    /// `self <= other` on doubles.
    pub open spec fn le(self, other: Num) -> bool {
        !self.nan() && !other.nan() && self.key() <= other.key()
    }

    /// `self == other` on doubles: NaN equals nothing, the zeros equal each other.
    pub open spec fn same(self, other: Num) -> bool {
        !self.nan() && !other.nan() && self.key() == other.key()
    }

    /// The larger of two doubles; a NaN gives way to the other side.
    pub open spec fn max_of(self, other: Num) -> Num {
        if self.nan() {
            other
        } else if self.lt(other) {
            other
        } else {
            self
        }
    }

    /// The smaller of two doubles; a NaN gives way to the other side.
    pub open spec fn min_of(self, other: Num) -> Num {
        if self.nan() {
            other
        } else if other.lt(self) {
            other
        } else {
            self
        }
    }

    /// The double nearest to `self` in the closed interval from `lo` to `hi`; NaN stays NaN.
    pub open spec fn clamp_of(self, lo: Num, hi: Num) -> Num {
        if self.lt(lo) {
            lo
        } else if hi.lt(self) {
            hi
        } else {
            self
        }
    }

    pub fn from_bits(bits: u64) -> (r: Num)
        ensures
            r.bits == bits,
    {
        Num { bits }
    }

    pub fn is_nan(self) -> (r: bool)
        ensures
            r == self.nan(),
    {
        if self.bits < SIGN {
            self.bits > INFINITE
        } else {
            self.bits - SIGN > INFINITE
        }
    }

    pub fn is_lt(self, other: Num) -> (r: bool)
        ensures
            r == self.lt(other),
    {
        if self.is_nan() || other.is_nan() {
            return false;
        }
        if self.bits < SIGN {
            other.bits < SIGN && self.bits < other.bits
        } else if other.bits < SIGN {
            !(self.bits == SIGN && other.bits == 0)
        } else {
            other.bits < self.bits
        }
    }

    pub fn is_le(self, other: Num) -> (r: bool)
        ensures
            r == self.le(other),
    {
        !self.is_nan() && !other.is_nan() && !other.is_lt(self)
    }

    pub fn is_same(self, other: Num) -> (r: bool)
        ensures
            r == self.same(other),
    {
        self.is_le(other) && other.is_le(self)
    }

    pub fn max(self, other: Num) -> (r: Num)
        ensures
            r == self.max_of(other),
    {
        if self.is_nan() {
            other
        } else if self.is_lt(other) {
            other
        } else {
            self
        }
    }

    pub fn min(self, other: Num) -> (r: Num)
        ensures
            r == self.min_of(other),
    {
        if self.is_nan() {
            other
        } else if other.is_lt(self) {
            other
        } else {
            self
        }
    }

    /// Clamps into an interval.
    pub fn clamp(self, lo: Num, hi: Num) -> (r: Num)
        requires
            lo.le(hi),
        ensures
            r == self.clamp_of(lo, hi),
    {
        if self.is_lt(lo) {
            lo
        } else if hi.is_lt(self) {
            hi
        } else {
            self
        }
    }
}

impl Num {
    pub open spec fn neg(self) -> bool {
        self.bits >= SIGN
    }

    pub open spec fn inf(self) -> bool {
        self.mag() == INFINITE
    }

    /// The value of a finite double in units, with its sign.
    pub open spec fn value(self) -> int {
        if self.neg() {
            -units(self.mag())
        } else {
            units(self.mag())
        }
    }

    /// The double of a given sign and magnitude.
    pub open spec fn signed(neg: bool, m: int) -> Num {
        Num {
            bits: if neg {
                (SIGN + m) as u64
            } else {
                m as u64
            },
        }
    }

    pub open spec fn negate_of(self) -> Num {
        Num::signed(!self.neg(), self.mag())
    }

    pub open spec fn abs_of(self) -> Num {
        Num::signed(false, self.mag())
    }

    #[verifier::opaque]
    pub open spec fn plus_of(self, other: Num) -> Num {
        if self.nan() || other.nan() {
            Num { bits: NAN }
        } else if self.inf() {
            if other.inf() && self.neg() != other.neg() {
                Num { bits: NAN }
            } else {
                self
            }
        } else if other.inf() {
            other
        } else {
            let sum = self.value() + other.value();
            if sum == 0 {
                Num::signed(self.neg() && other.neg(), 0)
            } else if sum < 0 {
                Num::signed(true, rounded(-sum, 1))
            } else {
                Num::signed(false, rounded(sum, 1))
            }
        }
    }

    pub open spec fn minus_of(self, other: Num) -> Num {
        self.plus_of(other.negate_of())
    }

    #[verifier::opaque]
    pub open spec fn times_of(self, other: Num) -> Num {
        let neg = self.neg() != other.neg();
        if self.nan() || other.nan() {
            Num { bits: NAN }
        } else if self.inf() || other.inf() {
            if self.mag() == 0 || other.mag() == 0 {
                Num { bits: NAN }
            } else {
                Num::signed(neg, INFINITE as int)
            }
        } else {
            Num::signed(
                neg,
                rounded(units(self.mag()) * units(other.mag()), pow2(UNIT as nat) as int),
            )
        }
    }

    #[verifier::opaque]
    pub open spec fn over_of(self, other: Num) -> Num {
        let neg = self.neg() != other.neg();
        if self.nan() || other.nan() {
            Num { bits: NAN }
        } else if self.inf() {
            if other.inf() {
                Num { bits: NAN }
            } else {
                Num::signed(neg, INFINITE as int)
            }
        } else if other.inf() {
            Num::signed(neg, 0)
        } else if other.mag() == 0 {
            if self.mag() == 0 {
                Num { bits: NAN }
            } else {
                Num::signed(neg, INFINITE as int)
            }
        } else {
            Num::signed(
                neg,
                rounded(units(self.mag()) * pow2(UNIT as nat), units(other.mag())),
            )
        }
    }

    /// The double nearest to a whole number.
    #[verifier::opaque]
    pub open spec fn of_int(n: int) -> Num {
        Num::signed(false, rounded(n * pow2(UNIT as nat), 1))
    }

    fn magnitude(self) -> (r: u64)
        ensures
            r == self.mag(),
    {
        if self.bits < SIGN {
            self.bits
        } else {
            self.bits - SIGN
        }
    }

    pub fn is_negative(self) -> (r: bool)
        ensures
            r == self.neg(),
    {
        self.bits >= SIGN
    }

    fn with_sign(neg: bool, m: u64) -> (r: Num)
        requires
            m < SIGN,
        ensures
            r == Num::signed(neg, m as int),
            r.neg() == neg,
            r.mag() == m,
    {
        if neg {
            Num { bits: SIGN + m }
        } else {
            Num { bits: m }
        }
    }

    pub fn negate(self) -> (r: Num)
        ensures
            r == self.negate_of(),
    {
        Num::with_sign(!self.is_negative(), self.magnitude())
    }

    pub fn abs(self) -> (r: Num)
        ensures
            r == self.abs_of(),
    {
        Num::with_sign(false, self.magnitude())
    }

    /// Significand and exponent of a magnitude: it is worth `r.0 * 2^r.1` units.
    fn unpack(m: u64) -> (r: (u64, i32))
        requires
            m < INFINITE,
        ensures
            packable(r.0 as int, r.1 as int),
            units(m as int) == r.0 * pow2(r.1 as nat),
            r.1 <= 2045,
            m > 0 <==> r.0 > 0,
    {
        let (q, k): (u64, i32) = if m < STEP {
            (m, 0)
        } else {
            (STEP + m % STEP, (m / STEP - 1) as i32)
        };
        proof {
            lemma_units_packed(q as int, k as int);
            assert(m == k * STEP + q) by {
                if m >= STEP {
                    vstd::arithmetic::div_mod::lemma_fundamental_div_mod(m as int, STEP as int);
                }
            }
        }
        (q, k)
    }

    /// Significand and exponent of a finite number's magnitude: it is worth `r.0 * 2^r.1` units.
    pub(crate) fn parts(self) -> (r: (u64, i32))
        requires
            !self.nan(),
            !self.inf(),
        ensures
            packable(r.0 as int, r.1 as int),
            units(self.mag()) == r.0 * pow2(r.1 as nat),
            r.1 <= 2045,
            self.mag() > 0 <==> r.0 > 0,
    {
        Num::unpack(self.magnitude())
    }

    /// The correctly rounded product.
    pub fn times(self, other: Num) -> (r: Num)
        ensures
            r == self.times_of(other),
    {
        proof {
            reveal(Num::times_of);
        }
        let neg: bool = self.is_negative() != other.is_negative();
        let a: u64 = self.magnitude();
        let b: u64 = other.magnitude();
        if a > INFINITE || b > INFINITE {
            return Num { bits: NAN };
        }
        if a == INFINITE || b == INFINITE {
            if a == 0 || b == 0 {
                return Num { bits: NAN };
            }
            return Num::with_sign(neg, INFINITE);
        }
        let (sa, ka) = Num::unpack(a);
        let (sb, kb) = Num::unpack(b);
        let ghost n = units(a as int) * units(b as int);
        let ghost d = pow2(UNIT as nat) as int;
        assert(sa * sb < 0x1_0000_0000_0000_0000_0000_0000_0000_0000) by (nonlinear_arith)
            requires
                sa < 2 * STEP,
                sb < 2 * STEP,
        ;
        let p: u128 = sa as u128 * sb as u128;
        let x: i32 = ka + kb - UNIT;
        proof {
            lemma_product(sa as int, ka as int, sb as int, kb as int, n);
            lemma_located_at(n, d, p as int, x as int);
        }
        let m: u64 = round_to_nearest(p, x, false, Ghost(n), Ghost(d));
        Num::with_sign(neg, m)
    }

    /// The correctly rounded sum.
    pub fn plus(self, other: Num) -> (r: Num)
        ensures
            r == self.plus_of(other),
    {
        proof {
            reveal(Num::plus_of);
        }
        let a: u64 = self.magnitude();
        let b: u64 = other.magnitude();
        if a > INFINITE || b > INFINITE {
            return Num { bits: NAN };
        }
        if a == INFINITE {
            if b == INFINITE && self.is_negative() != other.is_negative() {
                return Num { bits: NAN };
            }
            return self;
        }
        if b == INFINITE {
            return other;
        }
        let (sa, ka) = Num::unpack(a);
        let (sb, kb) = Num::unpack(b);
        if ka >= kb {
            Num::sum_aligned(self.is_negative(), sa, ka, other.is_negative(), sb, kb)
        } else {
            Num::sum_aligned(other.is_negative(), sb, kb, self.is_negative(), sa, ka)
        }
    }

    fn sum_aligned(na: bool, sa: u64, ka: i32, nb: bool, sb: u64, kb: i32) -> (r: Num)
        requires
            packable(sa as int, ka as int),
            packable(sb as int, kb as int),
            kb <= ka <= 2045,
        ensures
            ({
                let va = if na {
                    -(sa * pow2(ka as nat))
                } else {
                    sa * pow2(ka as nat)
                };
                let vb = if nb {
                    -(sb * pow2(kb as nat))
                } else {
                    sb * pow2(kb as nat)
                };
                let sum = va + vb;
                r == if sum == 0 {
                    Num::signed(na && nb, 0)
                } else if sum < 0 {
                    Num::signed(true, rounded(-sum, 1))
                } else {
                    Num::signed(false, rounded(sum, 1))
                }
            }),
    {
        let ghost ua = sa * pow2(ka as nat);
        let ghost ub = sb * pow2(kb as nat);
        let diff: i32 = ka - kb;
        if diff <= 74 {
            let wide: u128 = widen(sa, diff as u32);
            let small: u128 = sb as u128;
            let ghost unit = pow2(kb as nat) as int;
            proof {
                lemma_pow2_pos(kb as nat);
                lemma_pow2_adds(diff as nat, kb as nat);
                assert(ua == wide * unit) by (nonlinear_arith)
                    requires
                        ua == sa * pow2(ka as nat),
                        pow2(ka as nat) == pow2(diff as nat) * unit,
                        wide == sa * pow2(diff as nat),
                ;
                assert((wide + small) * unit == ua + ub && (wide - small) * unit == ua - ub && (
                small - wide) * unit == ub - ua) by (nonlinear_arith)
                    requires
                        ua == wide * unit,
                        ub == small * unit,
                ;
                assert(wide > small ==> ua > ub) by (nonlinear_arith)
                    requires
                        ua == wide * unit,
                        ub == small * unit,
                        unit > 0,
                ;
                assert(wide < small ==> ua < ub) by (nonlinear_arith)
                    requires
                        ua == wide * unit,
                        ub == small * unit,
                        unit > 0,
                ;
                assert(ua >= 0 && ub >= 0) by (nonlinear_arith)
                    requires
                        ua == wide * unit,
                        ub == small * unit,
                        unit > 0,
                        wide >= 0,
                        small >= 0,
                ;
            }
            if na == nb {
                let p: u128 = wide + small;
                if p == 0 {
                    proof {
                        assert(ua + ub == 0) by (nonlinear_arith)
                            requires
                                (wide + small) * unit == ua + ub,
                                wide + small == 0,
                        ;
                    }
                    return Num::with_sign(na, 0);
                }
                proof {
                    assert(ua + ub > 0) by (nonlinear_arith)
                        requires
                            (wide + small) * unit == ua + ub,
                            wide + small > 0,
                            unit > 0,
                    ;
                    lemma_located_at(ua + ub, 1, p as int, kb as int);
                }
                let m: u64 = round_to_nearest(p, kb, false, Ghost(ua + ub), Ghost(1));
                Num::with_sign(na, m)
            } else if wide > small {
                let p: u128 = wide - small;
                proof {
                    lemma_located_at(ua - ub, 1, p as int, kb as int);
                }
                let m: u64 = round_to_nearest(p, kb, false, Ghost(ua - ub), Ghost(1));
                Num::with_sign(na, m)
            } else if wide < small {
                let p: u128 = small - wide;
                proof {
                    lemma_located_at(ub - ua, 1, p as int, kb as int);
                }
                let m: u64 = round_to_nearest(p, kb, false, Ghost(ub - ua), Ghost(1));
                Num::with_sign(nb, m)
            } else {
                Num::with_sign(false, 0)
            }
        } else {
            // The smaller operand is less than one step of the larger one at 20 extra bits.
            let x: i32 = ka - 20;
            let top: u128 = sa as u128 * 0x10_0000;
            let ghost unit = pow2(x as nat) as int;
            proof {
                lemma_pow2_pos(x as nat);
                lemma_pow2_pos(kb as nat);
                lemma2_to64();
                lemma2_to64_rest();
                lemma_pow2_adds(20, x as nat);
                assert(ua == top * unit) by (nonlinear_arith)
                    requires
                        ua == sa * pow2(ka as nat),
                        pow2(ka as nat) == 0x10_0000 * unit,
                        top == sa * 0x10_0000,
                ;
                lemma_pow2_adds(53, kb as nat);
                lemma_pow2_strictly_increases((53 + kb) as nat, x as nat);
                assert(0 <= ub < unit) by (nonlinear_arith)
                    requires
                        ub == sb * pow2(kb as nat),
                        0 <= sb < 2 * STEP,
                        pow2(53) == 2 * STEP,
                        pow2((53 + kb) as nat) == pow2(53) * pow2(kb as nat),
                        pow2((53 + kb) as nat) < unit,
                        pow2(kb as nat) > 0,
                ;
                assert(ub == 0 <==> sb == 0) by (nonlinear_arith)
                    requires
                        ub == sb * pow2(kb as nat),
                        pow2(kb as nat) > 0,
                ;
                assert(ua > ub) by (nonlinear_arith)
                    requires
                        ua == top * unit,
                        top >= 1,
                        ub < unit,
                        unit > 0,
                ;
            }
            if na == nb || sb == 0 {
                let ghost n = if na == nb {
                    ua + ub
                } else {
                    ua
                };
                proof {
                    lemma_located_near(n, top as int, x as int);
                }
                let m: u64 = round_to_nearest(top, x, sb != 0, Ghost(n), Ghost(1));
                Num::with_sign(na, m)
            } else {
                let p: u128 = top - 1;
                proof {
                    assert((top - 1) * unit == ua - unit) by (nonlinear_arith)
                        requires
                            ua == top * unit,
                    ;
                    lemma_located_near(ua - ub, p as int, x as int);
                }
                let m: u64 = round_to_nearest(p, x, true, Ghost(ua - ub), Ghost(1));
                Num::with_sign(na, m)
            }
        }
    }

    /// The correctly rounded difference.
    pub fn minus(self, other: Num) -> (r: Num)
        ensures
            r == self.minus_of(other),
    {
        self.plus(other.negate())
    }

    /// The correctly rounded quotient.
    pub fn over(self, other: Num) -> (r: Num)
        ensures
            r == self.over_of(other),
    {
        proof {
            reveal(Num::over_of);
        }
        let neg: bool = self.is_negative() != other.is_negative();
        let a: u64 = self.magnitude();
        let b: u64 = other.magnitude();
        if a > INFINITE || b > INFINITE {
            return Num { bits: NAN };
        }
        if a == INFINITE {
            if b == INFINITE {
                return Num { bits: NAN };
            }
            return Num::with_sign(neg, INFINITE);
        }
        if b == INFINITE {
            return Num::with_sign(neg, 0);
        }
        if b == 0 {
            if a == 0 {
                return Num { bits: NAN };
            }
            return Num::with_sign(neg, INFINITE);
        }
        let (sa, ka) = Num::unpack(a);
        let (sb, kb) = Num::unpack(b);
        let ghost n = units(a as int) * pow2(UNIT as nat);
        let ghost d = units(b as int);
        proof {
            lemma_pow2_pos(kb as nat);
            assert(d > 0) by (nonlinear_arith)
                requires
                    d == sb * pow2(kb as nat),
                    sb > 0,
                    pow2(kb as nat) > 0,
            ;
        }
        if a == 0 {
            proof {
                assert(n == 0) by (nonlinear_arith)
                    requires
                        n == units(a as int) * pow2(UNIT as nat),
                        units(a as int) == 0,
                ;
                lemma_located_at(0, d, 0, 0);
            }
            let m: u64 = round_to_nearest(0, 0, false, Ghost(n), Ghost(d));
            return Num::with_sign(neg, m);
        }
        let (ta, i) = normalize(sa);
        let (tb, j) = normalize(sb);
        let top: u128 = ta as u128 * 0x1_0000_0000_0000_0000;
        let p: u128 = top / tb as u128;
        let rem: u128 = top % tb as u128;
        let x: i32 = (ka - i as i32) - (kb - j as i32) + 1010;
        proof {
            vstd::arithmetic::div_mod::lemma_fundamental_div_mod(top as int, tb as int);
            assert(tb * p == p * tb) by (nonlinear_arith);
            lemma_quotient(
                sa as int,
                ka as int,
                i as int,
                sb as int,
                kb as int,
                j as int,
                p as int,
                rem as int,
                x as int,
                n,
                d,
            );
            assert(p >= 4 * STEP) by (nonlinear_arith)
                requires
                    top == p * tb + rem,
                    0 <= rem < tb,
                    top >= STEP * 0x1_0000_0000_0000_0000,
                    tb < 2 * STEP,
                    p >= 0,
            ;
        }
        let m: u64 = round_to_nearest(p, x, rem != 0, Ghost(n), Ghost(d));
        Num::with_sign(neg, m)
    }

    /// The double nearest to a whole number.
    pub fn of(n: u64) -> (r: Num)
        ensures
            r == Num::of_int(n as int),
    {
        proof {
            reveal(Num::of_int);
        }
        let ghost v = n * pow2(UNIT as nat);
        proof {
            lemma_located_at(v, 1, n as int, UNIT as int);
        }
        let m: u64 = round_to_nearest(n as u128, UNIT, false, Ghost(v), Ghost(1));
        Num::with_sign(false, m)
    }
}

impl Num {
    /// The whole part of a finite magnitude.
    #[verifier::opaque]
    pub open spec fn whole(self) -> int {
        units(self.mag()) / pow2(UNIT as nat) as int
    }

    /// Whether a finite magnitude has a fractional part.
    #[verifier::opaque]
    pub open spec fn fractional(self) -> bool {
        units(self.mag()) % pow2(UNIT as nat) as int != 0
    }

    /// The whole part, saturating in `0..=limit`; NaN gives 0.
    pub open spec fn truncated(self, limit: int) -> int {
        if self.nan() || self.neg() {
            0
        } else if self.inf() || self.whole() > limit {
            limit
        } else {
            self.whole()
        }
    }

    /// The smallest whole number that is not less, saturating in `0..=limit`; NaN gives 0.
    pub open spec fn raised(self, limit: int) -> int {
        if self.nan() || self.neg() {
            0
        } else if self.inf() || self.whole() + (if self.fractional() {
            1int
        } else {
            0
        }) > limit {
            limit
        } else {
            self.whole() + (if self.fractional() {
                1int
            } else {
                0
            })
        }
    }

    /// Truncates towards zero into `0..=limit`.
    pub fn truncate(self, limit: u64) -> (r: u64)
        ensures
            r == self.truncated(limit as int),
    {
        proof {
            reveal(Num::whole);
        }
        if self.is_nan() || self.is_negative() {
            return 0;
        }
        if self.bits == INFINITE {
            return limit;
        }
        let (w, f) = Num::split(self.bits);
        if w > limit as u128 {
            limit
        } else {
            w as u64
        }
    }

    /// Rounds up into `0..=limit`.
    pub fn ceil(self, limit: u64) -> (r: u64)
        ensures
            r == self.raised(limit as int),
    {
        proof {
            reveal(Num::whole);
            reveal(Num::fractional);
        }
        if self.is_nan() || self.is_negative() {
            return 0;
        }
        if self.bits == INFINITE {
            return limit;
        }
        let (w, f) = Num::split(self.bits);
        let c: u128 = if f {
            w + 1
        } else {
            w
        };
        if c > limit as u128 {
            limit
        } else {
            c as u64
        }
    }

    /// The whole part of a finite magnitude, capped above every 64-bit number, and whether
    /// anything was cut off.
    fn split(m: u64) -> (r: (u128, bool))
        requires
            m < INFINITE,
        ensures
            r.1 == (units(m as int) % pow2(UNIT as nat) as int != 0),
            ({
                let w = units(m as int) / pow2(UNIT as nat) as int;
                r.0 == w || (r.0 <= w && r.0 > u64::MAX)
            }),
            r.0 <= 0x8000_0000_0000_0000_0000_0000_0000_0000,
    {
        let (s, k) = Num::unpack(m);
        let ghost d = pow2(UNIT as nat) as int;
        proof {
            lemma_pow2_pos(UNIT as nat);
            lemma_pow2_pos(k as nat);
        }
        if k >= UNIT {
            let by: i32 = k - UNIT;
            let ghost w = s * pow2(by as nat);
            proof {
                lemma_pow2_adds(by as nat, UNIT as nat);
                assert(units(m as int) == w * d) by (nonlinear_arith)
                    requires
                        units(m as int) == s * pow2(k as nat),
                        pow2(k as nat) == pow2(by as nat) * d,
                        w == s * pow2(by as nat),
                ;
                vstd::arithmetic::div_mod::lemma_div_multiples_vanish(w, d);
                vstd::arithmetic::div_mod::lemma_mod_multiples_basic(w, d);
                assert(d * w == w * d) by (nonlinear_arith);
            }
            if by > 12 {
                proof {
                    lemma2_to64();
                    if by > 13 {
                        lemma_pow2_strictly_increases(13, by as nat);
                    }
                    assert(w >= STEP * 0x2000) by (nonlinear_arith)
                        requires
                            w == s * pow2(by as nat),
                            s >= STEP,
                            pow2(by as nat) >= 0x2000,
                    ;
                }
                (0x1_0000_0000_0000_0000, false)
            } else {
                (widen(s, by as u32), false)
            }
        } else {
            let t: u32 = (UNIT - k) as u32;
            proof {
                lemma_pow2_adds(k as nat, t as nat);
                lemma_pow2_pos(t as nat);
                lemma_scaled_div(s as int, pow2(k as nat) as int, pow2(t as nat) as int);
            }
            let mut q: u64 = s;
            let mut lost: bool = false;
            let mut i: u32 = 0;
            proof {
                lemma2_to64();
            }
            while i < t
                invariant
                    i <= t,
                    q == s as int / pow2(i as nat) as int,
                    lost == (s as int % pow2(i as nat) as int != 0),
                decreases t - i,
            {
                proof {
                    let w = pow2(i as nat) as int;
                    lemma_pow2_pos(i as nat);
                    lemma_pow2_unfold((i + 1) as nat);
                    assert(pow2((i + 1) as nat) == w * 2);
                    vstd::arithmetic::div_mod::lemma_div_denominator(s as int, w, 2);
                    vstd::arithmetic::div_mod::lemma_mod_breakdown(s as int, w, 2);
                    vstd::arithmetic::div_mod::lemma_mod_division_less_than_divisor(s as int, w);
                    let b = (s as int / w) % 2;
                    assert(w * b == if b == 1 {
                        w
                    } else {
                        0
                    }) by (nonlinear_arith)
                        requires
                            b == 0 || b == 1,
                    ;
                }
                lost = lost || q % 2 == 1;
                q = q / 2;
                i = i + 1;
            }
            (q as u128, lost)
        }
    }
}

proof fn lemma_scaled_div(s: int, a: int, b: int)
    requires
        s >= 0,
        a > 0,
        b > 0,
    ensures
        (s * a) / (a * b) == s / b,
        ((s * a) % (a * b) != 0) == (s % b != 0),
{
    vstd::arithmetic::div_mod::lemma_div_denominator(s * a, a, b);
    vstd::arithmetic::div_mod::lemma_div_multiples_vanish(s, a);
    assert(s * a == a * s) by (nonlinear_arith);
    vstd::arithmetic::div_mod::lemma_mod_breakdown(s * a, a, b);
    vstd::arithmetic::div_mod::lemma_mod_multiples_basic(s, a);
    let r = s % b;
    assert((a * r == 0) == (r == 0)) by (nonlinear_arith)
        requires
            a > 0,
    ;
}

/// A span of nanoseconds as seconds: the whole seconds plus the fraction, each rounded.
pub open spec fn seconds_of(nanos: u64) -> Num {
    Num::of_int(nanos as int / 1_000_000_000).plus_of(
        Num::of_int(nanos as int % 1_000_000_000).over_of(Num::of_int(1_000_000_000)),
    )
}

/// Converts a span of nanoseconds to seconds.
pub fn seconds(nanos: u64) -> (r: Num)
    ensures
        r == seconds_of(nanos),
{
    Num::of(nanos / 1_000_000_000).plus(
        Num::of(nanos % 1_000_000_000).over(Num::of(1_000_000_000)),
    )
}

/// Shifts a significand left.
fn widen(s: u64, by: u32) -> (r: u128)
    requires
        s < 2 * STEP,
        by <= 74,
    ensures
        r == s * pow2(by as nat),
        r <= 0x8000_0000_0000_0000_0000_0000_0000_0000,
{
    let mut r: u128 = s as u128;
    let mut i: u32 = 0;
    proof {
        lemma2_to64();
        lemma2_to64_rest();
    }
    while i < by
        invariant
            i <= by <= 74,
            r == s * pow2(i as nat),
            s < 2 * STEP,
            pow2(53) == 2 * STEP,
            pow2(64) == 0x1_0000_0000_0000_0000,
            r <= pow2((53 + i) as nat),
        decreases by - i,
    {
        proof {
            lemma_pow2_unfold((i + 1) as nat);
            lemma_pow2_unfold((53 + i + 1) as nat);
            lemma_pow2_adds(64, 63);
            lemma_pow2_unfold(64);
            lemma_pow2_adds(53, i as nat);
            if 53 + i < 127 {
                lemma_pow2_strictly_increases((53 + i) as nat, 127);
            }
            assert(2 * (s * pow2(i as nat)) == s * pow2((i + 1) as nat)) by (nonlinear_arith)
                requires
                    pow2((i + 1) as nat) == 2 * pow2(i as nat),
            ;
        }
        r = r * 2;
        i = i + 1;
    }
    proof {
        lemma_pow2_adds(64, 63);
        lemma_pow2_unfold(64);
        if 53 + i < 127 {
            lemma_pow2_strictly_increases((53 + i) as nat, 127);
        }
    }
    r
}

/// Shifts a significand left until its leading bit is in place.
fn normalize(s: u64) -> (r: (u64, u32))
    requires
        0 < s < 2 * STEP,
    ensures
        STEP <= r.0 < 2 * STEP,
        r.0 == s * pow2(r.1 as nat),
        r.1 <= 52,
{
    let mut t: u64 = s;
    let mut i: u32 = 0;
    proof {
        lemma2_to64();
        lemma2_to64_rest();
    }
    while t < STEP
        invariant
            0 < s,
            0 < t < 2 * STEP,
            t == s * pow2(i as nat),
            i <= 52,
            t >= pow2(i as nat),
            pow2(52) == STEP,
        decreases 2 * STEP - t,
    {
        proof {
            lemma_pow2_unfold((i + 1) as nat);
            assert(2 * (s * pow2(i as nat)) == s * pow2((i + 1) as nat)) by (nonlinear_arith)
                requires
                    pow2((i + 1) as nat) == 2 * pow2(i as nat),
            ;
        }
        t = t * 2;
        i = i + 1;
    }
    (t, i)
}

proof fn lemma_located_at(n: int, d: int, p: int, x: int)
    requires
        d > 0,
        x >= 0 ==> n == p * d * pow2(x as nat),
        x < 0 ==> n * pow2((-x) as nat) == p * d,
    ensures
        located(n, d, p, x, false, false),
{
    if x >= 0 {
        lemma_pow2_pos(x as nat);
        let w = pow2(x as nat) as int;
        let dd = d * w;
        assert(p * dd == n && dd > 0) by (nonlinear_arith)
            requires
                n == p * d * w,
                dd == d * w,
                d > 0,
                w > 0,
        ;
        assert((p + 1) * dd == p * dd + dd) by (nonlinear_arith);
    } else {
        assert((p + 1) * d == p * d + d) by (nonlinear_arith);
    }
}

proof fn lemma_located_near(n: int, p: int, x: int)
    requires
        x >= 0,
        p * pow2(x as nat) <= n < p * pow2(x as nat) + pow2(x as nat),
    ensures
        exists|half: bool, rest: bool|
            #[trigger] located(n, 1, p, x, half, rest) && (n != p * pow2(x as nat)) == (half
                || rest),
{
    let w = pow2(x as nat) as int;
    assert((p + 1) * w == p * w + w) by (nonlinear_arith);
    let half = 2 * (n - p * w) >= w;
    let rest = 2 * (n - p * w) != if half {
        w
    } else {
        0
    };
    assert(1 * w == w);
    assert(located(n, 1, p, x, half, rest));
}

proof fn lemma_product(sa: int, ka: int, sb: int, kb: int, n: int)
    requires
        ka >= 0,
        kb >= 0,
        n == (sa * pow2(ka as nat)) * (sb * pow2(kb as nat)),
    ensures
        pow2(UNIT as nat) > 0,
        ({
            let d = pow2(UNIT as nat) as int;
            let x = ka + kb - UNIT;
            &&& x >= 0 ==> n == sa * sb * d * pow2(x as nat)
            &&& x < 0 ==> n * pow2((-x) as nat) == sa * sb * d
        }),
{
    let d = pow2(UNIT as nat) as int;
    let x = ka + kb - UNIT;
    lemma_pow2_pos(UNIT as nat);
    lemma_pow2_adds(ka as nat, kb as nat);
    let u = pow2(ka as nat) as int;
    let v = pow2(kb as nat) as int;
    let w = pow2((ka + kb) as nat) as int;
    assert(n == sa * sb * w) by (nonlinear_arith)
        requires
            n == (sa * u) * (sb * v),
            w == u * v,
    ;
    if x >= 0 {
        lemma_pow2_adds(UNIT as nat, x as nat);
        let y = pow2(x as nat) as int;
        assert(n == sa * sb * d * y) by (nonlinear_arith)
            requires
                n == sa * sb * w,
                w == d * y,
        ;
    } else {
        lemma_pow2_adds((ka + kb) as nat, (-x) as nat);
        let y = pow2((-x) as nat) as int;
        assert(n * y == sa * sb * d) by (nonlinear_arith)
            requires
                n == sa * sb * w,
                d == w * y,
        ;
    }
}

proof fn lemma_quotient(
    sa: int,
    ka: int,
    i: int,
    sb: int,
    kb: int,
    j: int,
    p: int,
    rem: int,
    x: int,
    n: int,
    d: int,
)
    requires
        ka >= 0,
        kb >= 0,
        i >= 0,
        j >= 0,
        sb > 0,
        p >= 0,
        0 <= rem < sb * pow2(j as nat),
        p * (sb * pow2(j as nat)) + rem == (sa * pow2(i as nat)) * 0x1_0000_0000_0000_0000,
        x == (ka - i) - (kb - j) + 1010,
        n == sa * pow2(ka as nat) * pow2(UNIT as nat),
        d == sb * pow2(kb as nat),
    ensures
        exists|half: bool, rest: bool|
            #[trigger] located(n, d, p, x, half, rest) && (rem != 0) == (half || rest),
{
    lemma_pow2_pos(i as nat);
    lemma_pow2_pos(j as nat);
    lemma_pow2_pos(kb as nat);
    lemma2_to64();
    lemma2_to64_rest();
    let pi = pow2(i as nat) as int;
    let pj = pow2(j as nat) as int;
    let pa = pow2(ka as nat) as int;
    let pb = pow2(kb as nat) as int;
    let unit = pow2(UNIT as nat) as int;
    let c = pi * pj;
    assert(c > 0) by (nonlinear_arith)
        requires
            c == pi * pj,
            pi > 0,
            pj > 0,
    ;
    let nn = if x >= 0 {
        n
    } else {
        n * pow2((-x) as nat)
    };
    let dd = if x >= 0 {
        d * pow2(x as nat)
    } else {
        d
    };
    // Both sides share the factor f once they are scaled by c.
    let e: int = if x >= 0 {
        ka + j + 1010
    } else {
        kb + i
    };
    let f = pow2(e as nat) as int;
    lemma_pow2_pos(e as nat);
    let sbj = sb * pj;
    let sai = sa * pi;
    if x >= 0 {
        let px = pow2(x as nat) as int;
        lemma_pow2_pos(x as nat);
        lemma_pow2_adds(kb as nat, i as nat);
        lemma_pow2_adds((kb + i) as nat, x as nat);
        assert(kb + i + x == e);
        assert(f == pb * pi * px);
        assert(c * dd == sbj * f) by (nonlinear_arith)
            requires
                c == pi * pj,
                dd == sb * pb * px,
                sbj == sb * pj,
                f == pb * pi * px,
        ;
        lemma_pow2_adds(ka as nat, UNIT as nat);
        lemma_pow2_adds((ka + UNIT) as nat, j as nat);
        lemma_pow2_adds(64, e as nat);
        assert(ka + UNIT + j == 64 + e);
        let pw = 0x1_0000_0000_0000_0000int;
        assert(pa * unit * pj == pw * f);
        let g = pa * unit;
        assert(nn * pj == sa * (g * pj)) by (nonlinear_arith)
            requires
                nn == sa * pa * unit,
                g == pa * unit,
        ;
        assert(c * nn == pi * (nn * pj)) by (nonlinear_arith)
            requires
                c == pi * pj,
        ;
        assert(pi * (sa * (pw * f)) == sai * pw * f) by (nonlinear_arith)
            requires
                sai == sa * pi,
        ;
    } else {
        let py = pow2((-x) as nat) as int;
        lemma_pow2_adds(kb as nat, i as nat);
        assert(f == pb * pi);
        assert(c * dd == sbj * f) by (nonlinear_arith)
            requires
                c == pi * pj,
                dd == sb * pb,
                sbj == sb * pj,
                f == pb * pi,
        ;
        lemma_pow2_adds(ka as nat, UNIT as nat);
        lemma_pow2_adds((ka + UNIT) as nat, j as nat);
        lemma_pow2_adds((ka + UNIT + j) as nat, (-x) as nat);
        lemma_pow2_adds(64, e as nat);
        assert(ka + UNIT + j - x == 64 + e);
        let pw = 0x1_0000_0000_0000_0000int;
        assert(pa * unit * pj * py == pw * f);
        let g = pa * unit;
        assert(nn * pj == sa * (g * pj * py)) by (nonlinear_arith)
            requires
                nn == sa * pa * unit * py,
                g == pa * unit,
        ;
        assert(c * nn == pi * (nn * pj)) by (nonlinear_arith)
            requires
                c == pi * pj,
        ;
        assert(pi * (sa * (pw * f)) == sai * pw * f) by (nonlinear_arith)
            requires
                sai == sa * pi,
        ;
    }
    let pw = 0x1_0000_0000_0000_0000int;
    assert(c * (nn - p * dd) == rem * f) by (nonlinear_arith)
        requires
            c * dd == sbj * f,
            c * nn == sai * pw * f,
            p * sbj + rem == sai * pw,
    ;
    assert(nn - p * dd >= 0) by (nonlinear_arith)
        requires
            c * (nn - p * dd) == rem * f,
            c > 0,
            rem >= 0,
            f > 0,
    ;
    assert(nn - p * dd < dd) by (nonlinear_arith)
        requires
            c * (nn - p * dd) == rem * f,
            c * dd == sbj * f,
            rem < sbj,
            c > 0,
            f > 0,
    ;
    assert(nn - p * dd == 0 <==> rem == 0) by (nonlinear_arith)
        requires
            c * (nn - p * dd) == rem * f,
            c > 0,
            f > 0,
    ;
    assert((p + 1) * dd == p * dd + dd) by (nonlinear_arith);
    let half = 2 * (nn - p * dd) >= dd;
    let rest = 2 * (nn - p * dd) != if half {
        dd
    } else {
        0
    };
    assert(located_in(nn, dd, p, half, rest));
    assert(located(n, d, p, x, half, rest));
}

/// Clamping lands inside the interval, and leaves alone what already lies there.
pub proof fn clamp_lands_inside(x: Num, lo: Num, hi: Num)
    requires
        lo.le(hi),
        !x.nan(),
    ensures
        lo.le(x.clamp_of(lo, hi)),
        x.clamp_of(lo, hi).le(hi),
        lo.le(x) && x.le(hi) ==> x.clamp_of(lo, hi) == x,
{
}

/// 1.0 is worth 2^1074 units.
pub proof fn lemma_one()
    ensures
        units(ONE as int) == pow2(UNIT as nat),
        pow2(UNIT as nat) > 0,
{
    lemma_pow2_pos(UNIT as nat);
    lemma_units_packed(STEP as int, 1022);
    assert(1022 * STEP + STEP == ONE);
    lemma2_to64();
    lemma2_to64_rest();
    lemma_pow2_adds(52, 1022);
}

/// A rate times a factor of at most 1 does not grow, and stays a rate.
pub proof fn scaling_down(a: Num, f: Num)
    requires
        (Num { bits: ZERO }).le(a),
        !a.inf(),
        (Num { bits: ZERO }).le(f),
        f.le(Num { bits: ONE }),
    ensures
        a.times_of(f).le(a),
        (Num { bits: ZERO }).le(a.times_of(f)),
{
    reveal(Num::times_of);
    lemma_one();
    let d = pow2(UNIT as nat) as int;
    let ua = units(a.mag());
    let uf = units(f.mag());
    lemma_units_mono(0, a.mag());
    lemma_units_mono(0, f.mag());
    lemma_units_mono(f.mag(), ONE as int);
    assert((ua * uf) * d <= (ua * d) * d) by (nonlinear_arith)
        requires
            uf <= d,
            ua >= 0,
            d > 0,
    ;
    rounding_is_monotone(ua * uf, d, ua * d, d);
    rounding_keeps_doubles(a.mag(), d);
    lemma_rounded(ua * uf, d);
    rounding_keeps_doubles(0, d);
    if a.neg() || f.neg() {
        assert(ua * uf == 0) by (nonlinear_arith)
            requires
                ua == 0 || uf == 0,
        ;
        assert(0 * d == 0);
    }
}

/// A rate plus a non-negative amount does not shrink.
pub proof fn adding_grows(a: Num, b: Num)
    requires
        (Num { bits: ZERO }).le(a),
        (Num { bits: ZERO }).le(b),
        !a.inf(),
        !b.inf(),
    ensures
        a.le(a.plus_of(b)),
{
    reveal(Num::plus_of);
    let ua = units(a.mag());
    let ub = units(b.mag());
    lemma_units_mono(0, a.mag());
    lemma_units_mono(0, b.mag());
    if a.mag() > 0 {
        lemma_units_mono(0, a.mag());
    }
    if b.mag() > 0 {
        lemma_units_mono(0, b.mag());
    }
    assert(a.value() == ua && b.value() == ub) by {
        if a.neg() {
            assert(a.mag() == 0);
        }
        if b.neg() {
            assert(b.mag() == 0);
        }
    }
    rounding_is_monotone(ua * 1, 1, ua + ub, 1);
    rounding_keeps_doubles(a.mag(), 1);
    lemma_rounded(ua + ub, 1);
}

/// Products and sums do not depend on the order of the operands.
pub proof fn arithmetic_commutes(a: Num, b: Num)
    ensures
        a.plus_of(b) == b.plus_of(a),
        a.times_of(b) == b.times_of(a),
{
    reveal(Num::plus_of);
    reveal(Num::times_of);
    assert(units(a.mag()) * units(b.mag()) == units(b.mag()) * units(a.mag()))
        by (nonlinear_arith);
}

/// A quotient of magnitudes is a magnitude, unless both are zero or both infinite.
pub proof fn quotient_of_magnitudes(a: Num, b: Num)
    requires
        !a.nan(),
        !a.neg(),
        !b.nan(),
        !b.neg(),
        !(a.mag() == 0 && b.mag() == 0),
        !(a.inf() && b.inf()),
    ensures
        !a.over_of(b).nan(),
        !a.over_of(b).neg(),
{
    reveal(Num::over_of);
    lemma_rounded(units(a.mag()) * pow2(UNIT as nat), units(b.mag()));
}

/// The key of the double nearest to `n / d` units.
pub open spec fn rounded_key(n: int, d: int) -> int {
    if n < 0 {
        -rounded(-n, d)
    } else {
        rounded(n, d)
    }
}

/// Rounding keeps the order of signed ratios.
pub proof fn lemma_rounded_key_order(n1: int, d1: int, n2: int, d2: int)
    requires
        d1 > 0,
        d2 > 0,
        n1 * d2 <= n2 * d1,
    ensures
        rounded_key(n1, d1) <= rounded_key(n2, d2),
{
    lemma_rounded(n1, d1);
    lemma_rounded(-n1, d1);
    lemma_rounded(n2, d2);
    lemma_rounded(-n2, d2);
    if n1 < 0 && n2 < 0 {
        assert((-n2) * d1 <= (-n1) * d2) by (nonlinear_arith)
            requires
                n1 * d2 <= n2 * d1,
        ;
        rounding_is_monotone(-n2, d2, -n1, d1);
    } else if n1 >= 0 && n2 >= 0 {
        rounding_is_monotone(n1, d1, n2, d2);
    } else if n1 >= 0 {
        assert(n2 * d1 < 0 && n1 * d2 >= 0) by (nonlinear_arith)
            requires
                n2 < 0,
                n1 >= 0,
                d1 > 0,
                d2 > 0,
        ;
    }
}

/// Doubles are ordered by their values.
pub proof fn lemma_value_order(a: Num, b: Num)
    requires
        !a.nan(),
        !b.nan(),
    ensures
        a.key() <= b.key() <==> a.value() <= b.value(),
        a.value() >= 0 <==> a.key() >= 0,
        a.value() == 0 <==> a.key() == 0,
        units(a.mag()) == if a.value() < 0 {
            -a.value()
        } else {
            a.value()
        },
{
    let x = a.mag();
    let y = b.mag();
    lemma_units_mono(0, x);
    lemma_units_mono(0, y);
    if x <= y {
        lemma_units_mono(x, y);
    } else {
        lemma_units_mono(y, x);
    }
}

/// Where a sum of finite doubles lands.
pub proof fn lemma_plus_key(a: Num, b: Num)
    requires
        !a.nan(),
        !b.nan(),
        !a.inf(),
        !b.inf(),
    ensures
        !a.plus_of(b).nan(),
        a.plus_of(b).key() == rounded_key(a.value() + b.value(), 1),
{
    reveal(Num::plus_of);
    let sum = a.value() + b.value();
    lemma_rounded(sum, 1);
    lemma_rounded(-sum, 1);
    rounding_keeps_doubles(0, 1);
}

/// Where a product of finite doubles lands.
pub proof fn lemma_times_key(a: Num, b: Num)
    requires
        !a.nan(),
        !b.nan(),
        !a.inf(),
        !b.inf(),
    ensures
        !a.times_of(b).nan(),
        a.times_of(b).key() == rounded_key(a.value() * b.value(), pow2(UNIT as nat) as int),
        pow2(UNIT as nat) > 0,
{
    reveal(Num::times_of);
    lemma_one();
    let d = pow2(UNIT as nat) as int;
    let x = units(a.mag());
    let y = units(b.mag());
    lemma_units_mono(0, a.mag());
    lemma_units_mono(0, b.mag());
    lemma_rounded(x * y, d);
    rounding_keeps_doubles(0, d);
    assert(0 * d == 0);
    let v = a.value() * b.value();
    if a.neg() == b.neg() {
        assert(v == x * y && v >= 0) by (nonlinear_arith)
            requires
                v == a.value() * b.value(),
                a.value() == x && b.value() == y || a.value() == -x && b.value() == -y,
                x >= 0,
                y >= 0,
        ;
    } else {
        assert(v == -(x * y) && v <= 0) by (nonlinear_arith)
            requires
                v == a.value() * b.value(),
                a.value() == x && b.value() == -y || a.value() == -x && b.value() == y,
                x >= 0,
                y >= 0,
        ;
    }
}

/// Where a quotient of finite doubles lands.
pub proof fn lemma_over_key(a: Num, b: Num)
    requires
        !a.nan(),
        !b.nan(),
        !a.inf(),
        !b.inf(),
        b.mag() != 0,
    ensures
        !a.over_of(b).nan(),
        units(b.mag()) > 0,
        a.over_of(b).key() == rounded_key(
            if b.neg() {
                -(a.value() * pow2(UNIT as nat))
            } else {
                a.value() * pow2(UNIT as nat)
            },
            units(b.mag()),
        ),
{
    reveal(Num::over_of);
    lemma_one();
    let u = pow2(UNIT as nat) as int;
    let x = units(a.mag());
    let y = units(b.mag());
    lemma_units_mono(0, a.mag());
    lemma_units_mono(0, b.mag());
    lemma_rounded(x * u, y);
    rounding_keeps_doubles(0, y);
    assert(0 * y == 0);
    assert(x * u >= 0 && (-x) * u == -(x * u)) by (nonlinear_arith)
        requires
            x >= 0,
            u > 0,
    ;
}

/// The largest finite value, in units.
pub open spec fn largest() -> int {
    units(INFINITE - 1)
}

/// Where a rounded ratio lands, and by how much it was rounded.
pub proof fn lemma_landing(n: int, d: int, r: Num, bound: int)
    requires
        d > 0,
        !r.nan(),
        r.key() == rounded_key(n, d),
        -(d * bound) <= n <= d * bound,
        0 <= bound,
        bound <= largest() || !r.inf(),
    ensures
        !r.inf(),
        -(2 * bound + 1) <= r.value() <= 2 * bound + 1,
        0x20_0000_0000_0000 * (d * r.value() - n) <= d * (2 * bound + 0x20_0000_0000_0000),
        0x20_0000_0000_0000 * (n - d * r.value()) <= d * (2 * bound + 0x20_0000_0000_0000),
{
    let m = if n < 0 {
        -n
    } else {
        n
    };
    lemma_rounded(m, d);
    assert(r.mag() == rounded(m, d));
    rounding_error_is_small(m, d, bound);
    lemma_units_mono(0, r.mag());
    lemma_value_order(r, r);
    let v = units(r.mag());
    if n < 0 {
        assert(r.value() == -v);
        assert(d * (-v) == -(d * v)) by (nonlinear_arith);
    } else {
        assert(r.value() == v);
    }
}

/// Sums keep the order of their terms.
pub proof fn adding_keeps_order(a: Num, b: Num, c: Num, d: Num)
    requires
        a.le(b),
        c.le(d),
        !a.inf() && !b.inf() && !c.inf() && !d.inf(),
    ensures
        a.plus_of(c).le(b.plus_of(d)),
{
    lemma_value_order(a, b);
    lemma_value_order(c, d);
    lemma_plus_key(a, c);
    lemma_plus_key(b, d);
    lemma_rounded_key_order(a.value() + c.value(), 1, b.value() + d.value(), 1);
}

/// What reaches the next double exceeds the last one.
pub proof fn lemma_exceeds(a: Num, r: Num, n: int, d: int)
    requires
        !a.nan() && !a.inf(),
        !r.nan(),
        a.key() >= 0,
        d > 0,
        r.key() == rounded_key(n, d),
        0x10_0000_0000_0000 * n >= d * (0x10_0000_0000_0001 * a.value() + 0x10_0000_0000_0000),
    ensures
        a.lt(r),
{
    let m = a.mag();
    lemma_value_order(a, a);
    lemma_gap(m);
    lemma_units_mono(m, m + 1);
    let u = units(m);
    let v = units(m + 1);
    let c = 0x10_0000_0000_0000int;
    assert(u == a.value());
    assert(v * d <= n) by (nonlinear_arith)
        requires
            c * n >= d * ((c + 1) * u + c),
            (v - u) * c <= u + c,
            d > 0,
            c == 0x10_0000_0000_0000,
    ;
    assert(v * d >= 0) by (nonlinear_arith)
        requires
            v >= 0,
            d > 0,
    ;
    assert((v * d) * d <= n * d) by (nonlinear_arith)
        requires
            v * d <= n,
            d > 0,
    ;
    rounding_is_monotone(v * d, d, n, d);
    rounding_keeps_doubles(m + 1, d);
}

/// What is left of 1 after a fraction of it is a fraction too.
pub proof fn lemma_complement(f: Num)
    requires
        (Num { bits: ZERO }).le(f),
        f.le(Num { bits: ONE }),
    ensures
        (Num { bits: ZERO }).le((Num { bits: ONE }).minus_of(f)),
        (Num { bits: ONE }).minus_of(f).le(Num { bits: ONE }),
{
    let one = Num { bits: ONE };
    let zero = Num { bits: ZERO };
    let minus = f.negate_of();
    lemma_one();
    lemma_value_order(f, f);
    adding_keeps_order(f, one, minus, minus);
    adding_keeps_order(one, one, minus, zero);
    lemma_plus_key(f, minus);
    lemma_plus_key(one, zero);
    rounding_keeps_doubles(0, 1);
    rounding_keeps_doubles(ONE as int, 1);
    lemma_units_mono(0, 1);
}

/// Products with a non-negative factor keep the order of the other one.
pub proof fn scaling_keeps_order(f: Num, a: Num, b: Num)
    requires
        (Num { bits: ZERO }).le(f),
        a.le(b),
        !f.inf() && !a.inf() && !b.inf(),
    ensures
        f.times_of(a).le(f.times_of(b)),
{
    let zero = Num { bits: ZERO };
    lemma_value_order(zero, f);
    lemma_value_order(f, f);
    lemma_value_order(a, b);
    lemma_times_key(f, a);
    lemma_times_key(f, b);
    let d = pow2(UNIT as nat) as int;
    let x = f.value();
    assert((x * a.value()) * d <= (x * b.value()) * d) by (nonlinear_arith)
        requires
            x >= 0,
            a.value() <= b.value(),
            d > 0,
    ;
    lemma_rounded_key_order(x * a.value(), d, x * b.value(), d);
}

/// Quotients by a positive divisor keep the order of the dividend, and reach 1 where it reaches
/// the divisor.
pub proof fn dividing_keeps_order(a: Num, b: Num, c: Num)
    requires
        (Num { bits: ZERO }).le(a),
        a.le(b),
        (Num { bits: ZERO }).lt(c),
        !a.neg() && !b.neg() && !c.neg(),
        !b.inf() && !c.inf(),
    ensures
        (Num { bits: ZERO }).le(a.over_of(c)),
        a.over_of(c).le(b.over_of(c)),
        !a.over_of(c).neg(),
        c.le(b) ==> (Num { bits: ONE }).le(b.over_of(c)),
        a.mag() == 0 ==> a.over_of(c).mag() == 0,
{
    reveal(Num::over_of);
    lemma_one();
    let u = pow2(UNIT as nat) as int;
    let x = units(a.mag());
    let y = units(b.mag());
    let z = units(c.mag());
    lemma_units_mono(0, a.mag());
    lemma_units_mono(a.mag(), b.mag());
    lemma_units_mono(0, c.mag());
    assert(z > 0);
    assert((x * u) * z <= (y * u) * z) by (nonlinear_arith)
        requires
            x <= y,
            u > 0,
            z > 0,
    ;
    rounding_is_monotone(x * u, z, y * u, z);
    lemma_rounded(x * u, z);
    lemma_rounded(y * u, z);
    if c.key() <= b.key() {
        lemma_units_mono(c.mag(), b.mag());
        assert((u * z) * z <= (y * u) * z) by (nonlinear_arith)
            requires
                z <= y,
                u > 0,
                z > 0,
        ;
        rounding_is_monotone(u * z, z, y * u, z);
        rounding_keeps_doubles(ONE as int, z);
    }
    if a.mag() == 0 {
        rounding_keeps_doubles(0, z);
        assert(x * u == 0 && 0 * z == 0) by (nonlinear_arith)
            requires
                x == 0,
        ;
    }
}

/// A small whole number times a power of two is a double, unless it is too large.
pub proof fn lemma_representable(q: int, k: int) -> (m: int)
    requires
        0 <= q < 2 * STEP,
        0 <= k,
    ensures
        0 <= m,
        k <= 1100 ==> m < INFINITE,
        units(m) == q * pow2(k as nat),
    decreases k,
{
    if q >= STEP || k == 0 {
        lemma_units_packed(q, k);
        k * STEP + q
    } else {
        lemma_pow2_unfold(k as nat);
        let m = lemma_representable(2 * q, k - 1);
        assert((2 * q) * pow2((k - 1) as nat) == q * pow2(k as nat)) by (nonlinear_arith)
            requires
                pow2(k as nat) == 2 * pow2((k - 1) as nat),
        ;
        m
    }
}

/// Whole numbers below 2^53 are doubles.
pub proof fn whole_numbers_are_exact(n: int)
    requires
        0 <= n < 2 * STEP,
    ensures
        Num::of_int(n).value() == n * pow2(UNIT as nat),
        !Num::of_int(n).nan(),
        !Num::of_int(n).inf(),
        !Num::of_int(n).neg(),
{
    reveal(Num::of_int);
    let m = lemma_representable(n, UNIT as int);
    rounding_keeps_doubles(m, 1);
}

/// A span in seconds is a non-negative number, grows with the span, and is zero for no span
/// alone.
pub proof fn seconds_keep_order(a: u64, b: u64)
    requires
        a <= b,
    ensures
        seconds_of(a).le(seconds_of(b)),
        !seconds_of(a).neg(),
        !seconds_of(a).inf(),
        (Num { bits: ZERO }).le(seconds_of(a)),
        a == 0 ==> seconds_of(a).mag() == 0,
        a > 0 ==> seconds_of(a).mag() > 0,
{
    let e = 1_000_000_000int;
    lemma_one();
    let u = pow2(UNIT as nat) as int;
    let wa = Num::of_int(a as int / e);
    let wb = Num::of_int(b as int / e);
    let ra = Num::of_int(a as int % e);
    let rb = Num::of_int(b as int % e);
    let g = Num::of_int(e);
    let one = Num { bits: ONE };
    let zero = Num { bits: ZERO };
    whole_numbers_are_exact(a as int / e);
    whole_numbers_are_exact(b as int / e);
    whole_numbers_are_exact(a as int % e);
    whole_numbers_are_exact(b as int % e);
    whole_numbers_are_exact(e);
    assert(e * u > 0) by (nonlinear_arith)
        requires
            e > 0,
            u > 0,
    ;
    lemma_value_order(zero, g);
    lemma_value_order(g, zero);
    lemma_value_order(wa, zero);
    lemma_value_order(zero, wa);
    lemma_value_order(zero, wb);
    lemma_value_order(zero, ra);
    lemma_value_order(ra, zero);
    lemma_value_order(zero, rb);
    let fa = ra.over_of(g);
    let fb = rb.over_of(g);
    dividing_keeps_order(ra, ra, g);
    dividing_keeps_order(rb, rb, g);
    // A fraction of a second is at most one second.
    assert(ra.value() <= g.value() && rb.value() <= g.value()) by (nonlinear_arith)
        requires
            ra.value() == (a as int % e) * u,
            rb.value() == (b as int % e) * u,
            g.value() == e * u,
            a as int % e <= e,
            b as int % e <= e,
            u > 0,
    ;
    lemma_fraction_at_most_one(ra, g);
    lemma_fraction_at_most_one(rb, g);
    lemma_value_order(fa, one);
    lemma_value_order(fb, zero);
    lemma_value_order(zero, fb);
    lemma_value_order(zero, fa);
    lemma_value_order(fa, fb);
    assert(one.value() == u);
    let sa = wa.value() + fa.value();
    let sb = wb.value() + fb.value();
    assert(sa >= 0) by {
        assert(wa.value() >= 0) by (nonlinear_arith)
            requires
                wa.value() == (a as int / e) * u,
                a as int / e >= 0,
                u > 0,
        ;
    }
    if a as int / e == b as int / e {
        assert(a as int % e <= b as int % e);
        assert(ra.value() <= rb.value()) by (nonlinear_arith)
            requires
                ra.value() == (a as int % e) * u,
                rb.value() == (b as int % e) * u,
                a as int % e <= b as int % e,
                u > 0,
        ;
        lemma_value_order(ra, rb);
        dividing_keeps_order(ra, rb, g);
        assert(sa <= sb);
    } else {
        assert(a as int / e + 1 <= b as int / e);
        assert(wa.value() + u <= wb.value()) by (nonlinear_arith)
            requires
                wa.value() == (a as int / e) * u,
                wb.value() == (b as int / e) * u,
                a as int / e + 1 <= b as int / e,
                u > 0,
        ;
        assert(sa <= sb);
    }
    lemma_plus_key(wa, fa);
    lemma_plus_key(wb, fb);
    lemma_rounded_key_order(sa, 1, sb, 1);
    lemma_sum_of_magnitudes(wa, fa);
    // The sum stays far below infinity.
    assert(wa.value() <= 0x4_4B83_0000 * u) by (nonlinear_arith)
        requires
            wa.value() == (a as int / e) * u,
            a as int / e <= 0x4_4B83_0000,
            u > 0,
    ;
    let top = Num::of_int(0x4_4B83_0001);
    whole_numbers_are_exact(0x4_4B83_0001);
    assert(sa <= top.value());
    lemma_rounded_key_order(sa, 1, top.value(), 1);
    rounding_keeps_doubles(top.mag(), 1);
    lemma_value_order(top, top);
    if a == 0 {
        assert(sa == 0) by {
            assert(wa.value() == 0) by (nonlinear_arith)
                requires
                    wa.value() == 0 * u,
            ;
            assert(ra.value() == 0) by (nonlinear_arith)
                requires
                    ra.value() == 0 * u,
            ;
        }
        rounding_keeps_doubles(0, 1);
    } else {
        lemma_span_positive(a);
    }
}

proof fn lemma_sum_of_magnitudes(a: Num, b: Num)
    requires
        !a.nan() && !b.nan() && !a.inf() && !b.inf(),
        !a.neg() && !b.neg(),
    ensures
        !a.plus_of(b).neg(),
{
    reveal(Num::plus_of);
    lemma_units_mono(0, a.mag());
    lemma_units_mono(0, b.mag());
    lemma_rounded(a.value() + b.value(), 1);
}

proof fn lemma_fraction_at_most_one(a: Num, c: Num)
    requires
        !a.nan() && !c.nan() && !a.inf() && !c.inf(),
        !a.neg() && !c.neg(),
        a.value() <= c.value(),
        c.value() > 0,
    ensures
        a.over_of(c).le(Num { bits: ONE }),
        !a.over_of(c).inf(),
{
    reveal(Num::over_of);
    lemma_one();
    let u = pow2(UNIT as nat) as int;
    let x = units(a.mag());
    let z = units(c.mag());
    lemma_value_order(c, c);
    assert((x * u) * z <= (u * z) * z) by (nonlinear_arith)
        requires
            x <= z,
            u > 0,
            z > 0,
    ;
    rounding_is_monotone(x * u, z, u * z, z);
    rounding_keeps_doubles(ONE as int, z);
    lemma_rounded(x * u, z);
}

proof fn lemma_span_positive(a: u64)
    requires
        a > 0,
    ensures
        seconds_of(a).mag() > 0,
{
    let e = 1_000_000_000int;
    lemma_one();
    let u = pow2(UNIT as nat) as int;
    let wa = Num::of_int(a as int / e);
    let ra = Num::of_int(a as int % e);
    let g = Num::of_int(e);
    whole_numbers_are_exact(a as int / e);
    whole_numbers_are_exact(a as int % e);
    whole_numbers_are_exact(e);
    lemma_units_mono(0, wa.mag());
    lemma_units_mono(0, ra.mag());
    assert(e * u > 0) by (nonlinear_arith)
        requires
            e > 0,
            u > 0,
    ;
    let zero = Num { bits: ZERO };
    lemma_value_order(g, zero);
    lemma_value_order(zero, g);
    lemma_value_order(zero, ra);
    dividing_keeps_order(ra, ra, g);
    assert(ra.value() <= g.value()) by (nonlinear_arith)
        requires
            ra.value() == (a as int % e) * u,
            g.value() == e * u,
            a as int % e <= e,
            u > 0,
    ;
    lemma_fraction_at_most_one(ra, g);
    let fa = ra.over_of(g);
    lemma_plus_key(wa, fa);
    lemma_units_mono(0, fa.mag());
    let sum = wa.value() + fa.value();
    assert(sum >= 1) by {
        if a as int / e >= 1 {
            assert(wa.value() >= 1) by (nonlinear_arith)
                requires
                    wa.value() == (a as int / e) * u,
                    a as int / e >= 1,
                    u >= 1,
            ;
        } else {
            assert(a as int % e >= 1);
            reveal(Num::over_of);
            let x = units(ra.mag());
            let z = units(g.mag());
            assert(x >= u) by (nonlinear_arith)
                requires
                    x == (a as int % e) * u,
                    a as int % e >= 1,
                    u > 0,
            ;
            assert(u >= e) by {
                lemma2_to64();
                lemma2_to64_rest();
                lemma_pow2_strictly_increases(30, UNIT as nat);
            }
            assert((1 * z) * z <= (x * u) * z) by (nonlinear_arith)
                requires
                    z == e * u,
                    x >= u,
                    u >= e,
                    e > 0,
            ;
            rounding_is_monotone(1 * z, z, x * u, z);
            rounding_keeps_doubles(1, z);
            lemma_rounded(x * u, z);
            assert(fa.mag() >= 1);
            lemma_units_mono(1, fa.mag());
        }
    }
    rounding_is_monotone(1, 1, sum, 1);
    rounding_keeps_doubles(1, 1);
}

} // verus!
