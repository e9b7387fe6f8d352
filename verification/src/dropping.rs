//! Which requests to abort mid-transfer, and when.

use vstd::arithmetic::power2::*;
use vstd::prelude::*;

use crate::num::{
    arithmetic_commutes, lemma_one, lemma_value_order, scaling_down, Num, ONE, UNIT, ZERO,
};
use crate::order::{
    lemma_room, literal_is_decimal, near, nothing_times, product_against, products_keep_order,
    quotient_is_exact, quotient_is_near, quotients_keep_order, whole,
};
use crate::rounding::{
    lemma_rounded, lemma_units_mono, rounding_is_monotone, rounding_keeps_doubles, units, STEP,
};

verus! {

/// 490.0
pub const DELAY_RANGE: u64 = 0x407e_a000_0000_0000;

/// The largest 32-bit number, as a double.
pub const RANDOM_MAX: u64 = 0x41ef_ffff_ffe0_0000;

/// One step of a 32-bit xorshift generator.
pub open spec fn shifted(s: u32) -> u32 {
    let a = s ^ (s << 13);
    let b = a ^ (a >> 17);
    b ^ (b << 5)
}

/// A random state as a fraction.
pub open spec fn fraction(s: u32) -> Num {
    Num::of_int(s as int).over_of(Num { bits: RANDOM_MAX })
}

/// Aborts a fraction of the requests, each after a random delay.
#[derive(Debug, Clone, Copy, PartialEq, Eq, Structural)]
pub struct Dropper {
    /// Fraction of requests to drop.
    pub drop_fraction: Num,
    pub rng_state: u32,
}

impl Dropper {
    pub fn new(drop_fraction: Num, seed: u32) -> (r: Dropper)
        ensures
            r.drop_fraction == drop_fraction,
            r.rng_state == if seed == 0 {
                1
            } else {
                seed
            },
    {
        Dropper {
            drop_fraction,
            rng_state: if seed == 0 {
                1
            } else {
                seed
            },
        }
    }

    fn next_random(&mut self) -> (r: Num)
        ensures
            *final(self) == (Dropper { rng_state: shifted(old(self).rng_state), ..*old(self) }),
            r == fraction(final(self).rng_state),
    {
        let mut s: u32 = self.rng_state;
        s = s ^ (s << 13);
        s = s ^ (s >> 17);
        s = s ^ (s << 5);
        self.rng_state = s;
        Num::of(s as u64).over(Num { bits: RANDOM_MAX })
    }

    /// Whether to drop the next request.
    pub fn should_drop(&mut self) -> (r: bool)
        ensures
            *final(self) == (Dropper { rng_state: shifted(old(self).rng_state), ..*old(self) }),
            r == fraction(final(self).rng_state).lt(old(self).drop_fraction),
    {
        let random: Num = self.next_random();
        random.is_lt(self.drop_fraction)
    }

    /// After how many milliseconds to drop a request.
    pub fn random_drop_delay(&mut self) -> (r: u64)
        ensures
            *final(self) == (Dropper { rng_state: shifted(old(self).rng_state), ..*old(self) }),
            r == drop_delay(final(self).rng_state),
            10 <= r <= 500,
    {
        let frac: Num = self.next_random();
        proof {
            drop_delay_is_bounded(self.rng_state);
        }
        10 + frac.times(Num { bits: DELAY_RANGE }).truncate(u64::MAX - 10)
    }

    /// Decides over one request: `None` to let it run, or the milliseconds after which to drop it.
    pub fn decide(&mut self) -> (r: Option<u64>)
        ensures
            ({
                let first = shifted(old(self).rng_state);
                if fraction(first).lt(old(self).drop_fraction) {
                    &&& r == Some(drop_delay(shifted(first)) as u64)
                    &&& *final(self) == (Dropper { rng_state: shifted(first), ..*old(self) })
                } else {
                    &&& r is None
                    &&& *final(self) == (Dropper { rng_state: first, ..*old(self) })
                }
            }),
    {
        if self.should_drop() {
            Some(self.random_drop_delay())
        } else {
            None
        }
    }
}

/// The delay that a random state stands for: from ten milliseconds on, over a range of 490.
pub open spec fn drop_delay(s: u32) -> int {
    10 + fraction(s).times_of(Num { bits: DELAY_RANGE }).truncated(u64::MAX - 10)
}

/// The generator never gets stuck at zero.
pub proof fn random_state_stays_nonzero(s: u32)
    requires
        s != 0,
    ensures
        shifted(s) != 0,
{
    assert(s != 0 ==> {
        let a = s ^ (s << 13);
        let b = a ^ (a >> 17);
        b ^ (b << 5)
    } != 0) by (bit_vector);
}

/// A random state is a fraction between 0 and 1.
pub proof fn random_is_a_fraction(s: u32)
    ensures
        (Num { bits: ZERO }).le(fraction(s)),
        fraction(s).le(Num { bits: ONE }),
{
    reveal(Num::over_of);
    reveal(Num::of_int);
    lemma_one();
    let d = pow2(UNIT as nat) as int;
    let m = RANDOM_MAX as int;
    let a = Num::of_int(s as int);
    // Both numbers are exact, and the larger one is worth 2^32 - 1.
    assert(units(m) == 0xffff_ffff * d) by {
        lemma_pow2_pos(21);
        lemma2_to64();
        lemma_pow2_adds(21, 1053);
        assert(m / STEP as int == 0x41e && m % STEP as int == 0xf_ffff_ffe0_0000);
        assert(STEP + m % STEP as int == 0xffff_ffff * 0x20_0000);
        assert(pow2(21) == 0x20_0000);
        assert((0xffff_ffff * 0x20_0000) * pow2(1053) == 0xffff_ffff * (0x20_0000 * pow2(1053)))
            by (nonlinear_arith);
    }
    lemma_rounded(s * d, 1);
    assert(s * d * 1 <= 0xffff_ffff * d * 1) by (nonlinear_arith)
        requires
            s <= 0xffff_ffff,
            d > 0,
    ;
    rounding_is_monotone(s * d, 1, 0xffff_ffff * d, 1);
    rounding_keeps_doubles(m, 1);
    assert(a.mag() <= m);
    lemma_units_mono(0, a.mag());
    lemma_units_mono(a.mag(), m);
    let u = units(a.mag());
    let w = units(m);
    assert(w > 0) by (nonlinear_arith)
        requires
            w == 0xffff_ffff * d,
            d > 0,
    ;
    assert((u * d) * w <= (w * d) * w) by (nonlinear_arith)
        requires
            u <= w,
            d > 0,
            w > 0,
    ;
    rounding_is_monotone(u * d, w, w * d, w);
    assert(units(ONE as int) * w == w * d) by (nonlinear_arith)
        requires
            units(ONE as int) == d,
    ;
    rounding_keeps_doubles(ONE as int, w);
    lemma_rounded(u * d, w);
}

/// A request that is dropped is dropped between 10 and 500 milliseconds after its start.
pub proof fn drop_delay_is_bounded(s: u32)
    ensures
        10 <= drop_delay(s) <= 500,
{
    let f = fraction(s);
    let x = Num { bits: DELAY_RANGE };
    random_is_a_fraction(s);
    scaling_down(x, f);
    arithmetic_commutes(f, x);
    reveal(Num::whole);
    let d = pow2(UNIT as nat) as int;
    lemma_pow2_pos(UNIT as nat);
    let m = DELAY_RANGE as int;
    assert(units(m) == 490 * d) by {
        lemma2_to64();
        lemma_pow2_adds(44, 1030);
        assert(m / STEP as int == 0x407 && m % STEP as int == 0xe_a000_0000_0000);
        assert(STEP + m % STEP as int == 490 * 0x1000_0000_0000);
        assert(pow2(44) == 0x1000_0000_0000) by {
            lemma2_to64_rest();
        }
        assert((490 * 0x1000_0000_0000) * pow2(1030) == 490 * (0x1000_0000_0000 * pow2(1030)))
            by (nonlinear_arith);
    }
    let p = f.times_of(x);
    lemma_units_mono(0, p.mag());
    if p.mag() <= m {
        lemma_units_mono(p.mag(), m);
        assert(units(p.mag()) / d <= 490) by (nonlinear_arith)
            requires
                units(p.mag()) <= 490 * d,
                d > 0,
        ;
    }
}

/// A larger random number is a larger fraction and a longer delay. The least one drops a request
/// after ten milliseconds, and a fraction is the share of the largest number.
pub proof fn delay_grows_with_the_random_number(a: u32, b: u32)
    requires
        a <= b,
    ensures
        fraction(a).le(fraction(b)),
        drop_delay(a) <= drop_delay(b),
        drop_delay(0) == 10,
        near(
            fraction(a),
            (a * pow2(UNIT as nat)) * pow2(UNIT as nat),
            0xffff_ffff * pow2(UNIT as nat) as int,
            pow2(UNIT as nat) as int,
        ),
{
    let u = pow2(UNIT as nat) as int;
    let zero = Num { bits: ZERO };
    let most = Num { bits: RANDOM_MAX };
    let range = Num { bits: DELAY_RANGE };
    lemma_one();
    lemma_room();
    lemma2_to64();
    lemma2_to64_rest();
    literal_is_decimal(most, 0x1f_ffff_ffe0_0000, 1053, 0x20_0000, 0xffff_ffff, 1);
    literal_is_decimal(range, 0x1e_a000_0000_0000, 1030, 0x1000_0000_0000, 490, 1);
    random_is_a_fraction(a);
    random_is_a_fraction(b);
    random_is_a_fraction(0);
    let x = whole(a as int);
    let y = whole(b as int);
    let z = whole(0);
    assert(x.value() <= y.value() && 0 <= x.value() <= 0xffff_ffff * u) by (nonlinear_arith)
        requires
            x.value() == a * u,
            y.value() == b * u,
            a <= b,
            a <= 0xffff_ffff,
            u > 0,
    ;
    lemma_value_order(x, y);
    lemma_value_order(zero, x);
    lemma_value_order(zero, zero);
    quotients_keep_order(x, y, most);
    assert(-((0xffff_ffff * u) * u) <= x.value() * u <= (0xffff_ffff * u) * u) by (nonlinear_arith)
        requires
            0 <= x.value() <= 0xffff_ffff * u,
            u > 0,
    ;
    quotient_is_near(x, most, u);
    let (fa, fb, fz) = (fraction(a), fraction(b), fraction(0));
    lemma_value_order(fa, Num { bits: ONE });
    lemma_value_order(fb, Num { bits: ONE });
    product_against(fa, range, zero);
    product_against(fb, range, zero);
    arithmetic_commutes(fa, range);
    arithmetic_commutes(fb, range);
    products_keep_order(range, fa, fb);
    let (p, q) = (fa.times_of(range), fb.times_of(range));
    lemma_whole_order(p, q, fa, fb, range);
    assert(z.value() * u == most.value() * 0) by (nonlinear_arith)
        requires
            z.value() == 0,
    ;
    quotient_is_exact(z, most, zero);
    nothing_times(range, fz);
    let none = fz.times_of(range);
    assert(none.truncated(u64::MAX - 10) == 0) by {
        reveal(Num::whole);
        lemma_value_order(none, none);
        assert(0int / u == 0) by (nonlinear_arith)
            requires
                u > 0,
        ;
    }
}

/// A larger number has no smaller a whole part.
proof fn lemma_whole_order(p: Num, q: Num, fa: Num, fb: Num, range: Num)
    requires
        (Num { bits: ZERO }).le(fa) && fa.le(fb) && fb.le(Num { bits: ONE }),
        range == (Num { bits: DELAY_RANGE }),
        p == fa.times_of(range),
        q == fb.times_of(range),
        p.le(q),
        (Num { bits: ZERO }).le(p),
    ensures
        p.truncated(u64::MAX - 10) <= q.truncated(u64::MAX - 10),
{
    reveal(Num::whole);
    let u = pow2(UNIT as nat) as int;
    lemma_one();
    scaling_down(range, fa);
    scaling_down(range, fb);
    arithmetic_commutes(fa, range);
    arithmetic_commutes(fb, range);
    lemma_value_order(p, q);
    lemma_value_order(Num { bits: ZERO }, p);
    lemma_value_order(q, q);
    let (x, y) = (units(p.mag()), units(q.mag()));
    if p.mag() <= q.mag() {
        lemma_units_mono(p.mag(), q.mag());
        vstd::arithmetic::div_mod::lemma_div_is_ordered(x, y, u);
    }
    vstd::arithmetic::div_mod::lemma_div_pos_is_pos(y, u);
    vstd::arithmetic::div_mod::lemma_div_pos_is_pos(x, u);
}

} // verus!
