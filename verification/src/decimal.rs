//! Numbers written with a fixed number of decimal places.

use vstd::arithmetic::power2::*;
use vstd::prelude::*;
use vstd::string::*;

use crate::num::{Num, UNIT};
use crate::rounding::{units, INFINITE, STEP};
use crate::text::{decimal, decimal_reads_back, digit, digits_only, read_digits};

verus! {

/// A power of ten.
pub open spec fn ten(p: nat) -> nat
    decreases p,
{
    if p == 0 {
        1
    } else {
        10 * ten((p - 1) as nat)
    }
}

/// The whole number nearest to `n / d`; of two that are equally near, the even one.
pub open spec fn half_even(n: int, d: int) -> int {
    let q = n / d;
    let r = n % d;
    if 2 * r > d || (2 * r == d && q % 2 == 1) {
        q + 1
    } else {
        q
    }
}

/// A number written with leading zeros.
pub open spec fn zero_padded(n: nat, width: nat) -> Seq<char>
    decreases width,
{
    if width == 0 {
        Seq::empty()
    } else {
        zero_padded(n / 10, (width - 1) as nat).push(digit((n % 10) as int))
    }
}

/// A count of `1 / ten(places)` written as a decimal fraction.
pub open spec fn fraction_text(q: nat, places: nat) -> Seq<char> {
    if places == 0 {
        decimal(q)
    } else {
        decimal(q / ten(places)) + seq!['.'] + zero_padded(q % ten(places), places)
    }
}

/// Text with spaces in front, so that it is at least so wide.
pub open spec fn right_aligned(s: Seq<char>, width: nat) -> Seq<char> {
    if s.len() >= width {
        s
    } else {
        Seq::new((width - s.len()) as nat, |i: int| ' ') + s
    }
}

impl Num {
    /// The magnitude in steps of `1 / ten(places)`, rounded to the nearest, ties to even.
    #[verifier::opaque]
    pub open spec fn steps_of(self, places: nat) -> int {
        half_even(units(self.mag()) * ten(places), pow2(UNIT as nat) as int)
    }

    /// The number with a fixed number of decimal places.
    pub open spec fn fixed(self, places: nat) -> Seq<char> {
        if self.nan() {
            "NaN"@
        } else {
            (if self.neg() {
                "-"@
            } else {
                ""@
            }) + (if self.inf() {
                "inf"@
            } else {
                fraction_text(self.steps_of(places) as nat, places)
            })
        }
    }
}

proof fn lemma_ten(p: nat)
    ensures
        ten(p) > 0,
        p <= 9 ==> ten(p) <= 1_000_000_000,
    decreases p,
{
    if p > 0 {
        lemma_ten((p - 1) as nat);
        if p <= 9 {
            reveal_with_fuel(ten, 11);
        }
    }
}

fn power_of_ten(p: u32) -> (r: u64)
    requires
        p <= 9,
    ensures
        r == ten(p as nat),
        0 < r <= 1_000_000_000,
{
    let mut r: u64 = 1;
    let mut i: u32 = 0;
    while i < p
        invariant
            i <= p,
            p <= 9,
            r == ten(i as nat),
            r <= 1_000_000_000,
        decreases p - i,
    {
        proof {
            lemma_ten((i + 1) as nat);
        }
        r = r * 10;
        i = i + 1;
    }
    proof {
        lemma_ten(p as nat);
    }
    r
}

/// A number in decimal, lowest digit first.
pub open spec fn value(v: Seq<u8>) -> nat
    decreases v.len(),
{
    if v.len() == 0 {
        0
    } else {
        v[0] as nat + 10 * value(v.skip(1))
    }
}

pub open spec fn all_digits(v: Seq<u8>) -> bool {
    forall|i: int| 0 <= i < v.len() ==> #[trigger] v[i] < 10
}

/// The digits from place `i` on, with a carry added at that place.
spec fn carried(v: Seq<u8>, i: int, carry: nat) -> nat {
    2 * value(v.skip(i)) + carry
}

proof fn lemma_value_at(v: Seq<u8>, i: int)
    requires
        0 <= i < v.len(),
    ensures
        value(v.skip(i)) == v[i] + 10 * value(v.skip(i + 1)),
{
    assert(v.skip(i).skip(1) =~= v.skip(i + 1));
}

proof fn lemma_value_small(d: u8)
    ensures
        value(Seq::<u8>::empty()) == 0,
        value(seq![d]) == d,
        ten(0) == 1,
        ten(1) == 10,
{
    reveal_with_fuel(value, 3);
    reveal_with_fuel(ten, 3);
    assert(seq![d].skip(1) =~= Seq::<u8>::empty());
}

/// The value of a front part followed by the value of the rest.
proof fn lemma_value_split(a: Seq<u8>, b: Seq<u8>)
    ensures
        value(a + b) == value(a) + ten(a.len()) * value(b),
    decreases a.len(),
{
    lemma_value_small(0);
    if a.len() == 0 {
        assert(a + b =~= b);
        assert(a =~= Seq::<u8>::empty());
        assert(ten(0) * value(b) == value(b)) by (nonlinear_arith)
            requires
                ten(0) == 1,
        ;
    } else {
        assert((a + b).skip(1) =~= a.skip(1) + b);
        lemma_value_split(a.skip(1), b);
        let t = ten((a.len() - 1) as nat);
        assert(ten(a.len()) == 10 * t);
        assert(a.skip(1).len() == a.len() - 1);
        assert(10 * (t * value(b)) == (10 * t) * value(b)) by (nonlinear_arith);
    }
}

/// Doubles a number in decimal.
fn double(v: &mut Vec<u8>)
    requires
        all_digits(old(v)@),
        old(v).len() > 0,
        old(v)@.last() > 0,
    ensures
        all_digits(final(v)@),
        final(v).len() > 0,
        final(v)@.last() > 0,
        value(final(v)@) == 2 * value(old(v)@),
{
    let ghost before = v@;
    let mut carry: u8 = 0;
    let mut i: usize = 0;
    assert(v@.take(0) + before.skip(0) =~= before);
    proof {
        assert(before.skip(0) =~= before);
        assert(v@.take(0) =~= Seq::<u8>::empty());
        lemma_value_small(0);
        let x = carried(before, 0, 0);
        assert(ten(0) * x == x) by (nonlinear_arith)
            requires
                ten(0) == 1,
        ;
    }
    while i < v.len()
        invariant
            i <= v.len(),
            v.len() == before.len(),
            before.len() > 0,
            before.last() > 0,
            all_digits(before),
            carry <= 1,
            i == 0 ==> carry == 0,
            forall|j: int| 0 <= j < i ==> #[trigger] v@[j] < 10,
            forall|j: int| i <= j < before.len() ==> #[trigger] v@[j] == before[j],
            value(v@.take(i as int)) + ten(i as nat) * carried(before, i as int, carry as nat) == 2
                * value(before),
            i == before.len() ==> carry == 1 || v@.last() > 0,
        decreases v.len() - i,
    {
        let ghost prior = v@;
        assert(v@[i as int] == before[i as int]);
        let d: u8 = v[i] * 2 + carry;
        let low: u8 = d % 10;
        let up: u8 = d / 10;
        proof {
            let t = ten(i as nat);
            lemma_value_at(before, i as int);
            let rest = value(before.skip(i + 1));
            lemma_value_split(prior.take(i as int), seq![low]);
            lemma_value_small(low);
            assert(ten((i + 1) as nat) == 10 * t);
            assert(t * (2 * (before[i as int] + 10 * rest) + carry) == t * low + (10 * t) * (2
                * rest + up)) by (nonlinear_arith)
                requires
                    2 * before[i as int] + carry == low + 10 * up,
            ;
        }
        v.set(i, low);
        carry = up;
        proof {
            assert(v@.take(i + 1) =~= prior.take(i as int) + seq![low]);
        }
        i = i + 1;
    }
    proof {
        assert(v@.take(v.len() as int) =~= v@);
        assert(before.skip(before.len() as int) =~= Seq::<u8>::empty());
        lemma_value_small(0);
        let t = ten(before.len());
        assert(t * 0 == 0 && t * 1 == t) by (nonlinear_arith);
    }
    if carry > 0 {
        let ghost low = v@;
        v.push(1);
        proof {
            assert(v@ =~= low + seq![1u8]);
            lemma_value_split(low, seq![1u8]);
            lemma_value_small(1);
            assert(ten(low.len()) * 1 == ten(low.len())) by (nonlinear_arith);
        }
    }
}

proof fn lemma_value_grows(v: Seq<u8>)
    requires
        v.len() > 0,
        v.last() > 0,
    ensures
        value(v) > 0,
        v.len() > 1 ==> value(v) >= 10,
    decreases v.len(),
{
    if v.len() > 1 {
        assert(v.skip(1).last() == v.last());
        lemma_value_grows(v.skip(1));
    } else {
        assert(v.skip(1) =~= Seq::<u8>::empty());
    }
}

/// Appends a number in decimal.
fn push_digits(out: &mut String, v: &Vec<u8>)
    requires
        all_digits(v@),
        v.len() > 0,
        v@.last() > 0,
    ensures
        final(out)@ == old(out)@ + decimal(value(v@)),
{
    let ghost start = out@;
    let mut i: usize = v.len();
    while i > 0
        invariant
            0 <= i <= v.len(),
            all_digits(v@),
            v.len() > 0,
            v@.last() > 0,
            i == v.len() ==> out@ == start,
            i < v.len() ==> out@ == start + decimal(value(v@.skip(i as int))),
        decreases i,
    {
        i = i - 1;
        let ghost before = out@;
        out.push((48 + v[i]) as char);
        proof {
            let rest = v@.skip(i + 1);
            let n = value(v@.skip(i as int));
            lemma_value_at(v@, i as int);
            if i + 1 < v.len() {
                assert(rest.last() == v@.last());
                lemma_value_grows(rest);
                assert(n / 10 == value(rest) && n % 10 == v@[i as int]);
                assert(out@ =~= start + decimal(n));
            } else {
                assert(rest =~= Seq::<u8>::empty());
                assert(out@ =~= start + decimal(n));
            }
        }
    }
    proof {
        assert(v@.skip(0) =~= v@);
    }
}

/// Appends a number with leading zeros.
pub fn push_zero_padded(out: &mut String, n: u64, width: u32)
    ensures
        final(out)@ == old(out)@ + zero_padded(n as nat, width as nat),
    decreases width,
{
    if width > 0 {
        push_zero_padded(out, n / 10, width - 1);
        let d: u8 = (n % 10) as u8;
        out.push((48 + d) as char);
        assert(out@ =~= old(out)@ + zero_padded(n as nat, width as nat));
    } else {
        assert(out@ =~= old(out)@ + zero_padded(n as nat, width as nat));
    }
}

/// The digits of a number, lowest first; none for zero.
fn digits_of(n: u128) -> (r: Vec<u8>)
    ensures
        all_digits(r@),
        value(r@) == n,
        n > 0 ==> r.len() > 0 && r@.last() > 0,
{
    let mut out: Vec<u8> = Vec::new();
    let mut left: u128 = n;
    proof {
        lemma_value_small(0);
        assert(out@ =~= Seq::<u8>::empty());
        assert(ten(0) * n == n) by (nonlinear_arith)
            requires
                ten(0) == 1,
        ;
    }
    while left > 0
        invariant
            all_digits(out@),
            value(out@) + ten(out@.len()) * left == n,
            left == 0 && n > 0 ==> out.len() > 0 && out@.last() > 0,
        decreases left,
    {
        let ghost before = out@;
        let d: u8 = (left % 10) as u8;
        proof {
            let t = ten(before.len());
            lemma_value_split(before, seq![d]);
            lemma_value_small(d);
            assert(t * left == t * d + (10 * t) * (left / 10)) by (nonlinear_arith)
                requires
                    left == d + 10 * (left / 10),
            ;
        }
        out.push(d);
        assert(out@ =~= before + seq![d]);
        left = left / 10;
    }
    proof {
        assert(ten(out@.len()) * 0 == 0);
    }
    out
}

/// Scaling numerator and denominator does not change where a fraction rounds to.
proof fn lemma_half_even_scaled(n: int, d: int, c: int)
    requires
        n >= 0,
        d > 0,
        c > 0,
    ensures
        half_even(c * n, c * d) == half_even(n, d),
{
    vstd::arithmetic::div_mod::lemma_fundamental_div_mod(n, d);
    let q = n / d;
    let r = n % d;
    assert(0 <= r < d);
    assert(c * n == (c * d) * q + c * r && 0 <= c * r < c * d) by (nonlinear_arith)
        requires
            n == d * q + r,
            0 <= r < d,
            c > 0,
    ;
    assert(c * d > 0) by (nonlinear_arith)
        requires
            c > 0,
            d > 0,
    ;
    vstd::arithmetic::div_mod::lemma_fundamental_div_mod_converse(c * n, c * d, q, c * r);
    assert((2 * (c * r) > c * d) == (2 * r > d)) by (nonlinear_arith)
        requires
            c > 0,
    ;
    assert((2 * (c * r) == c * d) == (2 * r == d)) by (nonlinear_arith)
        requires
            c > 0,
    ;
}

/// A whole number stays itself.
proof fn lemma_half_even_whole(w: int, d: int)
    requires
        w >= 0,
        d > 0,
    ensures
        half_even(w * d, d) == w,
{
    vstd::arithmetic::div_mod::lemma_fundamental_div_mod_converse(w * d, d, w, 0);
}

/// The steps of a finite magnitude where they fit into 128 bits; otherwise the significand and the
/// power of two by which to multiply it.
enum Steps {
    Small(u128),
    Large(u64, u32),
}

fn count_steps(x: Num, places: u32) -> (r: Steps)
    requires
        places <= 9,
        !x.nan(),
        !x.inf(),
    ensures
        match r {
            Steps::Small(q) => q == x.steps_of(places as nat),
            Steps::Large(s, by) => s >= STEP && x.steps_of(places as nat) == s * pow2(by as nat) * ten(
                places as nat,
            ),
        },
{
    let (s, k) = x.parts();
    let t10: u64 = power_of_ten(places);
    let ghost d = pow2(UNIT as nat) as int;
    let ghost n = s * t10;
    proof {
        reveal(Num::steps_of);
        lemma_pow2_pos(UNIT as nat);
        lemma_pow2_pos(k as nat);
        assert(n >= 0) by (nonlinear_arith)
            requires
                n == s * t10,
        ;
    }
    if k >= UNIT {
        let by: u32 = (k - UNIT) as u32;
        proof {
            lemma_pow2_pos(by as nat);
            vstd::arithmetic::power2::lemma_pow2_adds(by as nat, UNIT as nat);
            let w = s * pow2(by as nat) * t10;
            assert(units(x.mag()) * t10 == w * d) by (nonlinear_arith)
                requires
                    units(x.mag()) == s * pow2(k as nat),
                    pow2(k as nat) == pow2(by as nat) * d,
                    w == s * pow2(by as nat) * t10,
            ;
            assert(w >= 0) by (nonlinear_arith)
                requires
                    w == s * pow2(by as nat) * t10,
            ;
            lemma_half_even_whole(w, d);
        }
        return Steps::Large(s, by);
    }
    let t: u32 = (UNIT - k) as u32;
    proof {
        lemma_pow2_pos(t as nat);
        vstd::arithmetic::power2::lemma_pow2_adds(k as nat, t as nat);
        let c = pow2(k as nat) as int;
        assert(units(x.mag()) * t10 == c * n) by (nonlinear_arith)
            requires
                units(x.mag()) == s * c,
                n == s * t10,
        ;
        lemma_half_even_scaled(n, pow2(t as nat) as int, c);
        assert(n < 0x20_0000_0000_0000 * 0x4000_0000) by (nonlinear_arith)
            requires
                n == s * t10,
                s < 0x20_0000_0000_0000,
                t10 <= 1_000_000_000,
        ;
    }
    if t >= 120 {
        proof {
            if t > 120 {
                lemma_pow2_strictly_increases(120, t as nat);
            }
            lemma2_to64();
            lemma2_to64_rest();
            vstd::arithmetic::power2::lemma_pow2_adds(60, 60);
            assert(pow2(60) == 0x1000_0000_0000_0000);
            vstd::arithmetic::div_mod::lemma_fundamental_div_mod_converse(
                n,
                pow2(t as nat) as int,
                0,
                n,
            );
        }
        return Steps::Small(0);
    }
    let mut p: u128 = 1;
    let mut i: u32 = 0;
    proof {
        lemma2_to64();
        lemma2_to64_rest();
        vstd::arithmetic::power2::lemma_pow2_adds(60, 60);
    }
    while i < t
        invariant
            i <= t,
            t < 120,
            p == pow2(i as nat),
            pow2(120) == 0x100_0000_0000_0000_0000_0000_0000_0000,
        decreases t - i,
    {
        proof {
            lemma_pow2_unfold((i + 1) as nat);
            lemma_pow2_strictly_increases(i as nat, 120);
            if i + 1 < 120 {
                lemma_pow2_strictly_increases((i + 1) as nat, 120);
            }
        }
        p = p * 2;
        i = i + 1;
    }
    proof {
        if t < 120 {
            lemma_pow2_strictly_increases(t as nat, 120);
        }
    }
    let whole: u128 = s as u128 * t10 as u128;
    let q: u128 = whole / p;
    let r: u128 = whole % p;
    if 2 * r > p || (2 * r == p && q % 2 == 1) {
        proof {
            assert(q <= whole) by (nonlinear_arith)
                requires
                    q == whole as int / p as int,
                    p >= 1,
                    whole >= 0,
            ;
        }
        Steps::Small(q + 1)
    } else {
        Steps::Small(q)
    }
}

/// The number with up to nine decimal places.
pub fn fixed_text(x: Num, places: u32) -> (r: String)
    requires
        places <= 9,
    ensures
        r@ == x.fixed(places as nat),
{
    if x.is_nan() {
        return "NaN".to_owned();
    }
    let mut out: String = if x.is_negative() {
        "-".to_owned()
    } else {
        "".to_owned()
    };
    if x.abs().bits == INFINITE {
        out.push_str("inf");
        return out;
    }
    let t10: u64 = power_of_ten(places);
    let ghost start = out@;
    match count_steps(x, places) {
        Steps::Small(q) => {
            let w: u128 = q / t10 as u128;
            let f: u64 = (q % t10 as u128) as u64;
            let digits: Vec<u8> = digits_of(w);
            if w == 0 {
                out.push('0');
                proof {
                    assert(decimal(0) == seq![digit(0)]);
                    assert(out@ =~= start + decimal(0));
                }
            } else {
                push_digits(&mut out, &digits);
            }
            assert(out@ == start + decimal(w as nat));
            if places > 0 {
                out.push('.');
                push_zero_padded(&mut out, f, places);
                assert(out@ =~= start + fraction_text(q as nat, places as nat));
            } else {
                proof {
                    lemma_value_small(0);
                    assert(t10 == 1);
                    assert(w == q) by (nonlinear_arith)
                        requires
                            w == q as int / t10 as int,
                            t10 == 1,
                    ;
                }
            }
            assert(out@ == start + fraction_text(x.steps_of(places as nat) as nat, places as nat));
        },
        Steps::Large(s, by) => {
            let mut digits: Vec<u8> = digits_of(s as u128);
            let mut i: u32 = 0;
            proof {
                lemma2_to64();
                assert(s * 1 == s);
            }
            while i < by
                invariant
                    i <= by,
                    all_digits(digits@),
                    digits.len() > 0,
                    digits@.last() > 0,
                    value(digits@) == s * pow2(i as nat),
                decreases by - i,
            {
                double(&mut digits);
                proof {
                    lemma_pow2_unfold((i + 1) as nat);
                    assert(2 * (s * pow2(i as nat)) == s * (2 * pow2(i as nat))) by (nonlinear_arith);
                }
                i = i + 1;
            }
            push_digits(&mut out, &digits);
            let ghost w = s * pow2(by as nat);
            proof {
                let q = w * ten(places as nat);
                assert(w >= 0);
                vstd::arithmetic::div_mod::lemma_fundamental_div_mod_converse(
                    q,
                    ten(places as nat) as int,
                    w,
                    0,
                );
            }
            if places > 0 {
                out.push('.');
                push_zero_padded(&mut out, 0, places);
                assert(out@ =~= start + fraction_text(
                    (w * ten(places as nat)) as nat,
                    places as nat,
                ));
            } else {
                proof {
                    lemma_value_small(0);
                    assert(w * ten(0) == w) by (nonlinear_arith)
                        requires
                            ten(0) == 1,
                    ;
                }
            }
            assert(out@ == start + fraction_text(x.steps_of(places as nat) as nat, places as nat));
        },
    }
    out
}

/// Text with spaces in front, so that it is at least so wide.
pub fn aligned(s: &str, width: usize) -> (r: String)
    ensures
        r@ == right_aligned(s@, width as nat),
{
    let n: usize = s.unicode_len();
    let mut out: String = String::new();
    if n < width {
        let missing: usize = width - n;
        let mut i: usize = 0;
        while i < missing
            invariant
                i <= missing,
                out@ == Seq::new(i as nat, |j: int| ' '),
            decreases missing - i,
        {
            out.push(' ');
            i = i + 1;
            assert(out@ =~= Seq::new(i as nat, |j: int| ' '));
        }
    }
    let ghost pad = out@;
    out.push_str(s);
    proof {
        if s@.len() >= width {
            assert(out@ =~= s@);
        }
    }
    out
}

/// A number of seconds in nanoseconds, rounded to the nearest, ties to even; at least zero, and cut
/// off at the largest 64-bit number.
pub open spec fn nanos_of(secs: Num) -> int {
    if secs.nan() || secs.neg() {
        0
    } else if secs.inf() || secs.steps_of(9) > u64::MAX {
        u64::MAX as int
    } else {
        secs.steps_of(9)
    }
}

/// Converts seconds to nanoseconds.
pub fn seconds_to_nanos(secs: Num) -> (r: u64)
    ensures
        r == nanos_of(secs),
{
    if secs.is_nan() || secs.is_negative() {
        return 0;
    }
    if secs.bits == INFINITE {
        return u64::MAX;
    }
    match count_steps(secs, 9) {
        Steps::Small(q) => {
            if q > u64::MAX as u128 {
                u64::MAX
            } else {
                q as u64
            }
        },
        Steps::Large(s, by) => {
            proof {
                lemma_pow2_pos(by as nat);
                reveal_with_fuel(ten, 11);
                assert(ten(9) == 1_000_000_000);
                assert(s * pow2(by as nat) * 1_000_000_000 > u64::MAX) by (nonlinear_arith)
                    requires
                        s >= 0x10_0000_0000_0000,
                        pow2(by as nat) >= 1,
                ;
            }
            u64::MAX
        },
    }
}

/// A number with leading zeros is as wide as asked for and reads back as itself, as far as it
/// fits.
pub proof fn padded_number_reads_back(n: nat, width: nat)
    ensures
        zero_padded(n, width).len() == width,
        digits_only(zero_padded(n, width)),
        n < ten(width) ==> read_digits(zero_padded(n, width)) == n,
    decreases width,
{
    if width > 0 {
        let w = (width - 1) as nat;
        let z = zero_padded(n, width);
        let shorter = zero_padded(n / 10, w);
        padded_number_reads_back(n / 10, w);
        assert(z.drop_last() =~= shorter);
        assert(z.last() == digit((n % 10) as int));
        assert forall|i: int| 0 <= i < z.len() implies '0' <= #[trigger] z[i] <= '9' by {
            if i < shorter.len() {
                assert(z[i] == shorter[i]);
            }
        }
    }
}

/// Rounding goes to the nearest whole number, and to the even one of two that are equally near.
pub proof fn half_even_is_nearest(n: int, d: int)
    requires
        n >= 0,
        d > 0,
    ensures
        2 * (d * half_even(n, d) - n) <= d,
        2 * (n - d * half_even(n, d)) <= d,
        2 * (d * half_even(n, d) - n) == d || 2 * (n - d * half_even(n, d)) == d ==> half_even(n, d)
            % 2 == 0,
        half_even(n, d) >= 0,
{
    vstd::arithmetic::div_mod::lemma_fundamental_div_mod(n, d);
    vstd::arithmetic::div_mod::lemma_mod_bound(n, d);
    vstd::arithmetic::div_mod::lemma_div_pos_is_pos(n, d);
    let q = n / d;
    assert(d * (q + 1) == d * q + d) by (nonlinear_arith);
}

/// A number is shown with the given decimal places, rounded to the nearest: the digits read back
/// as the nearest count of steps, with the point in front of the last places.
pub proof fn fixed_text_is_nearest(x: Num, places: nat)
    requires
        !x.nan() && !x.inf(),
        1 <= places <= 9,
    ensures
        ({
            let t = x.fixed(places);
            let u = pow2(UNIT as nat) as int;
            let sign = if x.neg() {
                "-"@
            } else {
                ""@
            };
            exists|front: Seq<char>, back: Seq<char>|
                {
                    let q = read_digits(front) * ten(places) + read_digits(back);
                    &&& t == sign + (#[trigger] (front + seq!['.'] + back))
                    &&& digits_only(front) && digits_only(back) && front.len() >= 1 && back.len()
                        == places
                    &&& 2 * (u * q - units(x.mag()) * ten(places)) <= u
                    &&& 2 * (units(x.mag()) * ten(places) - u * q) <= u
                }
        }),
{
    let u = pow2(UNIT as nat) as int;
    lemma_pow2_pos(UNIT as nat);
    lemma_ten(places);
    crate::rounding::lemma_units_mono(0, x.mag());
    let n = units(x.mag()) * ten(places);
    assert(n >= 0) by (nonlinear_arith)
        requires
            n == units(x.mag()) * ten(places),
            units(x.mag()) >= 0,
    ;
    assert(x.steps_of(places) == half_even(n, u)) by {
        reveal(Num::steps_of);
    }
    half_even_is_nearest(n, u);
    let q = x.steps_of(places) as nat;
    let t = ten(places);
    vstd::arithmetic::div_mod::lemma_fundamental_div_mod(q as int, t as int);
    vstd::arithmetic::div_mod::lemma_mod_bound(q as int, t as int);
    let front = decimal(q / t);
    let back = zero_padded(q % t, places);
    decimal_reads_back(q / t);
    padded_number_reads_back(q % t, places);
    assert((q / t) * t == t * (q / t)) by (nonlinear_arith);
    assert(read_digits(front) * ten(places) + read_digits(back) == q);
    assert(fraction_text(q, places) == front + seq!['.'] + back);
}

/// A text is aligned by spaces in front, and is left alone where it is wide enough.
pub proof fn alignment_adds_spaces(s: Seq<char>, width: nat)
    ensures
        ({
            let a = right_aligned(s, width);
            &&& a.len() == if s.len() >= width {
                s.len()
            } else {
                width
            }
            &&& a.subrange(a.len() - s.len(), a.len() as int) == s
            &&& forall|i: int| 0 <= i < a.len() - s.len() ==> #[trigger] a[i] == ' '
        }),
{
    let a = right_aligned(s, width);
    assert(a.subrange(a.len() - s.len(), a.len() as int) =~= s);
}

/// Seconds are converted to the nearest nanosecond.
pub proof fn nanoseconds_are_nearest(secs: Num)
    requires
        (Num { bits: crate::num::ZERO }).le(secs) && !secs.inf() && !secs.neg(),
        nanos_of(secs) < u64::MAX,
    ensures
        2 * (pow2(UNIT as nat) * nanos_of(secs) - 1_000_000_000 * secs.value()) <= pow2(
            UNIT as nat,
        ),
        2 * (1_000_000_000 * secs.value() - pow2(UNIT as nat) * nanos_of(secs)) <= pow2(
            UNIT as nat,
        ),
{
    reveal(Num::steps_of);
    reveal_with_fuel(ten, 11);
    assert(ten(9) == 1_000_000_000);
    lemma_pow2_pos(UNIT as nat);
    crate::rounding::lemma_units_mono(0, secs.mag());
    half_even_is_nearest(units(secs.mag()) * 1_000_000_000, pow2(UNIT as nat) as int);
}

} // verus!
