//! Per-signal smoothing strategies.
//!
//! Smoothing belongs to the signal, not to the controller that reads it: tail latencies are prone
//! to outliers and take a median, error rates take a moving average.

use vstd::arithmetic::power2::*;
use vstd::prelude::*;

use crate::num::{
    largest, lemma_complement, lemma_landing, lemma_one, lemma_plus_key, lemma_representable,
    lemma_rounded_key_order, lemma_times_key, lemma_value_order, Num, ONE, UNIT, ZERO,
};
use crate::order::near;
use crate::rounding::{
    lemma_rounded, lemma_units_mono, lemma_units_packed, lemma_unpack, rounded,
    rounding_is_monotone, rounding_keeps_doubles, units, INFINITE, STEP,
};

verus! {

/// A sorted sequence with one more value, behind those it does not precede.
pub open spec fn with_inserted(s: Seq<Num>, x: Num) -> Seq<Num>
    decreases s.len(),
{
    if s.len() > 0 && x.lt(s.last()) {
        with_inserted(s.drop_last(), x).push(s.last())
    } else {
        s.push(x)
    }
}

/// The values in ascending order, equal ones in their original order.
pub open spec fn ascending(s: Seq<Num>) -> Seq<Num>
    decreases s.len(),
{
    if s.len() == 0 {
        s
    } else {
        with_inserted(ascending(s.drop_last()), s.last())
    }
}

/// The middle value; of an even number of values the upper one of the two in the middle.
pub open spec fn median_of(s: Seq<Num>) -> Num {
    ascending(s)[(s.len() / 2) as int]
}

pub open spec fn in_order(s: Seq<Num>) -> bool {
    forall|i: int, j: int| 0 <= i <= j < s.len() ==> s[i].key() <= s[j].key()
}

pub open spec fn no_nan(s: Seq<Num>) -> bool {
    forall|i: int| 0 <= i < s.len() ==> !(#[trigger] s[i]).nan()
}

proof fn lemma_inserted(s: Seq<Num>, x: Num)
    ensures
        with_inserted(s, x).len() == s.len() + 1,
        with_inserted(s, x).to_multiset() == s.to_multiset().insert(x),
        no_nan(s) && !x.nan() ==> no_nan(with_inserted(s, x)),
        no_nan(s) && !x.nan() && in_order(s) ==> in_order(with_inserted(s, x)),
        forall|i: int|
            0 <= i < s.len() + 1 ==> (#[trigger] with_inserted(s, x)[i]) == x || s.contains(
                with_inserted(s, x)[i],
            ),
    decreases s.len(),
{
    broadcast use vstd::seq_lib::group_to_multiset_ensures;

    if s.len() > 0 && x.lt(s.last()) {
        let d = s.drop_last();
        let w = with_inserted(d, x);
        lemma_inserted(d, x);
        assert(s =~= d.push(s.last()));
        assert(w.push(s.last()).to_multiset() =~= s.to_multiset().insert(x));
        assert forall|i: int| 0 <= i < s.len() + 1 implies (#[trigger] w.push(s.last())[i]) == x
            || s.contains(w.push(s.last())[i]) by {
            if i < w.len() {
                assert(w[i] == x || d.contains(w[i]));
                if d.contains(w[i]) {
                    let k = choose|k: int| 0 <= k < d.len() && d[k] == w[i];
                    assert(s[k] == w[i]);
                }
            } else {
                assert(s[s.len() - 1] == s.last());
            }
        }
        if no_nan(s) && !x.nan() && in_order(s) {
            assert(in_order(d));
            assert forall|i: int| 0 <= i < w.len() implies (#[trigger] w[i]).key()
                <= s.last().key() by {
                assert(w[i] == x || d.contains(w[i]));
                if d.contains(w[i]) {
                    let k = choose|k: int| 0 <= k < d.len() && d[k] == w[i];
                    assert(s[k].key() <= s[s.len() - 1].key());
                }
            }
        }
    } else {
        assert forall|i: int| 0 <= i < s.len() + 1 implies (#[trigger] s.push(x)[i]) == x
            || s.contains(s.push(x)[i]) by {
            if i < s.len() {
                assert(s[i] == s.push(x)[i]);
            }
        }
    }
}

/// Sorting keeps the values and puts them in order.
pub proof fn ascending_sorts(s: Seq<Num>)
    ensures
        ascending(s).len() == s.len(),
        ascending(s).to_multiset() == s.to_multiset(),
        no_nan(s) ==> in_order(ascending(s)) && no_nan(ascending(s)),
    decreases s.len(),
{
    broadcast use vstd::seq_lib::group_to_multiset_ensures;

    if s.len() > 0 {
        let d = s.drop_last();
        ascending_sorts(d);
        lemma_inserted(ascending(d), s.last());
        assert(s =~= d.push(s.last()));
    }
}

/// The median is one of the values, and lies between the smallest and the largest of them.
pub proof fn median_is_a_sample(s: Seq<Num>)
    requires
        s.len() > 0,
        no_nan(s),
    ensures
        s.contains(median_of(s)),
        forall|lo: Num, hi: Num|
            (forall|i: int| 0 <= i < s.len() ==> lo.le(#[trigger] s[i]) && s[i].le(hi))
                ==> lo.le(median_of(s)) && median_of(s).le(hi),
{
    broadcast use vstd::seq_lib::group_to_multiset_ensures;

    ascending_sorts(s);
    let m = median_of(s);
    assert(ascending(s)[(s.len() / 2) as int] == m);
    assert(ascending(s).contains(m));
    assert(ascending(s).to_multiset().count(m) > 0);
    assert(s.to_multiset().count(m) > 0);
    assert(s.contains(m));
    let k = choose|k: int| 0 <= k < s.len() && s[k] == m;
    assert forall|lo: Num, hi: Num|
        (forall|i: int| 0 <= i < s.len() ==> lo.le(#[trigger] s[i]) && s[i].le(hi)) implies lo.le(
        m,
    ) && m.le(hi) by {
        assert(lo.le(s[k]) && s[k].le(hi));
    }
}

proof fn lemma_insert_at(s: Seq<Num>, x: Num, p: int)
    requires
        0 <= p <= s.len(),
        forall|j: int| p <= j < s.len() ==> x.lt(#[trigger] s[j]),
        p > 0 ==> !x.lt(s[p - 1]),
    ensures
        with_inserted(s, x) == s.insert(p, x),
    decreases s.len(),
{
    if p == s.len() {
        assert(s.insert(p, x) =~= s.push(x));
    } else {
        let d = s.drop_last();
        assert(x.lt(s[s.len() - 1]));
        lemma_insert_at(d, x, p);
        assert(d.insert(p, x).push(s.last()) =~= s.insert(p, x));
    }
}

/// Sorts values in ascending order, keeping the order of equal ones.
pub fn sort_ascending(values: &Vec<Num>) -> (r: Vec<Num>)
    ensures
        r@ == ascending(values@),
        r.len() == values.len(),
{
    let mut out: Vec<Num> = Vec::new();
    let mut i: usize = 0;
    while i < values.len()
        invariant
            i <= values.len(),
            out@ == ascending(values@.take(i as int)),
            out.len() == i,
        decreases values.len() - i,
    {
        let x: Num = values[i];
        let mut p: usize = out.len();
        while p > 0 && x.is_lt(out[p - 1])
            invariant
                p <= out.len(),
                forall|j: int| p <= j < out.len() ==> x.lt(#[trigger] out@[j]),
            decreases p,
        {
            p = p - 1;
        }
        proof {
            lemma_insert_at(out@, x, p as int);
            assert(values@.take(i as int + 1).drop_last() =~= values@.take(i as int));
        }
        out.insert(p, x);
        i = i + 1;
    }
    proof {
        assert(values@.take(values.len() as int) =~= values@);
    }
    out
}

/// The median of at least one value.
pub fn median(values: &Vec<Num>) -> (r: Num)
    requires
        values.len() > 0,
    ensures
        r == median_of(values@),
{
    let sorted: Vec<Num> = sort_ascending(values);
    sorted[values.len() / 2]
}

/// Signal smoother.
pub enum Smoother {
    /// Passes raw values through.
    Raw { value: Num },
    /// Exponential moving average; a higher alpha responds faster.
    Ema { alpha: Num, value: Num, initialized: bool },
    /// Sliding-window median, robust against outliers. The size is in ticks.
    Median { window: Vec<Num>, size: usize, cached: Num },
}

/// What a smoother holds.
pub enum SmootherState {
    Raw { value: Num },
    Ema { alpha: Num, value: Num, initialized: bool },
    Median { window: Seq<Num>, size: usize, cached: Num },
}

impl View for Smoother {
    type V = SmootherState;

    open spec fn view(&self) -> SmootherState {
        match self {
            Smoother::Raw { value } => SmootherState::Raw { value: *value },
            Smoother::Ema { alpha, value, initialized } => SmootherState::Ema {
                alpha: *alpha,
                value: *value,
                initialized: *initialized,
            },
            Smoother::Median { window, size, cached } => SmootherState::Median {
                window: window@,
                size: *size,
                cached: *cached,
            },
        }
    }
}

/// The window after one more value: its last `size` values.
pub open spec fn slid(window: Seq<Num>, raw: Num, size: usize) -> Seq<Num> {
    let w = window.push(raw);
    if w.len() > size {
        w.skip(w.len() - size)
    } else {
        w
    }
}

impl SmootherState {
    /// A median window holds at most as many values as it should, and should hold at least one.
    pub open spec fn wf(self) -> bool {
        self matches SmootherState::Median { window, size, cached } ==> 1 <= size && window.len()
            <= size
    }

    /// The current smoothed value.
    pub open spec fn current(self) -> Num {
        match self {
            SmootherState::Raw { value } => value,
            SmootherState::Ema { alpha, value, initialized } => value,
            SmootherState::Median { window, size, cached } => cached,
        }
    }

    /// The state after one more raw value.
    pub open spec fn fed(self, raw: Num) -> SmootherState {
        match self {
            SmootherState::Raw { value } => SmootherState::Raw { value: raw },
            SmootherState::Ema { alpha, value, initialized } => SmootherState::Ema {
                alpha,
                value: if initialized {
                    alpha.times_of(raw).plus_of(
                        (Num { bits: ONE }).minus_of(alpha).times_of(value),
                    )
                } else {
                    raw
                },
                initialized: true,
            },
            SmootherState::Median { window, size, cached } => SmootherState::Median {
                window: slid(window, raw, size),
                size,
                cached: median_of(slid(window, raw, size)),
            },
        }
    }

    pub open spec fn cleared(self) -> SmootherState {
        match self {
            SmootherState::Raw { value } => SmootherState::Raw { value: Num { bits: ZERO } },
            SmootherState::Ema { alpha, value, initialized } => SmootherState::Ema {
                alpha,
                value: Num { bits: ZERO },
                initialized: false,
            },
            SmootherState::Median { window, size, cached } => SmootherState::Median {
                window: Seq::empty(),
                size,
                cached: Num { bits: ZERO },
            },
        }
    }
}

impl Smoother {
    pub fn none() -> (r: Smoother)
        ensures
            r@ == (SmootherState::Raw { value: Num { bits: ZERO } }),
            r@.wf(),
    {
        Smoother::Raw { value: Num { bits: ZERO } }
    }

    /// A moving average with the given responsiveness.
    pub fn ema(alpha: Num) -> (r: Smoother)
        ensures
            r@ == (SmootherState::Ema {
                alpha: alpha.clamp_of(Num { bits: ZERO }, Num { bits: ONE }),
                value: Num { bits: ZERO },
                initialized: false,
            }),
            r@.wf(),
    {
        Smoother::Ema {
            alpha: alpha.clamp(Num { bits: ZERO }, Num { bits: ONE }),
            value: Num { bits: ZERO },
            initialized: false,
        }
    }

    /// A sliding median over the given number of values, at least one.
    pub fn median(size: usize) -> (r: Smoother)
        ensures
            r@ == (SmootherState::Median {
                window: Seq::empty(),
                size: if size == 0 {
                    1
                } else {
                    size
                },
                cached: Num { bits: ZERO },
            }),
            r@.wf(),
    {
        Smoother::Median {
            window: Vec::new(),
            size: if size == 0 {
                1
            } else {
                size
            },
            cached: Num { bits: ZERO },
        }
    }

    /// Feeds a raw value and returns the smoothed value.
    pub fn smooth(&mut self, raw: Num) -> (r: Num)
        requires
            old(self)@.wf(),
        ensures
            final(self)@ == old(self)@.fed(raw),
            r == final(self)@.current(),
            final(self)@.wf(),
    {
        match self {
            Smoother::Raw { value } => {
                *value = raw;
                raw
            },
            Smoother::Ema { alpha, value, initialized } => {
                if !*initialized {
                    *value = raw;
                    *initialized = true;
                } else {
                    *value =
                    alpha.times(raw).plus((Num { bits: ONE }).minus(*alpha).times(*value));
                }
                *value
            },
            Smoother::Median { window, size, cached } => {
                let ghost before = window@;
                window.push(raw);
                if window.len() > *size {
                    let gone: Num = window.remove(0);
                    proof {
                        assert(before.push(raw).remove(0) =~= before.push(raw).skip(1));
                    }
                }
                *cached = crate::controller::smoothing::median(window);
                *cached
            },
        }
    }

    /// The current smoothed value.
    pub fn current(&self) -> (r: Num)
        ensures
            r == self@.current(),
    {
        match self {
            Smoother::Raw { value } => *value,
            Smoother::Ema { alpha, value, initialized } => *value,
            Smoother::Median { window, size, cached } => *cached,
        }
    }

    /// How many values it takes before the output is meaningful.
    pub fn min_samples(&self) -> (r: usize)
        ensures
            r == match self@ {
                SmootherState::Median { window, size, cached } => size,
                _ => 1,
            },
    {
        match self {
            Smoother::Raw { value } => 1,
            Smoother::Ema { alpha, value, initialized } => 1,
            Smoother::Median { window, size, cached } => *size,
        }
    }

    /// Returns to the initial state.
    pub fn reset(&mut self)
        requires
            old(self)@.wf(),
        ensures
            final(self)@ == old(self)@.cleared(),
            final(self)@.wf(),
    {
        match self {
            Smoother::Raw { value } => {
                *value = Num { bits: ZERO };
            },
            Smoother::Ema { alpha, value, initialized } => {
                *value = Num { bits: ZERO };
                *initialized = false;
            },
            Smoother::Median { window, size, cached } => {
                window.clear();
                *cached = Num { bits: ZERO };
            },
        }
    }
}

/// A fresh or freshly reset smoother answers its first value with that value.
pub proof fn first_value_passes(s: SmootherState, raw: Num)
    requires
        s.wf(),
    ensures
        s.cleared().fed(raw).current() == raw,
{
    match s {
        SmootherState::Median { window, size, cached } => {
            let w = slid(Seq::empty(), raw, size);
            assert(w =~= seq![raw]);
            assert(w.drop_last() =~= Seq::empty());
            assert(ascending(w.drop_last()) =~= Seq::empty());
            assert(ascending(w) == with_inserted(Seq::empty(), raw));
        },
        _ => {},
    }
}

/// A smoother after a row of values.
pub open spec fn fed_all(s: SmootherState, xs: Seq<Num>) -> SmootherState
    decreases xs.len(),
{
    if xs.len() == 0 {
        s
    } else {
        fed_all(s, xs.drop_last()).fed(xs.last())
    }
}

/// The last `k` values, or all where there are fewer.
pub open spec fn last_of(xs: Seq<Num>, k: usize) -> Seq<Num> {
    if xs.len() > k {
        xs.skip(xs.len() - k)
    } else {
        xs
    }
}

/// Without smoothing, the value is the last one that came in.
pub proof fn raw_value_is_the_last(value: Num, xs: Seq<Num>)
    requires
        xs.len() > 0,
    ensures
        fed_all(SmootherState::Raw { value }, xs).current() == xs.last(),
{
    lemma_raw(value, xs.drop_last());
}

proof fn lemma_raw(value: Num, xs: Seq<Num>)
    ensures
        fed_all(SmootherState::Raw { value }, xs) is Raw,
    decreases xs.len(),
{
    if xs.len() > 0 {
        lemma_raw(value, xs.drop_last());
    }
}

/// A sliding median is the median of the last values that came in, as many as it spans. It is one
/// of them, and lies between the smallest and the largest.
pub proof fn median_is_that_of_the_last(size: usize, cached: Num, xs: Seq<Num>)
    requires
        size >= 1,
        xs.len() > 0,
    ensures
        ({
            let m = fed_all(
                SmootherState::Median { window: Seq::empty(), size, cached },
                xs,
            ).current();
            &&& m == median_of(last_of(xs, size))
            &&& no_nan(xs) ==> last_of(xs, size).contains(m)
            &&& no_nan(xs) ==> forall|lo: Num, hi: Num|
                (forall|i: int| 0 <= i < xs.len() ==> lo.le(#[trigger] xs[i]) && xs[i].le(hi))
                    ==> lo.le(m) && m.le(hi)
        }),
{
    lemma_window(size, cached, xs);
    let w = last_of(xs, size);
    assert(w.len() > 0);
    if no_nan(xs) {
        assert forall|i: int| 0 <= i < w.len() implies !(#[trigger] w[i]).nan() by {
            assert(w[i] == xs[i + xs.len() - w.len()]);
        }
        median_is_a_sample(w);
        let m = median_of(w);
        assert forall|lo: Num, hi: Num|
            (forall|i: int| 0 <= i < xs.len() ==> lo.le(#[trigger] xs[i]) && xs[i].le(
                hi,
            )) implies lo.le(m) && m.le(hi) by {
            assert forall|i: int| 0 <= i < w.len() implies lo.le(#[trigger] w[i]) && w[i].le(
                hi,
            ) by {
                assert(w[i] == xs[i + xs.len() - w.len()]);
            }
        }
    }
}

proof fn lemma_window(size: usize, cached: Num, xs: Seq<Num>)
    requires
        size >= 1,
    ensures
        ({
            let after = fed_all(
                SmootherState::Median { window: Seq::empty(), size, cached },
                xs,
            );
            &&& after matches SmootherState::Median { window, size: z, cached: m }
            &&& window == last_of(xs, size)
            &&& z == size
            &&& xs.len() > 0 ==> m == median_of(window)
        }),
    decreases xs.len(),
{
    if xs.len() > 0 {
        let front = xs.drop_last();
        lemma_window(size, cached, front);
        let w = last_of(front, size);
        assert(slid(w, xs.last(), size) =~= last_of(xs, size));
    } else {
        assert(last_of(xs, size) =~= Seq::<Num>::empty());
    }
}

/// By how many units rounding may move one step of a moving average whose values stay within a
/// bound.
pub open spec fn rounding_slack(bound: int) -> int {
    bound / 0x2_0000_0000_0000 + 4
}

/// By how many units rounding may move a moving average in a row of steps, where no value that
/// comes in exceeds a bound.
pub open spec fn drift(bound: int, steps: int) -> int
    decreases steps,
{
    if steps <= 0 {
        0
    } else {
        drift(bound, steps - 1) + rounding_slack(bound + drift(bound, steps - 1))
    }
}

/// The larger of two sizes.
pub open spec fn reach(lo: int, hi: int) -> int {
    if -lo > hi {
        -lo
    } else {
        hi
    }
}

/// One step of a moving average: it lands between the new value and the old average, up to what
/// rounding moves it by.
proof fn lemma_average_step(alpha: Num, x: Num, v: Num, bound: int)
    requires
        (Num { bits: ZERO }).le(alpha),
        alpha.le(Num { bits: ONE }),
        !x.nan() && !x.inf() && !v.nan() && !v.inf(),
        -bound <= x.value() <= bound,
        -bound <= v.value() <= bound,
        0 <= bound <= largest(),
    ensures
        ({
            let r = alpha.times_of(x).plus_of((Num { bits: ONE }).minus_of(alpha).times_of(v));
            &&& !r.nan()
            &&& !r.inf()
            &&& r.value() <= (if x.value() <= v.value() {
                v.value()
            } else {
                x.value()
            }) + rounding_slack(bound)
            &&& r.value() >= (if x.value() <= v.value() {
                x.value()
            } else {
                v.value()
            }) - rounding_slack(bound)
        }),
{
    average_weighs_new_and_old(alpha, x, v, bound);
}

/// One step of a moving average: it weighs the new value by its factor and the old average by the
/// rest of 1, and lands between the two, up to what rounding moves it by.
pub proof fn average_weighs_new_and_old(alpha: Num, x: Num, v: Num, bound: int)
    requires
        (Num { bits: ZERO }).le(alpha),
        alpha.le(Num { bits: ONE }),
        !x.nan() && !x.inf() && !v.nan() && !v.inf(),
        -bound <= x.value() <= bound,
        -bound <= v.value() <= bound,
        0 <= bound <= largest(),
    ensures
        ({
            let r = alpha.times_of(x).plus_of((Num { bits: ONE }).minus_of(alpha).times_of(v));
            let u = pow2(UNIT as nat) as int;
            &&& near(r, alpha.value() * x.value() + (u - alpha.value()) * v.value(), u, bound)
            &&& r.value() <= (if x.value() <= v.value() {
                v.value()
            } else {
                x.value()
            }) + rounding_slack(bound)
            &&& r.value() >= (if x.value() <= v.value() {
                x.value()
            } else {
                v.value()
            }) - rounding_slack(bound)
        }),
{
    let one = Num { bits: ONE };
    let zero = Num { bits: ZERO };
    lemma_one();
    let u = pow2(UNIT as nat) as int;
    let a = alpha.value();
    lemma_value_order(zero, alpha);
    lemma_value_order(alpha, one);
    lemma_value_order(alpha, zero);
    assert(0 <= a <= u);
    assert(u >= 0x20_0000_0000_0000) by {
        lemma2_to64_rest();
        lemma_pow2_strictly_increases(53, UNIT as nat);
    }
    lemma_large();
    // The other weight.
    let rest = one.minus_of(alpha);
    lemma_plus_key(one, alpha.negate_of());
    assert(alpha.negate_of().value() == -a);
    let b = rest.value();
    lemma_landing(u - a, 1, rest, u);
    lemma_rounded_key_order(u - a, 1, u, 1);
    lemma_rounded_key_order(0, 1, u - a, 1);
    rounding_keeps_doubles(ONE as int, 1);
    rounding_keeps_doubles(0, 1);
    lemma_value_order(rest, one);
    lemma_value_order(zero, rest);
    assert(0 <= b <= u);
    // The two products.
    let p = alpha.times_of(x);
    let q = rest.times_of(v);
    lemma_times_key(alpha, x);
    lemma_times_key(rest, v);
    let xv = x.value();
    let vv = v.value();
    lemma_product_bound(a, xv, u, bound);
    lemma_product_bound(b, vv, u, bound);
    lemma_landing(a * xv, u, p, bound);
    lemma_landing(b * vv, u, q, bound);
    // Their sum.
    let r = p.plus_of(q);
    lemma_plus_key(p, q);
    let pv = p.value();
    let qv = q.value();
    // What rounding did, step by step.
    let c = 0x20_0000_0000_0000int;
    let e1 = u * pv - a * xv;
    let e2 = u * qv - b * vv;
    let e4 = b - (u - a);
    assert(-(u * (2 * bound + c)) <= c * e1 <= u * (2 * bound + c)) by {
        assert(c * (a * xv - u * pv) == -(c * e1)) by (nonlinear_arith)
            requires
                e1 == u * pv - a * xv,
        ;
    }
    assert(-(u * (2 * bound + c)) <= c * e2 <= u * (2 * bound + c)) by {
        assert(c * (b * vv - u * qv) == -(c * e2)) by (nonlinear_arith)
            requires
                e2 == u * qv - b * vv,
        ;
    }
    assert(-(2 * u + c) <= c * e4 <= 2 * u + c);
    lemma_average_is_finite(alpha, x, v);
    lemma_landing(pv + qv, 1, r, 4 * bound + 2);
    lemma_average_error(a, b, u, xv, vv, pv, qv, r.value(), bound);
}

/// A fraction of the largest double is never rounded up.
proof fn lemma_fraction_of_largest(f: Num)
    requires
        (Num { bits: ZERO }).le(f),
        f.le(Num { bits: ONE }),
    ensures
        pow2(UNIT as nat) * units(rounded(f.value() * largest(), pow2(UNIT as nat) as int))
            <= f.value() * largest(),
{
    let u = pow2(UNIT as nat) as int;
    let a = f.value();
    let top = largest();
    lemma_pow2_pos(UNIT as nat);
    lemma_value_order(f, f);
    lemma_value_order(Num { bits: ZERO }, f);
    let n = a * top;
    let r = rounded(n, u);
    if a == 0 {
        assert(n == 0) by (nonlinear_arith)
            requires
                n == a * top,
                a == 0,
        ;
        rounding_keeps_doubles(0, u);
        assert(0 * u == 0);
        assert(u * 0 == 0);
    } else {
        // The fraction of the power of two that follows the largest double is a double.
        let t = pow2(1024) as int;
        let (q0, k0) = lemma_unpack(f.mag());
        lemma_units_packed(q0, k0);
        lemma_pow2_adds(k0 as nat, 1024);
        lemma_pow2_strictly_increases(53, 1024);
        lemma2_to64_rest();
        let m = lemma_representable(q0, k0 + 1024);
        assert(units(m) == a * t) by (nonlinear_arith)
            requires
                units(m) == q0 * pow2((k0 + 1024) as nat),
                pow2((k0 + 1024) as nat) == pow2(k0 as nat) * t,
                a == q0 * pow2(k0 as nat),
        ;
        assert(a * t >= t) by (nonlinear_arith)
            requires
                a >= 1,
                t > 0,
        ;
        assert(m >= 1);
        let (q, k) = lemma_unpack(m - 1);
        lemma_units_packed(q, k);
        let w = pow2(k as nat) as int;
        if k == 0 {
            lemma2_to64();
            assert(w == 1);
            assert((q + 1) * w == q + 1) by (nonlinear_arith)
                requires
                    w == 1,
            ;
        }
        assert(STEP <= q < 2 * STEP);
        // What is cut off it is more than half the way to the double below.
        let z = pow2(2045) as int;
        lemma_units_packed(2 * STEP - 1, 2045);
        assert(2045 * STEP + (2 * STEP - 1) == INFINITE - 1);
        lemma_pow2_adds(UNIT as nat, 1024);
        lemma_pow2_adds(53, 2045);
        assert(0x20_0000_0000_0000 * n == 0x1f_ffff_ffff_ffff * (u * ((q + 1) * w)))
            by (nonlinear_arith)
            requires
                n == a * top,
                top == 0x1f_ffff_ffff_ffff * z,
                u * t == 0x20_0000_0000_0000 * z,
                (q + 1) * w == a * t,
        ;
        lemma_rounded(n, u);
        if r >= m {
            lemma_units_mono(m - 1, r - 1);
            lemma_units_mono(m, r);
            let below = units(r - 1) + units(r);
            assert(2 * n >= u * below);
            assert(u * below >= u * ((2 * q + 1) * w)) by (nonlinear_arith)
                requires
                    below >= q * w + (q + 1) * w,
                    u > 0,
            ;
            let y = u * w;
            assert(u * ((2 * q + 1) * w) == (2 * q + 1) * y && u * ((q + 1) * w) == (q + 1) * y)
                by (nonlinear_arith)
                requires
                    y == u * w,
            ;
            assert(y > 0) by (nonlinear_arith)
                requires
                    y == u * w,
                    u > 0,
                    w > 0,
            ;
            assert(false) by (nonlinear_arith)
                requires
                    2 * (0x1f_ffff_ffff_ffff * ((q + 1) * y)) >= 0x20_0000_0000_0000 * ((2 * q + 1)
                        * y),
                    q >= 0x10_0000_0000_0000,
                    y > 0,
            ;
        }
        lemma_units_mono(r, m - 1);
        let ur = units(r);
        assert(u * ur <= u * (q * w)) by (nonlinear_arith)
            requires
                ur <= q * w,
                u > 0,
        ;
        assert(0x20_0000_0000_0000 * (u * (q * w)) <= 0x1f_ffff_ffff_ffff * (u * ((q + 1) * w)))
            by (nonlinear_arith)
            requires
                0 <= q < 0x20_0000_0000_0000,
                u > 0,
                w > 0,
        ;
    }
}

/// What is left of 1 after a fraction of it is off by no more than half the distance of the doubles
/// below 1.
proof fn lemma_rest_is_close(f: Num)
    requires
        (Num { bits: ZERO }).le(f),
        f.le(Num { bits: ONE }),
    ensures
        0x40_0000_0000_0000 * ((Num { bits: ONE }).minus_of(f).value() - (pow2(UNIT as nat)
            - f.value())) <= pow2(UNIT as nat),
{
    let one = Num { bits: ONE };
    let u = pow2(UNIT as nat) as int;
    let a = f.value();
    lemma_one();
    lemma_complement(f);
    let rest = one.minus_of(f);
    lemma_plus_key(one, f.negate_of());
    lemma_value_order(f, one);
    lemma_value_order(rest, one);
    lemma_value_order(Num { bits: ZERO }, rest);
    lemma_rounded(u - a, 1);
    let m = rest.mag();
    assert(f.negate_of().value() == -a);
    if rest.key() > 0 {
        assert(m == rounded(u - a, 1));
        let (q, k) = lemma_unpack(m - 1);
        lemma_units_packed(q, k);
        let w = pow2(k as nat) as int;
        let b = rest.value();
        assert(b == (q + 1) * w && b <= u);
        assert(q * w + (q + 1) * w == 2 * b - w) by (nonlinear_arith)
            requires
                b == (q + 1) * w,
        ;
        assert(2 * (b - (u - a)) <= w);
        lemma_pow2_adds(53, 1021);
        lemma_pow2_adds(52, 1022);
        lemma2_to64_rest();
        lemma2_to64();
        lemma_pow2_pos(1021);
        if k > 0 {
            if k >= 1022 {
                if k > 1022 {
                    lemma_pow2_strictly_increases(1022, k as nat);
                }
                let e = pow2(1022) as int;
                assert((q + 1) * w > 0x10_0000_0000_0000 * e) by (nonlinear_arith)
                    requires
                        q >= 0x10_0000_0000_0000,
                        w >= e,
                        e > 0,
                ;
            } else if k < 1021 {
                lemma_pow2_strictly_increases(k as nat, 1021);
            }
        }
        assert(w <= pow2(1021));
    }
}

/// A moving average of finite values is finite.
proof fn lemma_average_is_finite(alpha: Num, x: Num, v: Num)
    requires
        (Num { bits: ZERO }).le(alpha),
        alpha.le(Num { bits: ONE }),
        !x.nan() && !x.inf() && !v.nan() && !v.inf(),
    ensures
        ({
            let r = alpha.times_of(x).plus_of((Num { bits: ONE }).minus_of(alpha).times_of(v));
            !r.nan() && !r.inf()
        }),
{
    let one = Num { bits: ONE };
    let rest = one.minus_of(alpha);
    let u = pow2(UNIT as nat) as int;
    let top = largest();
    let a = alpha.value();
    let b = rest.value();
    lemma_pow2_pos(UNIT as nat);
    lemma_complement(alpha);
    lemma_value_order(Num { bits: ZERO }, alpha);
    lemma_value_order(Num { bits: ZERO }, rest);
    lemma_value_order(alpha, alpha);
    lemma_value_order(rest, rest);
    // The parts are no larger than those of the largest double.
    let pt = units(rounded(a * top, u));
    let qt = units(rounded(b * top, u));
    lemma_part(alpha, x);
    lemma_part(rest, v);
    let p = alpha.times_of(x);
    let q = rest.times_of(v);
    // Those do not add up to what would round to infinity.
    lemma_fraction_of_largest(alpha);
    lemma_fraction_of_largest(rest);
    lemma_rest_is_close(alpha);
    lemma_units_packed(2 * STEP - 1, 2045);
    assert(2045 * STEP + (2 * STEP - 1) == INFINITE - 1);
    let z = pow2(2045) as int;
    let sum = pt + qt;
    let c = 0x40_0000_0000_0000int;
    assert(u * sum <= (a + b) * top) by (nonlinear_arith)
        requires
            u * pt <= a * top,
            u * qt <= b * top,
            sum == pt + qt,
    ;
    assert(c * ((a + b) * top) <= (c + 1) * (u * top)) by (nonlinear_arith)
        requires
            c * (a + b) <= (c + 1) * u,
            top >= 0,
    ;
    assert(c * sum <= (c + 1) * top) by (nonlinear_arith)
        requires
            u * sum <= (a + b) * top,
            c * ((a + b) * top) <= (c + 1) * (u * top),
            u > 0,
            c > 0,
    ;
    let beyond = units(INFINITE as int);
    assert(2 * sum < top + beyond) by (nonlinear_arith)
        requires
            0x40_0000_0000_0000 * sum <= 0x40_0000_0000_0001 * top,
            top == 0x1f_ffff_ffff_ffff * z,
            beyond == 0x20_0000_0000_0000 * z,
            z > 0,
    ;
    lemma_rounded(sum, 1);
    assert(rounded(sum, 1) < INFINITE);
    // Neither do the parts themselves, whatever their signs.
    lemma_plus_key(p, q);
    let n = p.value() + q.value();
    lemma_rounded_key_order(n, 1, sum, 1);
    lemma_rounded_key_order(-sum, 1, n, 1);
    rounding_keeps_doubles(0, 1);
}

/// A fraction of a finite double is no larger than that of the largest one.
proof fn lemma_part(f: Num, x: Num)
    requires
        (Num { bits: ZERO }).le(f),
        f.le(Num { bits: ONE }),
        !x.nan() && !x.inf(),
    ensures
        ({
            let limit = units(rounded(f.value() * largest(), pow2(UNIT as nat) as int));
            let p = f.times_of(x);
            &&& !p.nan()
            &&& !p.inf()
            &&& -limit <= p.value() <= limit
            &&& 0 <= limit
        }),
{
    let u = pow2(UNIT as nat) as int;
    let a = f.value();
    let top = largest();
    let p = f.times_of(x);
    lemma_pow2_pos(UNIT as nat);
    lemma_finite_size(x);
    lemma_units_mono(0, INFINITE - 1);
    lemma_value_order(Num { bits: ZERO }, f);
    lemma_value_order(f, f);
    lemma_times_key(f, x);
    let n = a * x.value();
    let t = a * top;
    assert(-t * u <= n * u <= t * u && t >= 0) by (nonlinear_arith)
        requires
            n == a * x.value(),
            t == a * top,
            a >= 0,
            -top <= x.value() <= top,
            u > 0,
    ;
    lemma_rounded_key_order(n, u, t, u);
    lemma_rounded_key_order(-t, u, n, u);
    lemma_one();
    lemma_value_order(f, Num { bits: ONE });
    assert(t * u <= (top * u) * u) by (nonlinear_arith)
        requires
            t == a * top,
            0 <= a <= u,
            top >= 0,
            u > 0,
    ;
    rounding_is_monotone(t, u, top * u, u);
    rounding_keeps_doubles(INFINITE - 1, u);
    lemma_rounded(t, u);
    let m = rounded(t, u);
    rounding_keeps_doubles(0, u);
    assert(0 * u == 0);
    assert(p.mag() <= m);
    lemma_units_mono(p.mag(), m);
}

proof fn lemma_large()
    ensures
        pow2(UNIT as nat) <= largest(),
{
    lemma_one();
    lemma_units_mono(ONE as int, INFINITE - 1);
}

proof fn lemma_product_bound(a: int, x: int, u: int, bound: int)
    requires
        0 <= a <= u,
        -bound <= x <= bound,
    ensures
        -(u * bound) <= a * x <= u * bound,
{
    assert(-(u * bound) <= a * x <= u * bound) by (nonlinear_arith)
        requires
            0 <= a <= u,
            -bound <= x <= bound,
    ;
}

/// The whole numbers behind a step of a moving average.
proof fn lemma_average_error(
    a: int,
    b: int,
    u: int,
    x: int,
    v: int,
    p: int,
    q: int,
    r: int,
    bound: int,
)
    requires
        0 <= a <= u,
        u >= 0x20_0000_0000_0000,
        0 <= bound,
        -bound <= x <= bound,
        -bound <= v <= bound,
        -(u * (2 * bound + 0x20_0000_0000_0000)) <= 0x20_0000_0000_0000 * (u * p - a * x) <= u * (2
            * bound + 0x20_0000_0000_0000),
        -(u * (2 * bound + 0x20_0000_0000_0000)) <= 0x20_0000_0000_0000 * (u * q - b * v) <= u * (2
            * bound + 0x20_0000_0000_0000),
        -(8 * bound + 4 + 0x20_0000_0000_0000) <= 0x20_0000_0000_0000 * (r - (p + q)) <= 8 * bound
            + 4 + 0x20_0000_0000_0000,
        -(2 * u + 0x20_0000_0000_0000) <= 0x20_0000_0000_0000 * (b - (u - a)) <= 2 * u
            + 0x20_0000_0000_0000,
    ensures
        r <= (if x <= v {
            v
        } else {
            x
        }) + bound / 0x2_0000_0000_0000 + 4,
        r >= (if x <= v {
            x
        } else {
            v
        }) - bound / 0x2_0000_0000_0000 - 4,
        0x1_0000_0000_0000 * (u * r - (a * x + (u - a) * v)) <= u * (bound + 0x10_0000_0000_0000),
        0x1_0000_0000_0000 * ((a * x + (u - a) * v) - u * r) <= u * (bound + 0x10_0000_0000_0000),
{
    let c = 0x20_0000_0000_0000int;
    let e1 = u * p - a * x;
    let e2 = u * q - b * v;
    let e3 = r - (p + q);
    let e4 = b - (u - a);
    // The rounding of the weight, taken over to the average.
    assert(-(3 * u * bound) <= c * (e4 * v) <= 3 * u * bound) by (nonlinear_arith)
        requires
            -(2 * u + c) <= c * e4 <= 2 * u + c,
            c <= u,
            -bound <= v <= bound,
            0 <= bound,
            c == 0x20_0000_0000_0000,
    ;
    assert(-(u * (8 * bound + 4 + c)) <= c * (u * e3) <= u * (8 * bound + 4 + c))
        by (nonlinear_arith)
        requires
            -(8 * bound + 4 + c) <= c * e3 <= 8 * bound + 4 + c,
            u > 0,
    ;
    let exact = a * x + (u - a) * v;
    let off = u * r - exact;
    assert(off == u * e3 + e1 + e2 + e4 * v) by (nonlinear_arith)
        requires
            e1 == u * p - a * x,
            e2 == u * q - b * v,
            e3 == r - (p + q),
            e4 == b - (u - a),
            exact == a * x + (u - a) * v,
            off == u * r - exact,
    ;
    assert(c * off == c * (u * e3) + c * e1 + c * e2 + c * (e4 * v)) by (nonlinear_arith)
        requires
            off == u * e3 + e1 + e2 + e4 * v,
    ;
    let total = 15 * bound + 4 + 3 * c;
    assert(u * (8 * bound + 4 + c) + 2 * (u * (2 * bound + c)) + 3 * u * bound == u * total)
        by (nonlinear_arith)
        requires
            total == 15 * bound + 4 + 3 * c,
    ;
    assert(-(u * total) <= c * off <= u * total);
    assert(u * total <= 32 * (u * (bound + 0x10_0000_0000_0000))) by (nonlinear_arith)
        requires
            total == 15 * bound + 4 + 3 * c,
            c == 0x20_0000_0000_0000,
            0 <= bound,
            u > 0,
    ;
    let hi = if x <= v {
        v
    } else {
        x
    };
    let lo = if x <= v {
        x
    } else {
        v
    };
    assert(u * lo <= exact <= u * hi) by (nonlinear_arith)
        requires
            exact == a * x + (u - a) * v,
            0 <= a <= u,
            lo <= x <= hi,
            lo <= v <= hi,
    ;
    assert(c * (r - hi) <= total) by (nonlinear_arith)
        requires
            c * off <= u * total,
            off == u * r - exact,
            exact <= u * hi,
            u > 0,
            c > 0,
    ;
    assert(c * (lo - r) <= total) by (nonlinear_arith)
        requires
            -(u * total) <= c * off,
            off == u * r - exact,
            u * lo <= exact,
            u > 0,
            c > 0,
    ;
}

/// A moving average of finite values stays between the smallest and the largest of them, up to what
/// rounding moves it by in each step. It never overflows, and a single value passes as it is.
pub proof fn average_stays_among_samples(alpha: Num, start: Num, xs: Seq<Num>, lo: int, hi: int)
    requires
        (Num { bits: ZERO }).le(alpha),
        alpha.le(Num { bits: ONE }),
        xs.len() > 0,
        forall|i: int|
            0 <= i < xs.len() ==> !(#[trigger] xs[i]).nan() && !xs[i].inf() && lo <= xs[i].value()
                <= hi,
    ensures
        ({
            let r = fed_all(
                SmootherState::Ema { alpha, value: start, initialized: false },
                xs,
            ).current();
            let off = drift(reach(lo, hi), xs.len() - 1);
            &&& !r.nan()
            &&& !r.inf()
            &&& lo - off <= r.value() <= hi + off
            &&& xs.len() == 1 ==> r == xs[0]
        }),
{
    lemma_average_run(alpha, start, xs, lo, hi);
}

/// A moving average moves towards what comes in: it takes its factor's share of the new value and
/// keeps the rest of itself. With a factor of 1 it follows at once, with 0 it stays.
pub proof fn average_moves_by_its_factor(alpha: Num, value: Num, raw: Num, bound: int)
    requires
        (Num { bits: ZERO }).le(alpha),
        alpha.le(Num { bits: ONE }),
        !raw.nan() && !raw.inf() && !value.nan() && !value.inf(),
        -bound <= raw.value() <= bound,
        -bound <= value.value() <= bound,
        0 <= bound <= largest(),
    ensures
        ({
            let r = (SmootherState::Ema { alpha, value, initialized: true }).fed(raw).current();
            let u = pow2(UNIT as nat) as int;
            near(r, alpha.value() * raw.value() + (u - alpha.value()) * value.value(), u, bound)
        }),
{
    average_weighs_new_and_old(alpha, raw, value, bound);
}

/// Over a row short enough for its rounding not to exceed the bound, the average drifts by no more
/// than that of twice the bound in each step.
pub proof fn drift_is_small(bound: int, steps: int)
    requires
        0 <= bound,
        0 <= steps,
        steps * rounding_slack(2 * bound) <= bound,
    ensures
        0 <= drift(bound, steps) <= steps * rounding_slack(2 * bound),
    decreases steps,
{
    if steps > 0 {
        let slack = rounding_slack(2 * bound);
        assert(steps * slack == (steps - 1) * slack + slack) by (nonlinear_arith);
        drift_is_small(bound, steps - 1);
        let before = drift(bound, steps - 1);
        assert(bound + before <= 2 * bound);
        assert(rounding_slack(bound + before) <= slack);
    }
}

proof fn lemma_drift(bound: int, steps: int)
    requires
        0 <= bound,
    ensures
        0 <= drift(bound, steps),
        steps > 0 ==> drift(bound, steps - 1) <= drift(bound, steps),
    decreases steps,
{
    if steps > 0 {
        lemma_drift(bound, steps - 1);
    }
}

proof fn lemma_average_run(alpha: Num, start: Num, xs: Seq<Num>, lo: int, hi: int)
    requires
        (Num { bits: ZERO }).le(alpha),
        alpha.le(Num { bits: ONE }),
        xs.len() > 0,
        forall|i: int|
            0 <= i < xs.len() ==> !(#[trigger] xs[i]).nan() && !xs[i].inf() && lo <= xs[i].value()
                <= hi,
    ensures
        ({
            let after = fed_all(
                SmootherState::Ema { alpha, value: start, initialized: false },
                xs,
            );
            let r = after.current();
            let off = drift(reach(lo, hi), xs.len() - 1);
            &&& after == (SmootherState::Ema { alpha, value: r, initialized: true })
            &&& !r.nan()
            &&& !r.inf()
            &&& lo - off <= r.value() <= hi + off
            &&& xs.len() == 1 ==> r == xs[0]
        }),
    decreases xs.len(),
{
    let front = xs.drop_last();
    let x = xs.last();
    let fresh = SmootherState::Ema { alpha, value: start, initialized: false };
    assert(x == xs[xs.len() - 1]);
    if front.len() == 0 {
        assert(fed_all(fresh, front) == fresh);
    } else {
        assert forall|i: int| 0 <= i < front.len() implies !(#[trigger] front[i]).nan()
            && !front[i].inf() && lo <= front[i].value() <= hi by {
            assert(front[i] == xs[i]);
        }
        lemma_average_run(alpha, start, front, lo, hi);
        let v = fed_all(fresh, front).current();
        let bound = reach(lo, hi);
        let size = bound + drift(bound, front.len() - 1);
        lemma_drift(bound, front.len() - 1);
        // No finite double exceeds the largest one.
        lemma_finite_size(x);
        lemma_finite_size(v);
        let cut = if size <= largest() {
            size
        } else {
            largest()
        };
        lemma_average_step(alpha, x, v, cut);
        assert(rounding_slack(cut) <= rounding_slack(size));
    }
}

proof fn lemma_finite_size(x: Num)
    requires
        !x.nan(),
        !x.inf(),
    ensures
        -largest() <= x.value() <= largest(),
{
    lemma_units_mono(x.mag(), INFINITE - 1);
}

} // verus!
