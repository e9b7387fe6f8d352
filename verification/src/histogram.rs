//! Latency histograms, and their buckets as a metrics scraper reads them.

use vstd::arithmetic::power2::*;
use vstd::multiset::*;
use vstd::prelude::*;

use crate::num::{lemma_one, Num, UNIT};
use crate::order::{lemma_room, literal_is_decimal, near, quotient_is_near, whole};

verus! {

/// The bits of positive infinity.
pub const INFINITY: u64 = 0x7ff0_0000_0000_0000;

/// 1e9
pub const NANOS_PER_SECOND: u64 = 0x41cd_cd65_0000_0000;

/// The largest value that a histogram grows to hold.
pub const VALUE_MAX: u64 = 0x3fff_ffff_ffff_ffff;

/// A histogram of latencies in nanoseconds. It keeps the leading digits of each sample: samples
/// that agree in them share a level.
#[verifier::external_body]
pub struct LatencyHistogram {
    inner: hdrhistogram::Histogram<u64>,
}

/// The samples of a histogram, each as the lowest value of its level.
pub uninterp spec fn samples(h: LatencyHistogram) -> Multiset<u64>;

/// How many leading digits of each sample a histogram keeps.
pub uninterp spec fn digits_kept(h: LatencyHistogram) -> u8;

/// Ten to a power.
pub open spec fn ten_to(digits: u8) -> nat
    decreases digits,
{
    if digits == 0 {
        1
    } else {
        10 * ten_to((digits - 1) as u8)
    }
}

/// A count cut off at the largest 64-bit number.
pub open spec fn saturated(n: int) -> int {
    if n > u64::MAX {
        u64::MAX as int
    } else {
        n
    }
}

/// How many samples lie on levels that start at or below a value.
pub open spec fn samples_up_to(h: LatencyHistogram, value: u64) -> nat {
    samples(h).filter(|s: u64| s <= value).len()
}

/// `Histogram::new`: an empty histogram that grows on its own and keeps the given number of
/// digits; refused above five digits.
#[verifier::external_body]
fn empty_histogram(digits: u8) -> (r: Option<LatencyHistogram>)
    ensures
        r is Some <==> digits <= 5,
        r matches Some(h) ==> samples(h) == Multiset::<u64>::empty() && digits_kept(h) == digits,
{
    hdrhistogram::Histogram::<u64>::new(digits).ok().map(|inner| LatencyHistogram { inner })
}

/// A value lies on the level that starts at `s`: it agrees with `s` in as many leading digits.
pub open spec fn on_level(value: u64, s: u64, digits: u8) -> bool {
    s <= value && (value - s) * ten_to(digits) <= s
}

/// `after` holds one sample more than `before`, on the level that holds the value. A level whose
/// counter is full stays as it is, which needs that many samples first.
pub open spec fn one_more(
    before: Multiset<u64>,
    value: u64,
    digits: u8,
    after: Multiset<u64>,
) -> bool {
    ||| before.len() >= u64::MAX && after == before
    ||| exists|s: u64| on_level(value, s, digits) && after == #[trigger] before.insert(s)
}

/// `Histogram::record`: adds one sample, on the level that holds the value. Levels are so narrow
/// that a value differs from the start of its level only beyond the digits that are kept. The
/// level's counter stays at the largest 64-bit number once it is there. A histogram that grows on
/// its own refuses no value up to the given one.
#[verifier::external_body]
fn record_sample(h: &mut LatencyHistogram, value: u64)
    requires
        value <= VALUE_MAX,
    ensures
        one_more(samples(*old(h)), value, digits_kept(*old(h)), samples(*final(h))),
        digits_kept(*final(h)) == digits_kept(*old(h)),
{
    let _ = h.inner.record(value);
}

/// `Histogram::count_between`, from zero: the samples on the levels up to that of a value, cut off
/// at the largest 64-bit number.
#[verifier::external_body]
fn count_up_to(h: &LatencyHistogram, value: u64) -> (r: u64)
    ensures
        r == saturated(samples_up_to(*h, value) as int),
{
    h.inner.count_between(0, value)
}

/// `Histogram::len`: how many samples there are, cut off at the largest 64-bit number.
#[verifier::external_body]
fn total_samples(h: &LatencyHistogram) -> (r: u64)
    ensures
        r == saturated(samples(*h).len() as int),
{
    h.inner.len()
}

impl LatencyHistogram {
    /// An empty histogram that keeps up to five digits of each sample.
    pub fn new(digits: u8) -> (r: Option<LatencyHistogram>)
        ensures
            r is Some <==> digits <= 5,
            r matches Some(h) ==> samples(h) == Multiset::<u64>::empty() && digits_kept(h)
                == digits,
    {
        empty_histogram(digits)
    }

    /// Records a latency; one beyond the largest value counts as that.
    pub fn record(&mut self, nanos: u64)
        ensures
            one_more(
                samples(*old(self)),
                if nanos > VALUE_MAX {
                    VALUE_MAX
                } else {
                    nanos
                },
                digits_kept(*old(self)),
                samples(*final(self)),
            ),
            digits_kept(*final(self)) == digits_kept(*old(self)),
    {
        let value: u64 = if nanos > VALUE_MAX {
            VALUE_MAX
        } else {
            nanos
        };
        record_sample(self, value);
    }
}

/// The upper bounds of the buckets, in nanoseconds: from one millisecond to ten seconds.
pub open spec fn bucket_bounds() -> Seq<u64> {
    seq![
        1_000_000u64,
        5_000_000u64,
        10_000_000u64,
        25_000_000u64,
        50_000_000u64,
        100_000_000u64,
        250_000_000u64,
        500_000_000u64,
        1_000_000_000u64,
        2_500_000_000u64,
        5_000_000_000u64,
        10_000_000_000u64,
    ]
}

/// A cumulative bucket: how many samples lie at or below a bound, given in seconds.
#[derive(Debug, Clone, Copy, PartialEq, Eq, Structural)]
pub struct LatencyBucket {
    pub upper_bound_secs: Num,
    pub count: u64,
}

/// A bound in seconds.
pub open spec fn bound_secs(nanos: u64) -> Num {
    Num::of_int(nanos as int).over_of(Num { bits: NANOS_PER_SECOND })
}

/// The first `n` finite buckets of a histogram.
pub open spec fn finite_buckets(h: LatencyHistogram, n: int) -> Seq<LatencyBucket> {
    Seq::new(
        n as nat,
        |i: int|
            LatencyBucket {
                upper_bound_secs: bound_secs(bucket_bounds()[i]),
                count: saturated(samples_up_to(h, bucket_bounds()[i]) as int) as u64,
            },
    )
}

/// The buckets of a histogram as a metrics scraper reads them: the finite ones, then one without
/// bound that holds everything.
pub open spec fn buckets_of(h: LatencyHistogram) -> Seq<LatencyBucket> {
    finite_buckets(h, bucket_bounds().len() as int).push(
        LatencyBucket {
            upper_bound_secs: Num { bits: INFINITY },
            count: saturated(samples(h).len() as int) as u64,
        },
    )
}

/// The buckets of a histogram as a metrics scraper reads them.
pub fn histogram_to_prometheus_buckets(hist: &LatencyHistogram) -> (r: Vec<LatencyBucket>)
    ensures
        r@ == buckets_of(*hist),
{
    let bounds: [u64; 12] = [
        1_000_000,
        5_000_000,
        10_000_000,
        25_000_000,
        50_000_000,
        100_000_000,
        250_000_000,
        500_000_000,
        1_000_000_000,
        2_500_000_000,
        5_000_000_000,
        10_000_000_000,
    ];
    assert(bounds@ =~= bucket_bounds());
    let mut buckets: Vec<LatencyBucket> = Vec::new();
    let mut i: usize = 0;
    while i < 12
        invariant
            i <= 12,
            bounds@ == bucket_bounds(),
            bounds@.len() == 12,
            buckets@ == finite_buckets(*hist, i as int),
        decreases 12 - i,
    {
        let count: u64 = count_up_to(hist, bounds[i]);
        buckets.push(LatencyBucket {
                upper_bound_secs: Num::of(bounds[i]).over(Num { bits: NANOS_PER_SECOND }),
                count,
            });
        assert(buckets@ =~= finite_buckets(*hist, i + 1));
        i = i + 1;
    }
    buckets.push(
        LatencyBucket { upper_bound_secs: Num { bits: INFINITY }, count: total_samples(hist) },
    );
    buckets
}

/// Counting up to a larger value never counts fewer samples.
pub proof fn counting_further_counts_more(h: LatencyHistogram, a: u64, b: u64)
    requires
        a <= b,
    ensures
        samples_up_to(h, a) <= samples_up_to(h, b),
{
    broadcast use group_multiset_axioms;

    let x = samples(h).filter(|s: u64| s <= a);
    let y = samples(h).filter(|s: u64| s <= b);
    assert forall|v: u64| x.count(v) <= y.count(v) by {}
    assert(x.subset_of(y));
    let rest = y.sub(x);
    assert(y.len() == rest.len() + x.len());
}

/// The buckets are cumulative: their counts never fall from one bound to the next, and the last
/// one is never exceeded.
pub proof fn buckets_are_cumulative(h: LatencyHistogram, i: int, j: int)
    requires
        0 <= i <= j < buckets_of(h).len(),
    ensures
        buckets_of(h)[i].count <= buckets_of(h)[j].count,
{
    broadcast use group_multiset_axioms;

    let n = bucket_bounds().len() as int;
    if j < n {
        counting_further_counts_more(h, bucket_bounds()[i], bucket_bounds()[j]);
    } else if i < n {
        let x = samples(h).filter(|s: u64| s <= bucket_bounds()[i]);
        assert forall|v: u64| x.count(v) <= samples(h).count(v) by {}
        assert(x.subset_of(samples(h)));
        assert(samples(h).len() == samples(h).sub(x).len() + x.len());
    }
}

/// A recorded latency is counted by every bucket whose bound it does not exceed, and by none whose
/// bound it exceeds in the digits that are kept. No bucket loses a sample.
pub proof fn recording_reaches_buckets(
    before: LatencyHistogram,
    nanos: u64,
    after: LatencyHistogram,
    i: int,
)
    requires
        one_more(samples(before), nanos, digits_kept(before), samples(after)),
        samples(before).len() < u64::MAX,
        0 <= i < buckets_of(before).len(),
    ensures
        i < bucket_bounds().len() && nanos <= bucket_bounds()[i] ==> buckets_of(after)[i].count
            == buckets_of(before)[i].count + 1,
        i < bucket_bounds().len() && bucket_bounds()[i] < nanos ==> buckets_of(after)[i].count
            == buckets_of(before)[i].count || (buckets_of(after)[i].count == buckets_of(
            before,
        )[i].count + 1 && (nanos - bucket_bounds()[i]) * ten_to(digits_kept(before))
            <= bucket_bounds()[i]),
        i == bucket_bounds().len() ==> buckets_of(after)[i].count == buckets_of(before)[i].count
            + 1,
{
    broadcast use group_multiset_axioms;

    let digits = digits_kept(before);
    let s = choose|s: u64|
        on_level(nanos, s, digits) && samples(after) == #[trigger] samples(before).insert(s);
    if i < bucket_bounds().len() {
        let bound = bucket_bounds()[i];
        let f = |x: u64| x <= bound;
        let inside = samples(before).filter(f);
        assert forall|v: u64| inside.count(v) <= samples(before).count(v) by {}
        assert(inside.subset_of(samples(before)));
        assert(samples(before).len() == samples(before).sub(inside).len() + inside.len());
        if s <= bound {
            assert(samples(after).filter(f) =~= inside.insert(s));
            let t = ten_to(digits);
            assert((nanos - bound) * t <= bound) by (nonlinear_arith)
                requires
                    (nanos - s) * t <= s,
                    s <= bound,
                    t >= 0,
            ;
        } else {
            assert(samples(after).filter(f) =~= inside);
        }
    }
}

/// Bounds are given in seconds, a billionth of their nanoseconds.
pub proof fn bounds_are_given_in_seconds(nanos: u64)
    requires
        nanos <= 0x10_0000_0000_0000,
    ensures
        near(
            bound_secs(nanos),
            (nanos * pow2(UNIT as nat)) * pow2(UNIT as nat),
            1_000_000_000 * pow2(UNIT as nat) as int,
            nanos * pow2(UNIT as nat),
        ),
{
    let u = pow2(UNIT as nat) as int;
    let g = Num { bits: NANOS_PER_SECOND };
    lemma_one();
    lemma_room();
    lemma2_to64();
    lemma2_to64_rest();
    literal_is_decimal(g, 0x1d_cd65_0000_0000, 1051, 0x80_0000, 1_000_000_000, 1);
    let a = whole(nanos as int);
    let v = a.value();
    assert(0 <= v <= 0x10_0000_0000_0000 * u) by (nonlinear_arith)
        requires
            v == nanos * u,
            nanos <= 0x10_0000_0000_0000,
            u > 0,
    ;
    assert(-((1_000_000_000 * u) * v) <= v * u <= (1_000_000_000 * u) * v) by (nonlinear_arith)
        requires
            v >= 0,
            u > 0,
    ;
    quotient_is_near(a, g, v);
}

/// The buckets go up from a millisecond to ten seconds, one bound after the other, and the last
/// one has none.
pub proof fn bounds_go_up(h: LatencyHistogram, i: int, j: int)
    requires
        0 <= i < j < bucket_bounds().len(),
    ensures
        bucket_bounds()[i] < bucket_bounds()[j],
        bucket_bounds()[0] == 1_000_000,
        bucket_bounds().last() == 10_000_000_000,
        buckets_of(h).len() == bucket_bounds().len() + 1,
        buckets_of(h)[i].upper_bound_secs == bound_secs(bucket_bounds()[i]),
        buckets_of(h).last().upper_bound_secs.inf(),
{
}

} // verus!
