//! Raises the upper bound of another controller step by step.

use vstd::prelude::*;
use vstd::string::*;

use crate::controller::ceiling::ProgressiveCeiling;
use crate::controller::rate::RateController;
use crate::num::Num;
use crate::text::same;
use crate::types::{number_of, number_param, MetricsSummary, Param, RateDecision};

verus! {

/// Raises the upper bound of the inner controller from the initial rate to the configured bound,
/// over half the test. It never overrides the inner controller's rate. Times are in nanoseconds.
pub struct SlowStart<C: RateController> {
    pub inner: C,
    pub ceiling: ProgressiveCeiling,
}

impl<C: RateController> SlowStart<C> {
    pub fn new(inner: C, initial_rps: Num, max_rps: Num, test_duration: u64, now: u64) -> (r: Self)
        ensures
            r.inner == inner,
            r.ceiling == (ProgressiveCeiling {
                start_value: initial_rps,
                end_value: max_rps,
                ramp_duration: test_duration / 2,
                start_time: Some(now),
                last_milestone: 0,
            }),
    {
        SlowStart {
            inner,
            ceiling: ProgressiveCeiling::started(initial_rps, max_rps, test_duration / 2, now),
        }
    }
}

impl<C: RateController> RateController for SlowStart<C> {
    type Info = C::Info;

    type Reply = C::Reply;

    open spec fn rate(&self) -> Num {
        self.inner.rate()
    }

    /// Whatever the new bound leads to, the inner controller can take in the metrics.
    open spec fn accepts(&self, summary: &MetricsSummary, now: u64) -> bool {
        forall|mid: C|
            #[trigger] self.inner.capped_to(self.ceiling.height(now), &mid) ==> mid.accepts(
                summary,
                now,
            )
    }

    open spec fn steps_to(
        &self,
        summary: &MetricsSummary,
        now: u64,
        after: &Self,
        rate: Num,
    ) -> bool {
        &&& after.ceiling == self.ceiling
        &&& exists|mid: C|
            #[trigger] self.inner.capped_to(self.ceiling.height(now), &mid) && mid.steps_to(
                summary,
                now,
                &after.inner,
                rate,
            )
    }

    open spec fn overridable(&self) -> bool {
        self.inner.overridable()
    }

    open spec fn overridden_to(&self, rps: Num, now: u64, after: &Self) -> bool {
        &&& after.ceiling == self.ceiling
        &&& self.inner.overridden_to(rps, now, &after.inner)
    }

    open spec fn capped_to(&self, max_rps: Num, after: &Self) -> bool {
        &&& after.ceiling == (ProgressiveCeiling { end_value: max_rps, ..self.ceiling })
        &&& after.inner == self.inner
    }

    open spec fn shows(&self, now: u64, info: C::Info) -> bool {
        self.inner.shows(now, info)
    }

    open spec fn answers(
        &self,
        action: Seq<char>,
        params: Seq<Param>,
        now: u64,
        after: &Self,
        answer: Result<C::Reply, Seq<char>>,
    ) -> bool {
        &&& after.ceiling == match number_of(params, "max_rps"@) {
            Some(max) if action == "set_max_rps"@ => (ProgressiveCeiling {
                end_value: max,
                ..self.ceiling
            }),
            _ => self.ceiling,
        }
        &&& self.inner.answers(action, params, now, &after.inner, answer)
    }

    fn update(&mut self, summary: &MetricsSummary, now: u64) -> (r: RateDecision) {
        let ceil: Num = self.ceiling.ceiling(now);
        self.inner.set_max_rps(ceil);
        self.inner.update(summary, now)
    }

    fn current_rate(&self) -> (r: Num) {
        self.inner.current_rate()
    }

    fn set_rate(&mut self, rps: Num, now: u64) {
        self.inner.set_rate(rps, now);
    }

    /// Moves the end of the ramp; the inner controller hears of it with the next update.
    fn set_max_rps(&mut self, max_rps: Num) {
        self.ceiling.set_end_value(max_rps);
    }

    fn controller_info(&self, now: u64) -> (r: C::Info) {
        self.inner.controller_info(now)
    }

    fn apply_update(&mut self, action: &str, params: &Vec<Param>, now: u64) -> (r: Result<
        C::Reply,
        String,
    >) {
        if same(action, "set_max_rps") {
            if let Some(max) = number_param(params, "max_rps") {
                self.ceiling.set_end_value(max);
            }
        }
        self.inner.apply_update(action, params, now)
    }
}

} // verus!
