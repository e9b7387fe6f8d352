//! What every rate controller offers.

use vstd::prelude::*;
use vstd::string::*;

use crate::num::Num;
use crate::types::{MetricsSummary, Param, RateDecision};

verus! {

/// The kinds of rate controllers.
#[derive(Debug, Clone, Copy, PartialEq, Eq, Structural)]
pub enum ControllerType {
    Static,
    Step,
    Pid,
    PidAutotune,
    Ramp,
    Arbiter,
}

/// Decides, once per control interval, how many requests per second to send. Times are in
/// nanoseconds.
///
/// The relations say what each step does to a controller; one that is not given allows anything.
pub trait RateController: Sized {
    /// What the control API shows of the controller.
    type Info;

    /// What a successful update reports.
    type Reply;

    /// The rate in force.
    open spec fn rate(&self) -> Num {
        arbitrary()
    }

    /// Whether the controller can take in a window of metrics.
    open spec fn accepts(&self, summary: &MetricsSummary, now: u64) -> bool {
        true
    }

    /// `after` and `rate` follow from one window of metrics.
    open spec fn steps_to(&self, summary: &MetricsSummary, now: u64, after: &Self, rate: Num) -> bool {
        true
    }

    /// Whether the rate can be overridden.
    open spec fn overridable(&self) -> bool {
        true
    }

    /// `after` follows from an override of the rate.
    open spec fn overridden_to(&self, rps: Num, now: u64, after: &Self) -> bool {
        true
    }

    /// `after` follows from another upper bound.
    open spec fn capped_to(&self, max_rps: Num, after: &Self) -> bool {
        true
    }

    /// `info` is what the control API shows.
    open spec fn shows(&self, now: u64, info: Self::Info) -> bool {
        true
    }

    /// `after` and `answer` follow from an update request.
    open spec fn answers(
        &self,
        action: Seq<char>,
        params: Seq<Param>,
        now: u64,
        after: &Self,
        answer: Result<Self::Reply, Seq<char>>,
    ) -> bool {
        true
    }

    /// Takes in one window of metrics and decides the rate.
    fn update(&mut self, summary: &MetricsSummary, now: u64) -> (r: RateDecision)
        requires
            old(self).accepts(summary, now),
        ensures
            old(self).steps_to(summary, now, final(self), r.target_rps),
    ;

    /// The rate in force.
    fn current_rate(&self) -> (r: Num)
        ensures
            r == self.rate(),
    ;

    /// Overrides the rate.
    fn set_rate(&mut self, rps: Num, now: u64)
        requires
            old(self).overridable(),
        ensures
            old(self).overridden_to(rps, now, final(self)),
    ;

    /// Sets the upper bound of the rate.
    fn set_max_rps(&mut self, max_rps: Num)
        ensures
            old(self).capped_to(max_rps, final(self)),
    ;

    /// What the control API shows.
    fn controller_info(&self, now: u64) -> (r: Self::Info)
        ensures
            self.shows(now, r),
    ;

    /// Applies a runtime update.
    fn apply_update(&mut self, action: &str, params: &Vec<Param>, now: u64) -> (r: Result<
        Self::Reply,
        String,
    >)
        ensures
            old(self).answers(action@, params@, now, final(self), text_result(r)),
    ;
}

/// A result with its error as text.
pub open spec fn text_result<T>(r: Result<T, String>) -> Result<T, Seq<char>> {
    match r {
        Ok(v) => Ok(v),
        Err(e) => Err(e@),
    }
}

/// The actions in a list, as text.
pub open spec fn actions(v: Seq<&'static str>) -> Seq<Seq<char>> {
    Seq::new(v.len(), |i: int| v[i]@)
}

} // verus!
