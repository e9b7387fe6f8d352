//! What a constraint reports to the controller that hosts it.

use vstd::prelude::*;
use vstd::string::*;

use crate::controller::autotune::{ExplorationManager, ExplorationModel};
use crate::controller::constraints::ConstraintClass;
use crate::controller::rate::text_result;
use crate::num::Num;
use crate::types::{MetricsSummary, Param};

verus! {

/// What a constraint wants to happen to the rate.
#[derive(Debug, Clone, Copy, PartialEq, Eq, Structural)]
pub enum ConstraintIntent {
    /// No objection: other constraints or the increase policy decide.
    NoObjection,
    /// The rate should be held at exactly this value.
    Hold(Num),
    /// The rate should be set to this value, above or below the current one.
    DesireRate(Num),
}

impl ConstraintIntent {
    /// The rate this intent asks for, if it asks for one.
    pub open spec fn rate(self) -> Option<Num> {
        match self {
            ConstraintIntent::NoObjection => None,
            ConstraintIntent::Hold(r) => Some(r),
            ConstraintIntent::DesireRate(r) => Some(r),
        }
    }
}

/// The output of evaluating a single constraint.
#[derive(Debug, Clone, Copy, PartialEq, Eq, Structural)]
pub struct ConstraintOutput {
    pub intent: ConstraintIntent,
    /// How stressed this constraint is: 0.0 is relaxed, 1.0 is at its threshold.
    pub severity: Num,
}

/// What a constraint may look at when it is evaluated.
pub struct EvalContext<'a> {
    pub summary: &'a MetricsSummary,
    pub current_rate: Num,
    pub ticks_since_increase: u32,
    pub min_rps: Num,
    pub max_rps: Num,
}

/// Baseline data from the warmup phase.
#[derive(Debug, Clone, Copy, PartialEq, Eq, Structural)]
pub struct WarmupBaseline {
    /// Median p99 latency observed during warmup, in milliseconds.
    pub baseline_p99_ms: Num,
    /// Number of warmup samples collected.
    pub sample_count: usize,
}

/// What a successful update of a constraint reports.
#[derive(Debug, Clone, Copy, PartialEq, Eq, Structural)]
pub enum ConstraintReply {
    Threshold { previous: Num, new: Num },
    MaxErrorRate { new: Num },
    Target { previous: Num, new: Num },
    Gains { kp: Num, ki: Num, kd: Num },
    TrackingGain { previous: Num, new: Num },
    IntegratorReset,
}

/// A constraint in an override control system: it reads the metrics on its own and asks for a
/// rate. A composition strategy chooses among the constraints, and the arbiter applies its
/// policies to what was chosen.
///
/// In each tick a constraint is evaluated once and then told, once, what was selected. The
/// relations say what each step does to a constraint; one that is not given allows anything.
pub trait Constraint: Sized {
    /// The stable identifier.
    open spec fn name(&self) -> Seq<char> {
        arbitrary()
    }

    /// The class, which never changes.
    open spec fn kind(&self) -> ConstraintClass {
        arbitrary()
    }

    /// Whether the constraint can take in another window of metrics.
    open spec fn can_evaluate(&self) -> bool {
        true
    }

    /// Whether the constraint can be told what was selected.
    open spec fn can_settle(&self) -> bool {
        true
    }

    /// `after` and `output` follow from an evaluation.
    open spec fn evaluates_to(
        &self,
        ctx: EvalContext<'_>,
        after: &Self,
        output: Option<ConstraintOutput>,
    ) -> bool {
        true
    }

    /// `after` follows once the constraint was told what was selected.
    open spec fn settles_to(
        &self,
        selected_rate: Num,
        current_rate: Num,
        is_binding: bool,
        after: &Self,
    ) -> bool {
        true
    }

    /// Estimated ticks until this constraint recovers from a backoff.
    open spec fn estimate(&self) -> Option<Num> {
        arbitrary()
    }

    /// Whether this constraint waits for an exploration to learn its parameters.
    open spec fn waits(&self) -> bool {
        arbitrary()
    }

    /// `after` and `answer` follow from an update request.
    open spec fn updates_to(
        &self,
        action: Seq<char>,
        params: Seq<Param>,
        after: &Self,
        answer: Result<ConstraintReply, Seq<char>>,
    ) -> bool {
        true
    }

    /// `after` follows once an exploration is over.
    open spec fn explored_to(&self, manager: ExplorationModel, after: &Self) -> bool {
        true
    }

    /// `after` follows once warmup is over.
    open spec fn warmed_to(&self, baseline: WarmupBaseline, after: &Self) -> bool {
        true
    }

    /// `after` follows once the rate was overridden from outside.
    open spec fn overridden_to(&self, new_rate: Num, after: &Self) -> bool {
        true
    }

    /// Evaluates the current metrics. Updates how the signal is read, not the control law; that
    /// happens in `post_select`. `None` while the constraint is inactive.
    fn evaluate(&mut self, ctx: &EvalContext<'_>) -> (r: Option<ConstraintOutput>)
        requires
            old(self).can_evaluate(),
        ensures
            old(self).evaluates_to(*ctx, final(self), r),
            final(self).can_settle(),
            final(self).name() == old(self).name(),
            final(self).kind() == old(self).kind(),
    ;

    /// Called after a rate was selected.
    fn post_select(&mut self, selected_rate: Num, current_rate: Num, is_binding: bool)
        requires
            old(self).can_settle(),
        ensures
            old(self).settles_to(selected_rate, current_rate, is_binding, final(self)),
            final(self).name() == old(self).name(),
            final(self).kind() == old(self).kind(),
    ;

    /// The stable identifier.
    fn id(&self) -> (r: &str)
        ensures
            r@ == self.name(),
    ;

    /// Whether this constraint bypasses the known-good floor on backoff.
    fn class(&self) -> (r: ConstraintClass)
        ensures
            r == self.kind(),
    ;

    /// Estimated ticks until this constraint recovers from a backoff.
    fn recovery_estimate_ticks(&self) -> (r: Option<Num>)
        ensures
            r == self.estimate(),
    ;

    /// The constraint's figures, each under its name.
    fn constraint_state(&self) -> (r: Vec<(String, Num)>)
        default_ensures
            r.len() == 0,
    {
        Vec::new()
    }

    /// Applies a runtime update.
    fn apply_update(&mut self, action: &str, params: &Vec<Param>) -> (r: Result<
        ConstraintReply,
        String,
    >)
        ensures
            old(self).updates_to(action@, params@, final(self), text_result(r)),
            final(self).name() == old(self).name(),
            final(self).kind() == old(self).kind(),
    ;

    /// Whether this constraint waits for an exploration phase to learn its parameters.
    fn requires_exploration(&self) -> (r: bool)
        ensures
            r == self.waits(),
    ;

    /// Called when exploration is over.
    fn on_exploration_complete(&mut self, manager: &ExplorationManager)
        requires
            manager@.wf(),
        ensures
            old(self).explored_to(manager@, final(self)),
            final(self).name() == old(self).name(),
            final(self).kind() == old(self).kind(),
            old(self).can_evaluate() ==> final(self).can_evaluate(),
    ;

    /// Called when warmup is over.
    fn on_warmup_complete(&mut self, baseline: &WarmupBaseline)
        ensures
            old(self).warmed_to(*baseline, final(self)),
            final(self).name() == old(self).name(),
            final(self).kind() == old(self).kind(),
            old(self).can_evaluate() ==> final(self).can_evaluate(),
    ;

    /// Called when the rate was overridden from outside.
    fn on_rate_override(&mut self, new_rate: Num)
        ensures
            old(self).overridden_to(new_rate, final(self)),
            final(self).name() == old(self).name(),
            final(self).kind() == old(self).kind(),
            old(self).can_evaluate() ==> final(self).can_evaluate(),
    ;
}

} // verus!
