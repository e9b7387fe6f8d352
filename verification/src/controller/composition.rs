//! Composition of constraint evaluations into one rate.

use vstd::prelude::*;

use crate::controller::constraint::{ConstraintIntent, ConstraintOutput};
use crate::controller::constraints::ConstraintClass;
use crate::num::Num;

verus! {

/// A constraint evaluation that carries an opinion on the rate.
#[derive(Debug, Clone, Copy, PartialEq, Eq, Structural)]
pub struct ConstraintEval {
    /// Index into the controller's constraint list.
    pub constraint_index: usize,
    /// The rate this constraint wants.
    pub desired_rate: Num,
    pub severity: Num,
    pub class: ConstraintClass,
}

/// One constraint as a controller reads it during a tick.
#[derive(Debug, Clone, Copy, PartialEq, Eq, Structural)]
pub struct ConstraintReading {
    /// `None` while the constraint is inactive.
    pub output: Option<ConstraintOutput>,
    pub class: ConstraintClass,
}

/// The result of composition.
#[derive(Debug, Clone, Copy, PartialEq, Eq, Structural)]
pub struct CompositionResult {
    /// The selected rate, before controller-level policy.
    pub rate: Num,
    /// Which constraint was binding; `None` if none had an opinion on the rate.
    pub binding: Option<usize>,
}

/// The binding constraint is one of those that were evaluated.
pub open spec fn binding_in(binding: Option<usize>, evals: Seq<ConstraintEval>) -> bool {
    binding matches Some(b) ==> exists|k: int|
        0 <= k < evals.len() && #[trigger] evals[k].constraint_index == b
}

/// Composes constraint evaluations into a single rate decision.
///
/// `default_rate` is what a controller uses if no constraint objects. With no evaluations a
/// strategy returns it, not the current rate, which would stall. The relation says what a strategy
/// composes; one that does not give it may compose anything.
pub trait CompositionStrategy: Sized {
    /// `after` and `r` follow from a composition.
    open spec fn composes_to(
        &self,
        evaluations: Seq<ConstraintEval>,
        abstainers: int,
        default_rate: Num,
        after: &Self,
        r: CompositionResult,
    ) -> bool {
        true
    }

    fn compose(
        &mut self,
        evaluations: &Vec<ConstraintEval>,
        abstainers: usize,
        default_rate: Num,
    ) -> (r: CompositionResult)
        ensures
            old(self).composes_to(
                evaluations@,
                abstainers as int,
                default_rate,
                final(self),
                r,
            ),
            binding_in(r.binding, evaluations@),
    ;
}

/// The most conservative constraint wins.
pub struct MinSelector;

/// `k` is the place of the winner: the first of the smallest rates. A NaN is passed over unless
/// it comes first, where no rate is smaller than it.
pub open spec fn is_first_min(evals: Seq<ConstraintEval>, k: int) -> bool {
    &&& 0 <= k < evals.len()
    &&& evals[0].desired_rate.nan() ==> k == 0
    &&& !evals[0].desired_rate.nan() ==> !evals[k].desired_rate.nan()
    &&& forall|j: int|
        0 <= j < evals.len() ==> !(#[trigger] evals[j]).desired_rate.lt(evals[k].desired_rate)
    &&& forall|j: int|
        0 <= j < k ==> (#[trigger] evals[j]).desired_rate.nan() || evals[k].desired_rate.lt(
            evals[j].desired_rate,
        )
}

/// What the most conservative selection gives.
pub open spec fn min_selected(
    evals: Seq<ConstraintEval>,
    default_rate: Num,
    r: CompositionResult,
) -> bool {
    if evals.len() == 0 {
        r.rate == default_rate && r.binding is None
    } else {
        exists|k: int|
            #[trigger] is_first_min(evals, k) && r.rate == evals[k].desired_rate && r.binding
                == Some(evals[k].constraint_index)
    }
}

impl CompositionStrategy for MinSelector {
    open spec fn composes_to(
        &self,
        evaluations: Seq<ConstraintEval>,
        abstainers: int,
        default_rate: Num,
        after: &Self,
        r: CompositionResult,
    ) -> bool {
        min_selected(evaluations, default_rate, r)
    }

    fn compose(
        &mut self,
        evaluations: &Vec<ConstraintEval>,
        abstainers: usize,
        default_rate: Num,
    ) -> (r: CompositionResult) {
        let n: usize = evaluations.len();
        if n == 0 {
            return CompositionResult { rate: default_rate, binding: None };
        }
        let mut best: usize = 0;
        let mut i: usize = 1;
        while i < n
            invariant
                n == evaluations.len(),
                1 <= i <= n,
                best < i,
                is_first_min(evaluations@.take(i as int), best as int),
            decreases n - i,
        {
            proof {
                let a = evaluations@.take(i as int);
                let b = evaluations@.take(i as int + 1);
                assert(forall|j: int| 0 <= j < i ==> a[j] == b[j]);
                assert(b[i as int] == evaluations@[i as int]);
            }
            if evaluations[i].desired_rate.is_lt(evaluations[best].desired_rate) {
                best = i;
            }
            i = i + 1;
        }
        proof {
            assert(evaluations@.take(n as int) =~= evaluations@);
            assert(is_first_min(evaluations@, best as int));
        }
        CompositionResult {
            rate: evaluations[best].desired_rate,
            binding: Some(evaluations[best].constraint_index),
        }
    }
}

/// The evaluations of the first `n` constraints that carry an opinion on the rate, in order.
pub open spec fn opinions(readings: Seq<ConstraintReading>, n: int) -> Seq<ConstraintEval>
    decreases n,
{
    if n <= 0 {
        Seq::empty()
    } else {
        let before = opinions(readings, n - 1);
        match readings[n - 1].output {
            None => before,
            Some(output) => match output.intent.rate() {
                None => before,
                Some(rate) => before.push(
                    ConstraintEval {
                        constraint_index: (n - 1) as usize,
                        desired_rate: rate,
                        severity: output.severity,
                        class: readings[n - 1].class,
                    },
                ),
            },
        }
    }
}

/// How many of the first `n` constraints are active without an opinion on the rate.
pub open spec fn abstentions(readings: Seq<ConstraintReading>, n: int) -> int
    decreases n,
{
    if n <= 0 {
        0
    } else {
        abstentions(readings, n - 1) + if readings[n - 1].output matches Some(o)
            && o.intent.rate() is None {
            1int
        } else {
            0
        }
    }
}

/// Every opinion points back at the constraint that holds it.
pub proof fn opinions_point_back(readings: Seq<ConstraintReading>, n: int)
    requires
        0 <= n <= readings.len(),
        readings.len() <= usize::MAX,
    ensures
        opinions(readings, n).len() <= n,
        forall|k: int|
            0 <= k < opinions(readings, n).len() ==> {
                let e = #[trigger] opinions(readings, n)[k];
                &&& e.constraint_index < n
                &&& readings[e.constraint_index as int].class == e.class
                &&& readings[e.constraint_index as int].output matches Some(o)
                &&& o.intent.rate() == Some(e.desired_rate)
                &&& o.severity == e.severity
            },
    decreases n,
{
    if n > 0 {
        opinions_point_back(readings, n - 1);
    }
}

/// The lowest opinion never exceeds any other: no constraint that speaks up is exceeded.
pub proof fn min_selection_respects_all(
    evals: Seq<ConstraintEval>,
    default_rate: Num,
    r: CompositionResult,
)
    requires
        min_selected(evals, default_rate, r),
        forall|j: int| 0 <= j < evals.len() ==> !(#[trigger] evals[j]).desired_rate.nan(),
    ensures
        forall|j: int|
            0 <= j < evals.len() ==> r.rate.le((#[trigger] evals[j]).desired_rate),
{
}

/// Splits readings into the opinions on the rate and the number of abstainers.
pub fn collect_opinions(readings: &Vec<ConstraintReading>) -> (r: (Vec<ConstraintEval>, usize))
    ensures
        r.0@ == opinions(readings@, readings.len() as int),
        r.1 == abstentions(readings@, readings.len() as int),
{
    let mut evals: Vec<ConstraintEval> = Vec::new();
    let mut abstainers: usize = 0;
    let mut i: usize = 0;
    while i < readings.len()
        invariant
            i <= readings.len(),
            evals@ == opinions(readings@, i as int),
            abstainers == abstentions(readings@, i as int),
            abstainers <= i,
        decreases readings.len() - i,
    {
        if let Some(output) = readings[i].output {
            match output.intent {
                ConstraintIntent::NoObjection => {
                    abstainers = abstainers + 1;
                },
                ConstraintIntent::Hold(rate) => {
                    evals.push(
                        ConstraintEval {
                            constraint_index: i,
                            desired_rate: rate,
                            severity: output.severity,
                            class: readings[i].class,
                        },
                    );
                },
                ConstraintIntent::DesireRate(rate) => {
                    evals.push(
                        ConstraintEval {
                            constraint_index: i,
                            desired_rate: rate,
                            severity: output.severity,
                            class: readings[i].class,
                        },
                    );
                },
            }
        }
        i = i + 1;
    }
    (evals, abstainers)
}

} // verus!
