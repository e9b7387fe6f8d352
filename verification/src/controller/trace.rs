//! Records of what the control plane decided in each tick.

use vstd::prelude::*;

use crate::controller::constraints::ConstraintClass;
use crate::num::Num;

verus! {

/// What a constraint did in a tick.
#[derive(Debug, Clone, Copy, PartialEq, Eq, Structural)]
#[allow(inconsistent_fields)]
pub enum Participation {
    /// It had no opinion on the rate.
    Abstained { severity: Num },
    /// It had an opinion on the rate.
    Active { severity: Num, desired_rate: Num, is_binding: bool },
    /// It was inactive.
    Inactive,
}

/// The class of a constraint as a trace shows it.
#[derive(Debug, Clone, Copy, PartialEq, Eq, Structural)]
pub enum ConstraintClassLabel {
    OperatingPoint,
    Catastrophic,
}

/// The label of a class.
pub open spec fn label_of(c: ConstraintClass) -> ConstraintClassLabel {
    match c {
        ConstraintClass::OperatingPoint => ConstraintClassLabel::OperatingPoint,
        ConstraintClass::Catastrophic => ConstraintClassLabel::Catastrophic,
    }
}

impl vstd::std_specs::convert::FromSpecImpl<ConstraintClass> for ConstraintClassLabel {
    open spec fn obeys_from_spec() -> bool {
        true
    }

    open spec fn from_spec(c: ConstraintClass) -> ConstraintClassLabel {
        label_of(c)
    }
}

impl From<ConstraintClass> for ConstraintClassLabel {
    fn from(c: ConstraintClass) -> (r: ConstraintClassLabel) {
        match c {
            ConstraintClass::OperatingPoint => ConstraintClassLabel::OperatingPoint,
            ConstraintClass::Catastrophic => ConstraintClassLabel::Catastrophic,
        }
    }
}

/// One constraint's evaluation and figures in a tick.
pub struct EvaluationRecord {
    pub id: String,
    pub class: ConstraintClassLabel,
    pub participation: Participation,
    pub state: Vec<(String, Num)>,
}

/// What the arbiter's policies held in a tick.
pub struct ArbiterRecord {
    /// The rate that the composition selected, before the policies.
    pub composition_rate: Num,
    /// Which constraint was binding.
    pub binding: Option<String>,
    pub ceiling: Num,
    pub floor: Num,
    pub cooldown_active: bool,
    pub cooldown_remaining: u32,
    /// Whether this tick opened a cooldown.
    pub backoff_engaged: bool,
    pub ticks_since_increase: u32,
    pub failure_rate_ema: Num,
    pub backoff_count: u32,
}

} // verus!
