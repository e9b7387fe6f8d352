//! A constant request rate.

use vstd::prelude::*;
use vstd::string::*;

use crate::controller::rate::{actions, ControllerType, RateController};
use crate::num::Num;
use crate::text::{joined3, same};
use crate::types::{number_of, number_param, MetricsSummary, Param, RateDecision};

verus! {

/// Keeps the rate it was given.
#[derive(Debug, Clone, Copy, PartialEq, Eq, Structural)]
pub struct StaticRateController {
    pub rps: Num,
}

/// What the control API shows.
pub struct StaticInfo {
    pub controller_type: ControllerType,
    pub current_rps: Num,
    pub editable_actions: Vec<&'static str>,
}

/// What a successful update reports.
#[derive(Debug, Clone, Copy, PartialEq, Eq, Structural)]
pub enum StaticReply {
    Rate { previous: Num, new: Num },
    /// Accepted without effect: a static rate has no bound.
    MaxRps { new: Num },
}

impl StaticRateController {
    pub fn new(rps: Num) -> (r: StaticRateController)
        ensures
            r == (StaticRateController { rps }),
    {
        StaticRateController { rps }
    }

    /// The controller and its answer after an update request.
    pub open spec fn updated(self, action: Seq<char>, params: Seq<Param>) -> (
        StaticRateController,
        Result<StaticReply, Seq<char>>,
    ) {
        if action == "set_rate"@ {
            match number_of(params, "rps"@) {
                Some(rps) => (
                    StaticRateController { rps },
                    Ok(StaticReply::Rate { previous: self.rps, new: rps }),
                ),
                None => (self, Err("missing 'rps' field"@)),
            }
        } else if action == "set_max_rps"@ {
            match number_of(params, "max_rps"@) {
                Some(max) => (self, Ok(StaticReply::MaxRps { new: max })),
                None => (self, Err("missing 'max_rps' field"@)),
            }
        } else {
            (self, Err("action '"@ + action + "' is not valid for controller type 'static'"@))
        }
    }
}

impl RateController for StaticRateController {
    type Info = StaticInfo;

    type Reply = StaticReply;

    open spec fn rate(&self) -> Num {
        self.rps
    }

    open spec fn accepts(&self, summary: &MetricsSummary, now: u64) -> bool {
        true
    }

    open spec fn steps_to(
        &self,
        summary: &MetricsSummary,
        now: u64,
        after: &Self,
        rate: Num,
    ) -> bool {
        *after == *self && rate == self.rps
    }

    open spec fn overridable(&self) -> bool {
        true
    }

    open spec fn overridden_to(&self, rps: Num, now: u64, after: &Self) -> bool {
        after.rps == rps
    }

    open spec fn capped_to(&self, max_rps: Num, after: &Self) -> bool {
        *after == *self
    }

    open spec fn shows(&self, now: u64, info: StaticInfo) -> bool {
        &&& info.controller_type == ControllerType::Static
        &&& info.current_rps == self.rps
        &&& actions(info.editable_actions@) == seq!["set_rate"@, "set_max_rps"@]
    }

    open spec fn answers(
        &self,
        action: Seq<char>,
        params: Seq<Param>,
        now: u64,
        after: &Self,
        answer: Result<StaticReply, Seq<char>>,
    ) -> bool {
        (*after, answer) == self.updated(action, params)
    }

    fn update(&mut self, summary: &MetricsSummary, now: u64) -> (r: RateDecision) {
        RateDecision { target_rps: self.rps }
    }

    fn current_rate(&self) -> (r: Num) {
        self.rps
    }

    fn set_rate(&mut self, rps: Num, now: u64) {
        self.rps = rps;
    }

    fn set_max_rps(&mut self, max_rps: Num) {
    }

    fn controller_info(&self, now: u64) -> (r: StaticInfo) {
        let editable_actions: Vec<&'static str> = vec!["set_rate", "set_max_rps"];
        assert(actions(editable_actions@) =~= seq!["set_rate"@, "set_max_rps"@]);
        StaticInfo {
            controller_type: ControllerType::Static,
            current_rps: self.rps,
            editable_actions,
        }
    }

    fn apply_update(&mut self, action: &str, params: &Vec<Param>, now: u64) -> (r: Result<
        StaticReply,
        String,
    >) {
        if same(action, "set_rate") {
            match number_param(params, "rps") {
                Some(rps) => {
                    let previous: Num = self.rps;
                    self.rps = rps;
                    Ok(StaticReply::Rate { previous, new: self.rps })
                },
                None => Err("missing 'rps' field".to_owned()),
            }
        } else if same(action, "set_max_rps") {
            match number_param(params, "max_rps") {
                Some(max) => Ok(StaticReply::MaxRps { new: max }),
                None => Err("missing 'max_rps' field".to_owned()),
            }
        } else {
            Err(joined3("action '", action, "' is not valid for controller type 'static'"))
        }
    }
}

} // verus!
