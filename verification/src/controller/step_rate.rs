//! Rates that change at fixed offsets from the start.

use vstd::prelude::*;
use vstd::string::*;

use crate::controller::rate::{actions, ControllerType, RateController};
use crate::num::{seconds, seconds_of, Num};
use crate::text::{decimal, joined3, push_decimal, same};
use crate::types::{
    index_of, index_param, number_of, number_param, MetricsSummary, Param, RateDecision,
};

verus! {

/// Follows a schedule of `(offset from start, rate)` steps. Times are in nanoseconds.
pub struct StepRateController {
    pub steps: Vec<(u64, Num)>,
    pub current_rps: Num,
    /// The moment at which the schedule stood at `offset`.
    pub since: u64,
    pub offset: u64,
}

/// The controller as seen by contracts.
pub struct StepModel {
    pub steps: Seq<(u64, Num)>,
    pub current_rps: Num,
    pub since: u64,
    pub offset: u64,
}

impl View for StepRateController {
    type V = StepModel;

    open spec fn view(&self) -> StepModel {
        StepModel {
            steps: self.steps@,
            current_rps: self.current_rps,
            since: self.since,
            offset: self.offset,
        }
    }
}

/// A step as the control API shows it.
#[derive(Debug, Clone, Copy, PartialEq, Eq, Structural)]
pub struct StepDetail {
    pub offset_secs: Num,
    pub rps: Num,
}

/// What the control API shows.
pub struct StepInfo {
    pub controller_type: ControllerType,
    pub current_rps: Num,
    pub editable_actions: Vec<&'static str>,
    pub current_step_index: usize,
    pub steps: Vec<StepDetail>,
}

/// What a successful update reports.
#[derive(Debug, Clone, Copy, PartialEq, Eq, Structural)]
pub enum StepReply {
    Jumped { step_index: usize, step_rps: Num },
    /// Holds until the next update from the schedule.
    StepOverridden,
    /// Accepted without effect: a schedule has no bound.
    MaxRps { new: Num },
}

/// The last step in the run of steps from `i` on whose offsets have been reached; step `i` counts
/// as reached.
pub open spec fn run_end(steps: Seq<(u64, Num)>, elapsed: int, i: int) -> int
    decreases steps.len() - i,
{
    if 0 <= i && i + 1 < steps.len() && elapsed >= steps[i + 1].0 {
        run_end(steps, elapsed, i + 1)
    } else {
        i
    }
}

/// The step in force: the last one before the first that has not been reached; the first step
/// where none has.
pub open spec fn step_at(steps: Seq<(u64, Num)>, elapsed: int) -> int {
    if steps.len() > 0 && elapsed >= steps[0].0 {
        run_end(steps, elapsed, 0)
    } else {
        0
    }
}

proof fn lemma_run_end(steps: Seq<(u64, Num)>, elapsed: int, i: int)
    requires
        0 <= i < steps.len(),
    ensures
        i <= run_end(steps, elapsed, i) < steps.len(),
    decreases steps.len() - i,
{
    if i + 1 < steps.len() && elapsed >= steps[i + 1].0 {
        lemma_run_end(steps, elapsed, i + 1);
    }
}

impl StepModel {
    /// How much of the schedule has passed.
    pub open spec fn elapsed(self, now: u64) -> int {
        self.offset + if now >= self.since {
            now - self.since
        } else {
            0
        }
    }

    pub open spec fn step(self, now: u64) -> int {
        step_at(self.steps, self.elapsed(now))
    }

    /// The controller at the start of a step.
    pub open spec fn at_step(self, index: int, now: u64) -> StepModel {
        StepModel {
            current_rps: self.steps[index].1,
            since: now,
            offset: self.steps[index].0,
            ..self
        }
    }

    /// The controller and its answer after an update request.
    pub open spec fn updated(self, action: Seq<char>, params: Seq<Param>, now: u64) -> (
        StepModel,
        Result<StepReply, Seq<char>>,
    ) {
        if action == "jump_to_step"@ {
            match index_of(params, "step_index"@) {
                Some(v) => {
                    let index = v as usize;
                    if index >= self.steps.len() {
                        (self, Err(out_of_range(index as nat, self.steps.len())))
                    } else {
                        (
                            self.at_step(index as int, now),
                            Ok(
                                StepReply::Jumped {
                                    step_index: index,
                                    step_rps: self.steps[index as int].1,
                                },
                            ),
                        )
                    }
                },
                None => (self, Err("missing 'step_index' field"@)),
            }
        } else if action == "set_step_rps"@ {
            match number_of(params, "rps"@) {
                Some(rps) => (
                    StepModel { current_rps: rps, ..self },
                    Ok(StepReply::StepOverridden),
                ),
                None => (self, Err("missing 'rps' field"@)),
            }
        } else if action == "set_max_rps"@ {
            match number_of(params, "max_rps"@) {
                Some(max) => (self, Ok(StepReply::MaxRps { new: max })),
                None => (self, Err("missing 'max_rps' field"@)),
            }
        } else {
            (self, Err("action '"@ + action + "' is not valid for controller type 'step'"@))
        }
    }
}

/// The refusal of a step that does not exist.
pub open spec fn out_of_range(index: nat, len: nat) -> Seq<char> {
    "step_index "@ + decimal(index) + " out of range (0.."@ + decimal(len) + ")"@
}

fn out_of_range_text(index: usize, len: usize) -> (r: String)
    ensures
        r@ == out_of_range(index as nat, len as nat),
{
    let mut out: String = "step_index ".to_owned();
    push_decimal(&mut out, index as u64);
    out.push_str(" out of range (0..");
    push_decimal(&mut out, len as u64);
    out.push_str(")");
    out
}

impl StepRateController {
    /// A schedule that starts at `start_time`.
    pub fn with_start_time(steps: Vec<(u64, Num)>, start_time: u64) -> (r: StepRateController)
        requires
            steps.len() > 0,
        ensures
            r@ == (StepModel {
                steps: steps@,
                current_rps: steps@[0].1,
                since: start_time,
                offset: 0,
            }),
    {
        let current_rps: Num = steps[0].1;
        StepRateController { steps, current_rps, since: start_time, offset: 0 }
    }

    /// A schedule that starts now.
    pub fn new(steps: Vec<(u64, Num)>, now: u64) -> (r: StepRateController)
        requires
            steps.len() > 0,
        ensures
            r@ == (StepModel {
                steps: steps@,
                current_rps: steps@[0].1,
                since: now,
                offset: 0,
            }),
    {
        StepRateController::with_start_time(steps, now)
    }

    /// Jumps to a step, which then plays out from its start.
    pub fn jump_to_step(&mut self, index: usize, now: u64) -> (r: Result<Num, String>)
        ensures
            index < old(self).steps.len() ==> {
                &&& r == Ok::<Num, String>(old(self).steps@[index as int].1)
                &&& final(self)@ == old(self)@.at_step(index as int, now)
            },
            index >= old(self).steps.len() ==> {
                &&& r matches Err(e) && e@ == out_of_range(
                    index as nat,
                    old(self).steps@.len(),
                )
                &&& final(self)@ == old(self)@
            },
    {
        if index >= self.steps.len() {
            return Err(out_of_range_text(index, self.steps.len()));
        }
        self.current_rps = self.steps[index].1;
        self.offset = self.steps[index].0;
        self.since = now;
        Ok(self.current_rps)
    }

    /// The step in force.
    pub fn current_step_index(&self, now: u64) -> (r: usize)
        ensures
            r == self@.step(now),
            self.steps.len() > 0 ==> r < self.steps.len(),
    {
        let elapsed: u128 = self.offset as u128 + (if now >= self.since {
            now - self.since
        } else {
            0
        }) as u128;
        let ghost steps = self.steps@;
        let mut idx: usize = 0;
        if self.steps.len() == 0 || elapsed < self.steps[0].0 as u128 {
            return 0;
        }
        while idx + 1 < self.steps.len() && elapsed >= self.steps[idx + 1].0 as u128
            invariant
                idx < self.steps.len(),
                steps == self.steps@,
                run_end(steps, elapsed as int, 0) == run_end(steps, elapsed as int, idx as int),
            decreases self.steps.len() - idx,
        {
            idx = idx + 1;
        }
        idx
    }
}

impl RateController for StepRateController {
    type Info = StepInfo;

    type Reply = StepReply;

    open spec fn rate(&self) -> Num {
        self.current_rps
    }

    open spec fn accepts(&self, summary: &MetricsSummary, now: u64) -> bool {
        self.steps.len() > 0
    }

    open spec fn steps_to(
        &self,
        summary: &MetricsSummary,
        now: u64,
        after: &Self,
        rate: Num,
    ) -> bool {
        &&& rate == self@.steps[self@.step(now)].1
        &&& after@ == (StepModel { current_rps: rate, ..self@ })
    }

    open spec fn overridable(&self) -> bool {
        true
    }

    open spec fn overridden_to(&self, rps: Num, now: u64, after: &Self) -> bool {
        after@ == (StepModel { current_rps: rps, ..self@ })
    }

    open spec fn capped_to(&self, max_rps: Num, after: &Self) -> bool {
        after@ == self@
    }

    open spec fn shows(&self, now: u64, info: StepInfo) -> bool {
        &&& info.controller_type == ControllerType::Step
        &&& info.current_rps == self.current_rps
        &&& actions(info.editable_actions@) == seq![
            "jump_to_step"@,
            "set_step_rps"@,
            "set_max_rps"@,
        ]
        &&& info.current_step_index == self@.step(now)
        &&& info.steps@ == Seq::new(
            self.steps@.len(),
            |i: int|
                StepDetail { offset_secs: seconds_of(self.steps@[i].0), rps: self.steps@[i].1 },
        )
    }

    open spec fn answers(
        &self,
        action: Seq<char>,
        params: Seq<Param>,
        now: u64,
        after: &Self,
        answer: Result<StepReply, Seq<char>>,
    ) -> bool {
        (after@, answer) == self@.updated(action, params, now)
    }

    fn update(&mut self, summary: &MetricsSummary, now: u64) -> (r: RateDecision) {
        let index: usize = self.current_step_index(now);
        self.current_rps = self.steps[index].1;
        RateDecision { target_rps: self.current_rps }
    }

    fn current_rate(&self) -> (r: Num) {
        self.current_rps
    }

    /// Overrides the step in force until the next update from the schedule.
    fn set_rate(&mut self, rps: Num, now: u64) {
        self.current_rps = rps;
    }

    fn set_max_rps(&mut self, max_rps: Num) {
    }

    fn controller_info(&self, now: u64) -> (r: StepInfo) {
        let mut steps: Vec<StepDetail> = Vec::new();
        let ghost all = Seq::new(
            self.steps@.len(),
            |i: int|
                StepDetail { offset_secs: seconds_of(self.steps@[i].0), rps: self.steps@[i].1 },
        );
        let mut i: usize = 0;
        while i < self.steps.len()
            invariant
                i <= self.steps.len(),
                steps.len() == i,
                forall|j: int|
                    0 <= j < i ==> #[trigger] steps@[j] == (StepDetail {
                        offset_secs: seconds_of(self.steps@[j].0),
                        rps: self.steps@[j].1,
                    }),
            decreases self.steps.len() - i,
        {
            steps.push(
                StepDetail { offset_secs: seconds(self.steps[i].0), rps: self.steps[i].1 },
            );
            i = i + 1;
        }
        assert(steps@ =~= all);
        let editable_actions: Vec<&'static str> = vec![
            "jump_to_step",
            "set_step_rps",
            "set_max_rps",
        ];
        assert(actions(editable_actions@) =~= seq![
            "jump_to_step"@,
            "set_step_rps"@,
            "set_max_rps"@,
        ]);
        StepInfo {
            controller_type: ControllerType::Step,
            current_rps: self.current_rps,
            editable_actions,
            current_step_index: self.current_step_index(now),
            steps,
        }
    }

    fn apply_update(&mut self, action: &str, params: &Vec<Param>, now: u64) -> (r: Result<
        StepReply,
        String,
    >) {
        if same(action, "jump_to_step") {
            match index_param(params, "step_index") {
                Some(v) => {
                    let step_index: usize = v as usize;
                    match self.jump_to_step(step_index, now) {
                        Ok(step_rps) => Ok(StepReply::Jumped { step_index, step_rps }),
                        Err(e) => Err(e),
                    }
                },
                None => Err("missing 'step_index' field".to_owned()),
            }
        } else if same(action, "set_step_rps") {
            match number_param(params, "rps") {
                Some(rps) => {
                    self.current_rps = rps;
                    Ok(StepReply::StepOverridden)
                },
                None => Err("missing 'rps' field".to_owned()),
            }
        } else if same(action, "set_max_rps") {
            match number_param(params, "max_rps") {
                Some(max) => Ok(StepReply::MaxRps { new: max }),
                None => Err("missing 'max_rps' field".to_owned()),
            }
        } else {
            Err(joined3("action '", action, "' is not valid for controller type 'step'"))
        }
    }
}

/// The offsets of a schedule rise strictly.
pub open spec fn rising(steps: Seq<(u64, Num)>) -> bool {
    forall|i: int, j: int|
        0 <= i < j < steps.len() ==> (#[trigger] steps[i]).0 < (#[trigger] steps[j]).0
}

proof fn lemma_step_reached(steps: Seq<(u64, Num)>, elapsed: int, i: int, k: int)
    requires
        rising(steps),
        0 <= i <= k < steps.len(),
        steps[k].0 <= elapsed,
        k + 1 < steps.len() ==> elapsed < steps[k + 1].0,
    ensures
        run_end(steps, elapsed, i) == k,
    decreases k - i,
{
    if i < k {
        if i + 1 < k {
            assert(steps[i + 1].0 < steps[k].0);
        }
        lemma_step_reached(steps, elapsed, i + 1, k);
    }
}

/// In a rising schedule the step in force is the one whose span holds the elapsed time.
pub proof fn step_in_force(steps: Seq<(u64, Num)>, elapsed: int, k: int)
    requires
        rising(steps),
        0 <= k < steps.len(),
        steps[k].0 <= elapsed,
        k + 1 < steps.len() ==> elapsed < steps[k + 1].0,
    ensures
        step_at(steps, elapsed) == k,
{
    if k > 0 {
        assert(steps[0].0 < steps[k].0);
    }
    lemma_step_reached(steps, elapsed, 0, k);
}

/// After a jump the step plays out for its full duration.
pub proof fn jump_plays_step_out(s: StepModel, k: int, at: u64, now: u64)
    requires
        rising(s.steps),
        0 <= k < s.steps.len(),
        now >= at,
        k + 1 < s.steps.len() ==> now - at < s.steps[k + 1].0 - s.steps[k].0,
    ensures
        s.at_step(k, at).step(now) == k,
{
    step_in_force(s.steps, s.at_step(k, at).elapsed(now), k);
}

} // verus!
