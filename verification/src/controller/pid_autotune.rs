//! A PID controller that finds its own gains.
//!
//! A short exploration applies a step in the rate and measures how the metric responds. After
//! that, gain-scheduled PID control uses the gains computed from the response.

use vstd::prelude::*;
use vstd::string::*;

use crate::controller::autotune::{
    scheduled_step_moves_towards_its_target,
    conservative, conservative_gains, extract_metric, gains_from, metric_value,
    pid_scheduled, pid_step_with_scheduling, ComputedGains, ExplorationManager, ExplorationModel,
    ExplorationPhase, MetricExploration, MetricModel, PidState, PidStepInput, HALF, TICKS_MAX,
};
use crate::controller::pid::{cleared, PidGainValues, MIN_REQUESTS};
use crate::controller::rate::{actions, text_result, ControllerType, RateController};
use crate::num::{Num, ONE, ZERO};
use crate::text::{joined3, same};
use crate::types::{
    number_of, number_param, MetricsSummary, Param, RateDecision, TargetMetric,
};

verus! {

/// What the controller is doing.
pub enum AutotunePhase {
    Exploring(ExplorationManager),
    Active { gains: ComputedGains, state: PidState },
}

/// The phase as seen by contracts.
pub enum AutotuneModel {
    Exploring(ExplorationModel),
    Active { gains: ComputedGains, state: PidState },
}

impl View for AutotunePhase {
    type V = AutotuneModel;

    open spec fn view(&self) -> AutotuneModel {
        match self {
            AutotunePhase::Exploring(m) => AutotuneModel::Exploring(m@),
            AutotunePhase::Active { gains, state } => AutotuneModel::Active {
                gains: *gains,
                state: *state,
            },
        }
    }
}

/// How to explore. Times are in nanoseconds.
#[derive(Debug, Clone, Copy, PartialEq, Eq, Structural)]
pub struct AutotuneParams {
    pub autotune_duration: u64,
    pub smoothing: Num,
    pub control_interval: u64,
}

/// A PID controller that finds its own gains.
pub struct AutotuningPidController {
    pub target_metric: TargetMetric,
    pub target_value: Num,
    pub current_rps: Num,
    pub min_rps: Num,
    pub max_rps: Num,
    pub smoothing: Num,
    pub phase: AutotunePhase,
}

/// The controller as seen by contracts.
pub struct AutotuningModel {
    pub target_metric: TargetMetric,
    pub target_value: Num,
    pub current_rps: Num,
    pub min_rps: Num,
    pub max_rps: Num,
    pub smoothing: Num,
    pub phase: AutotuneModel,
}

impl View for AutotuningPidController {
    type V = AutotuningModel;

    open spec fn view(&self) -> AutotuningModel {
        AutotuningModel {
            target_metric: self.target_metric,
            target_value: self.target_value,
            current_rps: self.current_rps,
            min_rps: self.min_rps,
            max_rps: self.max_rps,
            smoothing: self.smoothing,
            phase: self.phase@,
        }
    }
}

/// What the control API shows of the phase.
#[derive(Debug, Clone, Copy, PartialEq, Eq, Structural)]
pub enum AutotuneShown {
    Exploring { exploration_progress: Num },
    Active { gains: PidGainValues, integrator: Num, last_error: Num },
}

/// What the control API shows.
pub struct AutotuneInfo {
    pub controller_type: ControllerType,
    pub current_rps: Num,
    pub editable_actions: Vec<&'static str>,
    pub target_metric: TargetMetric,
    pub target_value: Num,
    pub min_rps: Num,
    pub max_rps: Num,
    pub phase: AutotuneShown,
}

/// What a successful update reports.
#[allow(inconsistent_fields)]
#[derive(Debug, Clone, Copy, PartialEq, Eq, Structural)]
pub enum AutotuneReply {
    /// The gains are conservative if an exploration was running, and unchanged otherwise.
    Aborted { was_exploring: bool },
    TargetValue { previous: Num, new: Num },
    Gains { new: PidGainValues },
    IntegratorReset,
    MaxRps { previous: Num, new: Num },
    MinRps { previous: Num, new: Num },
}

/// A loop with a smoothing factor that has seen nothing.
pub open spec fn fresh_loop(smoothing: Num) -> PidState {
    PidState {
        integral: Num { bits: ZERO },
        last_error: Num { bits: ZERO },
        ema_value: Num { bits: ZERO },
        ema_alpha: smoothing.clamp_of(Num { bits: ZERO }, Num { bits: ONE }),
    }
}

impl AutotuningModel {
    /// Whether a window of metrics can be taken in.
    pub open spec fn ready(self) -> bool {
        &&& self.min_rps.le(self.max_rps)
        &&& self.phase matches AutotuneModel::Exploring(e) ==> {
            &&& e.wf()
            &&& e.tick_count < TICKS_MAX
            &&& e.metrics.len() > 0
        }
    }

    /// One step of gain-scheduled control.
    pub open spec fn controlled(
        self,
        summary: &MetricsSummary,
        gains: ComputedGains,
        state: PidState,
    ) -> AutotuningModel {
        let smoothed = state.smoothed(metric_value(self.target_metric, summary));
        let (after, rate) = pid_scheduled(
            PidStepInput {
                current_value: smoothed,
                target_value: self.target_value,
                current_rps: self.current_rps,
                min_rps: self.min_rps,
                max_rps: self.max_rps,
                kp: gains.kp,
                ki: gains.ki,
                kd: gains.kd,
            },
            PidState { ema_value: smoothed, ..state },
        );
        AutotuningModel {
            current_rps: rate,
            phase: AutotuneModel::Active { gains, state: after },
            ..self
        }
    }

    /// The controller after one window of metrics.
    pub open spec fn stepped(self, summary: &MetricsSummary) -> AutotuningModel {
        match self.phase {
            AutotuneModel::Exploring(e) => {
                let (after, rate) = e.ticked(summary);
                match rate {
                    Some(r) => AutotuningModel {
                        current_rps: r.clamp_of(self.min_rps, self.max_rps),
                        phase: AutotuneModel::Exploring(after),
                        ..self
                    },
                    None => self.controlled(
                        summary,
                        if after.phase is Complete {
                            gains_from(after.metrics[0], after.initial_rps)
                        } else {
                            conservative()
                        },
                        fresh_loop(self.smoothing),
                    ),
                }
            },
            AutotuneModel::Active { gains, state } => if summary.total_requests < MIN_REQUESTS {
                self
            } else {
                self.controlled(summary, gains, state)
            },
        }
    }

    /// The controller with conservative gains in place of an exploration.
    pub open spec fn aborted(self) -> AutotuningModel {
        if self.phase is Exploring {
            AutotuningModel {
                phase: AutotuneModel::Active {
                    gains: conservative(),
                    state: fresh_loop(self.smoothing),
                },
                ..self
            }
        } else {
            self
        }
    }

    /// The controller once the rate was overridden. That ends an exploration.
    pub open spec fn overridden(self, rps: Num) -> AutotuningModel {
        let next = AutotuningModel {
            current_rps: rps.clamp_of(self.min_rps, self.max_rps),
            ..self
        };
        match self.phase {
            AutotuneModel::Exploring(e) => next.aborted(),
            AutotuneModel::Active { gains, state } => AutotuningModel {
                phase: AutotuneModel::Active { gains, state: cleared(state) },
                ..next
            },
        }
    }

    pub open spec fn with_max(self, max_rps: Num) -> AutotuningModel {
        let max = max_rps.max_of(self.min_rps);
        AutotuningModel {
            max_rps: max,
            current_rps: if max.lt(self.current_rps) {
                max
            } else {
                self.current_rps
            },
            ..self
        }
    }

    pub open spec fn with_min(self, min_rps: Num) -> AutotuningModel {
        AutotuningModel {
            min_rps: if self.max_rps.lt(min_rps) {
                self.max_rps
            } else {
                min_rps
            },
            ..self
        }
    }

    /// Other gains; refused during an exploration.
    pub open spec fn with_gains(self, kp: Num, ki: Num, kd: Num) -> (
        AutotuningModel,
        Result<(), Seq<char>>,
    ) {
        match self.phase {
            AutotuneModel::Active { gains, state } => (
                AutotuningModel {
                    phase: AutotuneModel::Active {
                        gains: ComputedGains { kp, ki, kd, ..gains },
                        state,
                    },
                    ..self
                },
                Ok(()),
            ),
            AutotuneModel::Exploring(e) => (self, Err("cannot set gains during exploration"@)),
        }
    }

    /// The integrator reset; refused during an exploration.
    pub open spec fn integrator_reset(self) -> (AutotuningModel, Result<(), Seq<char>>) {
        match self.phase {
            AutotuneModel::Active { gains, state } => (
                AutotuningModel {
                    phase: AutotuneModel::Active { gains, state: cleared(state) },
                    ..self
                },
                Ok(()),
            ),
            AutotuneModel::Exploring(e) => (
                self,
                Err("cannot reset integrator during exploration"@),
            ),
        }
    }

    /// The controller and its answer after an update request.
    pub open spec fn updated(self, action: Seq<char>, params: Seq<Param>) -> (
        AutotuningModel,
        Result<AutotuneReply, Seq<char>>,
    ) {
        if action == "abort_exploration"@ {
            (
                self.aborted(),
                Ok(AutotuneReply::Aborted { was_exploring: self.phase is Exploring }),
            )
        } else if action == "set_target_value"@ {
            match number_of(params, "value"@) {
                Some(new) => (
                    AutotuningModel { target_value: new, ..self },
                    Ok(AutotuneReply::TargetValue { previous: self.target_value, new }),
                ),
                None => (self, Err("missing 'value' field"@)),
            }
        } else if action == "set_gains"@ {
            match (
                number_of(params, "kp"@),
                number_of(params, "ki"@),
                number_of(params, "kd"@),
            ) {
                (Some(kp), Some(ki), Some(kd)) => {
                    let (after, r) = self.with_gains(kp, ki, kd);
                    match r {
                        Ok(_) => (
                            after,
                            Ok(AutotuneReply::Gains { new: PidGainValues { kp, ki, kd } }),
                        ),
                        Err(e) => (after, Err(e)),
                    }
                },
                (None, _, _) => (self, Err("missing 'kp' field"@)),
                (_, None, _) => (self, Err("missing 'ki' field"@)),
                (_, _, None) => (self, Err("missing 'kd' field"@)),
            }
        } else if action == "reset_integrator"@ {
            let (after, r) = self.integrator_reset();
            match r {
                Ok(_) => (after, Ok(AutotuneReply::IntegratorReset)),
                Err(e) => (after, Err(e)),
            }
        } else if action == "set_max_rps"@ {
            match number_of(params, "max_rps"@) {
                Some(max) => (
                    self.with_max(max),
                    Ok(
                        AutotuneReply::MaxRps {
                            previous: self.max_rps,
                            new: self.with_max(max).max_rps,
                        },
                    ),
                ),
                None => (self, Err("missing 'max_rps' field"@)),
            }
        } else if action == "set_min_rps"@ {
            match number_of(params, "min_rps"@) {
                Some(min) => (
                    self.with_min(min),
                    Ok(
                        AutotuneReply::MinRps {
                            previous: self.min_rps,
                            new: self.with_min(min).min_rps,
                        },
                    ),
                ),
                None => (self, Err("missing 'min_rps' field"@)),
            }
        } else {
            (
                self,
                Err("action '"@ + action + "' is not valid for controller type 'pid_autotune'"@),
            )
        }
    }

    /// The phase as the control API shows it.
    pub open spec fn shown(self) -> AutotuneShown {
        match self.phase {
            AutotuneModel::Exploring(e) => AutotuneShown::Exploring {
                exploration_progress: e.progress(),
            },
            AutotuneModel::Active { gains, state } => AutotuneShown::Active {
                gains: PidGainValues { kp: gains.kp, ki: gains.ki, kd: gains.kd },
                integrator: state.integral,
                last_error: state.last_error,
            },
        }
    }

    /// The actions that the control API offers: gains and integrator only once they are in use.
    pub open spec fn offered(self) -> Seq<Seq<char>> {
        if self.phase is Exploring {
            seq!["abort_exploration"@, "set_max_rps"@, "set_min_rps"@]
        } else {
            seq![
                "set_max_rps"@,
                "set_min_rps"@,
                "set_target_value"@,
                "set_gains"@,
                "reset_integrator"@,
            ]
        }
    }
}

impl AutotuningPidController {
    /// A controller at the start of its exploration, at half the initial rate.
    pub fn new(
        target_metric: TargetMetric,
        target_value: Num,
        initial_rps: Num,
        min_rps: Num,
        max_rps: Num,
        params: AutotuneParams,
    ) -> (r: AutotuningPidController)
        ensures
            r@.target_metric == target_metric,
            r@.target_value == target_value,
            r@.current_rps == initial_rps.times_of(Num { bits: HALF }),
            r@.min_rps == min_rps,
            r@.max_rps == max_rps,
            r@.smoothing == params.smoothing,
            r@.phase matches AutotuneModel::Exploring(e) && e.wf() && e.tick_count == 0
                && e.phase == (ExplorationPhase::Baseline { start_tick: 0 }) && e.metrics == seq![
                fresh_metric(target_metric, target_value),
            ] && e.control_interval == params.control_interval && e.autotune_duration
                == params.autotune_duration && e.initial_rps == initial_rps,
            min_rps.le(max_rps) ==> r@.ready(),
    {
        let exploration: MetricExploration = MetricExploration::new(
            target_metric.copy(),
            target_value,
        );
        let metrics: Vec<MetricExploration> = vec![exploration];
        let manager: ExplorationManager = ExplorationManager::new(
            metrics,
            initial_rps,
            params.autotune_duration,
            params.control_interval,
        );
        assert(manager@.metrics =~= seq![fresh_metric(target_metric, target_value)]);
        AutotuningPidController {
            target_metric,
            target_value,
            current_rps: initial_rps.times(Num { bits: HALF }),
            min_rps,
            max_rps,
            smoothing: params.smoothing,
            phase: AutotunePhase::Exploring(manager),
        }
    }

    /// Ends an exploration with conservative gains; tells whether one was running.
    pub fn abort_exploration(&mut self) -> (r: bool)
        ensures
            r == (old(self).phase is Exploring),
            final(self)@ == old(self)@.aborted(),
    {
        let exploring: bool = match &self.phase {
            AutotunePhase::Exploring(_) => true,
            AutotunePhase::Active { gains, state } => false,
        };
        if exploring {
            self.phase =
            AutotunePhase::Active {
                gains: conservative_gains(),
                state: PidState::new(self.smoothing),
            };
        }
        exploring
    }

    pub fn set_target_value(&mut self, value: Num)
        ensures
            final(self)@ == (AutotuningModel { target_value: value, ..old(self)@ }),
    {
        self.target_value = value;
    }

    /// Sets the gains; refused during an exploration.
    pub fn set_gains(&mut self, kp: Num, ki: Num, kd: Num) -> (r: Result<(), String>)
        ensures
            (final(self)@, text_result(r)) == old(self)@.with_gains(
                kp,
                ki,
                kd,
            ),
    {
        match &mut self.phase {
            AutotunePhase::Active { gains, state } => {
                gains.kp = kp;
                gains.ki = ki;
                gains.kd = kd;
                Ok(())
            },
            AutotunePhase::Exploring(_) => Err("cannot set gains during exploration".to_owned()),
        }
    }

    /// Resets the integrator; refused during an exploration.
    pub fn reset_integrator(&mut self) -> (r: Result<(), String>)
        ensures
            (final(self)@, text_result(r))
                == old(self)@.integrator_reset(),
    {
        match &mut self.phase {
            AutotunePhase::Active { gains, state } => {
                state.reset();
                Ok(())
            },
            AutotunePhase::Exploring(_) => Err(
                "cannot reset integrator during exploration".to_owned(),
            ),
        }
    }

    /// Sets the lower bound, which is never above the upper one.
    pub fn set_min_rps(&mut self, min_rps: Num)
        ensures
            final(self)@ == old(self)@.with_min(min_rps),
    {
        self.min_rps = min_rps;
        if self.max_rps.is_lt(self.min_rps) {
            self.min_rps = self.max_rps;
        }
    }

    fn control(&mut self, summary: &MetricsSummary, gains: ComputedGains, state: PidState)
        requires
            old(self).min_rps.le(old(self).max_rps),
        ensures
            final(self)@ == old(self)@.controlled(summary, gains, state),
    {
        let mut state: PidState = state;
        let raw: Num = extract_metric(&self.target_metric, summary);
        let smoothed: Num = state.smooth(raw);
        let input: PidStepInput = PidStepInput {
            current_value: smoothed,
            target_value: self.target_value,
            current_rps: self.current_rps,
            min_rps: self.min_rps,
            max_rps: self.max_rps,
            kp: gains.kp,
            ki: gains.ki,
            kd: gains.kd,
        };
        self.current_rps = pid_step_with_scheduling(&input, &mut state);
        self.phase = AutotunePhase::Active { gains, state };
    }
}

/// A metric of which nothing has been measured.
pub open spec fn fresh_metric(metric: TargetMetric, target_value: Num) -> MetricModel {
    MetricModel {
        metric,
        target_value,
        baseline: Seq::empty(),
        steps: Seq::empty(),
        dead_time: None,
    }
}

impl RateController for AutotuningPidController {
    type Info = AutotuneInfo;

    type Reply = AutotuneReply;

    open spec fn rate(&self) -> Num {
        self.current_rps
    }

    open spec fn accepts(&self, summary: &MetricsSummary, now: u64) -> bool {
        self@.ready()
    }

    open spec fn steps_to(
        &self,
        summary: &MetricsSummary,
        now: u64,
        after: &Self,
        rate: Num,
    ) -> bool {
        after@ == self@.stepped(summary) && rate == after.current_rps
    }

    open spec fn overridable(&self) -> bool {
        self.min_rps.le(self.max_rps)
    }

    open spec fn overridden_to(&self, rps: Num, now: u64, after: &Self) -> bool {
        after@ == self@.overridden(rps)
    }

    open spec fn capped_to(&self, max_rps: Num, after: &Self) -> bool {
        after@ == self@.with_max(max_rps)
    }

    open spec fn shows(&self, now: u64, info: AutotuneInfo) -> bool {
        &&& info.controller_type == ControllerType::PidAutotune
        &&& info.current_rps == self.current_rps
        &&& actions(info.editable_actions@) == self@.offered()
        &&& info.target_metric == self.target_metric
        &&& info.target_value == self.target_value
        &&& info.min_rps == self.min_rps
        &&& info.max_rps == self.max_rps
        &&& info.phase == self@.shown()
    }

    open spec fn answers(
        &self,
        action: Seq<char>,
        params: Seq<Param>,
        now: u64,
        after: &Self,
        answer: Result<AutotuneReply, Seq<char>>,
    ) -> bool {
        (after@, answer) == self@.updated(action, params)
    }

    fn update(&mut self, summary: &MetricsSummary, now: u64) -> (r: RateDecision) {
        let mut chosen: Option<(ComputedGains, PidState)> = None;
        match &mut self.phase {
            AutotunePhase::Exploring(manager) => match manager.tick(summary) {
                Some(rate) => {
                    self.current_rps = rate.clamp(self.min_rps, self.max_rps);
                },
                None => {
                    let gains: ComputedGains = match manager.phase {
                        ExplorationPhase::Complete => {
                            assert(manager@.metrics[0] == manager.metrics@[0]@);
                            manager.compute_gains_for(0)
                        },
                        _ => conservative_gains(),
                    };
                    chosen = Some((gains, PidState::new(self.smoothing)));
                },
            },
            AutotunePhase::Active { gains, state } => {
                if summary.total_requests >= MIN_REQUESTS {
                    chosen = Some((*gains, *state));
                }
            },
        }
        if let Some((gains, state)) = chosen {
            self.control(summary, gains, state);
        }
        RateDecision { target_rps: self.current_rps }
    }

    fn current_rate(&self) -> (r: Num) {
        self.current_rps
    }

    fn set_rate(&mut self, rps: Num, now: u64) {
        self.current_rps = rps.clamp(self.min_rps, self.max_rps);
        if !self.abort_exploration() {
            if let AutotunePhase::Active { gains, state } = &mut self.phase {
                state.reset();
            }
        }
    }

    fn set_max_rps(&mut self, max_rps: Num) {
        self.max_rps = max_rps.max(self.min_rps);
        if self.max_rps.is_lt(self.current_rps) {
            self.current_rps = self.max_rps;
        }
    }

    fn controller_info(&self, now: u64) -> (r: AutotuneInfo) {
        let (phase, editable_actions): (AutotuneShown, Vec<&'static str>) = match &self.phase {
            AutotunePhase::Exploring(manager) => (
                AutotuneShown::Exploring { exploration_progress: manager.exploration_progress() },
                vec!["abort_exploration", "set_max_rps", "set_min_rps"],
            ),
            AutotunePhase::Active { gains, state } => (
                AutotuneShown::Active {
                    gains: PidGainValues { kp: gains.kp, ki: gains.ki, kd: gains.kd },
                    integrator: state.integral,
                    last_error: state.last_error,
                },
                vec![
                    "set_max_rps",
                    "set_min_rps",
                    "set_target_value",
                    "set_gains",
                    "reset_integrator",
                ],
            ),
        };
        assert(actions(editable_actions@) =~= self@.offered());
        AutotuneInfo {
            controller_type: ControllerType::PidAutotune,
            current_rps: self.current_rps,
            editable_actions,
            target_metric: self.target_metric.copy(),
            target_value: self.target_value,
            min_rps: self.min_rps,
            max_rps: self.max_rps,
            phase,
        }
    }

    fn apply_update(&mut self, action: &str, params: &Vec<Param>, now: u64) -> (r: Result<
        AutotuneReply,
        String,
    >) {
        if same(action, "abort_exploration") {
            let was_exploring: bool = self.abort_exploration();
            Ok(AutotuneReply::Aborted { was_exploring })
        } else if same(action, "set_target_value") {
            match number_param(params, "value") {
                Some(new) => {
                    let previous: Num = self.target_value;
                    self.set_target_value(new);
                    Ok(AutotuneReply::TargetValue { previous, new })
                },
                None => Err("missing 'value' field".to_owned()),
            }
        } else if same(action, "set_gains") {
            let kp: Num = match number_param(params, "kp") {
                Some(v) => v,
                None => {
                    return Err("missing 'kp' field".to_owned());
                },
            };
            let ki: Num = match number_param(params, "ki") {
                Some(v) => v,
                None => {
                    return Err("missing 'ki' field".to_owned());
                },
            };
            let kd: Num = match number_param(params, "kd") {
                Some(v) => v,
                None => {
                    return Err("missing 'kd' field".to_owned());
                },
            };
            match self.set_gains(kp, ki, kd) {
                Ok(_) => Ok(AutotuneReply::Gains { new: PidGainValues { kp, ki, kd } }),
                Err(e) => Err(e),
            }
        } else if same(action, "reset_integrator") {
            match self.reset_integrator() {
                Ok(_) => Ok(AutotuneReply::IntegratorReset),
                Err(e) => Err(e),
            }
        } else if same(action, "set_max_rps") {
            match number_param(params, "max_rps") {
                Some(max) => {
                    let previous: Num = self.max_rps;
                    self.set_max_rps(max);
                    Ok(AutotuneReply::MaxRps { previous, new: self.max_rps })
                },
                None => Err("missing 'max_rps' field".to_owned()),
            }
        } else if same(action, "set_min_rps") {
            match number_param(params, "min_rps") {
                Some(min) => {
                    let previous: Num = self.min_rps;
                    self.set_min_rps(min);
                    Ok(AutotuneReply::MinRps { previous, new: self.min_rps })
                },
                None => Err("missing 'min_rps' field".to_owned()),
            }
        } else {
            Err(joined3("action '", action, "' is not valid for controller type 'pid_autotune'"))
        }
    }
}

/// An override ends an exploration for good.
pub proof fn override_ends_exploration(s: AutotuningModel, rps: Num)
    ensures
        s.overridden(rps).phase is Active,
        s.overridden(rps).current_rps == rps.clamp_of(s.min_rps, s.max_rps),
{
}

/// Under control the rate follows the smoothed metric: it does not fall while that lies below its
/// target, nor rise while it lies above, as long as the integral does not speak for it and there
/// is no derivative gain. The gains stay as they were found.
pub proof fn control_moves_towards_the_target(
    s: AutotuningModel,
    summary: &MetricsSummary,
    gains: ComputedGains,
    state: PidState,
)
    requires
        (Num { bits: ZERO }).le(gains.kp) && !gains.kp.inf(),
        (Num { bits: ZERO }).le(gains.ki) && !gains.ki.inf(),
        gains.kd.same(Num { bits: ZERO }),
        (Num { bits: ZERO }).le(s.current_rps),
        s.min_rps.le(s.max_rps),
        !s.controlled(summary, gains, state).current_rps.nan(),
    ensures
        ({
            let zero = Num { bits: ZERO };
            let after = s.controlled(summary, gains, state);
            let smoothed = state.smoothed(metric_value(s.target_metric, summary));
            let held = s.current_rps.clamp_of(s.min_rps, s.max_rps);
            &&& smoothed.le(s.target_value) && zero.le(state.integral) ==> held.le(
                after.current_rps,
            )
            &&& s.target_value.le(smoothed) && state.integral.le(zero) ==> after.current_rps.le(held)
            &&& after.phase matches AutotuneModel::Active { gains: kept, state: next } && kept == gains
                && next.ema_value == smoothed
            &&& after.min_rps == s.min_rps && after.max_rps == s.max_rps && after.target_value
                == s.target_value
        }),
{
    let smoothed = state.smoothed(metric_value(s.target_metric, summary));
    scheduled_step_moves_towards_its_target(
        PidStepInput {
            current_value: smoothed,
            target_value: s.target_value,
            current_rps: s.current_rps,
            min_rps: s.min_rps,
            max_rps: s.max_rps,
            kp: gains.kp,
            ki: gains.ki,
            kd: gains.kd,
        },
        PidState { ema_value: smoothed, ..state },
    );
}

} // verus!
