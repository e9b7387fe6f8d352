//! The policies that an arbiter applies to a composed rate: how fast it may change, what caps it,
//! what holds it up, and how it grows while no constraint objects.

use vstd::arithmetic::power2::*;
use vstd::prelude::*;

use crate::controller::ceiling::ProgressiveCeiling;
use crate::controller::composition::{CompositionResult, ConstraintEval};
use crate::controller::constraint::{ConstraintIntent, ConstraintOutput};
use crate::num::{largest, lemma_one, lemma_value_order, scaling_down, Num, ONE, UNIT, ZERO};
use crate::order::{
    literal_is_decimal, near, product_against, product_is_near, products_keep_order,
    rate_plus_share_is_near, rate_times_offset_is_near, share_is_near,
};
use crate::controller::smoothing::average_weighs_new_and_old;

verus! {

/// 0.95: what is left of the known-good rate after a window without a better one.
pub const KNOWN_GOOD_DECAY: u64 = 0x3fee_6666_6666_6666;

/// 0.3: weight of a new failure rate where no congestion avoidance is configured.
pub const DEFAULT_FAILURE_ALPHA: u64 = 0x3fd3_3333_3333_3333;

/// 0.85
pub const CONGESTION_TRIGGER: u64 = 0x3feb_3333_3333_3333;

/// 0.01
pub const CONGESTION_STEP: u64 = 0x3f84_7ae1_47ae_147b;

/// 1.1
pub const INCREASE_FACTOR: u64 = 0x3ff1_9999_9999_999a;

/// 0.2
pub const MAX_INCREASE: u64 = 0x3fc9_9999_9999_999a;

/// 0.5
pub const MAX_DECREASE: u64 = 0x3fe0_0000_0000_0000;

/// 0.85: exploration is aborted when a catastrophic constraint asks for less than this share of
/// the exploration rate.
pub const EXPLORATION_ABORT_THRESHOLD: u64 = 0x3feb_3333_3333_3333;

/// Suppresses rate increases for some ticks after a backoff.
#[derive(Debug, Clone, Copy, PartialEq, Eq, Structural)]
pub struct CooldownState {
    pub remaining: u32,
    pub min_ticks: u32,
    pub recovery_multiplier: Num,
}

impl CooldownState {
    /// The cooldown one tick later.
    pub open spec fn ticked(self) -> CooldownState {
        CooldownState {
            remaining: if self.remaining > 0 {
                (self.remaining - 1) as u32
            } else {
                0
            },
            ..self
        }
    }

    /// The cooldown opened by a backoff whose longest recovery estimate is given.
    pub open spec fn engaged(self, estimate: Num) -> CooldownState {
        let ticks = if (Num { bits: ZERO }).lt(estimate) {
            estimate.times_of(self.recovery_multiplier).raised(u32::MAX as int)
        } else {
            0
        };
        CooldownState {
            remaining: if ticks > self.min_ticks {
                ticks as u32
            } else {
                self.min_ticks
            },
            ..self
        }
    }

    pub fn new(min_ticks: u32, recovery_multiplier: Num) -> (r: CooldownState)
        ensures
            r == (CooldownState { remaining: 0, min_ticks, recovery_multiplier }),
    {
        CooldownState { remaining: 0, min_ticks, recovery_multiplier }
    }

    pub fn is_active(&self) -> (r: bool)
        ensures
            r == (self.remaining > 0),
    {
        self.remaining > 0
    }

    pub fn tick(&mut self)
        ensures
            *final(self) == old(self).ticked(),
    {
        if self.remaining > 0 {
            self.remaining = self.remaining - 1;
        }
    }

    /// Opens a cooldown, from the longest estimate of the constraints that triggered the backoff;
    /// 0 where none has one.
    pub fn engage(&mut self, max_estimate: Num)
        ensures
            *final(self) == old(self).engaged(max_estimate),
    {
        let mut ticks: u32 = self.min_ticks;
        if (Num { bits: ZERO }).is_lt(max_estimate) {
            let estimated: u32 = max_estimate.times(self.recovery_multiplier).ceil(
                u32::MAX as u64,
            ) as u32;
            if estimated > ticks {
                ticks = estimated;
            }
        }
        self.remaining = ticks;
    }
}

/// Remembers the best recent rate. Once a window has passed without a better one, the memory
/// decays by a fixed factor instead of falling to the current rate. Times are in nanoseconds.
#[derive(Debug, Clone, Copy, PartialEq, Eq, Structural)]
pub struct KnownGoodTracker {
    pub max_recent_rate: Num,
    pub max_recent_rate_time: u64,
    pub floor_fraction: Num,
    pub window: u64,
    pub decay_factor: Num,
}

impl KnownGoodTracker {
    pub open spec fn updated(self, current_rps: Num, now: u64) -> KnownGoodTracker {
        if self.max_recent_rate.lt(current_rps) {
            KnownGoodTracker { max_recent_rate: current_rps, max_recent_rate_time: now, ..self }
        } else if now - self.max_recent_rate_time > self.window {
            KnownGoodTracker {
                max_recent_rate: self.max_recent_rate.times_of(self.decay_factor),
                max_recent_rate_time: now,
                ..self
            }
        } else {
            self
        }
    }

    pub open spec fn floor_of(self, min_rps: Num) -> Num {
        self.max_recent_rate.times_of(self.floor_fraction).max_of(min_rps)
    }

    pub fn new(floor_fraction: Num, window: u64, initial_rate: Num, now: u64) -> (r:
        KnownGoodTracker)
        ensures
            r == (KnownGoodTracker {
                max_recent_rate: initial_rate,
                max_recent_rate_time: now,
                floor_fraction,
                window,
                decay_factor: Num { bits: KNOWN_GOOD_DECAY },
            }),
    {
        KnownGoodTracker {
            max_recent_rate: initial_rate,
            max_recent_rate_time: now,
            floor_fraction,
            window,
            decay_factor: Num { bits: KNOWN_GOOD_DECAY },
        }
    }

    pub fn update(&mut self, current_rps: Num, now: u64)
        ensures
            *final(self) == old(self).updated(current_rps, now),
    {
        if self.max_recent_rate.is_lt(current_rps) {
            self.max_recent_rate = current_rps;
            self.max_recent_rate_time = now;
        } else if now > self.max_recent_rate_time && now - self.max_recent_rate_time
            > self.window {
            self.max_recent_rate = self.max_recent_rate.times(self.decay_factor);
            self.max_recent_rate_time = now;
        }
    }

    /// The rate below which only a catastrophic constraint may push.
    pub fn floor(&self, min_rps: Num) -> (r: Num)
        ensures
            r == self.floor_of(min_rps),
    {
        self.max_recent_rate.times(self.floor_fraction).max(min_rps)
    }
}

/// Near the last known failure rate, growth turns from multiplicative to additive.
#[derive(Debug, Clone, Copy, PartialEq, Eq, Structural)]
pub struct CongestionAvoidanceConfig {
    /// Growth is additive above this fraction of the last failure rate.
    pub trigger_threshold: Num,
    /// The additive step, as a fraction of the failure rate.
    pub additive_fraction: Num,
    /// Smoothing of the failure-rate estimate.
    pub failure_rate_alpha: Num,
}

impl Default for CongestionAvoidanceConfig {
    fn default() -> (r: CongestionAvoidanceConfig)
        ensures
            r == (CongestionAvoidanceConfig {
                trigger_threshold: Num { bits: CONGESTION_TRIGGER },
                additive_fraction: Num { bits: CONGESTION_STEP },
                failure_rate_alpha: Num { bits: DEFAULT_FAILURE_ALPHA },
            }),
    {
        CongestionAvoidanceConfig {
            trigger_threshold: Num { bits: CONGESTION_TRIGGER },
            additive_fraction: Num { bits: CONGESTION_STEP },
            failure_rate_alpha: Num { bits: DEFAULT_FAILURE_ALPHA },
        }
    }
}

/// How the rate grows while no constraint objects.
#[derive(Debug, Clone, Copy, PartialEq, Eq, Structural)]
pub struct IncreasePolicyConfig {
    /// Multiplicative increase factor per clean tick.
    pub increase_factor: Num,
    /// `None`: growth is always multiplicative.
    pub congestion_avoidance: Option<CongestionAvoidanceConfig>,
}

/// The growth that is used unless something else is configured.
pub open spec fn default_increase() -> IncreasePolicyConfig {
    IncreasePolicyConfig {
        increase_factor: Num { bits: INCREASE_FACTOR },
        congestion_avoidance: Some(
            CongestionAvoidanceConfig {
                trigger_threshold: Num { bits: CONGESTION_TRIGGER },
                additive_fraction: Num { bits: CONGESTION_STEP },
                failure_rate_alpha: Num { bits: DEFAULT_FAILURE_ALPHA },
            },
        ),
    }
}

impl Default for IncreasePolicyConfig {
    fn default() -> (r: IncreasePolicyConfig)
        ensures
            r == default_increase(),
    {
        IncreasePolicyConfig {
            increase_factor: Num { bits: INCREASE_FACTOR },
            congestion_avoidance: Some(CongestionAvoidanceConfig::default()),
        }
    }
}

/// The increase policy with what it has learned about failure.
#[derive(Debug, Clone, Copy, PartialEq, Eq, Structural)]
pub struct IncreasePolicy {
    pub config: IncreasePolicyConfig,
    pub failure_rate_ema: Num,
    pub backoff_count: u32,
}

impl IncreasePolicy {
    /// The rate that follows if no constraint objects.
    pub open spec fn next(self, current_rps: Num, in_cooldown: bool) -> Num {
        if in_cooldown {
            current_rps
        } else {
            match self.config.congestion_avoidance {
                Some(ca) => if (Num { bits: ZERO }).lt(self.failure_rate_ema)
                    && self.failure_rate_ema.times_of(ca.trigger_threshold).lt(current_rps) {
                    current_rps.plus_of(self.failure_rate_ema.times_of(ca.additive_fraction))
                } else {
                    current_rps.times_of(self.config.increase_factor)
                },
                None => current_rps.times_of(self.config.increase_factor),
            }
        }
    }

    pub open spec fn alpha(self) -> Num {
        match self.config.congestion_avoidance {
            Some(ca) => ca.failure_rate_alpha,
            None => Num { bits: DEFAULT_FAILURE_ALPHA },
        }
    }

    /// The policy once a backoff at a rate has entered its estimate.
    pub open spec fn recorded(self, current_rps: Num) -> IncreasePolicy {
        IncreasePolicy {
            failure_rate_ema: if self.failure_rate_ema.same(Num { bits: ZERO }) {
                current_rps
            } else {
                self.alpha().times_of(current_rps).plus_of(
                    (Num { bits: ONE }).minus_of(self.alpha()).times_of(self.failure_rate_ema),
                )
            },
            backoff_count: (self.backoff_count + 1) as u32,
            ..self
        }
    }

    pub fn new(config: IncreasePolicyConfig) -> (r: IncreasePolicy)
        ensures
            r == (IncreasePolicy {
                config,
                failure_rate_ema: Num { bits: ZERO },
                backoff_count: 0,
            }),
    {
        IncreasePolicy { config, failure_rate_ema: Num { bits: ZERO }, backoff_count: 0 }
    }

    /// The rate that follows if no constraint objects.
    pub fn compute(&self, current_rps: Num, cooldown: &CooldownState) -> (r: Num)
        ensures
            r == self.next(current_rps, cooldown.remaining > 0),
    {
        if cooldown.is_active() {
            return current_rps;
        }
        match self.config.congestion_avoidance {
            Some(ca) => {
                if (Num { bits: ZERO }).is_lt(self.failure_rate_ema) && self.failure_rate_ema.times(
                    ca.trigger_threshold,
                ).is_lt(current_rps) {
                    current_rps.plus(self.failure_rate_ema.times(ca.additive_fraction))
                } else {
                    current_rps.times(self.config.increase_factor)
                }
            },
            None => current_rps.times(self.config.increase_factor),
        }
    }

    pub fn record_backoff(&mut self, current_rps: Num)
        requires
            old(self).backoff_count < u32::MAX,
        ensures
            *final(self) == old(self).recorded(current_rps),
    {
        let alpha: Num = match self.config.congestion_avoidance {
            Some(ca) => ca.failure_rate_alpha,
            None => Num { bits: DEFAULT_FAILURE_ALPHA },
        };
        if self.failure_rate_ema.is_same(Num { bits: ZERO }) {
            self.failure_rate_ema = current_rps;
        } else {
            self.failure_rate_ema = alpha.times(current_rps).plus(
                (Num { bits: ONE }).minus(alpha).times(self.failure_rate_ema),
            );
        }
        self.backoff_count = self.backoff_count + 1;
    }
}

/// How far the rate may move in one tick, as fractions of the current rate. By default decreases
/// may be larger than increases: overshoot costs more than undershoot.
#[derive(Debug, Clone, Copy, PartialEq, Eq, Structural)]
pub struct RateChangeLimits {
    pub max_increase_pct: Num,
    pub max_decrease_pct: Num,
}

/// The limits that are used unless others are configured.
pub open spec fn default_limits() -> RateChangeLimits {
    RateChangeLimits {
        max_increase_pct: Num { bits: MAX_INCREASE },
        max_decrease_pct: Num { bits: MAX_DECREASE },
    }
}

impl Default for RateChangeLimits {
    fn default() -> (r: RateChangeLimits)
        ensures
            r == default_limits(),
    {
        RateChangeLimits {
            max_increase_pct: Num { bits: MAX_INCREASE },
            max_decrease_pct: Num { bits: MAX_DECREASE },
        }
    }
}

impl RateChangeLimits {
    pub open spec fn highest(self, current: Num) -> Num {
        current.times_of((Num { bits: ONE }).plus_of(self.max_increase_pct))
    }

    pub open spec fn lowest(self, current: Num) -> Num {
        current.times_of((Num { bits: ONE }).minus_of(self.max_decrease_pct))
    }

    /// The band around the current rate is a band.
    pub open spec fn fits(self, current: Num) -> bool {
        self.lowest(current).le(self.highest(current))
    }

    pub fn clamp(&self, desired: Num, current: Num) -> (r: Num)
        requires
            self.fits(current),
        ensures
            r == desired.clamp_of(self.lowest(current), self.highest(current)),
    {
        let max_up: Num = current.times((Num { bits: ONE }).plus(self.max_increase_pct));
        let max_down: Num = current.times((Num { bits: ONE }).minus(self.max_decrease_pct));
        desired.clamp(max_down, max_up)
    }
}

impl ProgressiveCeiling {
    /// The ceiling once a milestone that has been reached is noted.
    pub open spec fn noted(self, now: u64) -> ProgressiveCeiling {
        if self.quarter(now) > self.last_milestone {
            ProgressiveCeiling { last_milestone: self.quarter(now) as u8, ..self }
        } else {
            self
        }
    }
}

/// Everything an arbiter knows besides its constraints: the rate and the policies on it. Times are
/// in nanoseconds.
#[derive(Clone, Copy)]
pub struct ArbiterPolicy {
    pub current_rps: Num,
    pub initial_rps: Num,
    pub min_rps: Num,
    pub max_rps: Num,
    pub ceiling: ProgressiveCeiling,
    pub cooldown: CooldownState,
    pub known_good: KnownGoodTracker,
    pub increase: IncreasePolicy,
    pub rate_change_limits: RateChangeLimits,
    pub backoff_detection_threshold: Num,
    pub ticks_since_increase: u32,
    pub ramping_ticks: u32,
}

impl ArbiterPolicy {
    /// The bounds are in order, the band around the current rate is a band, and every counter has
    /// room for one more tick.
    pub open spec fn ready(self) -> bool {
        &&& self.min_rps.le(self.max_rps)
        &&& self.rate_change_limits.fits(self.current_rps)
        &&& self.ramping_ticks < u32::MAX
        &&& self.increase.backoff_count < u32::MAX
    }

    /// The rate that follows if no constraint objects.
    pub open spec fn increase_rate(self) -> Num {
        self.increase.next(self.current_rps, self.cooldown.remaining > 0)
    }

    /// A constraint that asks for less than this asks for a backoff.
    pub open spec fn backoff_line(self) -> Num {
        self.current_rps.times_of(self.backoff_detection_threshold)
    }

    /// Whether the composed rate is a backoff that a constraint asked for. What the ceiling or an
    /// override takes away is none.
    pub open spec fn backs_off(self, composed: CompositionResult) -> bool {
        composed.binding is Some && composed.rate.lt(self.backoff_line())
    }

    /// The composed rate within the change limits and below the ceiling.
    pub open spec fn capped(self, composed: CompositionResult, now: u64) -> Num {
        composed.rate.clamp_of(
            self.rate_change_limits.lowest(self.current_rps),
            self.rate_change_limits.highest(self.current_rps),
        ).min_of(self.ceiling.height(now))
    }

    /// The floor under the rate in this tick.
    pub open spec fn floor(self, now: u64) -> Num {
        self.known_good.updated(self.current_rps, now).floor_of(self.min_rps)
    }

    /// The rate after all policies. `catastrophic` tells whether a catastrophic constraint binds:
    /// then the floor does not hold.
    pub open spec fn decided(
        self,
        composed: CompositionResult,
        catastrophic: bool,
        now: u64,
    ) -> Num {
        let capped = self.capped(composed, now);
        (if catastrophic {
            capped
        } else {
            capped.max_of(self.floor(now))
        }).clamp_of(self.min_rps, self.max_rps)
    }

    /// The policies once a rate has been decided, before its consequences.
    pub open spec fn watched(self, now: u64) -> ArbiterPolicy {
        ArbiterPolicy {
            ramping_ticks: (self.ramping_ticks + 1) as u32,
            ceiling: self.ceiling.noted(now),
            known_good: self.known_good.updated(self.current_rps, now),
            ..self
        }
    }

    /// The policies once a rate is in force. `estimate` is the longest recovery estimate among the
    /// constraints that triggered a backoff.
    pub open spec fn settled(self, rate: Num, backoff: bool, estimate: Num) -> ArbiterPolicy {
        ArbiterPolicy {
            increase: if backoff {
                self.increase.recorded(self.current_rps)
            } else {
                self.increase
            },
            cooldown: if backoff {
                self.cooldown.engaged(estimate)
            } else {
                self.cooldown.ticked()
            },
            ticks_since_increase: if self.current_rps.lt(rate) {
                0
            } else if self.ticks_since_increase < u32::MAX {
                (self.ticks_since_increase + 1) as u32
            } else {
                u32::MAX
            },
            current_rps: rate,
            ..self
        }
    }

    /// One tick of active control.
    pub open spec fn ticked(
        self,
        composed: CompositionResult,
        catastrophic: bool,
        estimate: Num,
        now: u64,
    ) -> ArbiterPolicy {
        self.watched(now).settled(
            self.decided(composed, catastrophic, now),
            self.backs_off(composed),
            estimate,
        )
    }

    /// The policies once exploration is over: the rate is that of the warmup, if there is one, and
    /// otherwise the initial rate, from which the ceiling starts to rise.
    pub open spec fn explored(self, warmup_rps: Option<Num>, now: u64) -> ArbiterPolicy {
        match warmup_rps {
            Some(rps) => ArbiterPolicy { current_rps: rps, ..self },
            None => ArbiterPolicy {
                current_rps: self.initial_rps,
                ceiling: ProgressiveCeiling { start_time: Some(now), ..self.ceiling },
                ..self
            },
        }
    }

    /// The policies once warmup is over: the ceiling starts, and the warmup rate is known good.
    pub open spec fn warmed(self, warmup_rps: Num, now: u64) -> ArbiterPolicy {
        ArbiterPolicy {
            ceiling: ProgressiveCeiling { start_time: Some(now), ..self.ceiling },
            known_good: KnownGoodTracker {
                max_recent_rate: warmup_rps,
                max_recent_rate_time: now,
                floor_fraction: self.known_good.floor_fraction,
                window: self.known_good.window,
                decay_factor: Num { bits: KNOWN_GOOD_DECAY },
            },
            ..self
        }
    }

    /// Decides the rate of this tick from what was composed.
    pub fn decide(&mut self, composed: CompositionResult, catastrophic: bool, now: u64) -> (r: Num)
        requires
            old(self).ready(),
        ensures
            r == old(self).decided(composed, catastrophic, now),
            *final(self) == old(self).watched(now),
    {
        self.ramping_ticks = self.ramping_ticks + 1;
        let mut rate: Num = self.rate_change_limits.clamp(composed.rate, self.current_rps);
        let ceiling: Num = self.ceiling.ceiling(now);
        self.ceiling.check_milestone(now);
        rate = rate.min(ceiling);
        self.known_good.update(self.current_rps, now);
        let floor: Num = self.known_good.floor(self.min_rps);
        if !catastrophic {
            rate = rate.max(floor);
        }
        rate.clamp(self.min_rps, self.max_rps)
    }

    /// Whether the composed rate is a backoff that a constraint asked for.
    pub fn is_backoff(&self, composed: CompositionResult) -> (r: bool)
        ensures
            r == self.backs_off(composed),
    {
        composed.binding.is_some() && composed.rate.is_lt(
            self.current_rps.times(self.backoff_detection_threshold),
        )
    }

    /// Puts a decided rate in force. The tick on which a cooldown opens does not count against it.
    pub fn settle(&mut self, rate: Num, backoff: bool, estimate: Num)
        requires
            backoff ==> old(self).increase.backoff_count < u32::MAX,
        ensures
            *final(self) == old(self).settled(rate, backoff, estimate),
    {
        if backoff {
            self.increase.record_backoff(self.current_rps);
            self.cooldown.engage(estimate);
        } else {
            self.cooldown.tick();
        }
        if self.current_rps.is_lt(rate) {
            self.ticks_since_increase = 0;
        } else if self.ticks_since_increase < u32::MAX {
            self.ticks_since_increase = self.ticks_since_increase + 1;
        }
        self.current_rps = rate;
    }

    /// Leaves exploration, for warmup where it is configured and for active control otherwise.
    pub fn leave_exploration(&mut self, warmup_rps: Option<Num>, now: u64)
        ensures
            *final(self) == old(self).explored(warmup_rps, now),
    {
        match warmup_rps {
            Some(rps) => {
                self.current_rps = rps;
            },
            None => {
                self.current_rps = self.initial_rps;
                self.ceiling.start_now(now);
            },
        }
    }

    /// Leaves warmup for active control.
    pub fn leave_warmup(&mut self, warmup_rps: Num, now: u64)
        ensures
            *final(self) == old(self).warmed(warmup_rps, now),
    {
        self.ceiling.start_now(now);
        self.known_good =
        KnownGoodTracker::new(
            self.known_good.floor_fraction,
            self.known_good.window,
            warmup_rps,
            now,
        );
    }
}

/// The longest recovery estimate among the first `n` opinions that ask for less than `line`; 0
/// where none has an estimate. `estimates` holds one entry per constraint.
pub open spec fn longest_recovery(
    evals: Seq<ConstraintEval>,
    estimates: Seq<Option<Num>>,
    line: Num,
    n: int,
) -> Num
    decreases n,
{
    if n <= 0 {
        Num { bits: ZERO }
    } else {
        let before = longest_recovery(evals, estimates, line, n - 1);
        let e = evals[n - 1];
        if e.desired_rate.lt(line) {
            match estimates[e.constraint_index as int] {
                Some(x) => before.max_of(x),
                None => before,
            }
        } else {
            before
        }
    }
}

/// The longest recovery estimate among the opinions that ask for less than `line`.
pub fn find_longest_recovery(
    evals: &Vec<ConstraintEval>,
    estimates: &Vec<Option<Num>>,
    line: Num,
) -> (r: Num)
    requires
        forall|k: int|
            0 <= k < evals.len() ==> (#[trigger] evals@[k]).constraint_index < estimates.len(),
    ensures
        r == longest_recovery(evals@, estimates@, line, evals.len() as int),
{
    let mut longest: Num = Num { bits: ZERO };
    let mut i: usize = 0;
    while i < evals.len()
        invariant
            i <= evals.len(),
            forall|k: int|
                0 <= k < evals.len() ==> (#[trigger] evals@[k]).constraint_index < estimates.len(),
            longest == longest_recovery(evals@, estimates@, line, i as int),
        decreases evals.len() - i,
    {
        if evals[i].desired_rate.is_lt(line) {
            if let Some(x) = estimates[evals[i].constraint_index] {
                longest = longest.max(x);
            }
        }
        i = i + 1;
    }
    longest
}

/// Whether what a catastrophic constraint says ends an exploration at a rate.
pub open spec fn aborts(output: ConstraintOutput, rate: Num) -> bool {
    match output.intent {
        ConstraintIntent::NoObjection => false,
        ConstraintIntent::Hold(held) => (Num { bits: ONE }).le(output.severity),
        ConstraintIntent::DesireRate(d) => d.lt(
            rate.times_of(Num { bits: EXPLORATION_ABORT_THRESHOLD }),
        ),
    }
}

/// The rate that the first `n` outputs leave of an exploration rate, and whether one of them ends
/// the exploration. `None` stands for a constraint that was not asked or is inactive.
pub open spec fn weighed(outputs: Seq<Option<ConstraintOutput>>, rate: Num, n: int) -> (Num, bool)
    decreases n,
{
    if n <= 0 {
        (rate, false)
    } else {
        let (safe, abort) = weighed(outputs, rate, n - 1);
        match outputs[n - 1] {
            Some(output) => if aborts(output, safe) {
                match output.intent {
                    ConstraintIntent::DesireRate(d) => (safe.min_of(d), true),
                    _ => (safe, true),
                }
            } else {
                (safe, abort)
            },
            None => (safe, abort),
        }
    }
}

/// The rate that catastrophic constraints leave of an exploration rate, and whether one of them
/// ends the exploration.
pub fn weigh_safety(outputs: &Vec<Option<ConstraintOutput>>, rate: Num) -> (r: (Num, bool))
    ensures
        r == weighed(outputs@, rate, outputs.len() as int),
{
    let mut safe: Num = rate;
    let mut should_abort: bool = false;
    let mut i: usize = 0;
    while i < outputs.len()
        invariant
            i <= outputs.len(),
            (safe, should_abort) == weighed(outputs@, rate, i as int),
        decreases outputs.len() - i,
    {
        if let Some(output) = outputs[i] {
            match output.intent {
                ConstraintIntent::NoObjection => {},
                ConstraintIntent::Hold(_) => {
                    if (Num { bits: ONE }).is_le(output.severity) {
                        should_abort = true;
                    }
                },
                ConstraintIntent::DesireRate(d) => {
                    if d.is_lt(safe.times(Num { bits: EXPLORATION_ABORT_THRESHOLD })) {
                        should_abort = true;
                        safe = safe.min(d);
                    }
                },
            }
        }
        i = i + 1;
    }
    (safe, should_abort)
}

/// Whatever number was composed, the rate lies within its absolute bounds.
pub proof fn decision_stays_in_bounds(
    p: ArbiterPolicy,
    composed: CompositionResult,
    catastrophic: bool,
    now: u64,
)
    requires
        p.ready(),
        !composed.rate.nan(),
    ensures
        p.min_rps.le(p.decided(composed, catastrophic, now)),
        p.decided(composed, catastrophic, now).le(p.max_rps),
{
}

/// Unless a catastrophic constraint binds, the rate does not fall below the known-good floor, as
/// far as the upper bound allows.
pub proof fn floor_holds(p: ArbiterPolicy, composed: CompositionResult, now: u64)
    requires
        p.ready(),
        !composed.rate.nan(),
    ensures
        ({
            let rate = p.decided(composed, false, now);
            p.floor(now).le(rate) || p.max_rps.le(rate)
        }),
{
}

/// A catastrophic constraint can push below the floor: its rate is held by the change limits, the
/// ceiling and the absolute bounds alone.
pub proof fn catastrophe_bypasses_floor(p: ArbiterPolicy, composed: CompositionResult, now: u64)
    ensures
        p.decided(composed, true, now) == p.capped(composed, now).clamp_of(p.min_rps, p.max_rps),
{
}

/// During a cooldown the rate that follows without objections is the current one.
pub proof fn cooldown_suppresses_growth(p: ArbiterPolicy)
    requires
        p.cooldown.remaining > 0,
    ensures
        p.increase_rate() == p.current_rps,
{
}

/// A backoff opens a cooldown of at least the minimum, is counted, and costs the cooldown no tick.
pub proof fn backoff_opens_cooldown(
    p: ArbiterPolicy,
    composed: CompositionResult,
    catastrophic: bool,
    estimate: Num,
    now: u64,
)
    requires
        p.ready(),
        p.backs_off(composed),
    ensures
        ({
            let q = p.ticked(composed, catastrophic, estimate, now);
            &&& q.cooldown.remaining >= p.cooldown.min_ticks
            &&& q.cooldown == p.cooldown.engaged(estimate)
            &&& q.increase.backoff_count == p.increase.backoff_count + 1
        }),
{
}

/// Where no constraint binds, a falling rate is no backoff: nothing is learned about failure, and
/// a running cooldown goes on.
pub proof fn only_constraints_back_off(
    p: ArbiterPolicy,
    composed: CompositionResult,
    catastrophic: bool,
    estimate: Num,
    now: u64,
)
    requires
        composed.binding is None,
    ensures
        ({
            let q = p.ticked(composed, catastrophic, estimate, now);
            q.increase == p.increase && q.cooldown == p.cooldown.ticked()
        }),
{
}

/// Constraints that did not trigger a backoff have no say in how long the cooldown lasts.
pub proof fn bystanders_do_not_prolong(
    evals: Seq<ConstraintEval>,
    estimates: Seq<Option<Num>>,
    line: Num,
    n: int,
    at: usize,
    other: Option<Num>,
)
    requires
        0 <= n <= evals.len(),
        at < estimates.len(),
        forall|k: int|
            0 <= k < n ==> (#[trigger] evals[k]).constraint_index < estimates.len(),
        forall|k: int|
            0 <= k < n && (#[trigger] evals[k]).desired_rate.lt(line) ==> evals[k].constraint_index
                != at,
    ensures
        longest_recovery(evals, estimates, line, n) == longest_recovery(
            evals,
            estimates.update(at as int, other),
            line,
            n,
        ),
    decreases n,
{
    if n > 0 {
        bystanders_do_not_prolong(evals, estimates, line, n - 1, at, other);
        let e = evals[n - 1];
        if e.desired_rate.lt(line) {
            assert(estimates.update(at as int, other)[e.constraint_index as int]
                == estimates[e.constraint_index as int]);
        }
    }
}

/// Near the last failure rate growth is additive: the next rate is the current one plus the
/// additive fraction of the failure rate. Near is where the current rate lies above the trigger
/// share of the failure rate, by at least one double: `line` lies between.
pub proof fn growth_is_additive_near_failure(p: IncreasePolicy, current: Num, line: Num, size: int)
    requires
        (Num { bits: ZERO }).le(current) && !current.inf(),
        (Num { bits: ZERO }).lt(p.failure_rate_ema) && !p.failure_rate_ema.inf(),
        p.config.congestion_avoidance matches Some(ca) && {
            &&& (Num { bits: ZERO }).le(ca.additive_fraction)
            &&& ca.additive_fraction.le(Num { bits: ONE })
            &&& !ca.trigger_threshold.nan() && !ca.trigger_threshold.inf()
            &&& p.failure_rate_ema.value() * ca.trigger_threshold.value() <= pow2(UNIT as nat)
                * line.value()
        },
        !line.inf(),
        line.lt(current),
        current.value() + p.failure_rate_ema.value() <= size <= largest(),
    ensures
        ({
            let ca = p.config.congestion_avoidance->0;
            let u = pow2(UNIT as nat) as int;
            near(
                p.next(current, false),
                u * current.value() + p.failure_rate_ema.value() * ca.additive_fraction.value(),
                u,
                size,
            )
        }),
{
    let ca = p.config.congestion_avoidance->0;
    product_against(p.failure_rate_ema, ca.trigger_threshold, line);
    rate_plus_share_is_near(current, p.failure_rate_ema, ca.additive_fraction, size);
}

/// Anywhere else growth is multiplicative: the next rate is the current one times the factor. That
/// is so without congestion avoidance, before the first failure, and up to the trigger share of the
/// failure rate.
pub proof fn growth_is_multiplicative_elsewhere(p: IncreasePolicy, current: Num, size: int)
    requires
        (Num { bits: ZERO }).le(current) && !current.inf(),
        (Num { bits: ZERO }).le(p.config.increase_factor) && !p.config.increase_factor.inf(),
        p.failure_rate_ema.le(Num { bits: ZERO }) || p.config.congestion_avoidance is None || (
        p.config.congestion_avoidance matches Some(ca) && !p.failure_rate_ema.nan()
            && !p.failure_rate_ema.inf() && !ca.trigger_threshold.nan()
            && !ca.trigger_threshold.inf() && p.failure_rate_ema.value()
            * ca.trigger_threshold.value() >= pow2(UNIT as nat) * current.value()),
        current.value() * p.config.increase_factor.value() <= pow2(UNIT as nat) * size,
        0 <= size <= largest(),
    ensures
        near(
            p.next(current, false),
            current.value() * p.config.increase_factor.value(),
            pow2(UNIT as nat) as int,
            size,
        ),
{
    let f = p.config.increase_factor;
    lemma_value_order(Num { bits: ZERO }, current);
    lemma_value_order(Num { bits: ZERO }, f);
    lemma_value_order(current, current);
    lemma_value_order(f, f);
    assert(current.value() * f.value() >= 0 && -(pow2(UNIT as nat) * size) <= 0)
        by (nonlinear_arith)
        requires
            current.value() >= 0,
            f.value() >= 0,
            size >= 0,
            pow2(UNIT as nat) >= 0,
    ;
    product_is_near(current, f, size);
    if let Some(ca) = p.config.congestion_avoidance {
        if !p.failure_rate_ema.le(Num { bits: ZERO }) {
            product_against(p.failure_rate_ema, ca.trigger_threshold, current);
        }
    }
}

/// 2^20 times the smallest double. On rates below it, rounding counts for more than growth.
pub const SMALLEST_RATE: u64 = 0x10_0000;

/// The default growth: near the last failure rate, from 85 % of it on, a hundredth of that rate per
/// tick, and a tenth of the current rate per tick otherwise. The former is the smaller step.
pub proof fn default_growth_slows_near_failure(p: IncreasePolicy, current: Num, size: int)
    requires
        p.config == default_increase(),
        (Num { bits: SMALLEST_RATE }).le(current) && !current.inf(),
        (Num { bits: ZERO }).le(p.failure_rate_ema) && !p.failure_rate_ema.inf(),
        2 * (current.value() + p.failure_rate_ema.value()) <= size <= largest(),
    ensures
        ({
            let next = p.next(current, false);
            let f = p.failure_rate_ema.value();
            let c = current.value();
            &&& current.le(next)
            &&& f > 0 && 1000 * c >= 851 * f ==> near(next, 100 * c + f, 100, size)
                && 100 * next.value() <= 102 * c
            &&& f == 0 || 1000 * c <= 849 * f ==> near(next, 11 * c, 10, size) && 100
                * next.value() >= 109 * c
            &&& 100 * next.value() <= 111 * c
        }),
{
    let zero = Num { bits: ZERO };
    let u = pow2(UNIT as nat) as int;
    let trigger = Num { bits: CONGESTION_TRIGGER };
    let step = Num { bits: CONGESTION_STEP };
    let factor = Num { bits: INCREASE_FACTOR };
    let failure = p.failure_rate_ema;
    lemma_one();
    lemma2_to64();
    lemma2_to64_rest();
    literal_is_decimal(trigger, 0x1b_3333_3333_3333, 1021, 0x20_0000_0000_0000, 85, 100);
    literal_is_decimal(step, 0x14_7ae1_47ae_147b, 1015, 0x800_0000_0000_0000, 1, 100);
    literal_is_decimal(factor, 0x11_9999_9999_999a, 1022, 0x10_0000_0000_0000, 11, 10);
    lemma_value_order(zero, current);
    lemma_value_order(current, current);
    lemma_value_order(zero, failure);
    lemma_value_order(failure, failure);
    lemma_value_order(trigger, Num { bits: ONE });
    lemma_value_order(step, Num { bits: ONE });
    lemma_smallest_rate(current);
    let c = current.value();
    let f = failure.value();
    let t = trigger.value();
    let a = step.value();
    let g = factor.value();
    let k = 0x10_0000_0000_0000int;
    // Where growth turns additive.
    let bar = failure.times_of(trigger);
    assert(0 <= f * t <= u * size) by (nonlinear_arith)
        requires
            0 <= f <= size,
            0 <= t <= u,
    ;
    assert(-(u * f) <= f * t <= u * f) by (nonlinear_arith)
        requires
            0 <= f,
            0 <= t <= u,
    ;
    product_is_near(failure, trigger, f);
    lemma_value_order(bar, current);
    let b = bar.value();
    assert(10000000 * (f * t) <= 8500001 * (f * u) && 10000000 * (f * t) >= 8499999 * (f * u))
        by (nonlinear_arith)
        requires
            10000000 * t <= 8500001 * u,
            10000000 * t >= 8499999 * u,
            f >= 0,
    ;
    assert(10000000 * (k * b) <= 8500001 * (k * f) + 10000000 * (f + k)) by (nonlinear_arith)
        requires
            k * (u * b - f * t) <= u * (f + k),
            10000000 * (f * t) <= 8500001 * (f * u),
            u > 0,
            k > 0,
    ;
    assert(10000000 * (k * b) >= 8499999 * (k * f) - 10000000 * (f + k)) by (nonlinear_arith)
        requires
            k * (f * t - u * b) <= u * (f + k),
            10000000 * (f * t) >= 8499999 * (f * u),
            u > 0,
            k > 0,
    ;
    // The additive step.
    rate_plus_share_is_near(current, failure, step, c + f);
    let plus = current.plus_of(failure.times_of(step));
    let pv = plus.value();
    let h = 0x1_0000_0000_0000int;
    let q = 0x4_0000_0000_0000int;
    assert(q * (100 * (f * a) - f * u) <= 100 * (f * u) && q * (f * u - 100 * (f * a)) <= 100 * (f
        * u)) by (nonlinear_arith)
        requires
            q * (100 * a - u) <= 100 * u,
            q * (u - 100 * a) <= 100 * u,
            f >= 0,
    ;
    let s = c + f;
    assert(h * (100 * pv - (100 * c + f)) <= 100 * (2 * s + k)) by (nonlinear_arith)
        requires
            h * (u * pv - (u * c + f * a)) <= u * (s + k),
            q * (100 * (f * a) - f * u) <= 100 * (f * u),
            q == 4 * h,
            s >= f,
            u > 0,
            f >= 0,
            h > 0,
    ;
    assert(h * ((100 * c + f) - 100 * pv) <= 100 * (2 * s + k)) by (nonlinear_arith)
        requires
            h * ((u * c + f * a) - u * pv) <= u * (s + k),
            q * (f * u - 100 * (f * a)) <= 100 * (f * u),
            q == 4 * h,
            s >= f,
            u > 0,
            f >= 0,
            h > 0,
    ;
    assert(near(plus, 100 * c + f, 100, size));
    // The multiplicative one.
    assert(-(u * (2 * c)) <= c * g <= u * (2 * c)) by (nonlinear_arith)
        requires
            0 <= c,
            0 <= g <= 2 * u,
    ;
    product_is_near(current, factor, 2 * c);
    let times = current.times_of(factor);
    let tv = times.value();
    assert(q * (10 * (c * g) - 11 * (c * u)) <= 10 * (c * u) && q * (11 * (c * u) - 10 * (c * g))
        <= 10 * (c * u)) by (nonlinear_arith)
        requires
            q * (10 * g - 11 * u) <= 10 * u,
            q * (11 * u - 10 * g) <= 10 * u,
            c >= 0,
    ;
    assert(k * (10 * tv - 11 * c) <= 10 * (6 * c + k)) by (nonlinear_arith)
        requires
            k * (u * tv - c * g) <= u * (2 * c + k),
            q * (10 * (c * g) - 11 * (c * u)) <= 10 * (c * u),
            k == 4 * q,
            u > 0,
            c >= 0,
            q > 0,
    ;
    assert(k * (11 * c - 10 * tv) <= 10 * (6 * c + k)) by (nonlinear_arith)
        requires
            k * (c * g - u * tv) <= u * (2 * c + k),
            q * (11 * (c * u) - 10 * (c * g)) <= 10 * (c * u),
            k == 4 * q,
            u > 0,
            c >= 0,
            q > 0,
    ;
    assert(near(times, 11 * c, 10, size));
    lemma_value_order(current, times);
    lemma_value_order(times, current);
    scaling_down(failure, step);
    crate::num::adding_grows(current, failure.times_of(step));
    if f > 0 && b < c {
        // The failure rate is not far above the current one.
        assert(8400000 * f <= 10000000 * c + 40000000);
    }
}

proof fn lemma_smallest_rate(current: Num)
    requires
        (Num { bits: SMALLEST_RATE }).le(current),
    ensures
        current.value() >= 0x10_0000,
{
    let least = Num { bits: SMALLEST_RATE };
    crate::rounding::lemma_units_packed(0x10_0000, 0);
    lemma2_to64();
    lemma_value_order(least, current);
}

/// The failure rate is an average over the rates at which backoffs happened: the first one as it
/// is, each later one with its weight. A backoff is counted, and changes nothing else.
pub proof fn failure_rate_averages_backoffs(p: IncreasePolicy, current: Num, bound: int)
    requires
        p.backoff_count < u32::MAX,
        (Num { bits: ZERO }).le(current) && !current.inf() && current.value() <= bound,
        (Num { bits: ZERO }).le(p.failure_rate_ema) && !p.failure_rate_ema.inf(),
        p.failure_rate_ema.value() <= bound <= largest(),
        p.config.congestion_avoidance matches Some(ca) ==> (Num { bits: ZERO }).le(
            ca.failure_rate_alpha,
        ) && ca.failure_rate_alpha.le(Num { bits: ONE }),
    ensures
        ({
            let q = p.recorded(current);
            let u = pow2(UNIT as nat) as int;
            let old = p.failure_rate_ema.value();
            &&& q.backoff_count == p.backoff_count + 1
            &&& q.config == p.config
            &&& old == 0 ==> q.failure_rate_ema == current
            &&& old != 0 ==> match p.config.congestion_avoidance {
                Some(ca) => near(
                    q.failure_rate_ema,
                    ca.failure_rate_alpha.value() * current.value() + (u
                        - ca.failure_rate_alpha.value()) * old,
                    u,
                    bound,
                ),
                None => near(q.failure_rate_ema, 3 * current.value() + 7 * old, 10, 4 * bound),
            }
        }),
{
    let zero = Num { bits: ZERO };
    let alpha = p.alpha();
    let default_alpha = Num { bits: DEFAULT_FAILURE_ALPHA };
    let u = pow2(UNIT as nat) as int;
    lemma_one();
    lemma2_to64();
    lemma2_to64_rest();
    literal_is_decimal(default_alpha, 0x13_3333_3333_3333, 1020, 0x40_0000_0000_0000, 3, 10);
    lemma_value_order(zero, p.failure_rate_ema);
    lemma_value_order(p.failure_rate_ema, p.failure_rate_ema);
    lemma_value_order(zero, current);
    let x = current.value();
    let v = p.failure_rate_ema.value();
    average_weighs_new_and_old(alpha, current, p.failure_rate_ema, bound);
    if p.config.congestion_avoidance is None && v != 0 {
        let a = default_alpha.value();
        let r = p.recorded(current).failure_rate_ema.value();
        let h = 0x1_0000_0000_0000int;
        let exact = a * x + (u - a) * v;
        assert(10 * exact - u * (3 * x + 7 * v) == (10 * a - 3 * u) * (x - v)) by (nonlinear_arith)
            requires
                exact == a * x + (u - a) * v,
        ;
        let e = 10 * a - 3 * u;
        let d = e * (x - v);
        assert(-(10 * (u * bound)) <= 4 * h * d <= 10 * (u * bound)) by (nonlinear_arith)
            requires
                4 * h * e <= 10 * u,
                4 * h * (-e) <= 10 * u,
                -bound <= x - v <= bound,
                d == e * (x - v),
                h > 0,
                u > 0,
        ;
        let t = 3 * x + 7 * v;
        let k = 0x10_0000_0000_0000int;
        assert(h * (10 * r - t) <= 10 * (4 * bound + k)) by (nonlinear_arith)
            requires
                h * (u * r - exact) <= u * (bound + k),
                10 * exact - u * t == d,
                4 * h * d <= 10 * (u * bound),
                u > 0,
                bound >= 0,
                h > 0,
        ;
        assert(h * (t - 10 * r) <= 10 * (4 * bound + k)) by (nonlinear_arith)
            requires
                h * (exact - u * r) <= u * (bound + k),
                10 * exact - u * t == d,
                -(10 * (u * bound)) <= 4 * h * d,
                u > 0,
                bound >= 0,
                h > 0,
        ;
    }
}

/// A cooldown lasts as long as the recovery is expected to take, times the multiplier, in whole
/// ticks rounded up, and the minimum at least.
pub proof fn cooldown_covers_the_recovery(c: CooldownState, estimate: Num, size: int)
    requires
        !estimate.nan() && !estimate.inf(),
        (Num { bits: ZERO }).le(c.recovery_multiplier) && !c.recovery_multiplier.inf(),
        0 <= size <= largest(),
        -(pow2(UNIT as nat) * size) <= estimate.value() * c.recovery_multiplier.value() <= pow2(
            UNIT as nat,
        ) * size,
    ensures
        ({
            let ticks = c.engaged(estimate).remaining;
            let u = pow2(UNIT as nat) as int;
            let exact = estimate.value() * c.recovery_multiplier.value();
            let slack = u * (size + 0x10_0000_0000_0000);
            &&& ticks >= c.min_ticks
            &&& estimate.value() <= 0 ==> ticks == c.min_ticks
            &&& estimate.value() > 0 && ticks < u32::MAX ==> 0x1_0000_0000_0000 * (exact - u * (u
                * ticks)) <= slack
            &&& ticks > c.min_ticks ==> 0x1_0000_0000_0000 * (u * (u * (ticks - 1)) - exact)
                <= slack
        }),
{
    let u = pow2(UNIT as nat) as int;
    let m = c.recovery_multiplier;
    let t = estimate.times_of(m);
    let zero = Num { bits: ZERO };
    lemma_pow2_pos(UNIT as nat);
    product_is_near(estimate, m, size);
    lemma_value_order(zero, estimate);
    lemma_value_order(estimate, zero);
    lemma_value_order(zero, m);
    lemma_value_order(t, t);
    reveal(Num::whole);
    reveal(Num::fractional);
    let tv = t.value();
    let size_t = crate::rounding::units(t.mag());
    vstd::arithmetic::div_mod::lemma_fundamental_div_mod(size_t, u);
    vstd::arithmetic::div_mod::lemma_mod_bound(size_t, u);
    let w = t.whole();
    let h = 0x1_0000_0000_0000int;
    let exact = estimate.value() * m.value();
    let ticks = c.engaged(estimate).remaining as int;
    let slack = u * (size + 0x10_0000_0000_0000);
    assert(slack >= 0) by (nonlinear_arith)
        requires
            slack == u * (size + 0x10_0000_0000_0000),
            u > 0,
            size >= 0,
    ;
    if estimate.value() > 0 {
        assert(exact >= 0) by (nonlinear_arith)
            requires
                exact == estimate.value() * m.value(),
                estimate.value() > 0,
                m.value() >= 0,
        ;
        let up = t.raised(u32::MAX as int);
        if t.neg() {
            // A product of magnitudes rounds to a magnitude.
            crate::num::lemma_times_key(estimate, m);
            crate::rounding::lemma_rounded(exact, u);
            assert(tv == 0);
        }
        assert(tv >= 0);
        // The ticks are the product, rounded up.
        if ticks < u32::MAX {
            assert(tv <= u * ticks) by {
                assert(ticks >= up);
                if !t.neg() {
                    assert(u * (w + 1) == u * w + u) by (nonlinear_arith);
                    assert(up >= w);
                    let lifted = if t.fractional() {
                        w + 1
                    } else {
                        w
                    };
                    assert(up == lifted);
                    assert(u * ticks >= u * lifted) by (nonlinear_arith)
                        requires
                            ticks >= lifted,
                            u > 0,
                    ;
                } else {
                    assert(u * ticks >= 0) by (nonlinear_arith)
                        requires
                            u > 0,
                            ticks >= 0,
                    ;
                }
            }
            assert(u * tv <= u * (u * ticks)) by (nonlinear_arith)
                requires
                    tv <= u * ticks,
                    u > 0,
            ;
            assert(h * (exact - u * (u * ticks)) <= slack) by (nonlinear_arith)
                requires
                    h * (exact - u * tv) <= slack,
                    u * tv <= u * (u * ticks),
                    h > 0,
            ;
        }
        if ticks > c.min_ticks {
            assert(ticks == up && !t.neg());
            assert(u * (ticks - 1) <= tv) by {
                assert(up <= w + 1);
                assert(up == w + 1 ==> t.fractional());
                assert(u * w <= tv);
                assert(u * (ticks - 1) <= u * w) by (nonlinear_arith)
                    requires
                        ticks - 1 <= w,
                        u > 0,
                ;
            }
            assert(u * (u * (ticks - 1)) <= u * tv) by (nonlinear_arith)
                requires
                    u * (ticks - 1) <= tv,
                    u > 0,
            ;
            assert(h * (u * (u * (ticks - 1)) - exact) <= slack) by (nonlinear_arith)
                requires
                    h * (u * tv - exact) <= slack,
                    u * (u * (ticks - 1)) <= u * tv,
                    h > 0,
            ;
        }
    }
}

/// A cooldown runs out tick by tick and then stays over.
pub proof fn cooldown_counts_down(c: CooldownState)
    ensures
        c.remaining > 0 ==> c.ticked().remaining == c.remaining - 1,
        c.remaining == 0 ==> c.ticked().remaining == 0,
        c.ticked().min_ticks == c.min_ticks,
        c.ticked().recovery_multiplier == c.recovery_multiplier,
{
}

/// The best rate is remembered for a window: it is the larger of what was known and the current
/// rate. After a window without a better one it fades by a twentieth, and another window begins.
pub proof fn best_rate_is_remembered(k: KnownGoodTracker, current: Num, now: u64, size: int)
    requires
        !current.nan(),
        (Num { bits: ZERO }).le(k.max_recent_rate) && !k.max_recent_rate.inf(),
        k.decay_factor == (Num { bits: KNOWN_GOOD_DECAY }),
        k.max_recent_rate.value() <= size <= largest(),
    ensures
        ({
            let q = k.updated(current, now);
            let fresh = now <= k.max_recent_rate_time || now - k.max_recent_rate_time <= k.window;
            &&& q.floor_fraction == k.floor_fraction
            &&& q.window == k.window
            &&& q.decay_factor == k.decay_factor
            &&& fresh || k.max_recent_rate.lt(current) ==> {
                &&& k.max_recent_rate.le(q.max_recent_rate)
                &&& current.le(q.max_recent_rate)
                &&& q.max_recent_rate == k.max_recent_rate && q.max_recent_rate_time
                    == k.max_recent_rate_time || q.max_recent_rate == current
                    && q.max_recent_rate_time == now
            }
            &&& !fresh && current.le(k.max_recent_rate) ==> {
                &&& near(q.max_recent_rate, 95 * k.max_recent_rate.value(), 100, 2 * size)
                &&& q.max_recent_rate.le(k.max_recent_rate)
                &&& q.max_recent_rate_time == now
            }
        }),
{
    let decay = Num { bits: KNOWN_GOOD_DECAY };
    let best = k.max_recent_rate;
    let zero = Num { bits: ZERO };
    let u = pow2(UNIT as nat) as int;
    lemma_one();
    lemma2_to64();
    lemma2_to64_rest();
    literal_is_decimal(decay, 0x1e_6666_6666_6666, 1021, 0x20_0000_0000_0000, 95, 100);
    lemma_value_order(zero, best);
    lemma_value_order(decay, Num { bits: ONE });
    scaling_down(best, decay);
    share_is_near(best, decay, 95, 100, size);
}

/// The floor is the given share of the best rate, and the lower bound where that is higher.
pub proof fn floor_is_a_share_of_the_best(k: KnownGoodTracker, min_rps: Num, size: int)
    requires
        !min_rps.nan() && !min_rps.inf(),
        (Num { bits: ZERO }).le(k.max_recent_rate) && !k.max_recent_rate.inf(),
        (Num { bits: ZERO }).le(k.floor_fraction) && k.floor_fraction.le(Num { bits: ONE }),
        k.max_recent_rate.value() <= size <= largest(),
    ensures
        ({
            let floor = k.floor_of(min_rps);
            let u = pow2(UNIT as nat) as int;
            let share = k.max_recent_rate.value() * k.floor_fraction.value();
            &&& min_rps.le(floor)
            &&& share <= u * min_rps.value() ==> floor.same(min_rps)
            &&& share >= u * min_rps.value() ==> near(floor, share, u, size)
        }),
{
    let u = pow2(UNIT as nat) as int;
    let best = k.max_recent_rate;
    let f = k.floor_fraction;
    lemma_one();
    lemma_value_order(Num { bits: ZERO }, best);
    lemma_value_order(Num { bits: ZERO }, f);
    lemma_value_order(f, Num { bits: ONE });
    let x = best.value();
    let a = f.value();
    assert(-(u * size) <= x * a <= u * size) by (nonlinear_arith)
        requires
            0 <= x <= size,
            0 <= a <= u,
    ;
    product_is_near(best, f, size);
    product_against(best, f, min_rps);
    let floor = k.floor_of(min_rps);
    let t = best.times_of(f);
    lemma_value_order(floor, t);
    lemma_value_order(t, floor);
}

/// What a rate may move by in one tick is a share of it: the given share upwards, and the given
/// share downwards.
pub proof fn limits_are_shares_of_the_rate(l: RateChangeLimits, current: Num, size: int)
    requires
        (Num { bits: ZERO }).le(current) && !current.inf(),
        (Num { bits: ZERO }).le(l.max_increase_pct) && l.max_increase_pct.le(Num { bits: ONE }),
        (Num { bits: ZERO }).le(l.max_decrease_pct) && l.max_decrease_pct.le(Num { bits: ONE }),
        current.value() <= size,
        4 * size <= largest(),
    ensures
        ({
            let u = pow2(UNIT as nat) as int;
            let c = current.value();
            &&& near(l.highest(current), c * (u + l.max_increase_pct.value()), u, 16 * size)
            &&& near(l.lowest(current), c * (u - l.max_decrease_pct.value()), u, 16 * size)
            &&& l.fits(current)
        }),
{
    let one = Num { bits: ONE };
    let zero = Num { bits: ZERO };
    let u = pow2(UNIT as nat) as int;
    lemma_one();
    lemma_value_order(zero, current);
    lemma_value_order(zero, l.max_increase_pct);
    lemma_value_order(l.max_increase_pct, one);
    lemma_value_order(zero, l.max_decrease_pct);
    lemma_value_order(l.max_decrease_pct, one);
    lemma_value_order(l.max_decrease_pct, l.max_decrease_pct);
    let i = l.max_increase_pct;
    let d = l.max_decrease_pct;
    rate_times_offset_is_near(current, i, size);
    rate_times_offset_is_near(current, d.negate_of(), size);
    assert(d.negate_of().value() == -d.value());
    assert(u + -d.value() == u - d.value());
    let up = one.plus_of(i);
    let down = one.minus_of(d);
    crate::order::sum_against(one, i, one);
    crate::order::sum_against(one, d.negate_of(), one);
    products_keep_order(current, down, up);
}

/// The decision follows the composition: a higher composed rate never leads to a lower decision,
/// and a rate that no limit, ceiling, floor or bound disturbs is decided as it is.
pub proof fn decision_follows_the_composition(
    p: ArbiterPolicy,
    a: CompositionResult,
    b: CompositionResult,
    catastrophic: bool,
    now: u64,
)
    requires
        p.ready(),
        a.rate.le(b.rate),
        !p.ceiling.height(now).nan(),
        !p.floor(now).nan(),
    ensures
        p.decided(a, catastrophic, now).le(p.decided(b, catastrophic, now)),
        p.rate_change_limits.lowest(p.current_rps).le(a.rate) && a.rate.le(
            p.rate_change_limits.highest(p.current_rps),
        ) && a.rate.le(p.ceiling.height(now)) && p.floor(now).le(a.rate) && p.min_rps.le(a.rate)
            && a.rate.le(p.max_rps) ==> p.decided(a, catastrophic, now) == a.rate,
{
}

/// The decision passes neither the ceiling nor the upper change limit, except where the floor or the
/// lower bound lifts it. It falls below the lower change limit only where the ceiling or the upper
/// bound presses it down.
pub proof fn decision_stays_within_its_limits(
    p: ArbiterPolicy,
    composed: CompositionResult,
    catastrophic: bool,
    now: u64,
)
    requires
        p.ready(),
        !composed.rate.nan(),
        !p.ceiling.height(now).nan(),
        !p.floor(now).nan(),
    ensures
        ({
            let rate = p.decided(composed, catastrophic, now);
            let highest = p.rate_change_limits.highest(p.current_rps);
            let lowest = p.rate_change_limits.lowest(p.current_rps);
            &&& rate.le(highest) || rate.le(p.min_rps) || !catastrophic && rate.le(p.floor(now))
            &&& rate.le(p.ceiling.height(now)) || rate.le(p.min_rps) || !catastrophic && rate.le(
                p.floor(now),
            )
            &&& lowest.le(rate) || p.ceiling.height(now).le(rate) || p.max_rps.le(rate)
        }),
{
}

/// A backoff is a binding constraint's wish for less than the detection share of the current rate.
/// `line` is a double below that share.
pub proof fn backoff_is_a_real_drop(p: ArbiterPolicy, composed: CompositionResult, line: Num)
    requires
        !p.current_rps.nan() && !p.current_rps.inf(),
        !p.backoff_detection_threshold.nan() && !p.backoff_detection_threshold.inf(),
        !composed.rate.nan() && !composed.rate.inf(),
        !line.nan() && !line.inf(),
        pow2(UNIT as nat) * line.value() <= p.current_rps.value()
            * p.backoff_detection_threshold.value(),
    ensures
        composed.binding is None ==> !p.backs_off(composed),
        composed.binding is Some && composed.rate.lt(line) ==> p.backs_off(composed),
        pow2(UNIT as nat) * composed.rate.value() >= p.current_rps.value()
            * p.backoff_detection_threshold.value() ==> !p.backs_off(composed),
{
    product_against(p.current_rps, p.backoff_detection_threshold, line);
    product_against(p.current_rps, p.backoff_detection_threshold, composed.rate);
}

} // verus!
