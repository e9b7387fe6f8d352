//! Constraint vocabulary: actions, classes, streaks, persistence and recovery tracking.

use vstd::arithmetic::power2::*;
use vstd::prelude::*;
use vstd::string::*;

use crate::controller::arbiter_policy::{
    failure_rate_averages_backoffs, IncreasePolicy, IncreasePolicyConfig,
};
use crate::num::{largest, lemma_one, lemma_value_order, Num, UNIT, ZERO};
use crate::order::{below, literal_is_decimal, near, value_clears, whole};
use crate::text::same;

verus! {

/// 0.7: below it a constraint lets the rate grow.
pub const CLEAN: u64 = 0x3fe6_6666_6666_6666;

/// 0.9: below it a constraint counts as recovered.
pub const RECOVERED: u64 = 0x3fec_cccc_cccc_cccd;

/// 1.0: from here on a constraint is violated.
pub const VIOLATED: u64 = 0x3ff0_0000_0000_0000;

/// 1.5: from here on a backoff is moderate.
pub const MODERATE: u64 = 0x3ff8_0000_0000_0000;

/// 2.0: from here on a backoff is hard.
pub const HARD: u64 = 0x4000_0000_0000_0000;

/// 3.0: above it a backoff needs no persistence.
pub const SEVERITY_BYPASS_PERSISTENCE: u64 = 0x4008_0000_0000_0000;

/// 0.3: the weight of a new observation in the recovery average.
pub const RECOVERY_EMA_ALPHA: u64 = 0x3fd3_3333_3333_3333;

/// Minimum ticks after a backoff before recovery can be declared.
pub const RECOVERY_MIN_TICKS: u32 = 3;

/// Minimum recovery samples before the average is trusted over the seed.
pub const RECOVERY_MIN_SAMPLES: u32 = 3;

/// Actions a constraint can request, from least to most severe.
#[derive(Debug, Clone, Copy, PartialEq, Eq, Structural, PartialOrd, Ord)]
pub enum ConstraintAction {
    AllowIncrease,
    Hold,
    GentleBackoff,
    ModerateBackoff,
    HardBackoff,
}

impl ConstraintAction {
    /// Position in the order of severity.
    pub open spec fn rank(self) -> int {
        match self {
            ConstraintAction::AllowIncrease => 0,
            ConstraintAction::Hold => 1,
            ConstraintAction::GentleBackoff => 2,
            ConstraintAction::ModerateBackoff => 3,
            ConstraintAction::HardBackoff => 4,
        }
    }

    pub open spec fn backs_off(self) -> bool {
        self.rank() >= 2
    }

    /// The less severe of this action and `Hold`.
    pub open spec fn capped(self) -> ConstraintAction {
        if self.backs_off() {
            ConstraintAction::Hold
        } else {
            self
        }
    }

    pub open spec fn factor(self, gentle: Num, moderate: Num, hard: Num) -> Num {
        match self {
            ConstraintAction::GentleBackoff => gentle,
            ConstraintAction::ModerateBackoff => moderate,
            ConstraintAction::HardBackoff => hard,
            _ => Num { bits: VIOLATED },
        }
    }

    /// The factor a rate is multiplied with: 1.0 unless the action backs off.
    pub fn backoff_factor(self, gentle: Num, moderate: Num, hard: Num) -> (r: Num)
        ensures
            r == self.factor(gentle, moderate, hard),
    {
        match self {
            ConstraintAction::GentleBackoff => gentle,
            ConstraintAction::ModerateBackoff => moderate,
            ConstraintAction::HardBackoff => hard,
            _ => Num { bits: VIOLATED },
        }
    }

    pub open spec fn name(self) -> Seq<char> {
        match self {
            ConstraintAction::AllowIncrease => "increase"@,
            ConstraintAction::Hold => "hold"@,
            ConstraintAction::GentleBackoff => "backoff_gentle"@,
            ConstraintAction::ModerateBackoff => "backoff_moderate"@,
            ConstraintAction::HardBackoff => "backoff_hard"@,
        }
    }

    pub fn label(self) -> (r: &'static str)
        ensures
            r@ == self.name(),
    {
        match self {
            ConstraintAction::AllowIncrease => "increase",
            ConstraintAction::Hold => "hold",
            ConstraintAction::GentleBackoff => "backoff_gentle",
            ConstraintAction::ModerateBackoff => "backoff_moderate",
            ConstraintAction::HardBackoff => "backoff_hard",
        }
    }

    pub fn is_backoff(self) -> (r: bool)
        ensures
            r == self.backs_off(),
    {
        match self {
            ConstraintAction::GentleBackoff => true,
            ConstraintAction::ModerateBackoff => true,
            ConstraintAction::HardBackoff => true,
            _ => false,
        }
    }

    /// Caps the severity at `Hold`.
    pub fn cap_at_hold(self) -> (r: ConstraintAction)
        ensures
            r == self.capped(),
            r.rank() <= self.rank(),
            r.rank() <= ConstraintAction::Hold.rank(),
    {
        if self.is_backoff() {
            ConstraintAction::Hold
        } else {
            self
        }
    }

    /// Whether this action is strictly more severe than `other`.
    pub fn exceeds(self, other: ConstraintAction) -> (r: bool)
        ensures
            r == (self.rank() > other.rank()),
    {
        self.severity_rank() > other.severity_rank()
    }

    fn severity_rank(self) -> (r: u8)
        ensures
            r == self.rank(),
    {
        match self {
            ConstraintAction::AllowIncrease => 0,
            ConstraintAction::Hold => 1,
            ConstraintAction::GentleBackoff => 2,
            ConstraintAction::ModerateBackoff => 3,
            ConstraintAction::HardBackoff => 4,
        }
    }
}

/// Whether a constraint bypasses or respects the known-good floor on backoff.
#[derive(Debug, Clone, Copy, PartialEq, Eq, Structural)]
pub enum ConstraintClass {
    /// The floor applies on backoff (latency, error rate, external signals).
    OperatingPoint,
    /// The floor is bypassed on backoff (timeouts, in-flight drops).
    Catastrophic,
}

/// Identifies a constraint.
#[derive(Debug, Clone, PartialEq)]
pub enum ConstraintId {
    Timeout,
    InFlightDrop,
    Latency,
    ErrorRate,
    External(String),
}

impl ConstraintId {
    pub open spec fn name(self) -> Seq<char> {
        match self {
            ConstraintId::Timeout => "timeout"@,
            ConstraintId::InFlightDrop => "inflight_drop"@,
            ConstraintId::Latency => "latency"@,
            ConstraintId::ErrorRate => "error_rate"@,
            ConstraintId::External(name) => name@,
        }
    }

    pub fn label(&self) -> (r: &str)
        ensures
            r@ == self.name(),
    {
        match self {
            ConstraintId::Timeout => "timeout",
            ConstraintId::InFlightDrop => "inflight_drop",
            ConstraintId::Latency => "latency",
            ConstraintId::ErrorRate => "error_rate",
            ConstraintId::External(name) => name.as_str(),
        }
    }
}

/// A constraint's identity.
pub enum IdKey {
    Timeout,
    InFlightDrop,
    Latency,
    ErrorRate,
    External(Seq<char>),
}

impl View for ConstraintId {
    type V = IdKey;

    open spec fn view(&self) -> IdKey {
        match self {
            ConstraintId::Timeout => IdKey::Timeout,
            ConstraintId::InFlightDrop => IdKey::InFlightDrop,
            ConstraintId::Latency => IdKey::Latency,
            ConstraintId::ErrorRate => IdKey::ErrorRate,
            ConstraintId::External(name) => IdKey::External(name@),
        }
    }
}

impl ConstraintId {
    /// Whether two identities are the same.
    pub fn matches_id(&self, other: &ConstraintId) -> (r: bool)
        ensures
            r == (self@ == other@),
    {
        match (self, other) {
            (ConstraintId::Timeout, ConstraintId::Timeout) => true,
            (ConstraintId::InFlightDrop, ConstraintId::InFlightDrop) => true,
            (ConstraintId::Latency, ConstraintId::Latency) => true,
            (ConstraintId::ErrorRate, ConstraintId::ErrorRate) => true,
            (ConstraintId::External(a), ConstraintId::External(b)) => same(
                a.as_str(),
                b.as_str(),
            ),
            _ => false,
        }
    }
}

/// The result of evaluating a single constraint.
pub struct ConstraintEvaluation {
    pub id: ConstraintId,
    pub class: ConstraintClass,
    pub severity: Num,
    pub action: ConstraintAction,
}

/// What an evaluation says.
pub struct Grade {
    pub id: IdKey,
    pub class: ConstraintClass,
    pub severity: Num,
    pub action: ConstraintAction,
}

impl View for ConstraintEvaluation {
    type V = Grade;

    open spec fn view(&self) -> Grade {
        Grade {
            id: self.id@,
            class: self.class,
            severity: self.severity,
            action: self.action,
        }
    }
}

/// Per-constraint state: streaks, persistence and the recovery average.
#[derive(Clone, Copy)]
pub struct ConstraintState {
    /// Consecutive ticks in violation.
    pub violation_streak: u32,
    /// Ticks of violation required before a backoff is confirmed.
    pub persistence: u32,
    /// Ticks since this signal was last seen (external constraints only).
    pub ticks_since_seen: u32,
    /// Consecutive ticks where the signal is missing (external constraints only).
    pub missing_streak: u32,
    /// Moving average of the observed recovery time in ticks.
    pub recovery_ema_ticks: Num,
    /// Number of recovery observations.
    pub recovery_samples: u32,
    /// Estimate used until the average earns trust.
    pub initial_seed: Num,
    /// Ticks since this constraint last triggered a backoff; `None` when no recovery is tracked.
    pub ticks_since_backoff: Option<u32>,
}

impl ConstraintState {
    /// The counters have room for one more tick.
    pub open spec fn can_advance(self) -> bool {
        &&& self.violation_streak < u32::MAX
        &&& self.missing_streak < u32::MAX
        &&& self.ticks_since_seen < u32::MAX
        &&& self.can_recover()
    }

    /// The recovery counters have room for one more tick.
    pub open spec fn can_recover(self) -> bool {
        &&& self.recovery_samples < u32::MAX
        &&& self.ticks_since_backoff matches Some(t) ==> t < u32::MAX
    }

    pub open spec fn estimate(self) -> Num {
        if self.recovery_samples >= RECOVERY_MIN_SAMPLES {
            self.recovery_ema_ticks
        } else {
            self.recovery_ema_ticks.max_of(self.initial_seed)
        }
    }

    /// Whether the next tick, at this severity, completes a recovery.
    pub open spec fn recovers_at(self, severity: Num) -> bool {
        self.ticks_since_backoff matches Some(t) && t + 1 >= RECOVERY_MIN_TICKS && severity.lt(
            Num { bits: RECOVERED },
        )
    }

    /// The recovery average after a recovery that took `ticks`.
    pub open spec fn average_with(self, ticks: int) -> Num {
        let alpha = Num { bits: RECOVERY_EMA_ALPHA };
        alpha.times_of(Num::of_int(ticks)).plus_of(
            (Num { bits: VIOLATED }).minus_of(alpha).times_of(self.recovery_ema_ticks),
        )
    }

    /// The state one tick of recovery tracking later.
    pub open spec fn after_recovery_tick(self, severity: Num) -> ConstraintState {
        match self.ticks_since_backoff {
            None => self,
            Some(t) => if self.recovers_at(severity) {
                ConstraintState {
                    recovery_samples: (self.recovery_samples + 1) as u32,
                    recovery_ema_ticks: self.average_with(t + 1),
                    ticks_since_backoff: None,
                    ..self
                }
            } else {
                ConstraintState { ticks_since_backoff: Some((t + 1) as u32), ..self }
            },
        }
    }

    pub fn new(persistence: u32, initial_seed: Num) -> (r: ConstraintState)
        ensures
            r == (ConstraintState {
                violation_streak: 0,
                persistence,
                ticks_since_seen: 0,
                missing_streak: 0,
                recovery_ema_ticks: initial_seed,
                recovery_samples: 0,
                initial_seed,
                ticks_since_backoff: None,
            }),
    {
        ConstraintState {
            violation_streak: 0,
            persistence,
            ticks_since_seen: 0,
            missing_streak: 0,
            recovery_ema_ticks: initial_seed,
            recovery_samples: 0,
            initial_seed,
            ticks_since_backoff: None,
        }
    }

    /// Cooldown estimate: the average is trusted only with enough samples; before that the
    /// larger of the average and the seed counts.
    pub fn cooldown_estimate(&self) -> (r: Num)
        ensures
            r == self.estimate(),
    {
        if self.recovery_samples >= RECOVERY_MIN_SAMPLES {
            self.recovery_ema_ticks
        } else {
            self.recovery_ema_ticks.max(self.initial_seed)
        }
    }

    /// Advances recovery tracking by one tick. Recovery is declared when enough ticks have passed
    /// and the severity has dropped; its length then enters the average.
    pub fn advance_recovery(&mut self, severity: Num)
        requires
            old(self).can_recover(),
        ensures
            *final(self) == old(self).after_recovery_tick(severity),
    {
        if let Some(t) = self.ticks_since_backoff {
            let ticks: u32 = t + 1;
            if ticks >= RECOVERY_MIN_TICKS && severity.is_lt(Num { bits: RECOVERED }) {
                self.recovery_samples = self.recovery_samples + 1;
                let alpha: Num = Num { bits: RECOVERY_EMA_ALPHA };
                self.recovery_ema_ticks = alpha.times(Num::of(ticks as u64)).plus(
                    (Num { bits: VIOLATED }).minus(alpha).times(self.recovery_ema_ticks),
                );
                self.ticks_since_backoff = None;
            } else {
                self.ticks_since_backoff = Some(ticks);
            }
        }
    }

    /// Starts or restarts recovery tracking, discarding a measurement in progress.
    pub fn start_recovery_tracking(&mut self)
        ensures
            *final(self) == (ConstraintState { ticks_since_backoff: Some(0), ..*old(self) }),
    {
        self.ticks_since_backoff = Some(0);
    }
}

/// The action for a severity: below 0.7 the rate may grow, up to 1.0 it is held, and from 1.0,
/// 1.5 and 2.0 on it backs off gently, moderately and hard.
pub open spec fn graded(severity: Num) -> ConstraintAction {
    if severity.lt(Num { bits: CLEAN }) {
        ConstraintAction::AllowIncrease
    } else if severity.lt(Num { bits: VIOLATED }) {
        ConstraintAction::Hold
    } else if severity.lt(Num { bits: MODERATE }) {
        ConstraintAction::GentleBackoff
    } else if severity.lt(Num { bits: HARD }) {
        ConstraintAction::ModerateBackoff
    } else {
        ConstraintAction::HardBackoff
    }
}

/// Maps a severity to a graduated action.
pub fn graduated_action(severity: Num) -> (r: ConstraintAction)
    ensures
        r == graded(severity),
{
    if severity.is_lt(Num { bits: CLEAN }) {
        ConstraintAction::AllowIncrease
    } else if severity.is_lt(Num { bits: VIOLATED }) {
        ConstraintAction::Hold
    } else if severity.is_lt(Num { bits: MODERATE }) {
        ConstraintAction::GentleBackoff
    } else if severity.is_lt(Num { bits: HARD }) {
        ConstraintAction::ModerateBackoff
    } else {
        ConstraintAction::HardBackoff
    }
}

/// The streak after one more tick: it grows in violation, restarts in the clean zone and is kept
/// in between.
pub open spec fn streak_after(streak: u32, severity: Num) -> int {
    if (Num { bits: VIOLATED }).le(severity) {
        streak + 1
    } else if severity.lt(Num { bits: CLEAN }) {
        0
    } else {
        streak as int
    }
}

/// Updates a violation streak with hysteresis.
pub fn update_streak(streak: &mut u32, severity: Num)
    requires
        *old(streak) < u32::MAX,
    ensures
        *final(streak) == streak_after(*old(streak), severity),
{
    if (Num { bits: VIOLATED }).is_le(severity) {
        *streak = *streak + 1;
    } else if severity.is_lt(Num { bits: CLEAN }) {
        *streak = 0;
    }
}

/// A backoff passes the check when the streak is long enough or the severity bypasses it.
pub open spec fn gated(
    action: ConstraintAction,
    streak: u32,
    persistence: u32,
    severity: Num,
) -> ConstraintAction {
    if streak >= persistence || (Num { bits: SEVERITY_BYPASS_PERSISTENCE }).lt(severity) {
        action
    } else {
        action.capped()
    }
}

/// Persistence check: a backoff that has not persisted, and is not severe enough to bypass the
/// check, is downgraded to `Hold`. Other actions pass.
pub fn apply_persistence(
    action: ConstraintAction,
    streak: u32,
    persistence: u32,
    severity: Num,
) -> (r: ConstraintAction)
    ensures
        r == gated(action, streak, persistence, severity),
{
    if !action.is_backoff() {
        return action;
    }
    if streak >= persistence || (Num { bits: SEVERITY_BYPASS_PERSISTENCE }).is_lt(severity) {
        action
    } else {
        ConstraintAction::Hold
    }
}

/// A higher severity never asks for a milder action.
pub proof fn action_grows_with_severity(a: Num, b: Num)
    requires
        a.le(b),
    ensures
        graded(a).rank() <= graded(b).rank(),
{
}

/// The check only ever makes an action milder, and lets through everything that is no backoff.
pub proof fn persistence_never_escalates(
    action: ConstraintAction,
    streak: u32,
    persistence: u32,
    severity: Num,
)
    ensures
        gated(action, streak, persistence, severity).rank() <= action.rank(),
        !action.backs_off() ==> gated(action, streak, persistence, severity) == action,
{
}

/// A streak grows only on ticks whose graduated action is a backoff, and restarts only on ticks
/// whose action lets the rate grow.
pub proof fn streak_follows_action(streak: u32, severity: Num)
    requires
        !severity.nan(),
    ensures
        graded(severity).backs_off() <==> streak_after(streak, severity) == streak + 1,
        graded(severity) == ConstraintAction::AllowIncrease ==> streak_after(streak, severity) == 0,
        graded(severity) == ConstraintAction::Hold ==> streak_after(streak, severity) == streak,
{
}

/// Severities are graded at 0.7, 1.0, 1.5 and 2.0.
pub proof fn severity_is_graded(severity: Num)
    requires
        (Num { bits: ZERO }).le(severity) && !severity.inf(),
    ensures
        ({
            let x = severity.value();
            let u = pow2(UNIT as nat) as int;
            &&& below(10 * x, 7 * u) ==> graded(severity) == ConstraintAction::AllowIncrease
            &&& below(7 * u, 10 * x) && x < u ==> graded(severity) == ConstraintAction::Hold
            &&& u <= x && 2 * x < 3 * u ==> graded(severity) == ConstraintAction::GentleBackoff
            &&& 3 * u <= 2 * x && x < 2 * u ==> graded(severity)
                == ConstraintAction::ModerateBackoff
            &&& 2 * u <= x ==> graded(severity) == ConstraintAction::HardBackoff
        }),
{
    let clean = Num { bits: CLEAN };
    lemma_one();
    lemma2_to64();
    lemma2_to64_rest();
    literal_is_decimal(clean, 0x16_6666_6666_6666, 1021, 0x20_0000_0000_0000, 7, 10);
    literal_is_decimal(
        Num { bits: MODERATE },
        0x18_0000_0000_0000,
        1022,
        0x10_0000_0000_0000,
        3,
        2,
    );
    literal_is_decimal(Num { bits: HARD }, 0x10_0000_0000_0000, 1023, 0x8_0000_0000_0000, 2, 1);
    value_clears(severity, clean, 7, 10);
    lemma_value_order(clean, severity);
    lemma_value_order(severity, clean);
    lemma_value_order(Num { bits: VIOLATED }, severity);
    lemma_value_order(Num { bits: MODERATE }, severity);
    lemma_value_order(Num { bits: HARD }, severity);
}

/// A backoff passes where it has persisted or its severity exceeds 3; otherwise the rate is held.
pub proof fn backoff_needs_persistence(
    action: ConstraintAction,
    streak: u32,
    persistence: u32,
    severity: Num,
)
    requires
        !severity.nan(),
        action.backs_off(),
    ensures
        ({
            let passed = gated(action, streak, persistence, severity);
            let bypass = severity.value() > 3 * pow2(UNIT as nat);
            &&& streak >= persistence || bypass ==> passed == action
            &&& streak < persistence && !bypass ==> passed == ConstraintAction::Hold
        }),
{
    lemma2_to64();
    lemma2_to64_rest();
    let three = Num { bits: SEVERITY_BYPASS_PERSISTENCE };
    literal_is_decimal(three, 0x18_0000_0000_0000, 1023, 0x8_0000_0000_0000, 3, 1);
    lemma_value_order(severity, three);
}

/// A recovery ends once three ticks have passed and the severity lies below 0.9. Its length enters
/// the average with three parts in ten. Until then the ticks are counted and nothing else changes.
pub proof fn recovery_enters_the_average(s: ConstraintState, severity: Num, bound: int)
    requires
        s.can_recover(),
        s.ticks_since_backoff is Some,
        (Num { bits: ZERO }).le(severity) && !severity.inf(),
        (Num { bits: ZERO }).lt(s.recovery_ema_ticks) && !s.recovery_ema_ticks.inf(),
        s.recovery_ema_ticks.value() <= bound <= largest(),
        (s.ticks_since_backoff->0 + 1) * pow2(UNIT as nat) <= bound,
    ensures
        ({
            let after = s.after_recovery_tick(severity);
            let ticks = s.ticks_since_backoff->0 + 1;
            let u = pow2(UNIT as nat) as int;
            let x = severity.value();
            &&& ticks >= 3 && below(10 * x, 9 * u) ==> {
                &&& after.ticks_since_backoff is None
                &&& after.recovery_samples == s.recovery_samples + 1
                &&& near(
                    after.recovery_ema_ticks,
                    3 * (ticks * u) + 7 * s.recovery_ema_ticks.value(),
                    10,
                    4 * bound,
                )
            }
            &&& ticks < 3 || below(9 * u, 10 * x) ==> {
                &&& after.ticks_since_backoff == Some(ticks as u32)
                &&& after.recovery_samples == s.recovery_samples
                &&& after.recovery_ema_ticks == s.recovery_ema_ticks
            }
        }),
{
    let line = Num { bits: RECOVERED };
    let zero = Num { bits: ZERO };
    lemma2_to64();
    lemma2_to64_rest();
    lemma_one();
    literal_is_decimal(line, 0x1c_cccc_cccc_cccd, 1021, 0x20_0000_0000_0000, 9, 10);
    value_clears(severity, line, 9, 10);
    let t = whole(s.ticks_since_backoff->0 + 1);
    lemma_value_order(s.recovery_ema_ticks, zero);
    lemma_value_order(zero, t);
    assert(t.value() >= 0) by (nonlinear_arith)
        requires
            t.value() == (s.ticks_since_backoff->0 + 1) * pow2(UNIT as nat),
    ;
    lemma_value_order(t, zero);
    let p = IncreasePolicy {
        config: IncreasePolicyConfig { increase_factor: line, congestion_avoidance: None },
        failure_rate_ema: s.recovery_ema_ticks,
        backoff_count: 0,
    };
    failure_rate_averages_backoffs(p, t, bound);
    assert(p.recorded(t).failure_rate_ema == s.average_with(s.ticks_since_backoff->0 + 1));
}

/// The estimate is the average once three recoveries were seen, and the larger of it and the seed
/// before.
pub proof fn estimate_trusts_three_recoveries(s: ConstraintState)
    requires
        !s.recovery_ema_ticks.nan() && !s.initial_seed.nan(),
    ensures
        s.recovery_samples >= 3 ==> s.estimate() == s.recovery_ema_ticks,
        s.recovery_samples < 3 ==> s.recovery_ema_ticks.le(s.estimate()) && s.initial_seed.le(
            s.estimate(),
        ) && (s.estimate() == s.recovery_ema_ticks || s.estimate() == s.initial_seed),
{
}

} // verus!
