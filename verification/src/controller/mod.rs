//! Rate control: constraints, their composition, and the controllers built on them.

pub mod arbiter;
pub mod arbiter_policy;
pub mod autotune;
pub mod builder;
pub mod ceiling;
pub mod clock;
pub mod composite_pid;
pub mod composition;
pub mod constraint;
pub mod constraints;
pub mod pid;
pub mod pid_autotune;
pub mod pid_constraint;
pub mod pid_math;
pub mod pid_terms;
pub mod ramp;
pub mod ramp_constraint;
pub mod rate;
pub mod smoothing;
pub mod slow_start;
pub mod static_rate;
pub mod step_rate;
pub mod threshold;
pub mod trace;
