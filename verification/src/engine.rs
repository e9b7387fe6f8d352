//! How a test is laid out on a machine and wired up from its configuration.
//!
//! Threads, pinning and the runtime are outside.

use vstd::prelude::*;
use vstd::string::*;

use crate::coordinator::Coordinator;
use crate::num::Num;
use crate::timer_thread::per_worker_rate;

verus! {

/// Which core runs what. The workers take the cores from `io_core_start` on.
#[derive(Debug, Clone, Copy, PartialEq, Eq, Structural)]
pub struct CoreLayout {
    pub num_cores: usize,
    pub timer_core: usize,
    pub io_core_start: usize,
    /// The core of the coordinator; 0 if it shares the timer's.
    pub misc_core: usize,
}

/// How many I/O workers there are. Without a configured number, all cores but two.
pub open spec fn worker_count(available: usize, configured: usize) -> int {
    if configured != 0 {
        configured as int
    } else if available <= 3 {
        1
    } else {
        available - 2
    }
}

/// The layout for a number of available cores.
pub open spec fn layout_of(available: usize, configured: usize) -> CoreLayout {
    let n = worker_count(available, configured);
    CoreLayout {
        num_cores: n as usize,
        timer_core: 0,
        io_core_start: 1,
        misc_core: if available > n + 1 {
            (n + 1) as usize
        } else {
            0
        },
    }
}

/// How many I/O workers there are. Without a configured number, all cores but two.
pub fn count_workers(available: usize, configured: usize) -> (r: usize)
    ensures
        r == worker_count(available, configured),
{
    if configured == 0 {
        if available <= 3 {
            1
        } else {
            available - 2
        }
    } else {
        configured
    }
}

/// Lays the threads out: timer first, then the workers, then the coordinator where a core is
/// left for it.
pub fn plan_cores(available: usize, configured: usize) -> (r: CoreLayout)
    requires
        configured < usize::MAX,
    ensures
        r == layout_of(available, configured),
{
    let num_cores: usize = count_workers(available, configured);
    CoreLayout {
        num_cores,
        timer_core: 0,
        io_core_start: 1,
        misc_core: if available > num_cores + 1 {
            num_cores + 1
        } else {
            0
        },
    }
}

impl CoreLayout {
    /// The core of a worker.
    pub fn worker_core(&self, worker: usize) -> (r: usize)
        requires
            worker < self.num_cores,
            self.io_core_start == 1,
        ensures
            r == self.io_core_start + worker,
    {
        self.io_core_start + worker
    }

    /// The core to pin the coordinator to, if it has one of its own.
    pub fn coordinator_core(&self) -> (r: Option<usize>)
        ensures
            r == if self.misc_core > 0 && self.misc_core != self.timer_core {
                Some(self.misc_core)
            } else {
                None
            },
    {
        if self.misc_core > 0 && self.misc_core != self.timer_core {
            Some(self.misc_core)
        } else {
            None
        }
    }

    /// The rate each worker starts with.
    pub fn initial_per_core(&self, initial_rps: Num) -> (r: Num)
        ensures
            r == initial_rps.over_of(Num::of_int(self.num_cores as int)),
    {
        per_worker_rate(initial_rps, self.num_cores)
    }
}

/// A character that may stand in a method name.
pub open spec fn token_char(c: char) -> bool {
    let n = c as u32;
    ||| 48 <= n <= 57
    ||| 65 <= n <= 90
    ||| 97 <= n <= 122
    ||| c == '!'
    ||| c == '#'
    ||| c == '$'
    ||| c == '%'
    ||| c == '&'
    ||| c == '\''
    ||| c == '*'
    ||| c == '+'
    ||| c == '-'
    ||| c == '.'
    ||| c == '^'
    ||| c == '_'
    ||| c == '`'
    ||| c == '|'
    ||| c == '~'
}

/// Whether a text is an HTTP method name.
pub open spec fn method_name(s: Seq<char>) -> bool {
    s.len() > 0 && forall|i: int| 0 <= i < s.len() ==> token_char(#[trigger] s[i])
}

/// `http::Method::from_bytes`: it takes a text that is not empty and made of token characters,
/// and refuses any other.
#[verifier::external_body]
fn is_method(s: &str) -> (r: bool)
    ensures
        r == method_name(s@),
{
    http::Method::from_bytes(s.as_bytes()).is_ok()
}

/// The method requests are made with: the configured one, or `GET` where that is no method.
pub fn request_method(configured: &str) -> (r: String)
    ensures
        r@ == if method_name(configured@) {
            configured@
        } else {
            "GET"@
        },
{
    if is_method(configured) {
        configured.to_owned()
    } else {
        "GET".to_owned()
    }
}

/// How connections are reused.
#[derive(Debug, Clone, Copy, PartialEq, Eq, Structural)]
pub enum ConnectionPolicy {
    KeepAlive,
    AlwaysNew,
    Mixed,
}

/// What is done to a generated request before it is sent.
#[derive(Debug, Clone, Copy, PartialEq, Eq, Structural)]
pub struct TransformerPlan {
    pub add_headers: bool,
    pub apply_policy: bool,
}

/// Headers are added where there are any; the connection policy acts unless connections are kept.
pub fn plan_transformer(headers: &Vec<(String, String)>, policy: ConnectionPolicy) -> (r:
    TransformerPlan)
    ensures
        r.add_headers == (headers.len() > 0),
        r.apply_policy == (policy != ConnectionPolicy::KeepAlive),
{
    TransformerPlan {
        add_headers: headers.len() > 0,
        apply_policy: match policy {
            ConnectionPolicy::KeepAlive => false,
            ConnectionPolicy::AlwaysNew => true,
            ConnectionPolicy::Mixed => true,
        },
    }
}

/// What ends a test besides its duration.
#[derive(Debug, Clone, Copy, PartialEq, Eq, Structural)]
pub struct TerminationLimits {
    pub max_requests: Option<u64>,
    pub autostop_threshold: Option<u64>,
    pub refusestop_threshold: Option<u64>,
    pub warmup_duration: Option<u64>,
    pub target_bytes: Option<u64>,
}

impl TerminationLimits {
    /// A coordinator with these limits; a limit that is not set leaves what was there.
    pub open spec fn applied(self, c: Coordinator) -> Coordinator {
        Coordinator {
            max_requests: if self.max_requests is Some {
                self.max_requests
            } else {
                c.max_requests
            },
            autostop_threshold: if self.autostop_threshold is Some {
                self.autostop_threshold
            } else {
                c.autostop_threshold
            },
            refusestop_threshold: if self.refusestop_threshold is Some {
                self.refusestop_threshold
            } else {
                c.refusestop_threshold
            },
            warmup_duration: if self.warmup_duration is Some {
                self.warmup_duration
            } else {
                c.warmup_duration
            },
            target_bytes: if self.target_bytes is Some {
                self.target_bytes
            } else {
                c.target_bytes
            },
            ..c
        }
    }

    /// Hands the configured limits to the coordinator.
    pub fn apply(&self, coordinator: &mut Coordinator)
        ensures
            *final(coordinator) == self.applied(*old(coordinator)),
    {
        if let Some(n) = self.max_requests {
            coordinator.max_requests(n);
        }
        if let Some(n) = self.autostop_threshold {
            coordinator.autostop_threshold(n);
        }
        if let Some(n) = self.refusestop_threshold {
            coordinator.refusestop_threshold(n);
        }
        if let Some(d) = self.warmup_duration {
            coordinator.warmup_duration(d);
        }
        if let Some(n) = self.target_bytes {
            coordinator.target_bytes(n);
        }
    }
}

/// No two threads share a core where the machine has enough of them: the timer, the workers and
/// the coordinator are apart, and every core exists.
pub proof fn threads_have_their_own_cores(available: usize, configured: usize, a: int, b: int)
    requires
        worker_count(available, configured) + 1 < available,
        0 <= a < b < worker_count(available, configured),
    ensures
        ({
            let l = layout_of(available, configured);
            &&& l.timer_core < l.io_core_start + a
            &&& l.io_core_start + a < l.io_core_start + b
            &&& l.io_core_start + b < l.misc_core
            &&& l.misc_core < available
        }),
{
}

/// With the number of workers left to the machine, at least one worker runs, and on four cores
/// or more none is asked to run on a core that does not exist.
pub proof fn detected_layout_fits(available: usize)
    requires
        available >= 4,
    ensures
        ({
            let l = layout_of(available, 0);
            &&& l.num_cores >= 1
            &&& l.misc_core == available - 1
            &&& l.io_core_start + l.num_cores == l.misc_core
        }),
{
}

} // verus!
