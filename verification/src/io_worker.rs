//! What an I/O worker decides: which requests it may start, how they are numbered, and what it
//! reports. The channels, the runtime and the requests themselves are outside.
//!
//! Times are in nanoseconds.

use vstd::prelude::*;

use crate::in_flight::{InFlightLimit, OwnedPermit};

verus! {

/// How far the request numbers of two workers lie apart.
pub const IDS_PER_CORE: u64 = 1_000_000_000;

/// How many responses wait for a generator that asked for them.
pub const RESPONSE_CHANNEL_CAPACITY: usize = 1024;

/// Fifty microseconds: a burst is interrupted after that long.
pub const YIELD_SPAN: u64 = 50_000;

/// Fifty milliseconds: what running requests get on a graceful shutdown.
pub const SHUTDOWN_GRACE: u64 = 50_000_000;

/// A message from the timer.
#[derive(Debug)]
pub enum ScheduledRequest {
    /// Start a request that is due at this time.
    Fire(u64),
    UpdateTargets(Vec<String>),
    UpdateMetadata(Vec<(String, String)>),
    Stop,
}

/// What identifies a request.
#[derive(Debug, Clone, Copy, PartialEq, Eq, Structural)]
pub struct RequestContext {
    pub request_id: u64,
    pub intended_time: u64,
    pub actual_time: u64,
    pub core_id: usize,
}

/// What a worker does with a message.
pub enum WorkerAction {
    /// Generate and start a request; the permit goes back when it is over.
    Execute { context: RequestContext, permit: OwnedPermit },
    /// Too many requests are in flight: this one is left out.
    Skip,
    UpdateTargets(Vec<String>),
    UpdateMetadata(Vec<(String, String)>),
    Stop,
}

/// What a report says about the requests in flight.
#[derive(Debug, Clone, Copy, PartialEq, Eq, Structural)]
pub struct InFlightReport {
    /// Requests left out since the last report.
    pub drops: u64,
    pub count: u64,
    pub capacity: u64,
}

/// A worker's own state.
#[derive(Debug, Clone, Copy, PartialEq, Eq, Structural)]
pub struct IoWorker {
    pub core_id: usize,
    pub metrics_interval: u64,
    pub graceful_shutdown: bool,
    pub request_seq: u64,
    pub in_flight_drops: u64,
    pub last_in_flight_drops: u64,
    pub last_report: u64,
}

/// The number of a core's request.
pub open spec fn request_id(core_id: usize, seq: int) -> int {
    core_id * IDS_PER_CORE + seq
}

impl IoWorker {
    /// The counters are consistent, and there is room for another request number.
    pub open spec fn wf(self) -> bool {
        &&& self.last_in_flight_drops <= self.in_flight_drops
        &&& self.in_flight_drops < u64::MAX
        &&& request_id(self.core_id, self.request_seq as int) < u64::MAX
    }

    pub fn new(core_id: usize, metrics_interval: u64, graceful_shutdown: bool, now: u64) -> (r:
        IoWorker)
        requires
            request_id(core_id, 0) < u64::MAX,
        ensures
            r == (IoWorker {
                core_id,
                metrics_interval,
                graceful_shutdown,
                request_seq: 0,
                in_flight_drops: 0,
                last_in_flight_drops: 0,
                last_report: now,
            }),
            r.wf(),
    {
        IoWorker {
            core_id,
            metrics_interval,
            graceful_shutdown,
            request_seq: 0,
            in_flight_drops: 0,
            last_in_flight_drops: 0,
            last_report: now,
        }
    }

    /// Decides what to do with a message. A request takes a permit and the next number; at
    /// capacity it is counted as dropped.
    pub fn handle_message(&mut self, msg: ScheduledRequest, limit: &mut InFlightLimit, now: u64)
        -> (r: WorkerAction)
        requires
            old(self).wf(),
            old(limit).wf(),
            old(limit).out() < usize::MAX,
        ensures
            final(limit).wf(),
            final(limit).limit() == old(limit).limit(),
            final(limit).out() == old(limit).out() + (if r is Execute {
                1nat
            } else {
                0
            }),
            match msg {
                ScheduledRequest::Fire(intended_time) => if old(limit).has_room() {
                    &&& r is Execute
                    &&& r->context == (RequestContext {
                        request_id: request_id(
                            old(self).core_id,
                            old(self).request_seq as int,
                        ) as u64,
                        intended_time,
                        actual_time: now,
                        core_id: old(self).core_id,
                    })
                    &&& *final(self) == (IoWorker {
                        request_seq: (old(self).request_seq + 1) as u64,
                        ..*old(self)
                    })
                } else {
                    &&& r is Skip
                    &&& *final(self) == (IoWorker {
                        in_flight_drops: (old(self).in_flight_drops + 1) as u64,
                        ..*old(self)
                    })
                },
                ScheduledRequest::UpdateTargets(targets) => r == WorkerAction::UpdateTargets(
                    targets,
                ) && *final(self) == *old(self),
                ScheduledRequest::UpdateMetadata(headers) => r == WorkerAction::UpdateMetadata(
                    headers,
                ) && *final(self) == *old(self),
                ScheduledRequest::Stop => r is Stop && *final(self) == *old(self),
            },
    {
        match msg {
            ScheduledRequest::Fire(intended_time) => {
                match limit.try_acquire() {
                    Some(permit) => {
                        let request_id: u64 = self.core_id as u64 * IDS_PER_CORE + self.request_seq;
                        let context: RequestContext = RequestContext {
                            request_id,
                            intended_time,
                            actual_time: now,
                            core_id: self.core_id,
                        };
                        self.request_seq = self.request_seq + 1;
                        WorkerAction::Execute { context, permit }
                    },
                    None => {
                        self.in_flight_drops = self.in_flight_drops + 1;
                        WorkerAction::Skip
                    },
                }
            },
            ScheduledRequest::UpdateTargets(targets) => WorkerAction::UpdateTargets(targets),
            ScheduledRequest::UpdateMetadata(headers) => WorkerAction::UpdateMetadata(headers),
            ScheduledRequest::Stop => WorkerAction::Stop,
        }
    }

    /// Whether a burst has gone on long enough to let the runtime work.
    pub fn should_yield(&self, last_yield: u64, now: u64) -> (r: bool)
        requires
            last_yield <= now,
        ensures
            r == (now - last_yield > YIELD_SPAN),
    {
        now - last_yield > YIELD_SPAN
    }

    /// What the last report of a worker says.
    pub fn final_report(&self, limit: &InFlightLimit) -> (r: InFlightReport)
        requires
            self.wf(),
        ensures
            r == (InFlightReport {
                drops: (self.in_flight_drops - self.last_in_flight_drops) as u64,
                count: limit.out() as u64,
                capacity: limit.limit() as u64,
            }),
    {
        InFlightReport {
            drops: self.in_flight_drops - self.last_in_flight_drops,
            count: limit.in_flight() as u64,
            capacity: limit.capacity() as u64,
        }
    }

    /// What a periodic report says, once the interval has passed.
    pub fn periodic_report(&mut self, limit: &InFlightLimit, now: u64) -> (r: Option<
        InFlightReport,
    >)
        requires
            old(self).wf(),
            old(self).last_report <= now,
        ensures
            if now - old(self).last_report >= old(self).metrics_interval {
                &&& r == Some(
                    InFlightReport {
                        drops: (old(self).in_flight_drops - old(self).last_in_flight_drops) as u64,
                        count: limit.out() as u64,
                        capacity: limit.limit() as u64,
                    },
                )
                &&& *final(self) == (IoWorker {
                    last_in_flight_drops: old(self).in_flight_drops,
                    last_report: now,
                    ..*old(self)
                })
            } else {
                &&& r is None
                &&& *final(self) == *old(self)
            },
            final(self).wf(),
    {
        if now - self.last_report < self.metrics_interval {
            return None;
        }
        let report: InFlightReport = self.final_report(limit);
        self.last_in_flight_drops = self.in_flight_drops;
        self.last_report = now;
        Some(report)
    }

    /// How long running requests are waited for at the end. A stop that arrives within a burst
    /// waits for none.
    pub fn shutdown_wait(&self, in_burst: bool) -> (r: u64)
        ensures
            r == if self.graceful_shutdown && !in_burst {
                SHUTDOWN_GRACE
            } else {
                0
            },
    {
        if self.graceful_shutdown && !in_burst {
            SHUTDOWN_GRACE
        } else {
            0
        }
    }
}

/// Requests never share a number, on one core or across cores, as long as no core starts a
/// billion of them.
pub proof fn request_ids_are_distinct(core_a: usize, seq_a: int, core_b: usize, seq_b: int)
    requires
        0 <= seq_a < IDS_PER_CORE,
        0 <= seq_b < IDS_PER_CORE,
        request_id(core_a, seq_a) == request_id(core_b, seq_b),
    ensures
        core_a == core_b,
        seq_a == seq_b,
{
}

} // verus!
