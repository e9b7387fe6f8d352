//! The timer: it picks the next due request across all workers, and accounts for what was sent.
//!
//! Sleeping and the channels are outside. Times are in nanoseconds.

use vstd::multiset::*;
use vstd::prelude::*;

use crate::num::Num;

verus! {

/// How many fire events a worker's channel holds.
pub const FIRE_CHANNEL_CAPACITY: usize = 1024;

/// Fifty microseconds: the last part of a wait is spun, not slept.
pub const SPIN_SPAN: u64 = 50_000;

/// A due request: when, and for which worker.
#[derive(Debug, Clone, Copy, PartialEq, Eq, Structural)]
pub struct DueEvent {
    pub time: u64,
    pub worker: usize,
}

/// Whether one event comes before another: by time, then by worker.
pub open spec fn before(a: DueEvent, b: DueEvent) -> bool {
    a.time < b.time || (a.time == b.time && a.worker <= b.worker)
}

/// The due requests of all workers.
pub struct EventQueue {
    pub events: Vec<DueEvent>,
}

impl View for EventQueue {
    type V = Multiset<DueEvent>;

    open spec fn view(&self) -> Multiset<DueEvent> {
        self.events@.to_multiset()
    }
}

/// An event that no other precedes.
pub open spec fn earliest(events: Multiset<DueEvent>, e: DueEvent) -> bool {
    events.contains(e) && forall|o: DueEvent| #[trigger] events.contains(o) ==> before(e, o)
}

impl EventQueue {
    pub fn new() -> (r: EventQueue)
        ensures
            r@ == Multiset::<DueEvent>::empty(),
    {
        let events: Vec<DueEvent> = Vec::new();
        proof {
            broadcast use vstd::seq_lib::group_to_multiset_ensures;

            assert(events@ =~= Seq::empty());
            assert(events@.to_multiset().len() == 0);
            assert(events@.to_multiset() =~= Multiset::empty());
        }
        EventQueue { events }
    }

    pub fn push(&mut self, e: DueEvent)
        ensures
            final(self)@ == old(self)@.insert(e),
    {
        proof {
            broadcast use vstd::seq_lib::group_to_multiset_ensures;

        }
        self.events.push(e);
    }

    /// Takes out the earliest event.
    pub fn pop(&mut self) -> (r: Option<DueEvent>)
        ensures
            match r {
                Some(e) => earliest(old(self)@, e) && final(self)@ == old(self)@.remove(e),
                None => old(self)@ == Multiset::<DueEvent>::empty() && final(self)@ == old(self)@,
            },
    {
        proof {
            broadcast use vstd::seq_lib::group_to_multiset_ensures;

        }
        let n: usize = self.events.len();
        if n == 0 {
            proof {
                assert(self.events@ =~= Seq::empty());
                assert(self.events@.to_multiset().len() == 0);
                assert(self.events@.to_multiset() =~= Multiset::empty());
            }
            return None;
        }
        let mut best: usize = 0;
        let mut i: usize = 1;
        while i < n
            invariant
                n == self.events.len(),
                1 <= i <= n,
                best < i,
                forall|j: int|
                    0 <= j < i ==> before(self.events@[best as int], #[trigger] self.events@[j]),
            decreases n - i,
        {
            let a: DueEvent = self.events[i];
            let b: DueEvent = self.events[best];
            if a.time < b.time || (a.time == b.time && a.worker < b.worker) {
                best = i;
            }
            i = i + 1;
        }
        let ghost all = self.events@;
        let e: DueEvent = self.events.remove(best);
        proof {
            broadcast use vstd::seq_lib::group_to_multiset_ensures;

            assert(all.contains(all[best as int]));
            assert forall|o: DueEvent| #[trigger] all.to_multiset().contains(o) implies before(
                e,
                o,
            ) by {
                assert(all.contains(o));
                let k = choose|k: int| 0 <= k < all.len() && all[k] == o;
                assert(before(all[best as int], all[k]));
            }
            assert(self.events@ =~= all.remove(best as int));
        }
        Some(e)
    }
}

/// What came of sending a fire event.
#[derive(Debug, Clone, Copy, PartialEq, Eq, Structural)]
pub enum SendOutcome {
    Sent,
    /// The worker's channel was full: the request is dropped.
    Full,
    /// The worker is gone.
    Disconnected,
}

/// What the timer has sent and dropped.
#[derive(Debug, Clone, Copy, PartialEq, Eq, Structural)]
pub struct TimerStats {
    pub dispatched: u64,
    pub dropped: u64,
}

impl Default for TimerStats {
    fn default() -> (r: TimerStats)
        ensures
            r == (TimerStats { dispatched: 0, dropped: 0 }),
    {
        TimerStats { dispatched: 0, dropped: 0 }
    }
}

impl TimerStats {
    pub fn new() -> (r: TimerStats)
        ensures
            r == (TimerStats { dispatched: 0, dropped: 0 }),
    {
        TimerStats { dispatched: 0, dropped: 0 }
    }
}

/// The timer's decisions.
pub struct Timer {
    pub queue: EventQueue,
    pub stats: TimerStats,
}

/// The events of the first `n` workers that have one.
pub open spec fn seeded(first: Seq<Option<u64>>, n: int) -> Multiset<DueEvent>
    decreases n,
{
    if n <= 0 {
        Multiset::empty()
    } else {
        let rest = seeded(first, n - 1);
        match first[n - 1] {
            Some(time) => rest.insert(DueEvent { time, worker: (n - 1) as usize }),
            None => rest,
        }
    }
}

impl Timer {
    /// A timer with the first event of every worker that has one.
    pub fn new(first: &Vec<Option<u64>>) -> (r: Timer)
        ensures
            r.queue@ == seeded(first@, first.len() as int),
            r.stats == (TimerStats { dispatched: 0, dropped: 0 }),
    {
        let mut queue: EventQueue = EventQueue::new();
        let mut i: usize = 0;
        while i < first.len()
            invariant
                i <= first.len(),
                queue@ == seeded(first@, i as int),
            decreases first.len() - i,
        {
            if let Some(time) = first[i] {
                queue.push(DueEvent { time, worker: i });
            }
            i = i + 1;
        }
        Timer { queue, stats: TimerStats::new() }
    }

    /// The next due event; `None` once all schedules are exhausted.
    pub fn next_event(&mut self) -> (r: Option<DueEvent>)
        ensures
            final(self).stats == old(self).stats,
            match r {
                Some(e) => earliest(old(self).queue@, e) && final(self).queue@
                    == old(self).queue@.remove(e),
                None => old(self).queue@ == Multiset::<DueEvent>::empty() && final(self).queue@
                    == old(self).queue@,
            },
    {
        self.queue.pop()
    }

    /// Accounts for an event that was sent, and tells whether the worker's schedule goes on.
    pub fn dispatched(&mut self, outcome: SendOutcome) -> (r: bool)
        requires
            old(self).stats.dispatched < u64::MAX,
            old(self).stats.dropped < u64::MAX,
        ensures
            final(self).queue == old(self).queue,
            final(self).stats == (match outcome {
                SendOutcome::Sent => TimerStats {
                    dispatched: (old(self).stats.dispatched + 1) as u64,
                    ..old(self).stats
                },
                SendOutcome::Full => TimerStats {
                    dropped: (old(self).stats.dropped + 1) as u64,
                    ..old(self).stats
                },
                SendOutcome::Disconnected => old(self).stats,
            }),
            r == (outcome != SendOutcome::Disconnected),
    {
        match outcome {
            SendOutcome::Sent => {
                self.stats.dispatched = self.stats.dispatched + 1;
                true
            },
            SendOutcome::Full => {
                self.stats.dropped = self.stats.dropped + 1;
                true
            },
            SendOutcome::Disconnected => false,
        }
    }

    /// Queues the next event of a worker, if its schedule has one.
    pub fn advance(&mut self, worker: usize, next: Option<u64>)
        ensures
            final(self).stats == old(self).stats,
            final(self).queue@ == match next {
                Some(time) => old(self).queue@.insert(DueEvent { time, worker }),
                None => old(self).queue@,
            },
    {
        if let Some(time) = next {
            self.queue.push(DueEvent { time, worker });
        }
    }
}

/// A worker's share of the total rate.
pub fn per_worker_rate(total_rps: Num, num_workers: usize) -> (r: Num)
    ensures
        r == total_rps.over_of(Num::of_int(num_workers as int)),
{
    total_rps.over(Num::of(num_workers as u64))
}

/// How to wait for a moment.
#[derive(Debug, Clone, Copy, PartialEq, Eq, Structural)]
pub struct WaitPlan {
    /// The part to sleep.
    pub sleep: u64,
    /// Whether to spin until the moment after that.
    pub spin: bool,
}

/// How to wait for a moment with high precision: not at all if it has come; otherwise sleep all but
/// the last fifty microseconds, and spin.
pub fn precision_sleep_sync(target: u64, now: u64) -> (r: WaitPlan)
    ensures
        r.spin == (target > now),
        r.sleep == if target > now && target - now > SPIN_SPAN {
            target - now - SPIN_SPAN
        } else {
            0
        },
{
    if target <= now {
        return WaitPlan { sleep: 0, spin: false };
    }
    let remaining: u64 = target - now;
    if remaining > SPIN_SPAN {
        WaitPlan { sleep: remaining - SPIN_SPAN, spin: true }
    } else {
        WaitPlan { sleep: 0, spin: true }
    }
}

/// Events come out in order: as long as nothing earlier is queued in between, each comes no sooner
/// than the one before.
pub proof fn events_come_in_order(
    queue: Multiset<DueEvent>,
    first: DueEvent,
    added: Option<DueEvent>,
    second: DueEvent,
)
    requires
        earliest(queue, first),
        added matches Some(e) ==> before(first, e),
        earliest(
            match added {
                Some(e) => queue.remove(first).insert(e),
                None => queue.remove(first),
            },
            second,
        ),
    ensures
        before(first, second),
{
    broadcast use group_multiset_axioms;

    if let Some(e) = added {
        if second != e {
            assert(queue.contains(second));
        }
    } else {
        assert(queue.contains(second));
    }
}

} // verus!
