//! CPU isolation: which threads may be moved off the cores of the hot path.

use vstd::prelude::*;
use vstd::string::*;

use crate::text;
use crate::text::{parse_number, split_chars, split_once, starts_with, strip_prefix, trimmed};

verus! {

/// Counts from a sweep over all threads.
#[derive(Debug, Clone, Copy, PartialEq, Eq, Structural)]
pub struct ShieldResult {
    /// Threads moved to the housekeeping core.
    pub migrated: usize,
    /// Threads left alone because they are bound to their core.
    pub skipped: usize,
    /// Threads that could not be moved.
    pub failed: usize,
}

impl Default for ShieldResult {
    fn default() -> (r: ShieldResult)
        ensures
            r == (ShieldResult { migrated: 0, skipped: 0, failed: 0 }),
    {
        ShieldResult { migrated: 0, skipped: 0, failed: 0 }
    }
}

/// Whether a thread's name marks a kernel thread that is bound to its core: the per-CPU families,
/// and worker threads other than the unbound ones.
pub open spec fn bound_to_core(comm: Seq<char>) -> bool {
    ||| text::begins(comm, "ksoftirqd/"@)
    ||| text::begins(comm, "migration/"@)
    ||| text::begins(comm, "watchdog/"@)
    ||| text::begins(comm, "cpuhp/"@)
    ||| text::begins(comm, "idle_inject/"@)
    ||| text::begins(comm, "rcuc/"@)
    ||| text::begins(comm, "kworker/"@) && !text::begins(comm.skip("kworker/"@.len() as int), "u"@)
}

/// Whether a thread must not be moved off its core.
pub fn should_skip(comm: &str) -> (r: bool)
    ensures
        r == bound_to_core(comm@),
{
    if starts_with(comm, "ksoftirqd/") || starts_with(comm, "migration/") || starts_with(
        comm,
        "watchdog/",
    ) || starts_with(comm, "cpuhp/") || starts_with(comm, "idle_inject/") || starts_with(
        comm,
        "rcuc/",
    ) {
        return true;
    }
    match strip_prefix(comm, "kworker/") {
        Some(rest) => !starts_with(rest.as_str(), "u"),
        None => false,
    }
}

/// What to do with one thread.
#[derive(Debug, Clone, Copy, PartialEq, Eq, Structural)]
pub enum ThreadPlan {
    /// Bound to its core: count it as skipped.
    Skip,
    /// Off the hot cores already, or its affinity cannot be read: nothing to count.
    Leave,
    /// Move it to the housekeeping core.
    Migrate,
}

/// Whether two sets of cores have one in common.
pub open spec fn overlaps(a: Seq<usize>, b: Seq<usize>) -> bool {
    exists|i: int, j: int| 0 <= i < a.len() && 0 <= j < b.len() && #[trigger] a[i] == #[trigger] b[j]
}

fn have_common(a: &Vec<usize>, b: &Vec<usize>) -> (r: bool)
    ensures
        r == overlaps(a@, b@),
{
    let mut i: usize = 0;
    while i < a.len()
        invariant
            i <= a.len(),
            forall|x: int, y: int|
                0 <= x < i && 0 <= y < b.len() ==> #[trigger] a@[x] != #[trigger] b@[y],
        decreases a.len() - i,
    {
        let mut j: usize = 0;
        while j < b.len()
            invariant
                i < a.len(),
                j <= b.len(),
                forall|y: int| 0 <= y < j ==> a@[i as int] != #[trigger] b@[y],
            decreases b.len() - j,
        {
            if a[i] == b[j] {
                return true;
            }
            j = j + 1;
        }
        i = i + 1;
    }
    false
}

/// What to do with a thread of a given name and affinity.
pub open spec fn planned(
    comm: Seq<char>,
    affinity: Option<Seq<usize>>,
    hot_cores: Seq<usize>,
) -> ThreadPlan {
    if bound_to_core(comm) {
        ThreadPlan::Skip
    } else {
        match affinity {
            None => ThreadPlan::Leave,
            Some(cores) => if overlaps(hot_cores, cores) {
                ThreadPlan::Migrate
            } else {
                ThreadPlan::Leave
            },
        }
    }
}

/// The cores of a thread whose affinity could be read, as seen by contracts.
pub open spec fn cores_of(affinity: Option<Vec<usize>>) -> Option<Seq<usize>> {
    match affinity {
        Some(cores) => Some(cores@),
        None => None,
    }
}

/// Decides what to do with a thread. `affinity` holds the cores it may run on, if they could be
/// read.
pub fn plan_thread(comm: &str, affinity: &Option<Vec<usize>>, hot_cores: &Vec<usize>) -> (r:
    ThreadPlan)
    ensures
        r == planned(comm@, cores_of(*affinity), hot_cores@),
{
    if should_skip(comm) {
        return ThreadPlan::Skip;
    }
    match affinity {
        None => ThreadPlan::Leave,
        Some(cores) => {
            if have_common(hot_cores, cores) {
                ThreadPlan::Migrate
            } else {
                ThreadPlan::Leave
            }
        },
    }
}

/// A thread as a sweep found it.
pub struct ObservedThread {
    pub comm: String,
    /// The cores it may run on, if they could be read.
    pub affinity: Option<Vec<usize>>,
    /// Whether moving it succeeds.
    pub migrates: bool,
}

/// How many of the first `n` threads get a given treatment and, if moved, a given outcome.
pub open spec fn tally(
    threads: Seq<ObservedThread>,
    hot_cores: Seq<usize>,
    plan: ThreadPlan,
    outcome: Option<bool>,
    n: int,
) -> int
    decreases n,
{
    if n <= 0 {
        0
    } else {
        let t = threads[n - 1];
        tally(threads, hot_cores, plan, outcome, n - 1) + if planned(
            t.comm@,
            cores_of(t.affinity),
            hot_cores,
        ) == plan && (outcome is None || outcome == Some(t.migrates)) {
            1int
        } else {
            0
        }
    }
}

/// Sums up a sweep: threads bound to their core are skipped, threads on a hot core are moved or
/// fail to be, all others do not count.
pub fn shield_hot_cores(threads: &Vec<ObservedThread>, hot_cores: &Vec<usize>) -> (r: ShieldResult)
    ensures
        r.skipped == tally(threads@, hot_cores@, ThreadPlan::Skip, None, threads.len() as int),
        r.migrated == tally(
            threads@,
            hot_cores@,
            ThreadPlan::Migrate,
            Some(true),
            threads.len() as int,
        ),
        r.failed == tally(
            threads@,
            hot_cores@,
            ThreadPlan::Migrate,
            Some(false),
            threads.len() as int,
        ),
{
    let mut result: ShieldResult = ShieldResult::default();
    let mut i: usize = 0;
    while i < threads.len()
        invariant
            i <= threads.len(),
            result.skipped <= i && result.migrated <= i && result.failed <= i,
            result.skipped == tally(threads@, hot_cores@, ThreadPlan::Skip, None, i as int),
            result.migrated == tally(
                threads@,
                hot_cores@,
                ThreadPlan::Migrate,
                Some(true),
                i as int,
            ),
            result.failed == tally(
                threads@,
                hot_cores@,
                ThreadPlan::Migrate,
                Some(false),
                i as int,
            ),
        decreases threads.len() - i,
    {
        let t: &ObservedThread = &threads[i];
        match plan_thread(t.comm.as_str(), &t.affinity, hot_cores) {
            ThreadPlan::Skip => {
                result.skipped = result.skipped + 1;
            },
            ThreadPlan::Leave => {},
            ThreadPlan::Migrate => {
                if t.migrates {
                    result.migrated = result.migrated + 1;
                } else {
                    result.failed = result.failed + 1;
                }
            },
        }
        i = i + 1;
    }
    result
}

/// A bound of a CPU range; one that cannot be read counts as 0.
pub open spec fn cpu_bound(s: Seq<char>) -> int {
    match text::number(s, usize::MAX as int) {
        Some(n) => n,
        None => 0,
    }
}

/// The CPUs one part of an online list names: a range with both ends included, or a single one;
/// what is neither names none.
pub open spec fn part_range(s: Seq<char>) -> Option<(int, int)> {
    match text::cut(s, '-') {
        Some((lo, hi)) => if cpu_bound(lo) <= cpu_bound(hi) {
            Some((cpu_bound(lo), cpu_bound(hi)))
        } else {
            None
        },
        None => match text::number(s, usize::MAX as int) {
            Some(n) => Some((n, n)),
            None => None,
        },
    }
}

/// The ranges that the first `n` parts of an online list name.
pub open spec fn ranges_of(parts: Seq<Seq<char>>, n: int) -> Seq<(usize, usize)>
    decreases n,
{
    if n <= 0 {
        Seq::empty()
    } else {
        match part_range(parts[n - 1]) {
            Some((lo, hi)) => ranges_of(parts, n - 1).push((lo as usize, hi as usize)),
            None => ranges_of(parts, n - 1),
        }
    }
}

/// How many CPUs the first `n` ranges name.
pub open spec fn cpus_in(ranges: Seq<(usize, usize)>, n: int) -> int
    decreases n,
{
    if n <= 0 {
        0
    } else {
        cpus_in(ranges, n - 1) + (ranges[n - 1].1 - ranges[n - 1].0 + 1)
    }
}

/// Every range has its ends in order.
pub open spec fn ordered(ranges: Seq<(usize, usize)>) -> bool {
    forall|i: int| 0 <= i < ranges.len() ==> (#[trigger] ranges[i]).0 <= ranges[i].1
}

/// Reads a list of online CPUs such as `0-3,5,7-9` into ranges.
pub fn parse_online_cpus(list: &str) -> (r: Vec<(usize, usize)>)
    ensures
        ({
            let parts = text::parts_of(text::trim_of(list@), ',');
            r@ == ranges_of(parts, parts.len() as int)
        }),
        ordered(r@),
{
    let line: String = trimmed(list);
    let parts: Vec<String> = split_chars(line.as_str(), ',');
    let ghost ps = text::parts_of(text::trim_of(list@), ',');
    let mut out: Vec<(usize, usize)> = Vec::new();
    let mut i: usize = 0;
    while i < parts.len()
        invariant
            i <= parts.len(),
            parts.len() == ps.len(),
            forall|j: int| 0 <= j < parts.len() ==> (#[trigger] parts@[j])@ == ps[j],
            out@ == ranges_of(ps, i as int),
            ordered(out@),
        decreases parts.len() - i,
    {
        let part: &str = parts[i].as_str();
        match split_once(part, '-') {
            Some((a, b)) => {
                let lo: usize = match parse_number(a.as_str(), usize::MAX as u64) {
                    Some(n) => n as usize,
                    None => 0,
                };
                let hi: usize = match parse_number(b.as_str(), usize::MAX as u64) {
                    Some(n) => n as usize,
                    None => 0,
                };
                if lo <= hi {
                    out.push((lo, hi));
                }
            },
            None => {
                match parse_number(part, usize::MAX as u64) {
                    Some(n) => {
                        out.push((n as usize, n as usize));
                    },
                    None => {},
                }
            },
        }
        i = i + 1;
    }
    out
}

/// The number of CPUs the process may run on again: all online ones, or 0 if there are none or
/// the affinity could not be set.
pub fn reset_affinity(online: &Vec<(usize, usize)>, affinity_set: bool) -> (r: usize)
    requires
        ordered(online@),
        cpus_in(online@, online.len() as int) <= usize::MAX,
    ensures
        r == if affinity_set {
            cpus_in(online@, online.len() as int)
        } else {
            0
        },
{
    if !affinity_set {
        return 0;
    }
    let mut count: usize = 0;
    let mut i: usize = 0;
    while i < online.len()
        invariant
            i <= online.len(),
            ordered(online@),
            count == cpus_in(online@, i as int),
            cpus_in(online@, online.len() as int) <= usize::MAX,
        decreases online.len() - i,
    {
        proof {
            cpus_grow(online@, i as int + 1, online.len() as int);
        }
        count = count + (online[i].1 - online[i].0) + 1;
        i = i + 1;
    }
    count
}

/// More ranges never name fewer CPUs.
pub proof fn cpus_grow(ranges: Seq<(usize, usize)>, a: int, b: int)
    requires
        ordered(ranges),
        0 <= a <= b <= ranges.len(),
    ensures
        0 <= cpus_in(ranges, a) <= cpus_in(ranges, b),
    decreases b,
{
    if a < b {
        cpus_grow(ranges, a, b - 1);
    } else if a > 0 {
        cpus_grow(ranges, a - 1, b - 1);
    }
}

} // verus!
