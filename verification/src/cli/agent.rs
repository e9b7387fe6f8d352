//! What the agent command decides before the agent runs.

use vstd::prelude::*;
use vstd::string::*;

use crate::engine::{layout_of, plan_cores, worker_count, CoreLayout};
use crate::text::{chars_of, find_char, joined};

verus! {

/// The address to bind: the one given, or a port of all interfaces.
pub fn parse_listen_addr(listen: &str) -> (r: String)
    ensures
        r@ == if listen@.contains(':') {
            listen@
        } else {
            "0.0.0.0:"@ + listen@
        },
{
    match find_char(&chars_of(listen), ':', 0) {
        Some(i) => {
            assert(listen@[i as int] == ':');
            listen.to_owned()
        },
        None => joined("0.0.0.0:", listen),
    }
}

/// How many cores the agent offers: the configured number, or all there are.
pub fn agent_cores(configured: usize, available: usize) -> (r: usize)
    ensures
        r == if configured == 0 {
            available
        } else {
            configured
        },
{
    if configured == 0 {
        available
    } else {
        configured
    }
}

/// Which cores are kept free of other threads, and where those go.
#[derive(Debug)]
pub struct IsolationPlan {
    pub hot_cores: Vec<usize>,
    pub misc_core: usize,
}

/// How many of an agent's cores do the I/O: all but two, and at least one.
pub open spec fn io_cores(cores: usize) -> int {
    worker_count(cores, 0)
}

/// The core for everything else, where the machine has one left; 0 where not.
pub open spec fn housekeeping_core(cores: usize, available: usize) -> usize {
    layout_of(available, io_cores(cores) as usize).misc_core
}

/// Plans the isolation of the timer and I/O cores. There is none where no core is left for
/// everything else.
pub fn plan_isolation(cores: usize, available: usize) -> (r: Option<IsolationPlan>)
    ensures
        if housekeeping_core(cores, available) != 0 {
            &&& r matches Some(p) && p.misc_core == housekeeping_core(cores, available)
                && p.hot_cores@ == Seq::new((io_cores(cores) + 1) as nat, |i: int| i as usize)
        } else {
            r is None
        },
{
    let num_io: usize = if cores <= 3 {
        1
    } else {
        cores - 2
    };
    let layout: CoreLayout = plan_cores(available, num_io);
    if layout.misc_core == layout.timer_core {
        return None;
    }
    let mut hot_cores: Vec<usize> = Vec::new();
    hot_cores.push(layout.timer_core);
    let mut i: usize = 0;
    while i < num_io
        invariant
            i <= num_io,
            num_io < usize::MAX,
            layout.io_core_start == 1,
            hot_cores.len() == i + 1,
            forall|j: int| 0 <= j <= i ==> hot_cores@[j] == j,
        decreases num_io - i,
    {
        hot_cores.push(layout.io_core_start + i);
        i = i + 1;
    }
    assert(hot_cores@ =~= Seq::new((num_io + 1) as nat, |i: int| i as usize));
    Some(IsolationPlan { hot_cores, misc_core: layout.misc_core })
}

/// The core for everything else is none of the cores that are kept free.
pub proof fn housekeeping_is_apart(cores: usize, available: usize, hot: int)
    requires
        housekeeping_core(cores, available) != 0,
        0 <= hot <= io_cores(cores),
    ensures
        hot < housekeeping_core(cores, available) < available,
{
}

} // verus!
