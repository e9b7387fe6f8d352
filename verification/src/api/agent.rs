//! The life of an agent: idle, running a test, idle again.
//!
//! Threads, channels and sockets are outside. `accepts_commands` stands for the command channel of
//! the running test.

use vstd::prelude::*;
use vstd::string::*;

use crate::api::server::Answer;
use crate::api::types::SharedState;
use crate::coordinator::TestResult;
use crate::text::{chars_of, joined3, slice_of};

verus! {

/// Thirty seconds: how long a test may take to start, in nanoseconds.
pub const STARTUP_TIMEOUT: u64 = 30_000_000_000;

/// What an agent is doing.
#[derive(Debug, Clone, Copy, PartialEq, Eq, Structural)]
pub enum NodeState {
    Idle,
    Running,
}

/// An agent, as it describes itself.
#[derive(Debug)]
pub struct NodeInfo {
    pub id: String,
    pub addr: String,
    pub cores: usize,
    pub state: NodeState,
}

/// How a test started.
#[derive(Debug, Clone, Copy, PartialEq, Eq, Structural)]
pub enum Startup {
    Ready,
    /// The test ended before it was ready.
    Failed,
    TimedOut,
}

/// What an agent knows.
#[derive(Debug)]
pub struct Agent {
    pub node_id: String,
    pub listen_addr: String,
    pub cores: usize,
    pub state: NodeState,
    pub shared_state: SharedState,
    pub accepts_commands: bool,
    pub last_result: Option<TestResult>,
}

/// What follows the last colon; the whole text where there is none.
pub open spec fn after_last_colon(s: Seq<char>) -> Seq<char>
    decreases s.len(),
{
    if s.len() == 0 || s.last() == ':' {
        Seq::empty()
    } else {
        after_last_colon(s.drop_last()).push(s.last())
    }
}

fn port_part(addr: &str) -> (r: String)
    ensures
        r@ == after_last_colon(addr@),
{
    let v: Vec<char> = chars_of(addr);
    let mut from: usize = v.len();
    proof {
        assert(v@.take(from as int) =~= addr@);
        assert(after_last_colon(addr@) =~= after_last_colon(v@.take(from as int)) + v@.skip(
            from as int,
        ));
    }
    while from > 0 && v[from - 1] != ':'
        invariant
            from <= v.len(),
            v@ == addr@,
            after_last_colon(addr@) == after_last_colon(v@.take(from as int)) + v@.skip(
                from as int,
            ),
        decreases from,
    {
        proof {
            let head = v@.take(from as int);
            assert(head.last() == v@[from - 1]);
            assert(head.drop_last() =~= v@.take(from - 1));
            assert(after_last_colon(head) + v@.skip(from as int) =~= after_last_colon(
                v@.take(from - 1),
            ) + v@.skip(from - 1));
        }
        from = from - 1;
    }
    proof {
        let head = v@.take(from as int);
        if from > 0 {
            assert(head.last() == ':');
        }
        assert(after_last_colon(head) =~= Seq::empty());
        assert(Seq::<char>::empty() + v@.skip(from as int) =~= v@.subrange(
            from as int,
            v@.len() as int,
        ));
    }
    slice_of(&v, from, v.len())
}

/// The name of an agent that was given none: its host and its port.
pub open spec fn default_id(hostname: Option<String>, bind_addr: Seq<char>) -> Seq<char> {
    (match hostname {
        Some(h) => h@,
        None => "unknown"@,
    }) + ":"@ + after_last_colon(bind_addr)
}

/// The name of an agent that was given none.
pub fn default_node_id(hostname: &Option<String>, bind_addr: &str) -> (r: String)
    ensures
        r@ == default_id(*hostname, bind_addr@),
{
    let port: String = port_part(bind_addr);
    match hostname {
        Some(h) => joined3(h.as_str(), ":", port.as_str()),
        None => joined3("unknown", ":", port.as_str()),
    }
}

impl Agent {
    /// Commands are taken exactly while a test runs.
    pub open spec fn wf(self) -> bool {
        self.accepts_commands == (self.state == NodeState::Running)
    }

    /// A new agent, idle. Without a name it is called after its host and port.
    pub fn new(
        bind_addr: &str,
        cores: usize,
        node_id: Option<String>,
        hostname: &Option<String>,
    ) -> (r: Agent)
        ensures
            r.wf(),
            r.node_id@ == match node_id {
                Some(id) => id@,
                None => default_id(*hostname, bind_addr@),
            },
            r.listen_addr@ == bind_addr@,
            r.cores == cores,
            r.state == NodeState::Idle,
            r.shared_state.status.blank(),
            r.shared_state.metrics is None,
            r.shared_state.pushed_signals@.len() == 0,
            r.shared_state.node_id is None,
            r.last_result is None,
    {
        let id: String = match node_id {
            Some(id) => id,
            None => default_node_id(hostname, bind_addr),
        };
        Agent {
            node_id: id,
            listen_addr: bind_addr.to_owned(),
            cores,
            state: NodeState::Idle,
            shared_state: SharedState::new(),
            accepts_commands: false,
            last_result: None,
        }
    }

    /// Puts the agent's name on its metrics.
    pub fn label_metrics(&mut self)
        ensures
            final(self).shared_state.node_id matches Some(id) && id@ == old(self).node_id@,
            *final(self) == (Agent {
                shared_state: SharedState {
                    node_id: final(self).shared_state.node_id,
                    ..old(self).shared_state
                },
                ..*old(self)
            }),
    {
        self.shared_state.set_node_id(self.node_id.clone());
    }

    /// Describes the agent.
    pub fn info(&self) -> (r: NodeInfo)
        ensures
            r.id@ == self.node_id@,
            r.addr@ == self.listen_addr@,
            r.cores == self.cores,
            r.state == self.state,
    {
        NodeInfo {
            id: self.node_id.clone(),
            addr: self.listen_addr.clone(),
            cores: self.cores,
            state: self.state,
        }
    }

    /// Begins a test, unless one is running. The figures of earlier tests are forgotten; the name
    /// on the metrics stays.
    pub fn begin_test(&mut self) -> (r: Result<(), String>)
        requires
            old(self).wf(),
        ensures
            final(self).wf(),
            if old(self).state == NodeState::Running {
                &&& r matches Err(e) && e@ == "test already running"@
                &&& *final(self) == *old(self)
            } else {
                &&& r is Ok
                &&& final(self).state == NodeState::Running
                &&& final(self).last_result is None
                &&& final(self).shared_state.status.blank()
                &&& final(self).shared_state.metrics is None
                &&& final(self).shared_state.pushed_signals@.len() == 0
                &&& final(self).shared_state.node_id == old(self).shared_state.node_id
                &&& final(self).node_id == old(self).node_id
                &&& final(self).listen_addr == old(self).listen_addr
                &&& final(self).cores == old(self).cores
            },
    {
        match self.state {
            NodeState::Running => Err("test already running".to_owned()),
            NodeState::Idle => {
                self.state = NodeState::Running;
                let mut fresh: SharedState = SharedState::new();
                std::mem::swap(&mut fresh.node_id, &mut self.shared_state.node_id);
                self.shared_state = fresh;
                self.accepts_commands = true;
                self.last_result = None;
                Ok(())
            },
        }
    }

    /// Takes note of how the test started; one that did not leaves the agent idle.
    pub fn note_startup(&mut self, startup: Startup) -> (r: Result<(), String>)
        requires
            old(self).wf(),
        ensures
            final(self).wf(),
            match startup {
                Startup::Ready => r is Ok && *final(self) == *old(self),
                Startup::Failed => (r matches Err(e) && e@ == "coordinator startup failed"@)
                    && *final(self) == (Agent {
                    state: NodeState::Idle,
                    accepts_commands: false,
                    ..*old(self)
                }),
                Startup::TimedOut => (r matches Err(e) && e@ == "coordinator startup timed out"@)
                    && *final(self) == (Agent {
                    state: NodeState::Idle,
                    accepts_commands: false,
                    ..*old(self)
                }),
            },
    {
        match startup {
            Startup::Ready => Ok(()),
            Startup::Failed => {
                self.state = NodeState::Idle;
                self.accepts_commands = false;
                Err("coordinator startup failed".to_owned())
            },
            Startup::TimedOut => {
                self.state = NodeState::Idle;
                self.accepts_commands = false;
                Err("coordinator startup timed out".to_owned())
            },
        }
    }

    /// The test is over: the agent is idle again, its metrics are cleared, and a result is kept.
    pub fn finish_test(&mut self, result: Option<TestResult>)
        requires
            old(self).wf(),
        ensures
            final(self).wf(),
            final(self).state == NodeState::Idle,
            final(self).shared_state.metrics is None,
            final(self).shared_state.status.blank(),
            final(self).shared_state.pushed_signals == old(self).shared_state.pushed_signals,
            final(self).shared_state.node_id == old(self).shared_state.node_id,
            final(self).last_result == if result is Some {
                result
            } else {
                old(self).last_result
            },
            final(self).node_id == old(self).node_id,
            final(self).listen_addr == old(self).listen_addr,
            final(self).cores == old(self).cores,
    {
        self.state = NodeState::Idle;
        self.accepts_commands = false;
        self.shared_state.reset_metrics();
        if let Some(r) = result {
            self.last_result = Some(r);
        }
    }

    /// The result of the last test, if there is one.
    pub fn test_result(&self) -> (r: Result<TestResult, Answer>)
        ensures
            match self.last_result {
                Some(t) => r == Ok::<TestResult, Answer>(t),
                None => r matches Err(a) && a.fails(404, "no test result available"@),
            },
    {
        match self.last_result {
            Some(t) => Ok(t),
            None => Err(Answer::failure(404, "no test result available".to_owned())),
        }
    }
}

/// The answer to a request to start a test.
pub fn start_answer(started: Result<(), String>) -> (r: Answer)
    ensures
        match started {
            Ok(_) => r.succeeds(),
            Err(e) => r.fails(409, e@),
        },
{
    match started {
        Ok(_) => Answer::success(),
        Err(e) => Answer::failure(409, e),
    }
}

} // verus!
