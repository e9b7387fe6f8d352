//! How control requests are answered, and which commands they send to a running test.
//!
//! Routing, the parsing of bodies and the channels are outside: a request comes with its parsed
//! body, or with the reason why the body could not be parsed, and with whether there is a test
//! that takes commands.

use vstd::prelude::*;
use vstd::string::*;

use crate::api::types::{
    ApiResponse, MetricsView, PushSignalRequest, SharedState, UpdateMetadataRequest,
    UpdateRateRequest, UpdateTargetsRequest,
};
use crate::coordinator::{named, with_signal, HoldCommand, WorkerCommand};
use crate::num::Num;
use crate::text::{decimal, decimal_text, joined};

verus! {

/// Ten seconds: how long the coordinator may take to answer, in nanoseconds.
pub const COORDINATOR_TIMEOUT: u64 = 10_000_000_000;

/// What kind of text the Prometheus metrics are.
pub const PROMETHEUS_CONTENT_TYPE: &'static str = "text/plain; version=0.0.4; charset=utf-8";

/// The body of an answer.
#[derive(Debug)]
pub enum AnswerBody {
    Api(ApiResponse),
    /// The rate is held and the rate controller pauses.
    Held { rps: Num },
    /// The rate controller goes on.
    Resumed,
}

/// An answer: its HTTP status and its body.
#[derive(Debug)]
pub struct Answer {
    pub status: u16,
    pub body: AnswerBody,
}

/// What a request leads to: a command to the running test, and an answer.
pub struct Handled {
    pub command: Option<WorkerCommand>,
    pub answer: Answer,
}

impl Answer {
    /// The request was taken.
    pub open spec fn succeeds(self) -> bool {
        &&& self.status == 200
        &&& self.body matches AnswerBody::Api(r) && r.ok && r.error is None
    }

    /// The answer has this status and names this error.
    pub open spec fn fails(self, status: u16, text: Seq<char>) -> bool {
        &&& self.status == status
        &&& self.body matches AnswerBody::Api(r) && !r.ok && (r.error matches Some(e) && e@ == text)
    }

    /// The request was taken.
    pub fn success() -> (r: Answer)
        ensures
            r.succeeds(),
    {
        Answer { status: 200, body: AnswerBody::Api(ApiResponse::success()) }
    }

    /// An error under an HTTP status.
    pub fn failure(status: u16, text: String) -> (r: Answer)
        ensures
            r.fails(status, text@),
    {
        Answer { status, body: AnswerBody::Api(ApiResponse::error(text)) }
    }
}

/// The error for a body that is not what was asked for.
pub open spec fn invalid_json(rejection: Seq<char>) -> Seq<char> {
    "invalid JSON: "@ + rejection
}

fn refuse_body(rejection: &str) -> (r: Answer)
    ensures
        r.fails(400, invalid_json(rejection@)),
{
    Answer::failure(400, joined("invalid JSON: ", rejection))
}

fn refuse_idle() -> (r: Answer)
    ensures
        r.fails(409, "no test running"@),
{
    Answer::failure(409, "no test running".to_owned())
}

/// Answers a request for an unknown path.
pub fn handle_not_found() -> (r: Answer)
    ensures
        r.fails(404, "not found"@),
{
    Answer::failure(404, "not found".to_owned())
}

/// The address a server listens on at a port of all interfaces.
pub fn any_interface(port: u16) -> (r: String)
    ensures
        r@ == "0.0.0.0:"@ + decimal(port as nat),
{
    joined("0.0.0.0:", decimal_text(port as u64).as_str())
}

/// The metrics to show, or that there are none yet.
pub fn get_metrics(state: &SharedState) -> (r: Result<&MetricsView, Answer>)
    ensures
        match state.metrics {
            Some(m) => r matches Ok(v) && *v == m,
            None => r matches Err(a) && a.fails(200, "no metrics yet"@),
        },
{
    match &state.metrics {
        Some(m) => Ok(m),
        None => Err(Answer::failure(200, "no metrics yet".to_owned())),
    }
}

/// A held rate is sent as a command where the body is sound and a test takes commands.
pub open spec fn holds(h: Handled, body: Result<UpdateRateRequest, String>, open: bool) -> bool {
    match body {
        Err(e) => h.command is None && h.answer.fails(400, invalid_json(e@)),
        Ok(b) => if open {
            h.command == Some(WorkerCommand::Hold(HoldCommand::Hold(b.rps)))
        } else {
            h.command is None && h.answer.fails(409, "no test running"@)
        },
    }
}

/// Holds the rate; the answer only says that it was taken.
pub fn put_rate(body: Result<UpdateRateRequest, String>, open: bool) -> (r: Handled)
    ensures
        holds(r, body, open),
        body is Ok && open ==> r.answer.succeeds(),
{
    match body {
        Err(e) => Handled { command: None, answer: refuse_body(e.as_str()) },
        Ok(b) => if open {
            Handled {
                command: Some(WorkerCommand::Hold(HoldCommand::Hold(b.rps))),
                answer: Answer::success(),
            }
        } else {
            Handled { command: None, answer: refuse_idle() }
        },
    }
}

/// Holds the rate; the answer says at what rate.
pub fn put_hold(body: Result<UpdateRateRequest, String>, open: bool) -> (r: Handled)
    ensures
        holds(r, body, open),
        open ==> (body matches Ok(b) ==> r.answer == (Answer {
            status: 200,
            body: AnswerBody::Held { rps: b.rps },
        })),
{
    match body {
        Err(e) => Handled { command: None, answer: refuse_body(e.as_str()) },
        Ok(b) => if open {
            Handled {
                command: Some(WorkerCommand::Hold(HoldCommand::Hold(b.rps))),
                answer: Answer { status: 200, body: AnswerBody::Held { rps: b.rps } },
            }
        } else {
            Handled { command: None, answer: refuse_idle() }
        },
    }
}

/// Releases a held rate.
pub fn delete_hold(open: bool) -> (r: Handled)
    ensures
        if open {
            &&& r.command == Some(WorkerCommand::Hold(HoldCommand::Release))
            &&& r.answer == (Answer { status: 200, body: AnswerBody::Resumed })
        } else {
            r.command is None && r.answer.fails(409, "no test running"@)
        },
{
    if open {
        Handled {
            command: Some(WorkerCommand::Hold(HoldCommand::Release)),
            answer: Answer { status: 200, body: AnswerBody::Resumed },
        }
    } else {
        Handled { command: None, answer: refuse_idle() }
    }
}

/// Replaces the targets; there must be at least one.
pub fn put_targets(body: Result<UpdateTargetsRequest, String>, open: bool) -> (r: Handled)
    ensures
        match body {
            Err(e) => r.command is None && r.answer.fails(400, invalid_json(e@)),
            Ok(b) => if b.targets@.len() == 0 {
                r.command is None && r.answer.fails(400, "targets must not be empty"@)
            } else if open {
                r.command == Some(WorkerCommand::UpdateTargets(b.targets)) && r.answer.succeeds()
            } else {
                r.command is None && r.answer.fails(409, "no test running"@)
            },
        },
{
    match body {
        Err(e) => Handled { command: None, answer: refuse_body(e.as_str()) },
        Ok(b) => if b.targets.len() == 0 {
            Handled {
                command: None,
                answer: Answer::failure(400, "targets must not be empty".to_owned()),
            }
        } else if open {
            Handled {
                command: Some(WorkerCommand::UpdateTargets(b.targets)),
                answer: Answer::success(),
            }
        } else {
            Handled { command: None, answer: refuse_idle() }
        },
    }
}

/// Replaces the headers.
pub fn put_headers(body: Result<UpdateMetadataRequest, String>, open: bool) -> (r: Handled)
    ensures
        match body {
            Err(e) => r.command is None && r.answer.fails(400, invalid_json(e@)),
            Ok(b) => if open {
                r.command == Some(WorkerCommand::UpdateMetadata(b.headers)) && r.answer.succeeds()
            } else {
                r.command is None && r.answer.fails(409, "no test running"@)
            },
        },
{
    match body {
        Err(e) => Handled { command: None, answer: refuse_body(e.as_str()) },
        Ok(b) => if open {
            Handled {
                command: Some(WorkerCommand::UpdateMetadata(b.headers)),
                answer: Answer::success(),
            }
        } else {
            Handled { command: None, answer: refuse_idle() }
        },
    }
}

/// Takes a signal from outside; it is kept whether or not a test runs.
pub fn put_signal(state: &mut SharedState, body: Result<PushSignalRequest, String>) -> (r: Answer)
    ensures
        match body {
            Err(e) => r.fails(400, invalid_json(e@)) && *final(state) == *old(state),
            Ok(b) => {
                &&& r.succeeds()
                &&& named(final(state).pushed_signals@) == with_signal(
                    named(old(state).pushed_signals@),
                    b.name@,
                    b.value,
                )
                &&& final(state).status == old(state).status
                &&& final(state).metrics == old(state).metrics
                &&& final(state).node_id == old(state).node_id
            },
        },
{
    match body {
        Err(e) => refuse_body(e.as_str()),
        Ok(b) => {
            state.push_signal(b.name, b.value);
            Answer::success()
        },
    }
}

/// Stops the running test.
pub fn post_stop(open: bool) -> (r: Handled)
    ensures
        if open {
            r.command == Some(WorkerCommand::Stop) && r.answer.succeeds()
        } else {
            r.command is None && r.answer.fails(409, "no test running"@)
        },
{
    if open {
        Handled { command: Some(WorkerCommand::Stop), answer: Answer::success() }
    } else {
        Handled { command: None, answer: refuse_idle() }
    }
}

/// Asks the rate controller for its state.
pub fn ask_controller(open: bool) -> (r: Result<WorkerCommand, Answer>)
    ensures
        if open {
            r == Ok::<WorkerCommand, Answer>(WorkerCommand::ControllerInfo)
        } else {
            r matches Err(a) && a.fails(409, "no test running"@)
        },
{
    if open {
        Ok(WorkerCommand::ControllerInfo)
    } else {
        Err(refuse_idle())
    }
}

/// What the rate controller answered; nothing where the coordinator did not answer in time.
pub fn get_controller<T>(reply: Option<T>) -> (r: Result<T, Answer>)
    ensures
        match reply {
            Some(v) => r == Ok::<T, Answer>(v),
            None => r matches Err(a) && a.fails(500, "timeout waiting for coordinator"@),
        },
{
    match reply {
        Some(v) => Ok(v),
        None => Err(Answer::failure(500, "timeout waiting for coordinator".to_owned())),
    }
}

/// The action of a controller update, where the body is sound, names one, and a test takes
/// commands; the checks come in this order.
pub fn controller_action(body: Result<Option<String>, String>, open: bool) -> (r: Result<
    String,
    Answer,
>)
    ensures
        match body {
            Err(e) => r matches Err(a) && a.fails(400, invalid_json(e@)),
            Ok(None) => r matches Err(a) && a.fails(400, "missing 'action' field"@),
            Ok(Some(action)) => if open {
                r == Ok::<String, Answer>(action)
            } else {
                r matches Err(a) && a.fails(409, "no test running"@)
            },
        },
{
    match body {
        Err(e) => Err(refuse_body(e.as_str())),
        Ok(None) => Err(Answer::failure(400, "missing 'action' field".to_owned())),
        Ok(Some(action)) => if open {
            Ok(action)
        } else {
            Err(refuse_idle())
        },
    }
}

/// What the rate controller made of an update: its reply, its error, or nothing in time.
pub fn put_controller<T>(reply: Option<Result<T, String>>) -> (r: Result<T, Answer>)
    ensures
        match reply {
            Some(Ok(v)) => r == Ok::<T, Answer>(v),
            Some(Err(e)) => r matches Err(a) && a.fails(400, e@),
            None => r matches Err(a) && a.fails(500, "timeout waiting for coordinator"@),
        },
{
    match reply {
        Some(Ok(v)) => Ok(v),
        Some(Err(e)) => Err(Answer::failure(400, e)),
        None => Err(Answer::failure(500, "timeout waiting for coordinator".to_owned())),
    }
}

} // verus!
