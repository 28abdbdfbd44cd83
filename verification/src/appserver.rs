//! The decisions of the client for `codex app-server` (line-delimited
//! JSON-RPC over stdio): which incoming message answers a request, which
//! must be answered, and what a turn produced. The process, its pipes and the
//! JSON values are handled outside this library, which receives each message
//! as an `RpcMessage`.

use vstd::prelude::*;
use crate::text::{chars_of, string_from, str_eq, opt_view};

verus! {

/// The parts of an incoming message that the client looks at.
pub struct RpcMessage {
    /// Whether the message has an `id` at all.
    pub has_id: bool,
    /// The `id`, when it is an unsigned integer.
    pub id: Option<u64>,
    /// The `method`, when there is one (as text).
    pub method: Option<String>,
    /// For a response with an `error`: its `message`, or the error as JSON.
    pub error: Option<String>,
    /// `params.threadId`, when it is a string.
    pub thread_id: Option<String>,
    /// `params.item.type`, when it is a string.
    pub item_type: Option<String>,
    /// `params.item.text`, when it is a string.
    pub item_text: Option<String>,
    /// `params.error.message`, when it is a string.
    pub error_message: Option<String>,
    /// `params.turn.status`, when it is a string.
    pub turn_status: Option<String>,
    /// `params.turn.error.message`, when it is a string.
    pub turn_error: Option<String>,
}

/// The result of one turn.
pub struct TurnOutcome {
    /// `completed`, `interrupted` or `failed`.
    pub status: String,
    pub error: Option<String>,
    /// Text of the last agent message in the turn.
    pub reply: String,
    /// `error` notifications seen during the turn (including retried ones).
    pub errors: Vec<String>,
}

impl TurnOutcome {
    /// A turn that has not reported anything yet.
    pub fn new() -> (r: TurnOutcome)
        ensures
            r.status@.len() == 0 && r.error is None && r.reply@.len() == 0 && r.errors@.len() == 0,
    {
        TurnOutcome { status: String::new(), error: None, reply: String::new(), errors: Vec::new() }
    }
}

/// The server may send requests of its own (approvals, auth refresh...):
/// messages with both an `id` and a `method`. They must be answered.
pub open spec fn is_server_request(m: RpcMessage) -> bool {
    m.has_id && m.method is Some
}

/// What to do with a message while waiting for the response to request `id`.
pub enum RequestStep {
    /// Answer the server's own request (that it is not handled).
    AnswerServer,
    /// This is the response: its result is the value.
    Reply,
    /// This is the response, and the request failed with this text.
    Failed(String),
    /// Something else: keep it for later.
    Backlog,
}

/// Sorts a message received while waiting for the response to request `id`.
pub fn request_step(m: &RpcMessage, id: u64) -> (r: RequestStep)
    ensures
        match r {
            RequestStep::AnswerServer => is_server_request(*m),
            RequestStep::Reply => !is_server_request(*m) && m.method is None && m.id == Some(id)
                && m.error is None,
            RequestStep::Failed(t) => !is_server_request(*m) && m.method is None && m.id == Some(
                id,
            ) && m.error == Some(t),
            RequestStep::Backlog => !is_server_request(*m) && !(m.method is None && m.id == Some(
                id,
            )),
        },
{
    if m.has_id && m.method.is_some() {
        return RequestStep::AnswerServer;
    }
    let mine = match m.id {
        Some(x) => x == id,
        None => false,
    };
    if m.method.is_none() && mine {
        match &m.error {
            Some(e) => RequestStep::Failed(e.clone()),
            None => RequestStep::Reply,
        }
    } else {
        RequestStep::Backlog
    }
}

/// What to do with a message while waiting for a turn to complete.
pub enum TurnStep {
    /// Answer the server's own request.
    AnswerServer,
    /// Keep waiting.
    Continue,
    /// The turn completed; the outcome is final.
    Done,
}

fn is(o: &Option<String>, lit: &str) -> (r: bool)
    ensures
        r == (opt_view(*o) == Some(lit@)),
{
    match o {
        Some(s) => str_eq(s.as_str(), lit),
        None => false,
    }
}

/// How a message about `thread_id` changes the outcome of its turn: the
/// last agent message is the reply, `error` notifications are collected,
/// and `turn/completed` gives the status and error.
pub open spec fn turn_update(out: TurnOutcome, new: TurnOutcome, m: RpcMessage, thread_id: Seq<char>) -> bool {
    if is_server_request(m) || opt_view(m.thread_id) != Some(thread_id) {
        new == out
    } else if opt_view(m.method) == Some("item/completed"@) && opt_view(m.item_type) == Some(
        "agentMessage"@,
    ) {
        new.reply@ == match m.item_text {
            Some(t) => t@,
            None => out.reply@,
        } && new.status == out.status && new.error == out.error && new.errors == out.errors
    } else if opt_view(m.method) == Some("error"@) {
        new.errors@ == match m.error_message {
            Some(t) => out.errors@.push(t),
            None => out.errors@,
        } && new.status == out.status && new.error == out.error && new.reply == out.reply
    } else if opt_view(m.method) == Some("turn/completed"@) {
        new.status@ == match m.turn_status {
            Some(s) => s@,
            None => "unknown"@,
        } && new.error == m.turn_error && new.reply == out.reply && new.errors == out.errors
    } else {
        new == out
    }
}

/// Takes one message into the outcome of the turn on `thread_id`.
pub fn turn_step(out: &mut TurnOutcome, m: &RpcMessage, thread_id: &str) -> (r: TurnStep)
    ensures
        turn_update(*old(out), *final(out), *m, thread_id@),
        match r {
            TurnStep::AnswerServer => is_server_request(*m),
            TurnStep::Done => !is_server_request(*m) && opt_view(m.thread_id) == Some(thread_id@)
                && opt_view(m.method) == Some("turn/completed"@),
            TurnStep::Continue => !(!is_server_request(*m) && opt_view(m.thread_id) == Some(
                thread_id@,
            ) && opt_view(m.method) == Some("turn/completed"@)) && !is_server_request(*m),
        },
{
    if m.has_id && m.method.is_some() {
        return TurnStep::AnswerServer;
    }
    let ours = match &m.thread_id {
        Some(t) => str_eq(t.as_str(), thread_id),
        None => false,
    };
    if !ours {
        return TurnStep::Continue;
    }
    if is(&m.method, "item/completed") && is(&m.item_type, "agentMessage") {
        match &m.item_text {
            Some(t) => {
                out.reply = t.clone();
            },
            None => {},
        }
        proof {
            reveal_strlit("item/completed");
            reveal_strlit("turn/completed");
            assert("item/completed"@[0] != "turn/completed"@[0]);
        }
        TurnStep::Continue
    } else if is(&m.method, "error") {
        match &m.error_message {
            Some(t) => {
                out.errors.push(t.clone());
            },
            None => {},
        }
        proof {
            reveal_strlit("error");
            reveal_strlit("turn/completed");
            assert("error"@[0] != "turn/completed"@[0]);
        }
        TurnStep::Continue
    } else if is(&m.method, "turn/completed") {
        out.status = match &m.turn_status {
            Some(s) => s.clone(),
            None => string_from(&chars_of("unknown")),
        };
        out.error = match &m.turn_error {
            Some(e) => Some(e.clone()),
            None => None,
        };
        TurnStep::Done
    } else {
        TurnStep::Continue
    }
}

/// Whether a turn finished normally.
pub fn completed(out: &TurnOutcome) -> (r: bool)
    ensures
        r == (out.status@ == "completed"@),
{
    str_eq(out.status.as_str(), "completed")
}

} // verus!
