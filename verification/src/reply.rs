//! What the router hands back to the listener: a reply, or work that only the listener can
//! do before a reply can be given.

use vstd::prelude::*;

verus! {

/// The answer to a request.
#[derive(Debug, PartialEq, Eq)]
pub enum Reply {
    /// Success, with a body of text.
    Text(String),
    /// Success, with a body of bytes.
    Bytes(Vec<u8>),
    /// No route answered, or the handler had nothing to show.
    NotFound,
    /// A collaborator failed, or a handler was given arguments that it does not take.
    ServerError,
}

/// The model of a `Reply`.
pub enum ReplyView {
    Text(Seq<char>),
    Bytes(Seq<u8>),
    NotFound,
    ServerError,
}

impl View for Reply {
    type V = ReplyView;

    open spec fn view(&self) -> ReplyView {
        match self {
            Reply::Text(body) => ReplyView::Text(body@),
            Reply::Bytes(body) => ReplyView::Bytes(body@),
            Reply::NotFound => ReplyView::NotFound,
            Reply::ServerError => ReplyView::ServerError,
        }
    }
}

/// What the listener is to do for a request.
#[derive(Debug, PartialEq, Eq)]
pub enum Action {
    /// Send the reply.
    Respond(Reply),
    /// Suspend for exactly this many seconds, then send the reply.
    Sleep { seconds: u64, reply: Reply },
    /// Read this file on the pool for blocking work, then send what `blocking_task_reply`
    /// makes of the outcome.
    ReadFile { path: &'static str },
}

/// The model of an `Action`.
pub enum ActionView {
    Respond(ReplyView),
    Sleep { seconds: u64, reply: ReplyView },
    ReadFile { path: Seq<char> },
}

impl View for Action {
    type V = ActionView;

    open spec fn view(&self) -> ActionView {
        match self {
            Action::Respond(reply) => ActionView::Respond(reply@),
            Action::Sleep { seconds, reply } => ActionView::Sleep {
                seconds: *seconds,
                reply: reply@,
            },
            Action::ReadFile { path } => ActionView::ReadFile { path: path@ },
        }
    }
}

} // verus!
