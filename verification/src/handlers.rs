//! The handlers of the site: each turns its typed arguments into the text of a response.

use vstd::prelude::*;
use vstd::string::*;
use crate::error::UpstreamIoError;
use crate::number::{decimal, push_decimal, signed_decimal};
use crate::reply::{Action, ActionView, Reply, ReplyView};

verus! {

/// The language in which `greet` answers.
#[derive(Clone, Copy, Debug, PartialEq, Eq, Structural)]
pub enum Lang {
    English,
    Ukrainian,
}

/// The optional parts of a greeting.
#[derive(Clone, Copy, Debug)]
pub struct Options<'r> {
    pub emoji: bool,
    pub name: Option<&'r str>,
}

/// The word that opens a greeting in `lang`, or the neutral one where no language is given.
pub open spec fn salutation(lang: Option<Lang>) -> Seq<char> {
    match lang {
        Some(Lang::Ukrainian) => "Привіт"@,
        Some(Lang::English) => "Hello"@,
        None => "Hi"@,
    }
}

/// The whole greeting: the waving hand if asked for, the salutation, the name after a comma
/// if there is one, and an exclamation mark, in that order.
pub open spec fn greeting_text(lang: Option<Lang>, emoji: bool, name: Option<Seq<char>>) -> Seq<char> {
    (if emoji { "👋 "@ } else { Seq::<char>::empty() })
        + salutation(lang)
        + (match name {
            Some(n) => ", "@ + n,
            None => Seq::<char>::empty(),
        })
        + "!"@
}

/// The name held by `opt`, as a sequence of characters.
pub open spec fn name_of(opt: Options<'_>) -> Option<Seq<char>> {
    match opt.name {
        Some(n) => Some(n@),
        None => None,
    }
}

/// The body of the root page.
pub fn index() -> (body: &'static str)
    ensures
        body@ == "Hello, world!"@,
{
    "Hello, world!"
}

/// The body of the other page.
pub fn world() -> (body: &'static str)
    ensures
        body@ == "Other world!"@,
{
    "Other world!"
}

/// Greets `name`.
pub fn hello(name: &str) -> (body: String)
    ensures
        body@ == "Hello, "@ + name@ + "!"@,
{
    let mut body = String::from_str("Hello, ");
    body.append(name);
    body.append("!");
    body
}

/// The body for a path of which the middle token does not matter.
pub fn ignore_part() -> (body: &'static str)
    ensures
        body@ == "Foo _____ bar!"@,
{
    "Foo _____ bar!"
}

/// The body for a path of which nothing after the first token matters.
pub fn ignore_everything() -> (body: &'static str)
    ensures
        body@ == "Hey, you're here."@,
{
    "Hey, you're here."
}

/// Names the user whose id is an unsigned number.
pub fn user_usize(id: usize) -> (body: String)
    ensures
        body@ == "User "@ + decimal(id as nat) + "!"@,
{
    let mut body = String::from_str("User ");
    push_decimal(&mut body, id as u64);
    body.append("!");
    body
}

/// Names the user whose id is a signed number.
pub fn user_int(id: isize) -> (body: String)
    ensures
        body@ == "User "@ + signed_decimal(id as int) + "!"@,
{
    let mut body = String::from_str("User ");
    if id < 0 {
        body.append("-");
        proof {
            reveal_strlit("-");
            assert("-"@ == seq!['-']);
        }
        push_decimal(&mut body, (-(id as i128)) as u64);
        assert(body@ == "User "@ + (seq!['-'] + decimal((-id) as nat)));
    } else {
        push_decimal(&mut body, id as u64);
    }
    body.append("!");
    body
}

/// Names the user whose id is any text.
pub fn user_str(id: &str) -> (body: String)
    ensures
        body@ == "User "@ + id@ + "!"@,
{
    let mut body = String::from_str("User ");
    body.append(id);
    body.append("!");
    body
}

/// What `delay` answers once the delay is over.
pub fn delay_message(seconds: u64) -> (body: String)
    ensures
        body@ == "Waited for "@ + decimal(seconds as nat) + " seconds"@,
{
    let mut body = String::from_str("Waited for ");
    push_decimal(&mut body, seconds);
    body.append(" seconds");
    body
}

/// The action of `delay`: to suspend for the seconds requested, and then to say so.
pub open spec fn delayed(seconds: u64) -> ActionView {
    ActionView::Sleep {
        seconds,
        reply: ReplyView::Text("Waited for "@ + decimal(seconds as nat) + " seconds"@),
    }
}

/// `delay` asks the listener to suspend for exactly the seconds requested, and to report
/// them when they are over.
pub fn delay(seconds: u64) -> (action: Action)
    ensures
        action@ == delayed(seconds),
{
    Action::Sleep { seconds, reply: Reply::Text(delay_message(seconds)) }
}

/// `blocking_task` asks the listener to read the data file away from the tasks that serve
/// requests.
pub fn blocking_task() -> (action: Action)
    ensures
        action@ == (ActionView::ReadFile { path: "data.txt"@ }),
{
    Action::ReadFile { path: "data.txt" }
}

/// What `blocking_task` answers once the file was read or the reading failed: the bytes
/// read, or a server error. The read is not tried again.
pub fn blocking_task_reply(read: Result<Vec<u8>, UpstreamIoError>) -> (reply: Reply)
    ensures
        reply@ == (match read {
            Ok(bytes) => ReplyView::Bytes(bytes@),
            Err(_) => ReplyView::ServerError,
        }),
{
    match read {
        Ok(bytes) => Reply::Bytes(bytes),
        Err(_) => Reply::ServerError,
    }
}

/// Greets in the language asked for, with the waving hand and the name if they are given.
pub fn greet(lang: Option<Lang>, opt: Options<'_>) -> (greeting: String)
    ensures
        greeting@ == greeting_text(lang, opt.emoji, name_of(opt)),
{
    let mut greeting = String::new();
    if opt.emoji {
        greeting.append("👋 ");
    }
    match lang {
        Some(Lang::Ukrainian) => greeting.append("Привіт"),
        Some(Lang::English) => greeting.append("Hello"),
        None => greeting.append("Hi"),
    }
    if let Some(name) = opt.name {
        greeting.append(", ");
        greeting.append(name);
    }
    greeting.append("!");
    greeting
}

} // verus!
