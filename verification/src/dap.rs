//! The Debug Adapter Protocol: requests, the routing of messages, and
//! conversations that are a function of the replies so far.

use vstd::prelude::*;
use crate::json::{docs, no_keys, opt_view, Doc, Json};
use crate::text::{owned, same};

verus! {

// ---------------------------------------------------------------------------
// Requests
// ---------------------------------------------------------------------------

/// What a request asks of the adapter, and how many seconds to wait for it.
pub ghost struct Ask {
    pub command: Seq<char>,
    pub args: Doc,
    pub secs: int,
}

/// A request to the adapter.
pub struct Request {
    pub command: String,
    pub args: Json,
    pub secs: u64,
}

impl View for Request {
    type V = Ask;

    open spec fn view(&self) -> Ask {
        Ask { command: self.command@, args: self.args@, secs: self.secs as int }
    }
}

pub open spec fn asking(command: Seq<char>, args: Doc, secs: int) -> Ask {
    Ask { command, args, secs }
}

impl Request {
    pub fn new(command: &str, args: Json, secs: u64) -> (r: Request)
        ensures
            r@ == asking(command@, args@, secs as int),
    {
        Request { command: owned(command), args, secs }
    }
}

/// The message that carries a request; null arguments are left out.
pub open spec fn request_message(seq: int, command: Seq<char>, args: Doc) -> Doc {
    let head = no_keys().with("seq"@, Doc::Int(seq)).with("type"@, Doc::Str("request"@)).with(
        "command"@,
        Doc::Str(command),
    );
    if args is Null {
        head
    } else {
        head.with("arguments"@, args)
    }
}

/// The message that sends a request under a sequence number.
pub fn send(seq: i64, command: &str, args: Json) -> (r: Json)
    ensures
        r@ == request_message(seq as int, command@, args@),
{
    let head = Json::obj().with("seq", Json::number(seq)).with("type", Json::text("request")).with(
        "command",
        Json::text(command),
    );
    if args.is_null() {
        head
    } else {
        head.with("arguments", args)
    }
}

/// Where a message from the adapter goes.
#[derive(Clone, Copy, Debug)]
pub enum Route {
    /// To whoever made the request with that number.
    Reply(i64),
    /// To the queue of events.
    Event,
    /// Nowhere.
    Nowhere,
}

pub open spec fn route_of(msg: Doc) -> Route {
    let kind = msg.at("type"@).text();
    if kind == Some("response"@) {
        match msg.at("request_seq"@).int64() {
            Some(n) => Route::Reply(n as i64),
            None => Route::Nowhere,
        }
    } else if kind == Some("event"@) {
        Route::Event
    } else {
        Route::Nowhere
    }
}

/// Where a message from the adapter goes: a response to its requester, an
/// event to the queue; requests of the adapter's own are ignored.
pub fn route(msg: &Json) -> (r: Route)
    ensures
        r == route_of(msg@),
{
    match msg.at("type").as_str() {
        Some(t) => {
            if same(t, "response") {
                match msg.at("request_seq").as_i64() {
                    Some(n) => Route::Reply(n),
                    None => Route::Nowhere,
                }
            } else if same(t, "event") {
                Route::Event
            } else {
                Route::Nowhere
            }
        },
        None => Route::Nowhere,
    }
}

/// What stands for a reply that did not come.
pub open spec fn no_response() -> Doc {
    no_keys().with("success"@, Doc::Bool(false)).with("message"@, Doc::Str("no response"@))
}

pub open spec fn soft_reply(reply: Option<Doc>) -> Doc {
    match reply {
        Some(d) => d,
        None => no_response(),
    }
}

/// The reply to a request that may fail; one that did not come in time counts
/// as failed.
pub fn request_soft(reply: Option<Json>) -> (r: Json)
    ensures
        r@ == soft_reply(opt_view(reply)),
{
    match reply {
        Some(j) => j,
        None => Json::obj().with("success", Json::boolean(false)).with(
            "message",
            Json::text("no response"),
        ),
    }
}

/// Why a request that must succeed failed; `None` where it did not.
pub open spec fn request_error(command: Seq<char>, reply: Option<Doc>) -> Option<Seq<char>> {
    match reply {
        None => Some("timed out waiting for "@ + command),
        Some(d) => if d.at("success"@).bool_or(false) {
            None
        } else {
            Some(d.at("message"@).text_or("request failed"@))
        },
    }
}

/// The reply to a request that must succeed.
pub fn request(command: &str, reply: Option<Json>) -> (r: Result<Json, String>)
    ensures
        match r {
            Ok(j) => opt_view(reply) == Some(j@) && request_error(command@, opt_view(reply))
                is None,
            Err(e) => request_error(command@, opt_view(reply)) == Some(e@),
        },
{
    match reply {
        None => {
            let mut e = String::from_str("timed out waiting for ");
            e.append(command);
            Err(e)
        },
        Some(d) => if d.at("success").bool_or(false) {
            Ok(d)
        } else {
            Err(d.at("message").str_or("request failed"))
        },
    }
}

/// The event is the one of that name.
pub fn wait_event(ev: &Json, name: &str) -> (r: bool)
    ensures
        r == (ev@.at("event"@).text() == Some(name@)),
{
    match ev.at("event").as_str() {
        Some(e) => same(e, name),
        None => false,
    }
}

// ---------------------------------------------------------------------------
// Conversations
// ---------------------------------------------------------------------------

/// Where a conversation stands, given the replies so far.
pub ghost enum Turn<T> {
    /// The next request.
    Ask(Ask),
    /// The outcome, and how many of the replies it took.
    Done(T, int),
}

/// Where a conversation stands: the next request, or the outcome and how many
/// of the replies it took.
pub enum Step<T> {
    Ask(Request),
    Done(T, usize),
}

/// One request and its reply.
pub open spec fn exchange(a: Ask, replies: Seq<Doc>, at: int) -> Turn<Doc> {
    if 0 <= at < replies.len() {
        Turn::Done(replies[at], at + 1)
    } else {
        Turn::Ask(a)
    }
}

/// The reply to a request, where it has come; else the request.
pub fn ask<'a>(r: Request, replies: &'a Vec<Json>, at: usize) -> (s: Step<&'a Json>)
    requires
        at <= replies.len(),
    ensures
        match s {
            Step::Ask(q) => exchange(r@, docs(replies@), at as int) == Turn::<Doc>::Ask(q@),
            Step::Done(j, n) => exchange(r@, docs(replies@), at as int) == Turn::Done(
                j@,
                n as int,
            ) && at < n <= replies.len(),
        },
{
    if at < replies.len() {
        Step::Done(&replies[at], at + 1)
    } else {
        Step::Ask(r)
    }
}

/// A response goes to whoever made the request that it answers, an event to
/// the queue, and anything else nowhere.
pub proof fn messages_go_where_they_belong(msg: Doc, n: int)
    ensures
        msg.at("type"@) == Doc::Str("response"@) && msg.at("request_seq"@) == Doc::Int(n)
            && i64::MIN <= n <= i64::MAX ==> (route_of(msg) matches Route::Reply(k) && k == n),
        msg.at("type"@) == Doc::Str("event"@) ==> route_of(msg) == Route::Event,
        msg.at("type"@) != Doc::Str("response"@) && msg.at("type"@) != Doc::Str("event"@)
            ==> route_of(msg) == Route::Nowhere,
{
    reveal_strlit("response");
    reveal_strlit("event");
    assert("response"@.len() == 8 && "event"@.len() == 5);
}

/// A request is sent under its number with its command and its arguments, and
/// without arguments where there are none; the reply to it finds its way back
/// by that number.
pub proof fn requests_carry_their_number(seq: int, command: Seq<char>, args: Doc)
    ensures
        ({
            let d = request_message(seq, command, args);
            &&& d.at("seq"@) == Doc::Int(seq)
            &&& d.at("type"@) == Doc::Str("request"@)
            &&& d.at("command"@) == Doc::Str(command)
            &&& d.at("arguments"@) == args
            &&& args is Null ==> !d.has("arguments"@)
        }),
{
    reveal_strlit("seq");
    reveal_strlit("type");
    reveal_strlit("command");
    reveal_strlit("arguments");
    assert("seq"@.len() == 3 && "type"@.len() == 4 && "command"@.len() == 7 && "arguments"@.len()
        == 9);
}

/// A request that must succeed has succeeded exactly where a reply says so;
/// else what the reply says is the error, and without one that it timed out.
pub proof fn a_request_succeeds_where_its_reply_says_so(
    command: Seq<char>,
    reply: Doc,
    why: Seq<char>,
)
    ensures
        request_error(command, Some(reply)) is None <==> reply.at("success"@) == Doc::Bool(true),
        reply.at("success"@) != Doc::Bool(true) && reply.at("message"@) == Doc::Str(why)
            ==> request_error(command, Some(reply)) == Some(why),
        request_error(command, None) == Some("timed out waiting for "@ + command),
        soft_reply(Some(reply)) == reply,
        soft_reply(None).at("success"@) == Doc::Bool(false),
{
    reveal_strlit("success");
    reveal_strlit("message");
    assert("success"@[0] == 's' && "message"@[0] == 'm');
}

/// One request takes one reply, the next that there is; without one it is the
/// request that is asked.
pub proof fn a_request_takes_the_next_reply(a: Ask, replies: Seq<Doc>, at: int)
    requires
        0 <= at,
    ensures
        at < replies.len() ==> exchange(a, replies, at) == Turn::Done(replies[at], at + 1),
        at >= replies.len() ==> exchange(a, replies, at) == Turn::<Doc>::Ask(a),
{
}

} // verus!
