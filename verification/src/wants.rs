//! What the client needs of its surroundings, and what it gets.

use vstd::prelude::*;
use crate::json::{opt_view, Doc, Json};
use crate::session::opt_text;
use crate::text::views;

verus! {

/// What the client needs.
pub ghost enum WantModel {
    EnsureDaemon,
    Send { payload: Doc, secs: int },
    Resolve { path: Seq<char> },
    Note { text: Seq<char> },
    Cargo { dir: Seq<char>, args: Seq<Seq<char>> },
    ListTests { exe: Seq<char>, filter: Seq<char> },
}

/// What the client needs.
pub enum Want {
    /// The daemon up and running.
    EnsureDaemon,
    /// A request sent to the daemon, and its response within so many seconds.
    Send { payload: Json, secs: u64 },
    /// The canonical form of a path.
    Resolve { path: String },
    /// A note to the user, beside the result.
    Note { text: String },
    /// Cargo run in a directory.
    Cargo { dir: String, args: Vec<String> },
    /// The tests of a test binary that match a filter, listed.
    ListTests { exe: String, filter: String },
}

impl View for Want {
    type V = WantModel;

    open spec fn view(&self) -> WantModel {
        match self {
            Want::EnsureDaemon => WantModel::EnsureDaemon,
            Want::Send { payload, secs } => WantModel::Send {
                payload: payload@,
                secs: *secs as int,
            },
            Want::Resolve { path } => WantModel::Resolve { path: path@ },
            Want::Note { text } => WantModel::Note { text: text@ },
            Want::Cargo { dir, args } => WantModel::Cargo { dir: dir@, args: views(args@) },
            Want::ListTests { exe, filter } => WantModel::ListTests {
                exe: exe@,
                filter: filter@,
            },
        }
    }
}

/// What came of running cargo.
pub ghost enum BuiltModel {
    Failed(Seq<char>),
    Ran { ok: bool, out: Seq<char>, err: Seq<char> },
}

/// What came of running cargo.
pub enum Built {
    /// It could not be run.
    Failed(String),
    /// Whether it succeeded, and what it wrote.
    Ran { ok: bool, out: String, err: String },
}

impl View for Built {
    type V = BuiltModel;

    open spec fn view(&self) -> BuiltModel {
        match self {
            Built::Failed(e) => BuiltModel::Failed(e@),
            Built::Ran { ok, out, err } => BuiltModel::Ran { ok: *ok, out: out@, err: err@ },
        }
    }
}

/// What the client got.
pub ghost enum AnswerModel {
    Done,
    Reply(Option<Doc>),
    Text(Option<Seq<char>>),
    Built(BuiltModel),
}

/// What the client got.
pub enum Answer {
    /// It is done.
    Done,
    /// The response of the daemon; none within its time.
    Reply(Option<Json>),
    /// A text, where there is one.
    Text(Option<String>),
    /// What came of running cargo.
    Built(Built),
}

impl View for Answer {
    type V = AnswerModel;

    open spec fn view(&self) -> AnswerModel {
        match self {
            Answer::Done => AnswerModel::Done,
            Answer::Reply(r) => AnswerModel::Reply(opt_view(*r)),
            Answer::Text(t) => AnswerModel::Text(opt_text(*t)),
            Answer::Built(b) => AnswerModel::Built(b@),
        }
    }
}

pub open spec fn answers_in(v: Seq<Answer>) -> Seq<AnswerModel> {
    Seq::new(v.len(), |i: int| v[i]@)
}

pub open spec fn reply_in(a: AnswerModel) -> Option<Doc> {
    match a {
        AnswerModel::Reply(r) => r,
        _ => None,
    }
}

pub open spec fn text_in(a: AnswerModel) -> Option<Seq<char>> {
    match a {
        AnswerModel::Text(t) => t,
        _ => None,
    }
}

pub open spec fn built_in(a: AnswerModel) -> BuiltModel {
    match a {
        AnswerModel::Built(b) => b,
        _ => BuiltModel::Failed(Seq::empty()),
    }
}

impl Answer {
    pub fn reply(&self) -> (r: Option<Json>)
        ensures
            opt_view(r) == reply_in(self@),
    {
        match self {
            Answer::Reply(Some(j)) => Some(j.copy()),
            _ => None,
        }
    }

    pub fn text(&self) -> (r: Option<&str>)
        ensures
            match r {
                Some(t) => text_in(self@) == Some(t@),
                None => text_in(self@) is None,
            },
    {
        match self {
            Answer::Text(Some(t)) => Some(t.as_str()),
            _ => None,
        }
    }
}

/// Where the client stands, given the answers so far.
pub ghost enum Need<T> {
    /// What it needs next.
    Want(WantModel),
    /// The result, and how many of the answers it took.
    Done(T, int),
}

/// Where the client stands: what it needs next, or the result and how many of
/// the answers it took.
pub enum Pending<T> {
    Want(Want),
    Done(T, usize),
}

/// One need and its answer.
pub open spec fn obtain(w: WantModel, answers: Seq<AnswerModel>, at: int) -> Need<AnswerModel> {
    if 0 <= at < answers.len() {
        Need::Done(answers[at], at + 1)
    } else {
        Need::Want(w)
    }
}

/// The answer to a need, where it has come; else the need.
pub fn want<'a>(w: Want, answers: &'a Vec<Answer>, at: usize) -> (r: Pending<&'a Answer>)
    requires
        at <= answers.len(),
    ensures
        match r {
            Pending::Want(q) => obtain(w@, answers_in(answers@), at as int) == Need::<
                AnswerModel,
            >::Want(q@),
            Pending::Done(a, n) => obtain(w@, answers_in(answers@), at as int) == Need::Done(
                a@,
                n as int,
            ) && at < n <= answers.len(),
        },
{
    if at < answers.len() {
        assert(answers_in(answers@)[at as int] == answers@[at as int]@);
        Pending::Done(&answers[at], at + 1)
    } else {
        Pending::Want(w)
    }
}

/// A request to the daemon, and its response.
pub open spec fn sent(payload: Doc, secs: int, answers: Seq<AnswerModel>, at: int) -> Need<
    Option<Doc>,
> {
    match obtain(WantModel::Send { payload, secs }, answers, at) {
        Need::Want(w) => Need::Want(w),
        Need::Done(a, n) => Need::Done(reply_in(a), n),
    }
}

/// The response to a request to the daemon, where it has come.
pub fn send(payload: Json, secs: u64, answers: &Vec<Answer>, at: usize) -> (r: Pending<
    Option<Json>,
>)
    requires
        at <= answers.len(),
    ensures
        match r {
            Pending::Want(q) => sent(payload@, secs as int, answers_in(answers@), at as int)
                == Need::<Option<Doc>>::Want(q@),
            Pending::Done(j, n) => sent(payload@, secs as int, answers_in(answers@), at as int)
                == Need::Done(opt_view(j), n as int) && at < n <= answers.len(),
        },
{
    match want(Want::Send { payload, secs }, answers, at) {
        Pending::Want(q) => Pending::Want(q),
        Pending::Done(a, n) => Pending::Done(a.reply(), n),
    }
}

/// A note to the user.
pub open spec fn noted(text: Seq<char>, answers: Seq<AnswerModel>, at: int) -> Need<()> {
    match obtain(WantModel::Note { text }, answers, at) {
        Need::Want(w) => Need::Want(w),
        Need::Done(_, n) => Need::Done((), n),
    }
}

pub fn note(text: String, answers: &Vec<Answer>, at: usize) -> (r: Pending<()>)
    requires
        at <= answers.len(),
    ensures
        match r {
            Pending::Want(q) => noted(text@, answers_in(answers@), at as int) == Need::<
                (),
            >::Want(q@),
            Pending::Done(_, n) => noted(text@, answers_in(answers@), at as int) == Need::Done(
                (),
                n as int,
            ) && at < n <= answers.len(),
        },
{
    match want(Want::Note { text }, answers, at) {
        Pending::Want(q) => Pending::Want(q),
        Pending::Done(_, n) => Pending::Done((), n),
    }
}

/// A list is seen item by item, in its order.
pub proof fn answers_are_seen_one_by_one(v: Seq<Answer>, i: int)
    ensures
        answers_in(v).len() == v.len(),
        0 <= i < v.len() ==> answers_in(v)[i] == v[i]@,
{
}

} // verus!
