//! The daemon: one request, one response. A command is a function of the
//! request and of what came of the operations it called for.

use vstd::prelude::*;
use crate::breaks::{at_most_max, bp_count};
use crate::json::{
    docs, is_line, json_text, no_keys, opt_view, parsed, reads_back, strings_in, texts_in, Doc,
    Json,
};
use crate::loops::{hits_in, HitModel, TraceHit, UntilOutcome};
use crate::num::{int_text, pad_right, padded_right, show_count, show_int};
use crate::ops::{
    added_in, count_in, ended_in, error_in, expect, flag_in, hits_out, id_in, last_in,
    outcomes_in, perform, standing_in, stopped_in, text_in, values_in, watched_in, EndModel, Op,
    OpModel, Outcome, OutcomeModel, Progress, Standing, StandingModel, StepKind, UntilModel, Way,
};
use crate::predicate::{bad_condition, parse_predicate, predicate_of, predicate_text};
use crate::session::{opt_text, Session, SessionModel};
use crate::stack::{first_user_frame, opt_int, user_frame, FrameModel, Stop, StopModel};
use crate::text::{
    debug_text, ends, join, join_all, owned, same, show_debug, trim, trimmed, views,
};
use crate::util::{
    classify_error, error_status, errors_are_classified, errors_are_never_ok,
    extract_panic_message, in_taxonomy, panic_message, tail, tail_of,
};

verus! {

// ---------------------------------------------------------------------------
// Responses
// ---------------------------------------------------------------------------

/// The response to a request that failed.
pub open spec fn refusal(e: Seq<char>) -> Doc {
    no_keys().with("ok"@, Doc::Bool(false)).with("error"@, Doc::Str(e))
}

/// The beginning of a response to a request that succeeded.
pub open spec fn success() -> Doc {
    no_keys().with("ok"@, Doc::Bool(true))
}

/// A success, or a failure with that error.
pub open spec fn verdict(ok: bool, e: Seq<char>) -> Doc {
    if ok {
        success()
    } else {
        refusal(e)
    }
}

/// The outcome that a response stands for, by its `ok` and `error`.
pub open spec fn status_of(resp: Doc) -> Seq<char> {
    if resp.at("ok"@).bool_or(false) {
        "ok"@
    } else {
        error_status(resp.at("error"@).text_or(""@))
    }
}

/// A response with its `status`.
pub open spec fn stamped(resp: Doc) -> Doc {
    if resp.has("status"@) {
        resp
    } else {
        resp.with("status"@, Doc::Str(status_of(resp)))
    }
}

pub open spec fn opt_int_doc(n: Option<int>) -> Doc {
    match n {
        Some(k) => Doc::Int(k),
        None => Doc::Null,
    }
}

pub open spec fn opt_text_doc(s: Option<Seq<char>>) -> Doc {
    match s {
        Some(t) => Doc::Str(t),
        None => Doc::Null,
    }
}

fn refuse(e: &str) -> (r: Json)
    ensures
        r@ == refusal(e@),
{
    Json::obj().with("ok", Json::boolean(false)).with("error", Json::text(e))
}

fn succeed() -> (r: Json)
    ensures
        r@ == success(),
{
    Json::obj().with("ok", Json::boolean(true))
}

fn judge(ok: bool, e: &str) -> (r: Json)
    ensures
        r@ == verdict(ok, e@),
{
    if ok {
        succeed()
    } else {
        refuse(e)
    }
}

/// Stamps a response with a `status` outcome (`ok | user_error | target_error |
/// build_error | debug_adapter_error | timeout | no_session |
/// no_new_information`) so every result is machine-scorable. `ok:bool` stays
/// alongside it for back-compat.
pub fn stamp(resp: Json) -> (r: Json)
    ensures
        r@ == stamped(resp@),
{
    let has = match resp.get("status") {
        Some(_) => true,
        None => false,
    };
    if has {
        return resp;
    }
    let error = resp.at("error").str_or("");
    let status = if resp.at("ok").bool_or(false) {
        "ok"
    } else {
        classify_error(error.as_str())
    };
    resp.with("status", Json::text(status))
}

pub fn opt_number(n: Option<i64>) -> (r: Json)
    ensures
        r@ == opt_int_doc(opt_int(n)),
{
    match n {
        Some(k) => Json::number(k),
        None => Json::Null,
    }
}

pub fn opt_string(s: &Option<String>) -> (r: Json)
    ensures
        r@ == opt_text_doc(opt_text(*s)),
{
    match s {
        Some(t) => Json::text(t.as_str()),
        None => Json::Null,
    }
}

fn opt_field(j: &Json) -> (r: Option<String>)
    ensures
        opt_text(r) == j@.text(),
{
    match j.as_str() {
        Some(s) => Some(owned(s)),
        None => None,
    }
}

/// The strings in an array; none where the value is no array.
pub open spec fn strings_of(d: Doc) -> Seq<Seq<char>> {
    texts_in(d.items())
}

fn list_field(j: &Json) -> (r: Vec<String>)
    ensures
        views(r@) == strings_of(j@),
{
    match j.as_array() {
        Some(a) => strings_in(a),
        None => {
            let r: Vec<String> = Vec::new();
            assert(views(r@) =~= Seq::empty());
            r
        },
    }
}

// ---------------------------------------------------------------------------
// Where the daemon stands
// ---------------------------------------------------------------------------

/// Where the daemon stands, with its session and the adapter that would be
/// used for one.
pub open spec fn standing_of(
    session: Option<SessionModel>,
    lsp_ready: bool,
    found: Option<Seq<char>>,
) -> StandingModel {
    match session {
        Some(m) => StandingModel {
            session: true,
            stopped: m.last_stop matches Some(s) && !s.exited,
            lsp_ready,
            cur_thread: m.cur_thread,
            threads: m.threads.len() as int,
            breakpoints: at_most_max(bp_count(m, false)),
            adapter: Some(m.adapter),
        },
        None => StandingModel {
            session: false,
            stopped: false,
            lsp_ready,
            cur_thread: None,
            threads: 0,
            breakpoints: 0,
            adapter: found,
        },
    }
}

pub open spec fn opt_session(s: Option<&Session>) -> Option<SessionModel> {
    match s {
        Some(x) => Some(x@),
        None => None,
    }
}

/// Where the daemon stands: the live session's adapter, or the one that would
/// be picked when no session is running yet.
pub fn standing(session: Option<&Session>, lsp_ready: bool, found: Option<String>) -> (r: Standing)
    ensures
        r@ == standing_of(opt_session(session), lsp_ready, opt_text(found)),
{
    match session {
        Some(s) => Standing {
            session: true,
            stopped: match &s.last_stop {
                Some(x) => !x.exited,
                None => false,
            },
            lsp_ready,
            cur_thread: s.cur_thread,
            threads: s.threads.len(),
            breakpoints: s.breakpoint_count(),
            adapter: Some(owned(s.adapter())),
        },
        None => Standing {
            session: false,
            stopped: false,
            lsp_ready,
            cur_thread: None,
            threads: 0,
            breakpoints: 0,
            adapter: found,
        },
    }
}

pub open spec fn status_doc(x: StandingModel) -> Doc {
    success().with("session"@, Doc::Bool(x.session)).with("stopped"@, Doc::Bool(x.stopped)).with(
        "lsp_ready"@,
        Doc::Bool(x.lsp_ready),
    ).with("cur_thread"@, opt_int_doc(x.cur_thread)).with("threads"@, Doc::Int(x.threads)).with(
        "breakpoints"@,
        Doc::Int(x.breakpoints),
    ).with("adapter"@, opt_text_doc(x.adapter))
}

fn show_status(x: &Standing) -> (r: Json)
    ensures
        r@ == status_doc(x@),
{
    succeed().with("session", Json::boolean(x.session)).with(
        "stopped",
        Json::boolean(x.stopped),
    ).with("lsp_ready", Json::boolean(x.lsp_ready)).with("cur_thread", opt_number(x.cur_thread)).with(
        "threads",
        Json::count(x.threads),
    ).with("breakpoints", Json::count(x.breakpoints)).with("adapter", opt_string(&x.adapter))
}

// ---------------------------------------------------------------------------
// Stops
// ---------------------------------------------------------------------------

pub open spec fn place_text(f: Option<FrameModel>) -> Seq<char> {
    match f {
        Some(f) => f.name + "  "@ + f.file + ":"@ + int_text(f.line),
        None => "?"@,
    }
}

fn show_place(f: Option<&crate::stack::Frame>) -> (r: String)
    ensures
        r@ == place_text(
            match f {
                Some(x) => Some(x@),
                None => None,
            },
        ),
{
    match f {
        Some(f) => {
            let mut r = owned(f.name.as_str());
            r.append("  ");
            r.append(f.file.as_str());
            r.append(":");
            let n = show_int(f.line);
            r.append(n.as_str());
            r
        },
        None => owned("?"),
    }
}

/// The text that an operation gives.
pub open spec fn text_way(op: OpModel, outs: Seq<OutcomeModel>, at: int) -> Way<Seq<char>> {
    match perform(op, outs, at) {
        Way::Do(o) => Way::Do(o),
        Way::Done(x, n) => Way::Done(text_in(x), n),
    }
}

fn text_op<'a>(op: Op, outs: &'a Vec<Outcome>, at: usize) -> (r: Progress<&'a str>)
    requires
        at <= outs.len(),
    ensures
        match r {
            Progress::Do(o) => text_way(op@, outcomes_in(outs@), at as int) == Way::<
                Seq<char>,
            >::Do(o@),
            Progress::Done(t, n) => text_way(op@, outcomes_in(outs@), at as int) == Way::Done(
                t@,
                n as int,
            ) && at < n <= outs.len(),
        },
{
    match expect(op, outs, at) {
        Progress::Do(o) => Progress::Do(o),
        Progress::Done(x, n) => Progress::Done(x.text(), n),
    }
}

/// The watch expressions and their values, where there are some.
pub open spec fn watches_way(outs: Seq<OutcomeModel>, at: int) -> Way<Seq<char>> {
    match perform(OpModel::HasWatches, outs, at) {
        Way::Do(o) => Way::Do(o),
        Way::Done(x, n) => if flag_in(x) {
            text_way(OpModel::Watches, outs, n)
        } else {
            Way::Done(""@, n)
        },
    }
}

fn watches_op<'a>(outs: &'a Vec<Outcome>, at: usize) -> (r: Progress<&'a str>)
    requires
        at <= outs.len(),
    ensures
        match r {
            Progress::Do(o) => watches_way(outcomes_in(outs@), at as int) == Way::<Seq<char>>::Do(
                o@,
            ),
            Progress::Done(t, n) => watches_way(outcomes_in(outs@), at as int) == Way::Done(
                t@,
                n as int,
            ) && at < n <= outs.len(),
        },
{
    match expect(Op::HasWatches, outs, at) {
        Progress::Do(o) => Progress::Do(o),
        Progress::Done(x, n) => if x.flag() {
            text_op(Op::Watches, outs, n)
        } else {
            Progress::Done("", n)
        },
    }
}

/// The end of a program, as a stop.
pub open spec fn exit_doc(code: Option<int>) -> Doc {
    no_keys().with("exited"@, Doc::Bool(true)).with("exit_code"@, opt_int_doc(code))
}

/// A stop as it is summed up: its frame, the source around it and the watches.
pub open spec fn summary_way(stop: StopModel, outs: Seq<OutcomeModel>, at: int) -> Way<Doc> {
    if stop.exited {
        Way::Done(exit_doc(stop.exit_code), at)
    } else {
        match text_way(OpModel::Source { radius: 6 }, outs, at) {
            Way::Do(o) => Way::Do(o),
            Way::Done(source, n) => match watches_way(outs, n) {
                Way::Do(o) => Way::Do(o),
                Way::Done(watches, k) => Way::Done(
                    no_keys().with("exited"@, Doc::Bool(false)).with(
                        "reason"@,
                        Doc::Str(stop.reason),
                    ).with("frame"@, Doc::Str(place_text(stop.top()))).with(
                        "thread"@,
                        Doc::Int(stop.thread_id),
                    ).with("source"@, Doc::Str(source)).with("watches"@, Doc::Str(watches)),
                    k,
                ),
            },
        }
    }
}

/// Read-only stop summary (frame + source + watches).
pub fn summarize(stop: &Stop, outs: &Vec<Outcome>, at: usize) -> (r: Progress<Json>)
    requires
        at <= outs.len(),
    ensures
        match r {
            Progress::Do(o) => summary_way(stop@, outcomes_in(outs@), at as int) == Way::<Doc>::Do(
                o@,
            ),
            Progress::Done(j, n) => summary_way(stop@, outcomes_in(outs@), at as int) == Way::Done(
                j@,
                n as int,
            ) && at <= n <= outs.len(),
        },
{
    if stop.exited {
        return Progress::Done(
            Json::obj().with("exited", Json::boolean(true)).with(
                "exit_code",
                opt_number(stop.exit_code),
            ),
            at,
        );
    }
    let (source, n): (&str, usize) = match text_op(Op::Source { radius: 6 }, outs, at) {
        Progress::Do(o) => return Progress::Do(o),
        Progress::Done(t, n) => (t, n),
    };
    let (watches, k): (&str, usize) = match watches_op(outs, n) {
        Progress::Do(o) => return Progress::Do(o),
        Progress::Done(t, k) => (t, k),
    };
    let frame = show_place(stop.top());
    Progress::Done(
        Json::obj().with("exited", Json::boolean(false)).with(
            "reason",
            Json::text(stop.reason.as_str()),
        ).with("frame", Json::text(frame.as_str())).with(
            "thread",
            Json::number(stop.thread_id),
        ).with("source", Json::text(source)).with("watches", Json::text(watches)),
        k,
    )
}

/// A fresh stop as it is summed up, with what changed; the end of the program
/// comes with the end of its output and what became of the breakpoints, and
/// the session is dropped.
pub open spec fn fresh_way(stop: StopModel, outs: Seq<OutcomeModel>, at: int) -> Way<Doc> {
    if stop.exited {
        match text_way(OpModel::Output, outs, at) {
            Way::Do(o) => Way::Do(o),
            Way::Done(out, n) => match perform(OpModel::BpSummary, outs, n) {
                Way::Do(o) => Way::Do(o),
                Way::Done(bps, k) => match perform(OpModel::Drop, outs, k) {
                    Way::Do(o) => Way::Do(o),
                    Way::Done(_, j) => Way::Done(
                        exit_doc(stop.exit_code).with(
                            "output"@,
                            Doc::Str(tail_of(out, 2000)),
                        ).with("breakpoints"@, Doc::Arr(values_in(bps))),
                        j,
                    ),
                },
            },
        }
    } else {
        match text_way(OpModel::Delta, outs, at) {
            Way::Do(o) => Way::Do(o),
            Way::Done(delta, n) => match summary_way(stop, outs, n) {
                Way::Do(o) => Way::Do(o),
                Way::Done(d, k) => Way::Done(d.with("delta"@, Doc::Str(delta)), k),
            },
        }
    }
}

/// Summary of a fresh stop; drops the session and captures output on exit.
pub fn stop_summary(stop: &Stop, outs: &Vec<Outcome>, at: usize) -> (r: Progress<Json>)
    requires
        at <= outs.len(),
    ensures
        match r {
            Progress::Do(o) => fresh_way(stop@, outcomes_in(outs@), at as int) == Way::<Doc>::Do(
                o@,
            ),
            Progress::Done(j, n) => fresh_way(stop@, outcomes_in(outs@), at as int) == Way::Done(
                j@,
                n as int,
            ) && at <= n <= outs.len(),
        },
{
    if stop.exited {
        let (out, n): (&str, usize) = match text_op(Op::Output, outs, at) {
            Progress::Do(o) => return Progress::Do(o),
            Progress::Done(t, n) => (t, n),
        };
        let (bps, k): (&Outcome, usize) = match expect(Op::BpSummary, outs, n) {
            Progress::Do(o) => return Progress::Do(o),
            Progress::Done(x, k) => (x, k),
        };
        let j: usize = match expect(Op::Drop, outs, k) {
            Progress::Do(o) => return Progress::Do(o),
            Progress::Done(_, j) => j,
        };
        let end = tail(out, 2000);
        return Progress::Done(
            Json::obj().with("exited", Json::boolean(true)).with(
                "exit_code",
                opt_number(stop.exit_code),
            ).with("output", Json::text(end.as_str())).with("breakpoints", bps.values()),
            j,
        );
    }
    let (delta, n): (&str, usize) = match text_op(Op::Delta, outs, at) {
        Progress::Do(o) => return Progress::Do(o),
        Progress::Done(t, n) => (t, n),
    };
    match summarize(stop, outs, n) {
        Progress::Do(o) => Progress::Do(o),
        Progress::Done(d, k) => Progress::Done(d.with("delta", Json::text(delta)), k),
    }
}

/// A run of the program, and the stop it came to.
pub open spec fn run_way(op: OpModel, outs: Seq<OutcomeModel>, at: int) -> Way<Doc> {
    match perform(op, outs, at) {
        Way::Do(o) => Way::Do(o),
        Way::Done(x, n) => match stopped_in(x) {
            Ok(stop) => match fresh_way(stop, outs, n) {
                Way::Do(o) => Way::Do(o),
                Way::Done(d, k) => Way::Done(success().with("stop"@, d), k),
            },
            Err(e) => Way::Done(refusal(e), n),
        },
    }
}

/// Run an operation that yields a stop, then summarize it.
pub fn run_stop(op: Op, outs: &Vec<Outcome>, at: usize) -> (r: Progress<Json>)
    requires
        at <= outs.len(),
    ensures
        match r {
            Progress::Do(o) => run_way(op@, outcomes_in(outs@), at as int) == Way::<Doc>::Do(o@),
            Progress::Done(j, n) => run_way(op@, outcomes_in(outs@), at as int) == Way::Done(
                j@,
                n as int,
            ) && at <= n <= outs.len(),
        },
{
    let (x, n): (&Outcome, usize) = match expect(op, outs, at) {
        Progress::Do(o) => return Progress::Do(o),
        Progress::Done(x, n) => (x, n),
    };
    match x.stopped() {
        Ok(stop) => match stop_summary(stop, outs, n) {
            Progress::Do(o) => Progress::Do(o),
            Progress::Done(d, k) => Progress::Done(succeed().with("stop", d), k),
        },
        Err(e) => Progress::Done(refuse(e), n),
    }
}

// ---------------------------------------------------------------------------
// Continue until
// ---------------------------------------------------------------------------

pub open spec fn clamped(n: int, lo: int, hi: int) -> int {
    if n < lo {
        lo
    } else if n > hi {
        hi
    } else {
        n
    }
}

/// What is said where there is nothing to stop at.
pub open spec fn needs_breakpoint() -> Seq<char> {
    "continue --until needs at least one active breakpoint — rdbg re-checks the condition at each breakpoint stop (set one with `rdbg break <file.rs:line>`)"@
}

/// How a run until a condition ended.
pub open spec fn until_doc(u: UntilModel, cond: Seq<char>) -> Doc {
    no_keys().with(
        "outcome"@,
        Doc::Str(
            match u.end {
                EndModel::Held(_) => "held"@,
                EndModel::Exited => "exited"@,
                EndModel::Cap => "cap"@,
            },
        ),
    ).with("cond"@, Doc::Str(cond)).with("stops"@, Doc::Int(u.stops)).with(
        "observed"@,
        match u.end {
            EndModel::Held(v) => Doc::Str(v),
            _ => Doc::Null,
        },
    )
}

pub open spec fn until_way(req: Doc, outs: Seq<OutcomeModel>, at: int) -> Way<Doc> {
    let cond = req.at("until"@).text_or(""@);
    match predicate_of(cond) {
        None => Way::Done(refusal(bad_condition(cond)), at),
        Some((path, op, rhs)) => match perform(OpModel::ActiveCount, outs, at) {
            Way::Do(o) => Way::Do(o),
            Way::Done(x, n) => if count_in(x) == 0 {
                Way::Done(refusal(needs_breakpoint()), n)
            } else {
                let max = clamped(req.at("max"@).int_or(10_000), 1, 1_000_000);
                match perform(OpModel::ContUntil { path, op, rhs, max }, outs, n) {
                    Way::Do(o) => Way::Do(o),
                    Way::Done(y, k) => match ended_in(y) {
                        Err(e) => Way::Done(refusal(e), k),
                        Ok(u) => match fresh_way(u.stop, outs, k) {
                            Way::Do(o) => Way::Do(o),
                            Way::Done(d, j) => Way::Done(
                                success().with(
                                    "stop"@,
                                    d.with("until"@, until_doc(u, predicate_text(path, op, rhs))),
                                ),
                                j,
                            ),
                        },
                    },
                }
            },
        },
    }
}

fn show_end(u: &crate::ops::UntilEnd, cond: &str) -> (r: Json)
    ensures
        r@ == until_doc(u@, cond@),
{
    let (name, observed): (&str, Json) = match &u.outcome {
        UntilOutcome::Held(v) => ("held", Json::text(v.as_str())),
        UntilOutcome::Exited => ("exited", Json::Null),
        UntilOutcome::Cap => ("cap", Json::Null),
    };
    Json::obj().with("outcome", Json::text(name)).with("cond", Json::text(cond)).with(
        "stops",
        Json::count(u.stops),
    ).with("observed", observed)
}

/// `continue --until '<path> <op> <value>'`: keep resuming past breakpoint
/// stops until the condition holds, checked at each stop (not by lldb — works
/// where lldb conditional breakpoints don't bind). The stop summary carries an
/// `until` object saying how the loop ended.
pub fn cmd_continue_until(req: &Json, outs: &Vec<Outcome>, at: usize) -> (r: Progress<Json>)
    requires
        at <= outs.len(),
    ensures
        match r {
            Progress::Do(o) => until_way(req@, outcomes_in(outs@), at as int) == Way::<Doc>::Do(
                o@,
            ),
            Progress::Done(j, n) => until_way(req@, outcomes_in(outs@), at as int) == Way::Done(
                j@,
                n as int,
            ) && at <= n <= outs.len(),
        },
{
    let cond = req.at("until").str_or("");
    let pred = match parse_predicate(cond.as_str()) {
        Ok(p) => p,
        Err(e) => return Progress::Done(refuse(e.as_str()), at),
    };
    let text = pred.show();
    let asked: i64 = req.at("max").int_or(10_000);
    let max: usize = if asked < 1 {
        1
    } else if asked > 1_000_000 {
        1_000_000
    } else {
        asked as usize
    };
    let (active, n): (usize, usize) = match expect(Op::ActiveCount, outs, at) {
        Progress::Do(o) => return Progress::Do(o),
        Progress::Done(x, n) => (x.count(), n),
    };
    if active == 0 {
        return Progress::Done(
            refuse(
                "continue --until needs at least one active breakpoint — rdbg re-checks the condition at each breakpoint stop (set one with `rdbg break <file.rs:line>`)",
            ),
            n,
        );
    }
    let op = Op::ContUntil { path: pred.path, op: pred.op, rhs: pred.rhs, max };
    let (y, k): (&Outcome, usize) = match expect(op, outs, n) {
        Progress::Do(o) => return Progress::Do(o),
        Progress::Done(y, k) => (y, k),
    };
    match y.ended() {
        Err(e) => Progress::Done(refuse(e), k),
        Ok(u) => match stop_summary(&u.stop, outs, k) {
            Progress::Do(o) => Progress::Do(o),
            Progress::Done(d, j) => Progress::Done(
                succeed().with("stop", d.with("until", show_end(u, text.as_str()))),
                j,
            ),
        },
    }
}

// ---------------------------------------------------------------------------
// Launching
// ---------------------------------------------------------------------------

/// The line breakpoint that a request asks for.
pub open spec fn line_op(b: Doc) -> OpModel {
    OpModel::AddLine {
        file: b.at("file"@).text_or(""@),
        line: b.at("line"@).int_or(0),
        condition: b.at("condition"@).text(),
        hit: b.at("hit"@).int64(),
        log: b.at("log"@).text(),
    }
}

fn ask_line(b: &Json) -> (op: Op)
    ensures
        op@ == line_op(b@),
{
    Op::AddLine {
        file: b.at("file").str_or(""),
        line: b.at("line").int_or(0),
        condition: opt_field(b.at("condition")),
        hit: b.at("hit").as_i64(),
        log: opt_field(b.at("log")),
    }
}

/// The old session ended, and a new one started for the program of a request;
/// the error, where it could not be.
pub open spec fn start_way(
    req: Doc,
    has_session: bool,
    outs: Seq<OutcomeModel>,
    at: int,
) -> Way<Option<Seq<char>>> {
    let begun: Way<OutcomeModel> = if has_session {
        perform(OpModel::End, outs, at)
    } else {
        Way::Done(OutcomeModel::Done, at)
    };
    match begun {
        Way::Do(o) => Way::Do(o),
        Way::Done(_, n) => match perform(
            OpModel::Start {
                program: req.at("program"@).text_or(""@),
                cwd: req.at("cwd"@).text(),
                args: strings_of(req.at("args"@)),
            },
            outs,
            n,
        ) {
            Way::Do(o) => Way::Do(o),
            Way::Done(x, k) => Way::Done(error_in(x), k),
        },
    }
}

/// The line breakpoints from `i` on added.
pub open spec fn lines_way(bps: Seq<Doc>, i: int, outs: Seq<OutcomeModel>, at: int) -> Way<()>
    decreases bps.len() - i,
{
    if i < 0 || i >= bps.len() {
        Way::Done((), at)
    } else {
        match perform(line_op(bps[i]), outs, at) {
            Way::Do(o) => Way::Do(o),
            Way::Done(_, n) => lines_way(bps, i + 1, outs, n),
        }
    }
}

/// The function breakpoints from `i` on added.
pub open spec fn fns_way(names: Seq<Seq<char>>, i: int, outs: Seq<OutcomeModel>, at: int) -> Way<()>
    decreases names.len() - i,
{
    if i < 0 || i >= names.len() {
        Way::Done((), at)
    } else {
        match perform(OpModel::AddFn { name: names[i] }, outs, at) {
            Way::Do(o) => Way::Do(o),
            Way::Done(_, n) => fns_way(names, i + 1, outs, n),
        }
    }
}

/// The program launched and run to its first stop; the session is dropped
/// where that fails.
pub open spec fn first_stop_way(outs: Seq<OutcomeModel>, at: int) -> Way<
    Result<StopModel, Seq<char>>,
> {
    match perform(OpModel::Launch, outs, at) {
        Way::Do(o) => Way::Do(o),
        Way::Done(x, n) => match error_in(x) {
            Some(e) => match perform(OpModel::Drop, outs, n) {
                Way::Do(o) => Way::Do(o),
                Way::Done(_, k) => Way::Done(Err(e), k),
            },
            None => match perform(OpModel::Run, outs, n) {
                Way::Do(o) => Way::Do(o),
                Way::Done(y, k) => match stopped_in(y) {
                    Ok(stop) => Way::Done(Ok(stop), k),
                    Err(e) => match perform(OpModel::Drop, outs, k) {
                        Way::Do(o) => Way::Do(o),
                        Way::Done(_, j) => Way::Done(Err(e), j),
                    },
                },
            },
        },
    }
}

/// The panic breakpoint added where it is asked for.
pub open spec fn panic_way(on: bool, outs: Seq<OutcomeModel>, at: int) -> Way<()> {
    if on {
        match perform(OpModel::AddPanic, outs, at) {
            Way::Do(o) => Way::Do(o),
            Way::Done(_, n) => Way::Done((), n),
        }
    } else {
        Way::Done((), at)
    }
}

pub open spec fn launch_way(
    req: Doc,
    has_session: bool,
    outs: Seq<OutcomeModel>,
    at: int,
) -> Way<Doc> {
    match start_way(req, has_session, outs, at) {
        Way::Do(o) => Way::Do(o),
        Way::Done(Some(e), n) => Way::Done(refusal(e), n),
        Way::Done(None, n) => match lines_way(req.at("breakpoints"@).items(), 0, outs, n) {
            Way::Do(o) => Way::Do(o),
            Way::Done(_, k) => match fns_way(strings_of(req.at("fn_breaks"@)), 0, outs, k) {
                Way::Do(o) => Way::Do(o),
                Way::Done(_, j) => match panic_way(req.at("panic"@).bool_or(false), outs, j) {
                    Way::Do(o) => Way::Do(o),
                    Way::Done(_, i) => match first_stop_way(outs, i) {
                        Way::Do(o) => Way::Do(o),
                        Way::Done(Err(e), h) => Way::Done(refusal(e), h),
                        Way::Done(Ok(stop), h) => match fresh_way(stop, outs, h) {
                            Way::Do(o) => Way::Do(o),
                            Way::Done(d, g) => Way::Done(success().with("stop"@, d), g),
                        },
                    },
                },
            },
        },
    }
}

fn start_op<'a>(req: &Json, has_session: bool, outs: &'a Vec<Outcome>, at: usize) -> (r: Progress<
    Option<&'a str>,
>)
    requires
        at <= outs.len(),
    ensures
        match r {
            Progress::Do(o) => start_way(req@, has_session, outcomes_in(outs@), at as int)
                == Way::<Option<Seq<char>>>::Do(o@),
            Progress::Done(e, n) => start_way(req@, has_session, outcomes_in(outs@), at as int)
                == Way::Done(
                match e {
                    Some(t) => Some(t@),
                    None => None,
                },
                n as int,
            ) && at <= n <= outs.len(),
        },
{
    let n: usize = if has_session {
        match expect(Op::End, outs, at) {
            Progress::Do(o) => return Progress::Do(o),
            Progress::Done(_, n) => n,
        }
    } else {
        at
    };
    let op = Op::Start {
        program: req.at("program").str_or(""),
        cwd: opt_field(req.at("cwd")),
        args: list_field(req.at("args")),
    };
    match expect(op, outs, n) {
        Progress::Do(o) => Progress::Do(o),
        Progress::Done(x, k) => Progress::Done(x.error(), k),
    }
}

fn first_stop_op<'a>(outs: &'a Vec<Outcome>, at: usize) -> (r: Progress<Result<&'a Stop, &'a str>>)
    requires
        at <= outs.len(),
    ensures
        match r {
            Progress::Do(o) => first_stop_way(outcomes_in(outs@), at as int) == Way::<
                Result<StopModel, Seq<char>>,
            >::Do(o@),
            Progress::Done(Ok(s), n) => first_stop_way(outcomes_in(outs@), at as int) == Way::Done(
                Ok::<StopModel, Seq<char>>(s@),
                n as int,
            ) && at <= n <= outs.len(),
            Progress::Done(Err(e), n) => first_stop_way(outcomes_in(outs@), at as int)
                == Way::Done(Err::<StopModel, Seq<char>>(e@), n as int) && at <= n <= outs.len(),
        },
{
    let (x, n): (&Outcome, usize) = match expect(Op::Launch, outs, at) {
        Progress::Do(o) => return Progress::Do(o),
        Progress::Done(x, n) => (x, n),
    };
    match x.error() {
        Some(e) => {
            return match expect(Op::Drop, outs, n) {
                Progress::Do(o) => Progress::Do(o),
                Progress::Done(_, k) => Progress::Done(Err(e), k),
            };
        },
        None => {},
    }
    let (y, k): (&Outcome, usize) = match expect(Op::Run, outs, n) {
        Progress::Do(o) => return Progress::Do(o),
        Progress::Done(y, k) => (y, k),
    };
    match y.stopped() {
        Ok(stop) => Progress::Done(Ok(stop), k),
        Err(e) => match expect(Op::Drop, outs, k) {
            Progress::Do(o) => Progress::Do(o),
            Progress::Done(_, j) => Progress::Done(Err(e), j),
        },
    }
}

/// Launches a program with its breakpoints, and runs it to its first stop.
pub fn cmd_launch(req: &Json, has_session: bool, outs: &Vec<Outcome>, at: usize) -> (r: Progress<
    Json,
>)
    requires
        at <= outs.len(),
    ensures
        match r {
            Progress::Do(o) => launch_way(req@, has_session, outcomes_in(outs@), at as int)
                == Way::<Doc>::Do(o@),
            Progress::Done(j, n) => launch_way(req@, has_session, outcomes_in(outs@), at as int)
                == Way::Done(j@, n as int) && at <= n <= outs.len(),
        },
{
    let mut pos: usize = match start_op(req, has_session, outs, at) {
        Progress::Do(o) => return Progress::Do(o),
        Progress::Done(Some(e), n) => return Progress::Done(refuse(e), n),
        Progress::Done(None, n) => n,
    };
    let ghost start = pos as int;
    let ghost all = outcomes_in(outs@);
    let ghost bps = req@.at("breakpoints"@).items();
    match req.at("breakpoints").as_array() {
        Some(a) => {
            let mut i: usize = 0;
            while i < a.len()
                invariant
                    i <= a.len(),
                    at <= start,
                    start <= pos <= outs.len(),
                    all == outcomes_in(outs@),
                    bps == req@.at("breakpoints"@).items(),
                    bps == docs(a@),
                    start_way(req@, has_session, all, at as int) == Way::Done(
                        None::<Seq<char>>,
                        start,
                    ),
                    lines_way(bps, 0, all, start) == lines_way(bps, i as int, all, pos as int),
                decreases a.len() - i,
            {
                assert(bps[i as int] == a@[i as int]@);
                match expect(ask_line(&a[i]), outs, pos) {
                    Progress::Do(o) => return Progress::Do(o),
                    Progress::Done(_, n) => {
                        pos = n;
                    },
                }
                i += 1;
            }
        },
        None => {},
    }
    let ghost mid = pos as int;
    assert(lines_way(bps, 0, all, start) == Way::Done((), mid));
    let names = list_field(req.at("fn_breaks"));
    let ghost texts = views(names@);
    let mut i: usize = 0;
    while i < names.len()
        invariant
            i <= names.len(),
            start <= mid <= pos <= outs.len(),
            at <= start,
            all == outcomes_in(outs@),
            bps == req@.at("breakpoints"@).items(),
            texts == views(names@),
            texts == strings_of(req@.at("fn_breaks"@)),
            start_way(req@, has_session, all, at as int) == Way::Done(None::<Seq<char>>, start),
            lines_way(bps, 0, all, start) == Way::Done((), mid),
            fns_way(texts, 0, all, mid) == fns_way(texts, i as int, all, pos as int),
        decreases names.len() - i,
    {
        assert(texts[i as int] == names@[i as int]@);
        match expect(Op::AddFn { name: owned(names[i].as_str()) }, outs, pos) {
            Progress::Do(o) => return Progress::Do(o),
            Progress::Done(_, n) => {
                pos = n;
            },
        }
        i += 1;
    }
    assert(fns_way(texts, 0, all, mid) == Way::Done((), pos as int));
    if req.at("panic").bool_or(false) {
        match expect(Op::AddPanic, outs, pos) {
            Progress::Do(o) => return Progress::Do(o),
            Progress::Done(_, n) => {
                pos = n;
            },
        }
    }
    let (stop, h): (&Stop, usize) = match first_stop_op(outs, pos) {
        Progress::Do(o) => return Progress::Do(o),
        Progress::Done(Err(e), h) => return Progress::Done(refuse(e), h),
        Progress::Done(Ok(s), h) => (s, h),
    };
    match stop_summary(stop, outs, h) {
        Progress::Do(o) => Progress::Do(o),
        Progress::Done(d, g) => Progress::Done(succeed().with("stop", d), g),
    }
}

// ---------------------------------------------------------------------------
// Panic triage
// ---------------------------------------------------------------------------

/// Where the search for a panic's message ended.
pub ghost struct HuntModel {
    pub message: Option<Seq<char>>,
    pub exited: bool,
    pub exit_code: Option<int>,
}

struct Hunt {
    message: Option<String>,
    exited: bool,
    exit_code: Option<i64>,
}

impl View for Hunt {
    type V = HuntModel;

    closed spec fn view(&self) -> HuntModel {
        HuntModel {
            message: opt_text(self.message),
            exited: self.exited,
            exit_code: opt_int(self.exit_code),
        }
    }
}

/// The message in the output so far.
pub open spec fn message_way(outs: Seq<OutcomeModel>, at: int) -> Way<Option<Seq<char>>> {
    match text_way(OpModel::Output, outs, at) {
        Way::Do(o) => Way::Do(o),
        Way::Done(t, n) => Way::Done(panic_message(t), n),
    }
}

/// The stop is at the last of the panic symbols: past it the program dies.
pub open spec fn at_last(stop: Option<StopModel>) -> bool {
    stop matches Some(s) && (s.top() matches Some(f) && "rust_panic"@.is_suffix_of(f.name))
}

pub open spec fn patience(last: bool) -> int {
    if last {
        2000
    } else {
        700
    }
}

/// The message of a panic, walking forward through at most `left` of the
/// remaining panic symbols until it shows up; never past the last of them.
pub open spec fn hunt_way(
    left: nat,
    message: Option<Seq<char>>,
    outs: Seq<OutcomeModel>,
    at: int,
) -> Way<HuntModel>
    decreases left,
{
    let here = HuntModel { message, exited: false, exit_code: None };
    if left == 0 || message is Some {
        Way::Done(here, at)
    } else {
        match perform(OpModel::LastStop, outs, at) {
            Way::Do(o) => Way::Do(o),
            Way::Done(x, n) => {
                let last = at_last(last_in(x));
                match perform(
                    OpModel::WaitOutput { needle: "panicked at"@, millis: patience(last) },
                    outs,
                    n,
                ) {
                    Way::Do(o) => Way::Do(o),
                    Way::Done(y, k) => if flag_in(y) {
                        match message_way(outs, k) {
                            Way::Do(o) => Way::Do(o),
                            Way::Done(m, j) => Way::Done(
                                HuntModel { message: m, exited: false, exit_code: None },
                                j,
                            ),
                        }
                    } else if last {
                        Way::Done(here, k)
                    } else {
                        match perform(OpModel::Continue, outs, k) {
                            Way::Do(o) => Way::Do(o),
                            Way::Done(z, j) => match stopped_in(z) {
                                Err(_) => Way::Done(here, j),
                                Ok(stop) => if stop.exited {
                                    match perform(
                                        OpModel::WaitOutput { needle: "panicked at"@, millis: 700 },
                                        outs,
                                        j,
                                    ) {
                                        Way::Do(o) => Way::Do(o),
                                        Way::Done(_, i) => match message_way(outs, i) {
                                            Way::Do(o) => Way::Do(o),
                                            Way::Done(m, h) => Way::Done(
                                                HuntModel {
                                                    message: m,
                                                    exited: true,
                                                    exit_code: stop.exit_code,
                                                },
                                                h,
                                            ),
                                        },
                                    }
                                } else {
                                    match message_way(outs, j) {
                                        Way::Do(o) => Way::Do(o),
                                        Way::Done(m, i) => hunt_way(
                                            (left - 1) as nat,
                                            m,
                                            outs,
                                            i,
                                        ),
                                    }
                                },
                            },
                        }
                    },
                }
            },
        }
    }
}

/// The index of the user's frame, or zero.
pub open spec fn user_index(fs: Seq<FrameModel>) -> int {
    match user_frame(fs) {
        Some(i) => i,
        None => 0,
    }
}

/// The locals at the user's frame of the current stop.
pub open spec fn last_locals_way(exited: bool, outs: Seq<OutcomeModel>, at: int) -> Way<Seq<char>> {
    if exited {
        Way::Done("  (program ran to exit during triage — locals no longer available)"@, at)
    } else {
        match perform(OpModel::LastStop, outs, at) {
            Way::Do(o) => Way::Do(o),
            Way::Done(x, n) => {
                let index = match last_in(x) {
                    Some(s) => user_index(s.frames),
                    None => 0,
                };
                match perform(OpModel::SelectFrame { index }, outs, n) {
                    Way::Do(o) => Way::Do(o),
                    Way::Done(_, k) => text_way(OpModel::Locals { depth: 3, cap: 12 }, outs, k),
                }
            },
        }
    }
}

/// What triage says of a program that did not panic.
pub open spec fn no_panic_doc(code: Option<int>, out: Seq<char>) -> Doc {
    success().with("panicked"@, Doc::Bool(false)).with("exit_code"@, opt_int_doc(code)).with(
        "output"@,
        Doc::Str(tail_of(out, 2000)),
    )
}

/// What triage says of a panic.
pub open spec fn panic_doc(
    h: HuntModel,
    frame: Seq<char>,
    index: int,
    source: Seq<char>,
    vars: Seq<char>,
    bt: Seq<char>,
    out: Seq<char>,
) -> Doc {
    success().with("panicked"@, Doc::Bool(true)).with("message"@, opt_text_doc(h.message)).with(
        "frame"@,
        Doc::Str(frame),
    ).with("frame_index"@, Doc::Int(index)).with("source"@, Doc::Str(source)).with(
        "vars"@,
        Doc::Str(vars),
    ).with("bt"@, Doc::Str(bt)).with("exited"@, Doc::Bool(h.exited)).with(
        "exit_code"@,
        opt_int_doc(h.exit_code),
    ).with("output"@, Doc::Str(tail_of(out, 1500)))
}

/// The frame at an index of a stop.
pub open spec fn frame_in(stop: StopModel, index: int) -> Option<FrameModel> {
    if 0 <= index < stop.frames.len() {
        Some(stop.frames[index])
    } else {
        None
    }
}

/// Triage from the stop inside the panic on.
pub open spec fn panicked_way(stop: StopModel, outs: Seq<OutcomeModel>, at: int) -> Way<Doc> {
    let index = user_index(stop.frames);
    match perform(OpModel::SelectFrame { index }, outs, at) {
        Way::Do(o) => Way::Do(o),
        Way::Done(_, n) => match text_way(OpModel::Source { radius: 4 }, outs, n) {
            Way::Do(o) => Way::Do(o),
            Way::Done(source, k) => match text_way(OpModel::Backtrace, outs, k) {
                Way::Do(o) => Way::Do(o),
                Way::Done(bt, j) => match message_way(outs, j) {
                    Way::Do(o) => Way::Do(o),
                    Way::Done(m, i) => match hunt_way(3, m, outs, i) {
                        Way::Do(o) => Way::Do(o),
                        Way::Done(h, g) => match last_locals_way(h.exited, outs, g) {
                            Way::Do(o) => Way::Do(o),
                            Way::Done(vars, f) => match text_way(OpModel::Output, outs, f) {
                                Way::Do(o) => Way::Do(o),
                                Way::Done(out, e) => {
                                    let resp = panic_doc(
                                        h,
                                        place_text(frame_in(stop, index)),
                                        index,
                                        source,
                                        vars,
                                        bt,
                                        out,
                                    );
                                    if h.exited {
                                        match perform(OpModel::End, outs, e) {
                                            Way::Do(o) => Way::Do(o),
                                            Way::Done(_, d) => Way::Done(resp, d),
                                        }
                                    } else {
                                        Way::Done(resp, e)
                                    }
                                },
                            },
                        },
                    },
                },
            },
        },
    }
}

pub open spec fn triage_way(
    req: Doc,
    has_session: bool,
    outs: Seq<OutcomeModel>,
    at: int,
) -> Way<Doc> {
    match start_way(req, has_session, outs, at) {
        Way::Do(o) => Way::Do(o),
        Way::Done(Some(e), n) => Way::Done(refusal(e), n),
        Way::Done(None, n) => match perform(OpModel::AddPanic, outs, n) {
            Way::Do(o) => Way::Do(o),
            Way::Done(_, k) => match first_stop_way(outs, k) {
                Way::Do(o) => Way::Do(o),
                Way::Done(Err(e), j) => Way::Done(refusal(e), j),
                Way::Done(Ok(stop), j) => if stop.exited {
                    match text_way(OpModel::Output, outs, j) {
                        Way::Do(o) => Way::Do(o),
                        Way::Done(out, i) => match perform(OpModel::Drop, outs, i) {
                            Way::Do(o) => Way::Do(o),
                            Way::Done(_, h) => Way::Done(
                                no_panic_doc(stop.exit_code, out),
                                h,
                            ),
                        },
                    }
                } else {
                    panicked_way(stop, outs, j)
                },
            },
        },
    }
}

fn message_op(outs: &Vec<Outcome>, at: usize) -> (r: Progress<Option<String>>)
    requires
        at <= outs.len(),
    ensures
        match r {
            Progress::Do(o) => message_way(outcomes_in(outs@), at as int) == Way::<
                Option<Seq<char>>,
            >::Do(o@),
            Progress::Done(m, n) => message_way(outcomes_in(outs@), at as int) == Way::Done(
                opt_text(m),
                n as int,
            ) && at <= n <= outs.len(),
        },
{
    match text_op(Op::Output, outs, at) {
        Progress::Do(o) => Progress::Do(o),
        Progress::Done(t, n) => Progress::Done(extract_panic_message(t), n),
    }
}

fn is_last(stop: Option<&Stop>) -> (r: bool)
    ensures
        r == at_last(
            match stop {
                Some(s) => Some(s@),
                None => None,
            },
        ),
{
    match stop {
        Some(s) => match s.top() {
            Some(f) => ends(f.name.as_str(), "rust_panic"),
            None => false,
        },
        None => false,
    }
}

fn hunt(left: u8, message: Option<String>, outs: &Vec<Outcome>, at: usize) -> (r: Progress<Hunt>)
    requires
        at <= outs.len(),
    ensures
        match r {
            Progress::Do(o) => hunt_way(
                left as nat,
                opt_text(message),
                outcomes_in(outs@),
                at as int,
            ) == Way::<HuntModel>::Do(o@),
            Progress::Done(h, n) => hunt_way(
                left as nat,
                opt_text(message),
                outcomes_in(outs@),
                at as int,
            ) == Way::Done(h@, n as int) && at <= n <= outs.len(),
        },
    decreases left,
{
    let known = match &message {
        Some(_) => true,
        None => false,
    };
    if left == 0 || known {
        return Progress::Done(Hunt { message, exited: false, exit_code: None }, at);
    }
    let (last, n): (bool, usize) = match expect(Op::LastStop, outs, at) {
        Progress::Do(o) => return Progress::Do(o),
        Progress::Done(x, n) => (is_last(x.last()), n),
    };
    let millis: i64 = if last {
        2000
    } else {
        700
    };
    let (shown, k): (bool, usize) = match expect(
        Op::WaitOutput { needle: owned("panicked at"), millis },
        outs,
        n,
    ) {
        Progress::Do(o) => return Progress::Do(o),
        Progress::Done(y, k) => (y.flag(), k),
    };
    if shown {
        return match message_op(outs, k) {
            Progress::Do(o) => Progress::Do(o),
            Progress::Done(m, j) => Progress::Done(
                Hunt { message: m, exited: false, exit_code: None },
                j,
            ),
        };
    }
    if last {
        // the hook already ran and printed nothing visible
        return Progress::Done(Hunt { message, exited: false, exit_code: None }, k);
    }
    let (z, j): (&Outcome, usize) = match expect(Op::Continue, outs, k) {
        Progress::Do(o) => return Progress::Do(o),
        Progress::Done(z, j) => (z, j),
    };
    let stop = match z.stopped() {
        Err(_) => {
            return Progress::Done(Hunt { message, exited: false, exit_code: None }, j);
        },
        Ok(stop) => stop,
    };
    if stop.exited {
        // panic=abort (no rust_panic symbol): the message flushes at exit
        let i: usize = match expect(
            Op::WaitOutput { needle: owned("panicked at"), millis: 700 },
            outs,
            j,
        ) {
            Progress::Do(o) => return Progress::Do(o),
            Progress::Done(_, i) => i,
        };
        return match message_op(outs, i) {
            Progress::Do(o) => Progress::Do(o),
            Progress::Done(m, h) => Progress::Done(
                Hunt { message: m, exited: true, exit_code: stop.exit_code },
                h,
            ),
        };
    }
    match message_op(outs, j) {
        Progress::Do(o) => Progress::Do(o),
        Progress::Done(m, i) => hunt(left - 1, m, outs, i),
    }
}

fn find_user(stop: &Stop) -> (r: usize)
    ensures
        r == user_index(stop@.frames),
{
    match first_user_frame(stop.frames.as_slice()) {
        Some(i) => i,
        None => 0,
    }
}

fn last_locals<'a>(exited: bool, outs: &'a Vec<Outcome>, at: usize) -> (r: Progress<&'a str>)
    requires
        at <= outs.len(),
    ensures
        match r {
            Progress::Do(o) => last_locals_way(exited, outcomes_in(outs@), at as int) == Way::<
                Seq<char>,
            >::Do(o@),
            Progress::Done(t, n) => last_locals_way(exited, outcomes_in(outs@), at as int)
                == Way::Done(t@, n as int) && at <= n <= outs.len(),
        },
{
    if exited {
        return Progress::Done(
            "  (program ran to exit during triage — locals no longer available)",
            at,
        );
    }
    let (index, n): (usize, usize) = match expect(Op::LastStop, outs, at) {
        Progress::Do(o) => return Progress::Do(o),
        Progress::Done(x, n) => (
            match x.last() {
                Some(s) => find_user(s),
                None => 0,
            },
            n,
        ),
    };
    match expect(Op::SelectFrame { index }, outs, n) {
        Progress::Do(o) => Progress::Do(o),
        Progress::Done(_, k) => text_op(Op::Locals { depth: 3, cap: 12 }, outs, k),
    }
}

fn triage_panic(stop: &Stop, outs: &Vec<Outcome>, at: usize) -> (r: Progress<Json>)
    requires
        at <= outs.len(),
    ensures
        match r {
            Progress::Do(o) => panicked_way(stop@, outcomes_in(outs@), at as int) == Way::<
                Doc,
            >::Do(o@),
            Progress::Done(j, n) => panicked_way(stop@, outcomes_in(outs@), at as int)
                == Way::Done(j@, n as int) && at <= n <= outs.len(),
        },
{
    let index: usize = find_user(stop);
    let n: usize = match expect(Op::SelectFrame { index }, outs, at) {
        Progress::Do(o) => return Progress::Do(o),
        Progress::Done(_, n) => n,
    };
    let place = if index < stop.frames.len() {
        assert(stop@.frames[index as int] == stop.frames@[index as int]@);
        show_place(Some(&stop.frames[index]))
    } else {
        show_place(None)
    };
    let (source, k): (&str, usize) = match text_op(Op::Source { radius: 4 }, outs, n) {
        Progress::Do(o) => return Progress::Do(o),
        Progress::Done(t, k) => (t, k),
    };
    let (bt, j): (&str, usize) = match text_op(Op::Backtrace, outs, k) {
        Progress::Do(o) => return Progress::Do(o),
        Progress::Done(t, j) => (t, j),
    };
    // Hunt the panic message next: the panic breakpoint fires *before* the
    // hook prints `panicked at ...`. Deliberately before any locals read —
    // lldb's Rust data formatters can wedge the adapter on a moved-out String,
    // and reading locals last means that can only degrade the locals field.
    let (m, i): (Option<String>, usize) = match message_op(outs, j) {
        Progress::Do(o) => return Progress::Do(o),
        Progress::Done(m, i) => (m, i),
    };
    let (h, g): (Hunt, usize) = match hunt(3, m, outs, i) {
        Progress::Do(o) => return Progress::Do(o),
        Progress::Done(h, g) => (h, g),
    };
    let (vars, f): (&str, usize) = match last_locals(h.exited, outs, g) {
        Progress::Do(o) => return Progress::Do(o),
        Progress::Done(t, f) => (t, f),
    };
    let (out, e): (&str, usize) = match text_op(Op::Output, outs, f) {
        Progress::Do(o) => return Progress::Do(o),
        Progress::Done(t, e) => (t, e),
    };
    let d: usize = if h.exited {
        match expect(Op::End, outs, e) {
            Progress::Do(o) => return Progress::Do(o),
            Progress::Done(_, d) => d,
        }
    } else {
        e
    };
    let end = tail(out, 1500);
    Progress::Done(
        succeed().with("panicked", Json::boolean(true)).with(
            "message",
            opt_string(&h.message),
        ).with("frame", Json::text(place.as_str())).with("frame_index", Json::count(index)).with(
            "source",
            Json::text(source),
        ).with("vars", Json::text(vars)).with("bt", Json::text(bt)).with(
            "exited",
            Json::boolean(h.exited),
        ).with("exit_code", opt_number(h.exit_code)).with("output", Json::text(end.as_str())),
        d,
    )
}

/// One-shot panic triage: launch with a panic breakpoint, run to the
/// panic, and bundle the panic message, the first USER frame (std/core
/// internals skipped) with its arguments and locals, and a short backtrace
/// into a single response. If the program exits without panicking, says so
/// (`panicked: false`). The session stays paused inside the panic (frames
/// intact) unless the program ran to exit.
pub fn cmd_panic_triage(req: &Json, has_session: bool, outs: &Vec<Outcome>, at: usize) -> (r:
    Progress<Json>)
    requires
        at <= outs.len(),
    ensures
        match r {
            Progress::Do(o) => triage_way(req@, has_session, outcomes_in(outs@), at as int)
                == Way::<Doc>::Do(o@),
            Progress::Done(j, n) => triage_way(req@, has_session, outcomes_in(outs@), at as int)
                == Way::Done(j@, n as int) && at <= n <= outs.len(),
        },
{
    let n: usize = match start_op(req, has_session, outs, at) {
        Progress::Do(o) => return Progress::Do(o),
        Progress::Done(Some(e), n) => return Progress::Done(refuse(e), n),
        Progress::Done(None, n) => n,
    };
    let k: usize = match expect(Op::AddPanic, outs, n) {
        Progress::Do(o) => return Progress::Do(o),
        Progress::Done(_, k) => k,
    };
    let (stop, j): (&Stop, usize) = match first_stop_op(outs, k) {
        Progress::Do(o) => return Progress::Do(o),
        Progress::Done(Err(e), j) => return Progress::Done(refuse(e), j),
        Progress::Done(Ok(s), j) => (s, j),
    };
    if stop.exited {
        // no panic — the only breakpoints were the panic symbols
        let (out, i): (&str, usize) = match text_op(Op::Output, outs, j) {
            Progress::Do(o) => return Progress::Do(o),
            Progress::Done(t, i) => (t, i),
        };
        let h: usize = match expect(Op::Drop, outs, i) {
            Progress::Do(o) => return Progress::Do(o),
            Progress::Done(_, h) => h,
        };
        let end = tail(out, 2000);
        return Progress::Done(
            succeed().with("panicked", Json::boolean(false)).with(
                "exit_code",
                opt_number(stop.exit_code),
            ).with("output", Json::text(end.as_str())),
            h,
        );
    }
    triage_panic(stop, outs, j)
}

// ---------------------------------------------------------------------------
// Navigation
// ---------------------------------------------------------------------------

/// What is asked of rust-analyzer.
pub open spec fn nav_op(cmd: Seq<char>, req: Doc) -> OpModel {
    let file = req.at("file"@).text_or(""@);
    let line = req.at("line"@).int_or(0);
    let col = req.at("col"@).int_or(0);
    if cmd == "where"@ {
        OpModel::Symbols { query: req.at("query"@).text_or(""@) }
    } else if cmd == "def"@ {
        OpModel::Definition { file, line, col }
    } else if cmd == "refs"@ {
        OpModel::References { file, line, col }
    } else {
        OpModel::Hover { file, line, col }
    }
}

/// What is said of it.
pub open spec fn nav_doc(cmd: Seq<char>, x: OutcomeModel) -> Doc {
    if cmd == "where"@ {
        success().with("symbols"@, Doc::Arr(values_in(x)))
    } else if cmd == "def"@ || cmd == "refs"@ {
        success().with("locations"@, Doc::Arr(values_in(x)))
    } else {
        success().with("hover"@, Doc::Str(text_in(x)))
    }
}

pub open spec fn nav_way(cmd: Seq<char>, req: Doc, outs: Seq<OutcomeModel>, at: int) -> Way<Doc> {
    match perform(OpModel::StartLsp, outs, at) {
        Way::Do(o) => Way::Do(o),
        Way::Done(x, n) => match error_in(x) {
            Some(e) => Way::Done(refusal("rust-analyzer unavailable: "@ + e), n),
            None => match perform(nav_op(cmd, req), outs, n) {
                Way::Do(o) => Way::Do(o),
                Way::Done(y, k) => Way::Done(nav_doc(cmd, y), k),
            },
        },
    }
}

/// Navigation by rust-analyzer, which is started on the first such command.
pub fn cmd_nav(cmd: &str, req: &Json, outs: &Vec<Outcome>, at: usize) -> (r: Progress<Json>)
    requires
        at <= outs.len(),
    ensures
        match r {
            Progress::Do(o) => nav_way(cmd@, req@, outcomes_in(outs@), at as int) == Way::<
                Doc,
            >::Do(o@),
            Progress::Done(j, n) => nav_way(cmd@, req@, outcomes_in(outs@), at as int)
                == Way::Done(j@, n as int) && at <= n <= outs.len(),
        },
{
    let (x, n): (&Outcome, usize) = match expect(Op::StartLsp, outs, at) {
        Progress::Do(o) => return Progress::Do(o),
        Progress::Done(x, n) => (x, n),
    };
    match x.error() {
        Some(e) => {
            let mut t = String::from_str("rust-analyzer unavailable: ");
            t.append(e);
            return Progress::Done(refuse(t.as_str()), n);
        },
        None => {},
    }
    let file = req.at("file").str_or("");
    let line = req.at("line").int_or(0);
    let col = req.at("col").int_or(0);
    let op = if same(cmd, "where") {
        Op::Symbols { query: req.at("query").str_or("") }
    } else if same(cmd, "def") {
        Op::Definition { file, line, col }
    } else if same(cmd, "refs") {
        Op::References { file, line, col }
    } else {
        Op::Hover { file, line, col }
    };
    let (y, k): (&Outcome, usize) = match expect(op, outs, n) {
        Progress::Do(o) => return Progress::Do(o),
        Progress::Done(y, k) => (y, k),
    };
    let resp = if same(cmd, "where") {
        succeed().with("symbols", y.values())
    } else if same(cmd, "def") || same(cmd, "refs") {
        succeed().with("locations", y.values())
    } else {
        succeed().with("hover", Json::text(y.text()))
    };
    Progress::Done(resp, k)
}

// ---------------------------------------------------------------------------
// Traces
// ---------------------------------------------------------------------------

pub open spec fn value_texts(values: Seq<(Seq<char>, Seq<char>)>) -> Seq<Seq<char>> {
    Seq::new(values.len(), |i: int| values[i].0 + "="@ + values[i].1)
}

pub open spec fn hit_row(h: HitModel, i: int) -> Seq<char> {
    " #"@ + padded_right(int_text(i + 1), 3) + " "@ + h.func + "  "@ + h.loc + "   "@ + join(
        value_texts(h.values),
        "  "@,
    )
}

/// A trace as a table, one row to a hit.
pub open spec fn trace_text(hits: Seq<HitModel>) -> Seq<char> {
    if hits.len() == 0 {
        "(no breakpoint hits)"@
    } else {
        join(Seq::new(hits.len(), |i: int| hit_row(hits[i], i)), "\n"@)
    }
}

fn show_hit(h: &TraceHit, i: usize) -> (r: String)
    requires
        i < usize::MAX,
    ensures
        r@ == hit_row(h@, i as int),
{
    let mut vals: Vec<String> = Vec::new();
    let ghost all = value_texts(h@.values);
    let mut k: usize = 0;
    assert(views(vals@) =~= all.take(0));
    while k < h.values.len()
        invariant
            k <= h.values.len(),
            all == value_texts(h@.values),
            views(vals@) == all.take(k as int),
        decreases h.values.len() - k,
    {
        let mut t = owned(h.values[k].0.as_str());
        t.append("=");
        t.append(h.values[k].1.as_str());
        let ghost before = views(vals@);
        let ghost text = t@;
        vals.push(t);
        assert(views(vals@) =~= before.push(text));
        assert(views(vals@) =~= all.take(k + 1));
        k += 1;
    }
    assert(all.take(all.len() as int) =~= all);
    let mut r = String::from_str(" #");
    let n = show_count(i + 1);
    let p = pad_right(n.as_str(), 3);
    r.append(p.as_str());
    r.append(" ");
    r.append(h.func.as_str());
    r.append("  ");
    r.append(h.loc.as_str());
    r.append("   ");
    let joined = join_all(&vals, "  ");
    r.append(joined.as_str());
    r
}

/// Compact tabular render of a trace run — one line per breakpoint hit.
pub fn format_trace(hits: &Vec<TraceHit>) -> (r: String)
    ensures
        r@ == trace_text(hits_in(hits@)),
{
    if hits.len() == 0 {
        return owned("(no breakpoint hits)");
    }
    let ghost models = hits_in(hits@);
    let ghost all = Seq::new(models.len(), |i: int| hit_row(models[i], i));
    let mut rows: Vec<String> = Vec::new();
    let mut i: usize = 0;
    assert(views(rows@) =~= all.take(0));
    while i < hits.len()
        invariant
            i <= hits.len(),
            models == hits_in(hits@),
            all == Seq::new(models.len(), |i: int| hit_row(models[i], i)),
            views(rows@) == all.take(i as int),
        decreases hits.len() - i,
    {
        assert(models[i as int] == hits@[i as int]@);
        let ghost before = views(rows@);
        let t = show_hit(&hits[i], i);
        let ghost text = t@;
        rows.push(t);
        assert(views(rows@) =~= before.push(text));
        assert(views(rows@) =~= all.take(i + 1));
        i += 1;
    }
    assert(all.take(all.len() as int) =~= all);
    join_all(&rows, "\n")
}

/// The most hits that a request asks for.
pub open spec fn trace_max(req: Doc) -> int {
    let n = req.at("max"@).int_or(50);
    if n < 1 {
        1
    } else if n > usize::MAX {
        usize::MAX as int
    } else {
        n
    }
}

pub open spec fn trace_doc(hits: Seq<HitModel>, out: Seq<char>) -> Doc {
    success().with("trace"@, Doc::Str(trace_text(hits))).with(
        "hits"@,
        Doc::Int(hits.len() as int),
    ).with(
        "output"@,
        if out.len() == 0 {
            Doc::Null
        } else {
            Doc::Str(tail_of(out, 1000))
        },
    )
}

pub open spec fn trace_way(req: Doc, outs: Seq<OutcomeModel>, at: int) -> Way<Doc> {
    match perform(
        OpModel::Trace { captures: strings_of(req.at("captures"@)), max: trace_max(req) },
        outs,
        at,
    ) {
        Way::Do(o) => Way::Do(o),
        Way::Done(x, n) => match text_way(OpModel::Output, outs, n) {
            Way::Do(o) => Way::Do(o),
            Way::Done(out, k) => Way::Done(trace_doc(hits_out(x), out), k),
        },
    }
}

fn cmd_trace(req: &Json, outs: &Vec<Outcome>, at: usize) -> (r: Progress<Json>)
    requires
        at <= outs.len(),
    ensures
        match r {
            Progress::Do(o) => trace_way(req@, outcomes_in(outs@), at as int) == Way::<Doc>::Do(
                o@,
            ),
            Progress::Done(j, n) => trace_way(req@, outcomes_in(outs@), at as int) == Way::Done(
                j@,
                n as int,
            ) && at <= n <= outs.len(),
        },
{
    let asked: i64 = req.at("max").int_or(50);
    let max: usize = if asked < 1 {
        1
    } else if asked as u64 > usize::MAX as u64 {
        usize::MAX
    } else {
        asked as usize
    };
    let op = Op::Trace { captures: list_field(req.at("captures")), max };
    let (x, n): (&Outcome, usize) = match expect(op, outs, at) {
        Progress::Do(o) => return Progress::Do(o),
        Progress::Done(x, n) => (x, n),
    };
    let (out, k): (&str, usize) = match text_op(Op::Output, outs, n) {
        Progress::Do(o) => return Progress::Do(o),
        Progress::Done(t, k) => (t, k),
    };
    let (text, count): (String, usize) = match x.hits() {
        Some(v) => (format_trace(v), v.len()),
        None => (owned("(no breakpoint hits)"), 0),
    };
    let shown = if out.is_empty() {
        Json::Null
    } else {
        let t = tail(out, 1000);
        Json::text(t.as_str())
    };
    Progress::Done(
        succeed().with("trace", Json::text(text.as_str())).with("hits", Json::count(count)).with(
            "output",
            shown,
        ),
        k,
    )
}

// ---------------------------------------------------------------------------
// Commands on the session
// ---------------------------------------------------------------------------

pub open spec fn step_kind(kind: Seq<char>) -> StepKind {
    if kind == "in"@ {
        StepKind::In
    } else if kind == "out"@ {
        StepKind::Out
    } else if kind == "insn"@ {
        StepKind::Insn
    } else {
        StepKind::Over
    }
}

fn read_kind(kind: &str) -> (r: StepKind)
    ensures
        r == step_kind(kind@),
{
    if same(kind, "in") {
        StepKind::In
    } else if same(kind, "out") {
        StepKind::Out
    } else if same(kind, "insn") {
        StepKind::Insn
    } else {
        StepKind::Over
    }
}

/// An operation that says yes or no, and what is said where it says no.
pub open spec fn checked_way(
    op: OpModel,
    e: Seq<char>,
    outs: Seq<OutcomeModel>,
    at: int,
) -> Way<Doc> {
    match perform(op, outs, at) {
        Way::Do(o) => Way::Do(o),
        Way::Done(x, n) => Way::Done(verdict(flag_in(x), e), n),
    }
}

/// A text under a key of the response.
pub open spec fn shown_way(
    op: OpModel,
    key: Seq<char>,
    outs: Seq<OutcomeModel>,
    at: int,
) -> Way<Doc> {
    match text_way(op, outs, at) {
        Way::Do(o) => Way::Do(o),
        Way::Done(t, n) => Way::Done(success().with(key, Doc::Str(t)), n),
    }
}

fn shown_op(op: Op, key: &str, outs: &Vec<Outcome>, at: usize) -> (r: Progress<Json>)
    requires
        at <= outs.len(),
    ensures
        match r {
            Progress::Do(o) => shown_way(op@, key@, outcomes_in(outs@), at as int) == Way::<
                Doc,
            >::Do(o@),
            Progress::Done(j, n) => shown_way(op@, key@, outcomes_in(outs@), at as int)
                == Way::Done(j@, n as int) && at <= n <= outs.len(),
        },
{
    match text_op(op, outs, at) {
        Progress::Do(o) => Progress::Do(o),
        Progress::Done(t, n) => Progress::Done(succeed().with(key, Json::text(t)), n),
    }
}

/// The summary of the stop that the session is at, or null.
pub open spec fn current_way(outs: Seq<OutcomeModel>, at: int) -> Way<Doc> {
    match perform(OpModel::LastStop, outs, at) {
        Way::Do(o) => Way::Do(o),
        Way::Done(x, n) => match last_in(x) {
            Some(stop) => summary_way(stop, outs, n),
            None => Way::Done(Doc::Null, n),
        },
    }
}

fn current_op(outs: &Vec<Outcome>, at: usize) -> (r: Progress<Json>)
    requires
        at <= outs.len(),
    ensures
        match r {
            Progress::Do(o) => current_way(outcomes_in(outs@), at as int) == Way::<Doc>::Do(o@),
            Progress::Done(j, n) => current_way(outcomes_in(outs@), at as int) == Way::Done(
                j@,
                n as int,
            ) && at <= n <= outs.len(),
        },
{
    match expect(Op::LastStop, outs, at) {
        Progress::Do(o) => Progress::Do(o),
        Progress::Done(x, n) => match x.last() {
            Some(stop) => summarize(stop, outs, n),
            None => Progress::Done(Json::Null, n),
        },
    }
}

pub open spec fn thread_way(req: Doc, outs: Seq<OutcomeModel>, at: int) -> Way<Doc> {
    match perform(OpModel::SelectThread { id: req.at("id"@).int_or(0) }, outs, at) {
        Way::Do(o) => Way::Do(o),
        Way::Done(x, n) => if flag_in(x) {
            match current_way(outs, n) {
                Way::Do(o) => Way::Do(o),
                Way::Done(d, k) => Way::Done(success().with("stop"@, d), k),
            }
        } else {
            Way::Done(refusal("no such thread"@).with("stop"@, Doc::Null), n)
        },
    }
}

fn cmd_thread(req: &Json, outs: &Vec<Outcome>, at: usize) -> (r: Progress<Json>)
    requires
        at <= outs.len(),
    ensures
        match r {
            Progress::Do(o) => thread_way(req@, outcomes_in(outs@), at as int) == Way::<Doc>::Do(
                o@,
            ),
            Progress::Done(j, n) => thread_way(req@, outcomes_in(outs@), at as int) == Way::Done(
                j@,
                n as int,
            ) && at <= n <= outs.len(),
        },
{
    match expect(Op::SelectThread { id: req.at("id").int_or(0) }, outs, at) {
        Progress::Do(o) => Progress::Do(o),
        Progress::Done(x, n) => if x.flag() {
            match current_op(outs, n) {
                Progress::Do(o) => Progress::Do(o),
                Progress::Done(d, k) => Progress::Done(succeed().with("stop", d), k),
            }
        } else {
            Progress::Done(refuse("no such thread").with("stop", Json::Null), n)
        },
    }
}

pub open spec fn state_way(outs: Seq<OutcomeModel>, at: int) -> Way<Doc> {
    match current_way(outs, at) {
        Way::Do(o) => Way::Do(o),
        Way::Done(stop, n) => match text_way(OpModel::Locals { depth: 3, cap: 12 }, outs, n) {
            Way::Do(o) => Way::Do(o),
            Way::Done(vars, k) => match watches_way(outs, k) {
                Way::Do(o) => Way::Do(o),
                Way::Done(watches, j) => Way::Done(
                    success().with("stop"@, stop).with("vars"@, Doc::Str(vars)).with(
                        "watches"@,
                        Doc::Str(watches),
                    ),
                    j,
                ),
            },
        },
    }
}

fn cmd_state(outs: &Vec<Outcome>, at: usize) -> (r: Progress<Json>)
    requires
        at <= outs.len(),
    ensures
        match r {
            Progress::Do(o) => state_way(outcomes_in(outs@), at as int) == Way::<Doc>::Do(o@),
            Progress::Done(j, n) => state_way(outcomes_in(outs@), at as int) == Way::Done(
                j@,
                n as int,
            ) && at <= n <= outs.len(),
        },
{
    let (stop, n): (Json, usize) = match current_op(outs, at) {
        Progress::Do(o) => return Progress::Do(o),
        Progress::Done(d, n) => (d, n),
    };
    let (vars, k): (&str, usize) = match text_op(Op::Locals { depth: 3, cap: 12 }, outs, n) {
        Progress::Do(o) => return Progress::Do(o),
        Progress::Done(t, k) => (t, k),
    };
    match watches_op(outs, k) {
        Progress::Do(o) => Progress::Do(o),
        Progress::Done(watches, j) => Progress::Done(
            succeed().with("stop", stop).with("vars", Json::text(vars)).with(
                "watches",
                Json::text(watches),
            ),
            j,
        ),
    }
}

/// The frame that a request asks for.
pub open spec fn frame_op(req: Doc) -> OpModel {
    let dir = req.at("dir"@).text();
    if dir == Some("up"@) {
        OpModel::ShiftFrame { up: true }
    } else if dir == Some("down"@) {
        OpModel::ShiftFrame { up: false }
    } else {
        OpModel::SelectFrame {
            index: clamped(req.at("index"@).int_or(0), 0, usize::MAX as int),
        }
    }
}

pub open spec fn frame_way(req: Doc, outs: Seq<OutcomeModel>, at: int) -> Way<Doc> {
    match perform(frame_op(req), outs, at) {
        Way::Do(o) => Way::Do(o),
        Way::Done(x, n) => if flag_in(x) {
            match text_way(OpModel::Source { radius: 6 }, outs, n) {
                Way::Do(o) => Way::Do(o),
                Way::Done(source, k) => match text_way(
                    OpModel::Locals { depth: 3, cap: 12 },
                    outs,
                    k,
                ) {
                    Way::Do(o) => Way::Do(o),
                    Way::Done(vars, j) => Way::Done(
                        success().with("source"@, Doc::Str(source)).with("vars"@, Doc::Str(vars)),
                        j,
                    ),
                },
            }
        } else {
            Way::Done(
                refusal("no such frame"@).with("source"@, Doc::Str(""@)).with(
                    "vars"@,
                    Doc::Str(""@),
                ),
                n,
            )
        },
    }
}

fn ask_frame(req: &Json) -> (op: Op)
    ensures
        op@ == frame_op(req@),
{
    let index: i64 = req.at("index").int_or(0);
    let select = Op::SelectFrame {
        index: if index < 0 {
            0
        } else if index as u64 > usize::MAX as u64 {
            usize::MAX
        } else {
            index as usize
        },
    };
    match req.at("dir").as_str() {
        Some(d) => {
            if same(d, "up") {
                Op::ShiftFrame { up: true }
            } else if same(d, "down") {
                Op::ShiftFrame { up: false }
            } else {
                select
            }
        },
        None => select,
    }
}

fn cmd_frame(req: &Json, outs: &Vec<Outcome>, at: usize) -> (r: Progress<Json>)
    requires
        at <= outs.len(),
    ensures
        match r {
            Progress::Do(o) => frame_way(req@, outcomes_in(outs@), at as int) == Way::<Doc>::Do(
                o@,
            ),
            Progress::Done(j, n) => frame_way(req@, outcomes_in(outs@), at as int) == Way::Done(
                j@,
                n as int,
            ) && at <= n <= outs.len(),
        },
{
    let (x, n): (&Outcome, usize) = match expect(ask_frame(req), outs, at) {
        Progress::Do(o) => return Progress::Do(o),
        Progress::Done(x, n) => (x, n),
    };
    if !x.flag() {
        return Progress::Done(
            refuse("no such frame").with("source", Json::text("")).with("vars", Json::text("")),
            n,
        );
    }
    let (source, k): (&str, usize) = match text_op(Op::Source { radius: 6 }, outs, n) {
        Progress::Do(o) => return Progress::Do(o),
        Progress::Done(t, k) => (t, k),
    };
    match text_op(Op::Locals { depth: 3, cap: 12 }, outs, k) {
        Progress::Do(o) => Progress::Do(o),
        Progress::Done(vars, j) => Progress::Done(
            succeed().with("source", Json::text(source)).with("vars", Json::text(vars)),
            j,
        ),
    }
}

/// A number in 32 bits, as a cast leaves it.
pub open spec fn wrapped32(n: int) -> int {
    (n + 0x8000_0000) % 0x1_0000_0000 - 0x8000_0000
}

fn wrap32(n: i64) -> (r: i32)
    ensures
        r == wrapped32(n as int),
{
    let m: i128 = n as i128 + 0x8000_0000;
    let k: i128 = if m >= 0 {
        m % 0x1_0000_0000
    } else {
        let p: i128 = (-m) % 0x1_0000_0000;
        assert((-m) % 0x1_0000_0000 == p);
        if p == 0 {
            0
        } else {
            0x1_0000_0000 - p
        }
    };
    proof {
        if m < 0 {
            let q = (-m) / 0x1_0000_0000;
            assert(m == -(q * 0x1_0000_0000) - (-m) % 0x1_0000_0000);
        }
        assert(k == (n as int + 0x8000_0000) % 0x1_0000_0000);
    }
    (k - 0x8000_0000) as i32
}

/// How deep and how broad the locals are asked for.
pub open spec fn vars_op(req: Doc) -> OpModel {
    let full = req.at("full"@).bool_or(false);
    OpModel::Locals {
        depth: wrapped32(
            req.at("depth"@).int_or(
                if full {
                    10
                } else {
                    3
                },
            ),
        ),
        cap: if full {
            64
        } else {
            12
        },
    }
}

fn ask_vars(req: &Json) -> (op: Op)
    ensures
        op@ == vars_op(req@),
{
    let full = req.at("full").bool_or(false);
    let usual: i64 = if full {
        10
    } else {
        3
    };
    let cap: usize = if full {
        64
    } else {
        12
    };
    Op::Locals { depth: wrap32(req.at("depth").int_or(usual)), cap }
}

pub open spec fn watched_way(req: Doc, outs: Seq<OutcomeModel>, at: int) -> Way<Doc> {
    match perform(OpModel::Watch { var: req.at("var"@).text_or(""@) }, outs, at) {
        Way::Do(o) => Way::Do(o),
        Way::Done(x, n) => match watched_in(x) {
            Ok(id) => Way::Done(success().with("id"@, Doc::Int(id)), n),
            Err(e) => Way::Done(refusal(e), n),
        },
    }
}

pub open spec fn removed_doc(ok: bool) -> Doc {
    if ok {
        success().with("error"@, Doc::Null)
    } else {
        refusal("breakpoint not found"@)
    }
}

pub open spec fn watch_expr_way(req: Doc, outs: Seq<OutcomeModel>, at: int) -> Way<Doc> {
    match perform(
        OpModel::WatchExpr {
            action: req.at("action"@).text_or("list"@),
            expr: req.at("expr"@).text(),
        },
        outs,
        at,
    ) {
        Way::Do(o) => Way::Do(o),
        Way::Done(_, n) => shown_way(OpModel::Watches, "watches"@, outs, n),
    }
}

/// The commands that do not let the program run.
pub open spec fn still_way(cmd: Seq<char>, req: Doc, outs: Seq<OutcomeModel>, at: int) -> Way<Doc> {
    if cmd == "bp_add"@ {
        match perform(line_op(req), outs, at) {
            Way::Do(o) => Way::Do(o),
            Way::Done(x, n) => Way::Done(
                success().with("id"@, Doc::Int(added_in(x).0)).with(
                    "verified"@,
                    Doc::Bool(added_in(x).1),
                ),
                n,
            ),
        }
    } else if cmd == "bp_fn"@ {
        match perform(OpModel::AddFn { name: req.at("name"@).text_or(""@) }, outs, at) {
            Way::Do(o) => Way::Do(o),
            Way::Done(x, n) => Way::Done(success().with("id"@, Doc::Int(id_in(x))), n),
        }
    } else if cmd == "bp_panic"@ {
        match perform(OpModel::AddPanic, outs, at) {
            Way::Do(o) => Way::Do(o),
            Way::Done(_, n) => Way::Done(success().with("id"@, Doc::Str("panic"@)), n),
        }
    } else if cmd == "bp_watch"@ {
        watched_way(req, outs, at)
    } else if cmd == "bp_list"@ {
        shown_way(OpModel::Breakpoints, "breakpoints"@, outs, at)
    } else if cmd == "bp_rm"@ {
        match perform(OpModel::Remove { id: req.at("id"@).text_or(""@) }, outs, at) {
            Way::Do(o) => Way::Do(o),
            Way::Done(x, n) => Way::Done(removed_doc(flag_in(x)), n),
        }
    } else if cmd == "bp_enable"@ {
        checked_way(
            OpModel::Enable {
                id: req.at("id"@).text_or(""@),
                on: req.at("enabled"@).bool_or(true),
            },
            "breakpoint not found"@,
            outs,
            at,
        )
    } else if cmd == "threads"@ {
        shown_way(OpModel::Threads, "threads"@, outs, at)
    } else if cmd == "vars"@ {
        shown_way(vars_op(req), "vars"@, outs, at)
    } else if cmd == "eval"@ {
        shown_way(OpModel::Evaluate { expr: req.at("expr"@).text_or(""@) }, "value"@, outs, at)
    } else if cmd == "set"@ {
        shown_way(
            OpModel::Assign {
                path: req.at("path"@).text_or(""@),
                value: req.at("value"@).text_or(""@),
            },
            "value"@,
            outs,
            at,
        )
    } else if cmd == "watch_expr"@ {
        watch_expr_way(req, outs, at)
    } else if cmd == "bt"@ {
        shown_way(OpModel::Backtrace, "bt"@, outs, at)
    } else if cmd == "list"@ {
        shown_way(OpModel::Source { radius: req.at("radius"@).int_or(6) }, "source"@, outs, at)
    } else {
        Way::Done(refusal("unknown command "@ + debug_text(cmd)), at)
    }
}

/// The commands that need a session.
pub open spec fn session_way(
    cmd: Seq<char>,
    req: Doc,
    outs: Seq<OutcomeModel>,
    at: int,
) -> Way<Doc> {
    if cmd == "continue"@ {
        run_way(OpModel::Continue, outs, at)
    } else if cmd == "continue_until"@ {
        until_way(req, outs, at)
    } else if cmd == "step"@ {
        run_way(OpModel::Step { kind: step_kind(req.at("kind"@).text_or("over"@)) }, outs, at)
    } else if cmd == "until"@ {
        run_way(
            OpModel::Until {
                file: req.at("file"@).text_or(""@),
                line: req.at("line"@).int_or(0),
            },
            outs,
            at,
        )
    } else if cmd == "pause"@ {
        run_way(OpModel::Pause, outs, at)
    } else if cmd == "restart"@ {
        run_way(OpModel::Restart, outs, at)
    } else if cmd == "trace"@ {
        trace_way(req, outs, at)
    } else if cmd == "thread"@ {
        thread_way(req, outs, at)
    } else if cmd == "state"@ {
        state_way(outs, at)
    } else if cmd == "stop"@ {
        match perform(OpModel::End, outs, at) {
            Way::Do(o) => Way::Do(o),
            Way::Done(_, n) => Way::Done(
                success().with("stopped_session"@, Doc::Bool(true)),
                n,
            ),
        }
    } else if cmd == "frame"@ {
        frame_way(req, outs, at)
    } else {
        still_way(cmd, req, outs, at)
    }
}

fn cmd_still(cmd: &str, req: &Json, outs: &Vec<Outcome>, at: usize) -> (r: Progress<Json>)
    requires
        at <= outs.len(),
    ensures
        match r {
            Progress::Do(o) => still_way(cmd@, req@, outcomes_in(outs@), at as int) == Way::<
                Doc,
            >::Do(o@),
            Progress::Done(j, n) => still_way(cmd@, req@, outcomes_in(outs@), at as int)
                == Way::Done(j@, n as int) && at <= n <= outs.len(),
        },
{
    if same(cmd, "bp_add") {
        return match expect(ask_line(req), outs, at) {
            Progress::Do(o) => Progress::Do(o),
            Progress::Done(x, n) => {
                let (id, verified): (i64, bool) = x.added();
                Progress::Done(
                    succeed().with("id", Json::number(id)).with(
                        "verified",
                        Json::boolean(verified),
                    ),
                    n,
                )
            },
        };
    }
    if same(cmd, "bp_fn") {
        return match expect(Op::AddFn { name: req.at("name").str_or("") }, outs, at) {
            Progress::Do(o) => Progress::Do(o),
            Progress::Done(x, n) => Progress::Done(succeed().with("id", Json::number(x.id())), n),
        };
    }
    if same(cmd, "bp_panic") {
        return match expect(Op::AddPanic, outs, at) {
            Progress::Do(o) => Progress::Do(o),
            Progress::Done(_, n) => Progress::Done(succeed().with("id", Json::text("panic")), n),
        };
    }
    if same(cmd, "bp_watch") {
        return match expect(Op::Watch { var: req.at("var").str_or("") }, outs, at) {
            Progress::Do(o) => Progress::Do(o),
            Progress::Done(x, n) => match x.watched() {
                Ok(id) => Progress::Done(succeed().with("id", Json::number(id)), n),
                Err(e) => Progress::Done(refuse(e), n),
            },
        };
    }
    if same(cmd, "bp_list") {
        return shown_op(Op::Breakpoints, "breakpoints", outs, at);
    }
    if same(cmd, "bp_rm") {
        return match expect(Op::Remove { id: req.at("id").str_or("") }, outs, at) {
            Progress::Do(o) => Progress::Do(o),
            Progress::Done(x, n) => if x.flag() {
                Progress::Done(succeed().with("error", Json::Null), n)
            } else {
                Progress::Done(refuse("breakpoint not found"), n)
            },
        };
    }
    if same(cmd, "bp_enable") {
        let op = Op::Enable {
            id: req.at("id").str_or(""),
            on: req.at("enabled").bool_or(true),
        };
        return match expect(op, outs, at) {
            Progress::Do(o) => Progress::Do(o),
            Progress::Done(x, n) => Progress::Done(judge(x.flag(), "breakpoint not found"), n),
        };
    }
    if same(cmd, "threads") {
        return shown_op(Op::Threads, "threads", outs, at);
    }
    if same(cmd, "vars") {
        return shown_op(ask_vars(req), "vars", outs, at);
    }
    if same(cmd, "eval") {
        return shown_op(Op::Evaluate { expr: req.at("expr").str_or("") }, "value", outs, at);
    }
    if same(cmd, "set") {
        let op = Op::Assign {
            path: req.at("path").str_or(""),
            value: req.at("value").str_or(""),
        };
        return shown_op(op, "value", outs, at);
    }
    if same(cmd, "watch_expr") {
        let op = Op::WatchExpr {
            action: req.at("action").str_or("list"),
            expr: opt_field(req.at("expr")),
        };
        return match expect(op, outs, at) {
            Progress::Do(o) => Progress::Do(o),
            Progress::Done(_, n) => shown_op(Op::Watches, "watches", outs, n),
        };
    }
    if same(cmd, "bt") {
        return shown_op(Op::Backtrace, "bt", outs, at);
    }
    if same(cmd, "list") {
        return shown_op(Op::Source { radius: req.at("radius").int_or(6) }, "source", outs, at);
    }
    let mut t = String::from_str("unknown command ");
    let q = show_debug(cmd);
    t.append(q.as_str());
    Progress::Done(refuse(t.as_str()), at)
}

/// A command that needs a session.
pub fn cmd_session(cmd: &str, req: &Json, outs: &Vec<Outcome>, at: usize) -> (r: Progress<Json>)
    requires
        at <= outs.len(),
    ensures
        match r {
            Progress::Do(o) => session_way(cmd@, req@, outcomes_in(outs@), at as int) == Way::<
                Doc,
            >::Do(o@),
            Progress::Done(j, n) => session_way(cmd@, req@, outcomes_in(outs@), at as int)
                == Way::Done(j@, n as int) && at <= n <= outs.len(),
        },
{
    // commands that resume execution and yield a fresh stop
    if same(cmd, "continue") {
        return run_stop(Op::Continue, outs, at);
    }
    if same(cmd, "continue_until") {
        return cmd_continue_until(req, outs, at);
    }
    if same(cmd, "step") {
        let kind = req.at("kind").str_or("over");
        return run_stop(Op::Step { kind: read_kind(kind.as_str()) }, outs, at);
    }
    if same(cmd, "until") {
        let op = Op::Until { file: req.at("file").str_or(""), line: req.at("line").int_or(0) };
        return run_stop(op, outs, at);
    }
    if same(cmd, "pause") {
        return run_stop(Op::Pause, outs, at);
    }
    if same(cmd, "restart") {
        return run_stop(Op::Restart, outs, at);
    }
    if same(cmd, "trace") {
        return cmd_trace(req, outs, at);
    }
    if same(cmd, "thread") {
        return cmd_thread(req, outs, at);
    }
    if same(cmd, "state") {
        return cmd_state(outs, at);
    }
    if same(cmd, "stop") {
        return match expect(Op::End, outs, at) {
            Progress::Do(o) => Progress::Do(o),
            Progress::Done(_, n) => Progress::Done(
                succeed().with("stopped_session", Json::boolean(true)),
                n,
            ),
        };
    }
    if same(cmd, "frame") {
        return cmd_frame(req, outs, at);
    }
    // stateful, non-resuming commands
    cmd_still(cmd, req, outs, at)
}

// ---------------------------------------------------------------------------
// Dispatch
// ---------------------------------------------------------------------------

pub open spec fn no_session() -> Seq<char> {
    "no debug session (run `rdbg launch` first)"@
}

/// The response to a request before it is stamped, and whether the daemon
/// ends with it.
pub open spec fn inner_way(
    req: Doc,
    has_session: bool,
    outs: Seq<OutcomeModel>,
    at: int,
) -> Way<(Doc, bool)> {
    let cmd = req.at("cmd"@).text_or(""@);
    let way = if cmd == "ping"@ {
        Way::Done(success(), at)
    } else if cmd == "shutdown"@ {
        Way::Done(success(), at)
    } else if cmd == "status"@ {
        match perform(OpModel::Status, outs, at) {
            Way::Do(o) => Way::Do(o),
            Way::Done(x, n) => Way::Done(status_doc(standing_in(x)), n),
        }
    } else if cmd == "launch"@ {
        launch_way(req, has_session, outs, at)
    } else if cmd == "panic_triage"@ {
        triage_way(req, has_session, outs, at)
    } else if cmd == "where"@ || cmd == "def"@ || cmd == "refs"@ || cmd == "hover"@ {
        nav_way(cmd, req, outs, at)
    } else if !has_session {
        Way::Done(refusal(no_session()), at)
    } else {
        session_way(cmd, req, outs, at)
    };
    match way {
        Way::Do(o) => Way::Do(o),
        Way::Done(d, n) => Way::Done((d, cmd == "shutdown"@), n),
    }
}

/// The response to a request, and whether the daemon ends with it.
pub open spec fn dispatch_way(
    req: Doc,
    has_session: bool,
    outs: Seq<OutcomeModel>,
    at: int,
) -> Way<(Doc, bool)> {
    match inner_way(req, has_session, outs, at) {
        Way::Do(o) => Way::Do(o),
        Way::Done((d, end), n) => Way::Done((stamped(d), end), n),
    }
}

fn dispatch_inner(req: &Json, has_session: bool, outs: &Vec<Outcome>, at: usize) -> (r: Progress<
    (Json, bool),
>)
    requires
        at <= outs.len(),
    ensures
        match r {
            Progress::Do(o) => inner_way(req@, has_session, outcomes_in(outs@), at as int)
                == Way::<(Doc, bool)>::Do(o@),
            Progress::Done((j, end), n) => inner_way(
                req@,
                has_session,
                outcomes_in(outs@),
                at as int,
            ) == Way::Done((j@, end), n as int) && at <= n <= outs.len(),
        },
{
    let cmd = req.at("cmd").str_or("");
    let cmd = cmd.as_str();
    if same(cmd, "ping") {
        proof {
            reveal_strlit("ping");
            reveal_strlit("shutdown");
            assert("ping"@.len() == 4 && "shutdown"@.len() == 8);
        }
        return Progress::Done((succeed(), false), at);
    }
    if same(cmd, "shutdown") {
        return Progress::Done((succeed(), true), at);
    }
    let way = if same(cmd, "status") {
        match expect(Op::Status, outs, at) {
            Progress::Do(o) => Progress::Do(o),
            Progress::Done(x, n) => {
                let standing = x.standing();
                Progress::Done(show_status(&standing), n)
            },
        }
    } else if same(cmd, "launch") {
        cmd_launch(req, has_session, outs, at)
    } else if same(cmd, "panic_triage") {
        cmd_panic_triage(req, has_session, outs, at)
    } else if same(cmd, "where") || same(cmd, "def") || same(cmd, "refs") || same(cmd, "hover") {
        // navigation works without a debug session
        cmd_nav(cmd, req, outs, at)
    } else if !has_session {
        Progress::Done(refuse("no debug session (run `rdbg launch` first)"), at)
    } else {
        cmd_session(cmd, req, outs, at)
    };
    match way {
        Progress::Do(o) => Progress::Do(o),
        Progress::Done(j, n) => Progress::Done((j, false), n),
    }
}

/// Dispatch one request and stamp the response with its `status`. Says whether
/// the daemon ends with it.
pub fn dispatch(req: &Json, has_session: bool, outs: &Vec<Outcome>) -> (r: Progress<(Json, bool)>)
    ensures
        match r {
            Progress::Do(o) => dispatch_way(req@, has_session, outcomes_in(outs@), 0) == Way::<
                (Doc, bool),
            >::Do(o@),
            Progress::Done((j, end), n) => dispatch_way(req@, has_session, outcomes_in(outs@), 0)
                == Way::Done((j@, end), n as int) && n <= outs.len(),
        },
{
    match dispatch_inner(req, has_session, outs, 0) {
        Progress::Do(o) => Progress::Do(o),
        Progress::Done((j, end), n) => Progress::Done((stamp(j), end), n),
    }
}

// ---------------------------------------------------------------------------
// Requests and responses as lines
// ---------------------------------------------------------------------------

/// The request on a line; one that is not JSON is null, and an empty line is
/// no request.
pub open spec fn request_on(line: Seq<char>) -> Option<Doc> {
    if trimmed(line).len() == 0 {
        None
    } else {
        match parsed(trimmed(line)) {
            Some(d) => Some(d),
            None => Some(Doc::Null),
        }
    }
}

/// The request on a line that a client sent; `None` where there is none to
/// answer.
pub fn read_request(line: &str) -> (r: Option<Json>)
    ensures
        opt_view(r) == request_on(line@),
        trimmed(line@).len() > 0 ==> reads_back(trimmed(line@), opt_view(r)),
{
    let t = trim(line);
    if t.as_str().is_empty() {
        return None;
    }
    match Json::parse(t.as_str()) {
        Some(j) => Some(j),
        None => Some(Json::Null),
    }
}

/// The line that answers a request.
pub fn write_response(resp: &Json) -> (r: String)
    ensures
        r@ == json_text(resp@) + "\n"@,
        is_line(r@),
{
    resp.render_line()
}

/// What clients find the daemon by: its socket and its process.
pub fn address(socket: &str, pid: u32) -> (r: String)
    ensures
        r@ == json_text(
            no_keys().with("socket"@, Doc::Str(socket@)).with("pid"@, Doc::Int(pid as int)),
        ),
{
    Json::obj().with("socket", Json::text(socket)).with("pid", Json::number(pid as i64)).render()
}

// ---------------------------------------------------------------------------
// What every response keeps
// ---------------------------------------------------------------------------

/// A key that says nothing of success.
pub open spec fn free(key: Seq<char>) -> bool {
    key != "ok"@ && key != "error"@ && key != "status"@
}

/// A response that is not stamped: a success, or a failure with its error.
pub open spec fn sound(d: Doc) -> bool {
    &&& d is Obj
    &&& !d.has("status"@)
    &&& d.at("ok"@) == Doc::Bool(true) || (d.at("ok"@) == Doc::Bool(false) && d.at("error"@) is Str)
}

proof fn lemma_with(d: Doc, key: Seq<char>, v: Doc)
    requires
        sound(d),
        free(key),
    ensures
        sound(d.with(key, v)),
{
}

proof fn lemma_sound()
    ensures
        sound(success()),
        forall|e: Seq<char>| sound(#[trigger] refusal(e)),
        sound(success().with("error"@, Doc::Null)),
        "ok"@ != "error"@,
        "ok"@ != "status"@,
        "error"@ != "status"@,
{
    reveal_strlit("ok");
    reveal_strlit("error");
    reveal_strlit("status");
    assert("ok"@.len() == 2 && "error"@.len() == 5 && "status"@.len() == 6);
}

proof fn lemma_free()
    ensures
        free("stop"@),
        free("trace"@),
        free("hits"@),
        free("output"@),
        free("panicked"@),
        free("exit_code"@),
        free("message"@),
        free("frame"@),
        free("frame_index"@),
        free("source"@),
        free("vars"@),
        free("bt"@),
        free("exited"@),
        free("symbols"@),
        free("locations"@),
        free("hover"@),
        free("id"@),
        free("verified"@),
        free("breakpoints"@),
        free("threads"@),
        free("value"@),
        free("watches"@),
        free("session"@),
        free("stopped"@),
        free("lsp_ready"@),
        free("cur_thread"@),
        free("adapter"@),
        free("stopped_session"@),
{
    reveal_strlit("ok");
    reveal_strlit("error");
    reveal_strlit("status");
    reveal_strlit("stop");
    reveal_strlit("trace");
    reveal_strlit("hits");
    reveal_strlit("output");
    reveal_strlit("panicked");
    reveal_strlit("exit_code");
    reveal_strlit("message");
    reveal_strlit("frame");
    reveal_strlit("frame_index");
    reveal_strlit("source");
    reveal_strlit("vars");
    reveal_strlit("bt");
    reveal_strlit("exited");
    reveal_strlit("symbols");
    reveal_strlit("locations");
    reveal_strlit("hover");
    reveal_strlit("id");
    reveal_strlit("verified");
    reveal_strlit("breakpoints");
    reveal_strlit("threads");
    reveal_strlit("value");
    reveal_strlit("watches");
    reveal_strlit("session");
    reveal_strlit("stopped");
    reveal_strlit("lsp_ready");
    reveal_strlit("cur_thread");
    reveal_strlit("adapter");
    reveal_strlit("stopped_session");
    assert("ok"@[0] == 'o' && "ok"@.len() == 2);
    assert("error"@[0] == 'e' && "error"@[1] == 'r' && "error"@.len() == 5);
    assert("status"@[0] == 's' && "status"@[2] == 'a' && "status"@.len() == 6);
    assert("output"@[0] == 'o' && "output"@.len() == 6);
    assert("exit_code"@[1] == 'x');
    assert("exited"@[1] == 'x');
    assert("stop"@.len() == 4);
    assert("trace"@[0] == 't');
    assert("source"@[2] == 'u');
    assert("symbols"@.len() == 7);
    assert("session"@.len() == 7);
    assert("stopped"@.len() == 7);
    assert("stopped_session"@.len() == 15);
    assert("frame"@[0] == 'f');
    assert("hover"@[0] == 'h');
    assert("value"@[0] == 'v');
    assert("bt"@[0] == 'b');
    assert("id"@[0] == 'i');
}

proof fn lemma_sound_status(x: StandingModel)
    ensures
        sound(status_doc(x)),
{
    lemma_sound();
    lemma_free();
    let d1 = success().with("session"@, Doc::Bool(x.session));
    lemma_with(success(), "session"@, Doc::Bool(x.session));
    let d2 = d1.with("stopped"@, Doc::Bool(x.stopped));
    lemma_with(d1, "stopped"@, Doc::Bool(x.stopped));
    let d3 = d2.with("lsp_ready"@, Doc::Bool(x.lsp_ready));
    lemma_with(d2, "lsp_ready"@, Doc::Bool(x.lsp_ready));
    let d4 = d3.with("cur_thread"@, opt_int_doc(x.cur_thread));
    lemma_with(d3, "cur_thread"@, opt_int_doc(x.cur_thread));
    let d5 = d4.with("threads"@, Doc::Int(x.threads));
    lemma_with(d4, "threads"@, Doc::Int(x.threads));
    let d6 = d5.with("breakpoints"@, Doc::Int(x.breakpoints));
    lemma_with(d5, "breakpoints"@, Doc::Int(x.breakpoints));
    lemma_with(d6, "adapter"@, opt_text_doc(x.adapter));
}

proof fn lemma_sound_panic(
    h: HuntModel,
    frame: Seq<char>,
    index: int,
    source: Seq<char>,
    vars: Seq<char>,
    bt: Seq<char>,
    out: Seq<char>,
)
    ensures
        sound(panic_doc(h, frame, index, source, vars, bt, out)),
{
    lemma_sound();
    lemma_free();
    let d0 = success();
    let d1 = d0.with("panicked"@, Doc::Bool(true));
    lemma_with(d0, "panicked"@, Doc::Bool(true));
    let d2 = d1.with("message"@, opt_text_doc(h.message));
    lemma_with(d1, "message"@, opt_text_doc(h.message));
    let d3 = d2.with("frame"@, Doc::Str(frame));
    lemma_with(d2, "frame"@, Doc::Str(frame));
    let d4 = d3.with("frame_index"@, Doc::Int(index));
    lemma_with(d3, "frame_index"@, Doc::Int(index));
    let d5 = d4.with("source"@, Doc::Str(source));
    lemma_with(d4, "source"@, Doc::Str(source));
    let d6 = d5.with("vars"@, Doc::Str(vars));
    lemma_with(d5, "vars"@, Doc::Str(vars));
    let d7 = d6.with("bt"@, Doc::Str(bt));
    lemma_with(d6, "bt"@, Doc::Str(bt));
    let d8 = d7.with("exited"@, Doc::Bool(h.exited));
    lemma_with(d7, "exited"@, Doc::Bool(h.exited));
    let d9 = d8.with("exit_code"@, opt_int_doc(h.exit_code));
    lemma_with(d8, "exit_code"@, opt_int_doc(h.exit_code));
    lemma_with(d9, "output"@, Doc::Str(tail_of(out, 1500)));
}

proof fn lemma_sound_no_panic(code: Option<int>, out: Seq<char>)
    ensures
        sound(no_panic_doc(code, out)),
{
    lemma_sound();
    lemma_free();
    let d1 = success().with("panicked"@, Doc::Bool(false));
    lemma_with(success(), "panicked"@, Doc::Bool(false));
    let d2 = d1.with("exit_code"@, opt_int_doc(code));
    lemma_with(d1, "exit_code"@, opt_int_doc(code));
    lemma_with(d2, "output"@, Doc::Str(tail_of(out, 2000)));
}

proof fn lemma_sound_one(key: Seq<char>, v: Doc)
    requires
        free(key),
    ensures
        sound(success().with(key, v)),
        forall|e: Seq<char>| sound((#[trigger] refusal(e)).with(key, v)),
{
    lemma_sound();
    lemma_with(success(), key, v);
    assert forall|e: Seq<char>| sound((#[trigger] refusal(e)).with(key, v)) by {
        lemma_with(refusal(e), key, v);
    }
}

proof fn lemma_sound_run(op: OpModel, outs: Seq<OutcomeModel>, at: int)
    ensures
        run_way(op, outs, at) matches Way::Done(d, _) ==> sound(d),
{
    lemma_sound();
    lemma_free();
    match perform(op, outs, at) {
        Way::Done(x, n) => match stopped_in(x) {
            Ok(stop) => match fresh_way(stop, outs, n) {
                Way::Done(d, k) => {
                    lemma_sound_one("stop"@, d);
                },
                _ => {},
            },
            Err(_) => {},
        },
        _ => {},
    }
}

proof fn lemma_sound_until(req: Doc, outs: Seq<OutcomeModel>, at: int)
    ensures
        until_way(req, outs, at) matches Way::Done(d, _) ==> sound(d),
{
    lemma_sound();
    lemma_free();
    match until_way(req, outs, at) {
        Way::Done(d, _) => {
            if d.at("ok"@) == Doc::Bool(true) {
                lemma_sound_one("stop"@, d.at("stop"@));
            }
            let cond = req.at("until"@).text_or(""@);
            match predicate_of(cond) {
                None => {},
                Some((path, op, rhs)) => match perform(OpModel::ActiveCount, outs, at) {
                    Way::Do(_) => {},
                    Way::Done(x, n) => if count_in(x) != 0 {
                        let max = clamped(req.at("max"@).int_or(10_000), 1, 1_000_000);
                        match perform(OpModel::ContUntil { path, op, rhs, max }, outs, n) {
                            Way::Do(_) => {},
                            Way::Done(y, k) => match ended_in(y) {
                                Err(_) => {},
                                Ok(u) => match fresh_way(u.stop, outs, k) {
                                    Way::Do(_) => {},
                                    Way::Done(s, _) => {
                                        lemma_sound_one(
                                            "stop"@,
                                            s.with(
                                                "until"@,
                                                until_doc(u, predicate_text(path, op, rhs)),
                                            ),
                                        );
                                    },
                                },
                            },
                        }
                    },
                },
            }
        },
        _ => {},
    }
}

proof fn lemma_sound_launch(req: Doc, has_session: bool, outs: Seq<OutcomeModel>, at: int)
    ensures
        launch_way(req, has_session, outs, at) matches Way::Done(d, _) ==> sound(d),
{
    lemma_sound();
    lemma_free();
    assert forall|v: Doc| sound(#[trigger] success().with("stop"@, v)) by {
        lemma_sound_one("stop"@, v);
    }
}

proof fn lemma_sound_triage(req: Doc, has_session: bool, outs: Seq<OutcomeModel>, at: int)
    ensures
        triage_way(req, has_session, outs, at) matches Way::Done(d, _) ==> sound(d),
{
    lemma_sound();
    assert forall|code: Option<int>, out: Seq<char>| sound(#[trigger] no_panic_doc(code, out)) by {
        lemma_sound_no_panic(code, out);
    }
    assert forall|
        h: HuntModel,
        frame: Seq<char>,
        index: int,
        source: Seq<char>,
        vars: Seq<char>,
        bt: Seq<char>,
        out: Seq<char>,
    | sound(#[trigger] panic_doc(h, frame, index, source, vars, bt, out)) by {
        lemma_sound_panic(h, frame, index, source, vars, bt, out);
    }
}

proof fn lemma_sound_nav(cmd: Seq<char>, req: Doc, outs: Seq<OutcomeModel>, at: int)
    ensures
        nav_way(cmd, req, outs, at) matches Way::Done(d, _) ==> sound(d),
{
    lemma_sound();
    lemma_free();
    assert forall|v: Doc| sound(#[trigger] success().with("symbols"@, v)) by {
        lemma_sound_one("symbols"@, v);
    }
    assert forall|v: Doc| sound(#[trigger] success().with("locations"@, v)) by {
        lemma_sound_one("locations"@, v);
    }
    assert forall|v: Doc| sound(#[trigger] success().with("hover"@, v)) by {
        lemma_sound_one("hover"@, v);
    }
}

proof fn lemma_sound_trace(req: Doc, outs: Seq<OutcomeModel>, at: int)
    ensures
        trace_way(req, outs, at) matches Way::Done(d, _) ==> sound(d),
{
    lemma_sound();
    lemma_free();
    assert forall|hits: Seq<HitModel>, out: Seq<char>| sound(#[trigger] trace_doc(hits, out)) by {
        let v1 = Doc::Str(trace_text(hits));
        let v2 = Doc::Int(hits.len() as int);
        let d1 = success().with("trace"@, v1);
        lemma_with(success(), "trace"@, v1);
        let d2 = d1.with("hits"@, v2);
        lemma_with(d1, "hits"@, v2);
        lemma_with(
            d2,
            "output"@,
            if out.len() == 0 {
                Doc::Null
            } else {
                Doc::Str(tail_of(out, 1000))
            },
        );
    }
}

proof fn lemma_sound_stops(req: Doc, outs: Seq<OutcomeModel>, at: int)
    ensures
        thread_way(req, outs, at) matches Way::Done(d, _) ==> sound(d),
        state_way(outs, at) matches Way::Done(d, _) ==> sound(d),
        frame_way(req, outs, at) matches Way::Done(d, _) ==> sound(d),
{
    lemma_sound();
    lemma_free();
    assert forall|v: Doc| sound(#[trigger] success().with("stop"@, v)) by {
        lemma_sound_one("stop"@, v);
    }
    lemma_sound_one("stop"@, Doc::Null);
    assert forall|s: Doc, v: Doc, w: Doc|
        sound(#[trigger] success().with("stop"@, s).with("vars"@, v).with("watches"@, w)) by {
        lemma_sound_one("stop"@, s);
        lemma_with(success().with("stop"@, s), "vars"@, v);
        lemma_with(success().with("stop"@, s).with("vars"@, v), "watches"@, w);
    }
    assert forall|s: Doc, v: Doc|
        sound(#[trigger] success().with("source"@, s).with("vars"@, v)) by {
        lemma_sound_one("source"@, s);
        lemma_with(success().with("source"@, s), "vars"@, v);
    }
    lemma_sound_one("source"@, Doc::Str(""@));
    lemma_with(
        refusal("no such frame"@).with("source"@, Doc::Str(""@)),
        "vars"@,
        Doc::Str(""@),
    );
}

proof fn lemma_sound_shown(op: OpModel, key: Seq<char>, outs: Seq<OutcomeModel>, at: int)
    requires
        free(key),
    ensures
        shown_way(op, key, outs, at) matches Way::Done(d, _) ==> sound(d),
{
    match text_way(op, outs, at) {
        Way::Done(t, n) => {
            lemma_sound_one(key, Doc::Str(t));
        },
        _ => {},
    }
}

proof fn lemma_sound_still(cmd: Seq<char>, req: Doc, outs: Seq<OutcomeModel>, at: int)
    ensures
        still_way(cmd, req, outs, at) matches Way::Done(d, _) ==> sound(d),
{
    lemma_sound();
    lemma_free();
    assert forall|v: Doc| sound(#[trigger] success().with("id"@, v)) by {
        lemma_sound_one("id"@, v);
    }
    assert forall|v: Doc, w: Doc|
        sound(#[trigger] success().with("id"@, v).with("verified"@, w)) by {
        lemma_sound_one("id"@, v);
        lemma_with(success().with("id"@, v), "verified"@, w);
    }
    assert forall|op: OpModel, i: int|
        (#[trigger] shown_way(op, "breakpoints"@, outs, i)) matches Way::Done(d, _) ==> sound(
            d,
        ) by {
        lemma_sound_shown(op, "breakpoints"@, outs, i);
    }
    assert forall|op: OpModel, i: int|
        (#[trigger] shown_way(op, "threads"@, outs, i)) matches Way::Done(d, _) ==> sound(d) by {
        lemma_sound_shown(op, "threads"@, outs, i);
    }
    assert forall|op: OpModel, i: int|
        (#[trigger] shown_way(op, "vars"@, outs, i)) matches Way::Done(d, _) ==> sound(d) by {
        lemma_sound_shown(op, "vars"@, outs, i);
    }
    assert forall|op: OpModel, i: int|
        (#[trigger] shown_way(op, "value"@, outs, i)) matches Way::Done(d, _) ==> sound(d) by {
        lemma_sound_shown(op, "value"@, outs, i);
    }
    assert forall|op: OpModel, i: int|
        (#[trigger] shown_way(op, "watches"@, outs, i)) matches Way::Done(d, _) ==> sound(d) by {
        lemma_sound_shown(op, "watches"@, outs, i);
    }
    assert forall|op: OpModel, i: int|
        (#[trigger] shown_way(op, "bt"@, outs, i)) matches Way::Done(d, _) ==> sound(d) by {
        lemma_sound_shown(op, "bt"@, outs, i);
    }
    assert forall|op: OpModel, i: int|
        (#[trigger] shown_way(op, "source"@, outs, i)) matches Way::Done(d, _) ==> sound(d) by {
        lemma_sound_shown(op, "source"@, outs, i);
    }
}

proof fn lemma_sound_session(cmd: Seq<char>, req: Doc, outs: Seq<OutcomeModel>, at: int)
    ensures
        session_way(cmd, req, outs, at) matches Way::Done(d, _) ==> sound(d),
{
    lemma_sound();
    lemma_free();
    assert forall|op: OpModel| (#[trigger] run_way(op, outs, at)) matches Way::Done(d, _) ==> sound(
        d,
    ) by {
        lemma_sound_run(op, outs, at);
    }
    lemma_sound_until(req, outs, at);
    lemma_sound_trace(req, outs, at);
    lemma_sound_stops(req, outs, at);
    lemma_sound_still(cmd, req, outs, at);
    lemma_sound_one("stopped_session"@, Doc::Bool(true));
}

proof fn lemma_sound_inner(req: Doc, has_session: bool, outs: Seq<OutcomeModel>, at: int)
    ensures
        inner_way(req, has_session, outs, at) matches Way::Done((d, _), _) ==> sound(d),
{
    let cmd = req.at("cmd"@).text_or(""@);
    lemma_sound();
    assert forall|x: StandingModel| sound(#[trigger] status_doc(x)) by {
        lemma_sound_status(x);
    }
    lemma_sound_launch(req, has_session, outs, at);
    lemma_sound_triage(req, has_session, outs, at);
    lemma_sound_nav(cmd, req, outs, at);
    lemma_sound_session(cmd, req, outs, at);
}

/// Every response says whether the request succeeded, and carries the outcome
/// that stands for it: `ok` exactly where it did. Where it did not, the
/// response carries its error, and the outcome is the one that the error is
/// classified as.
pub proof fn responses_carry_their_status(
    req: Doc,
    has_session: bool,
    outs: Seq<OutcomeModel>,
    resp: Doc,
    end: bool,
    n: int,
)
    requires
        dispatch_way(req, has_session, outs, 0) == Way::Done((resp, end), n),
    ensures
        resp.at("ok"@) == Doc::Bool(true) || resp.at("ok"@) == Doc::Bool(false),
        resp.at("ok"@) == Doc::Bool(true) <==> resp.at("status"@) == Doc::Str("ok"@),
        resp.at("ok"@) == Doc::Bool(false) ==> (resp.at("error"@) matches Doc::Str(e) && resp.at(
            "status"@,
        ) == Doc::Str(error_status(e))),
{
    lemma_sound_inner(req, has_session, outs, 0);
    lemma_sound();
    match inner_way(req, has_session, outs, 0) {
        Way::Done((d, _), _) => {
            errors_are_never_ok(d.at("error"@).text_or(""@));
        },
        _ => {},
    }
}

/// The outcome of every response is one of the outcomes there are, and never
/// the reserved one.
pub proof fn every_status_is_of_the_taxonomy(
    req: Doc,
    has_session: bool,
    outs: Seq<OutcomeModel>,
    resp: Doc,
    end: bool,
    n: int,
)
    requires
        dispatch_way(req, has_session, outs, 0) == Way::Done((resp, end), n),
    ensures
        resp.at("status"@) matches Doc::Str(s) && in_taxonomy(s) && s != "no_new_information"@,
{
    responses_carry_their_status(req, has_session, outs, resp, end, n);
    if let Doc::Str(e) = resp.at("error"@) {
        errors_are_never_ok(e);
        errors_are_classified(e);
    }
    reveal_strlit("ok");
    reveal_strlit("no_new_information");
    assert("ok"@.len() == 2);
    assert("no_new_information"@.len() == 18);
}

/// A command on the session, where there is none, is answered with `no_session`
/// and does nothing.
pub proof fn without_a_session_nothing_is_done(req: Doc, outs: Seq<OutcomeModel>)
    requires
        !(seq![
            "ping"@,
            "shutdown"@,
            "status"@,
            "launch"@,
            "panic_triage"@,
            "where"@,
            "def"@,
            "refs"@,
            "hover"@,
        ].contains(req.at("cmd"@).text_or(""@))),
    ensures
        dispatch_way(req, false, outs, 0) == Way::Done(
            (
                refusal("no debug session (run `rdbg launch` first)"@).with(
                    "status"@,
                    Doc::Str("no_session"@),
                ),
                false,
            ),
            0,
        ),
{
    let cmd = req.at("cmd"@).text_or(""@);
    let known = seq![
        "ping"@,
        "shutdown"@,
        "status"@,
        "launch"@,
        "panic_triage"@,
        "where"@,
        "def"@,
        "refs"@,
        "hover"@,
    ];
    assert(known[0] == "ping"@ && known[1] == "shutdown"@ && known[2] == "status"@ && known[3]
        == "launch"@ && known[4] == "panic_triage"@ && known[5] == "where"@ && known[6] == "def"@
        && known[7] == "refs"@ && known[8] == "hover"@);
    lemma_sound();
    reveal_strlit("no debug session (run `rdbg launch` first)");
    reveal_strlit("no debug session");
    let e = no_session();
    assert(e.subrange(0, "no debug session"@.len() as int) =~= "no debug session"@);
    assert(crate::text::occurs_at(e, "no debug session"@, 0));
}

/// Only a request to shut down ends the daemon.
pub proof fn only_shutdown_ends_the_daemon(
    req: Doc,
    has_session: bool,
    outs: Seq<OutcomeModel>,
    resp: Doc,
    end: bool,
    n: int,
)
    requires
        dispatch_way(req, has_session, outs, 0) == Way::Done((resp, end), n),
    ensures
        end <==> req.at("cmd"@).text_or(""@) == "shutdown"@,
{
}

/// The search for a panic's message never lets the program run on from the
/// last panic symbol, past which it dies: before it does, it has looked at the
/// stop and found another, and the message has not shown up.
pub proof fn triage_never_runs_past_the_panic(
    left: nat,
    message: Option<Seq<char>>,
    outs: Seq<OutcomeModel>,
    at: int,
)
    requires
        0 <= at <= outs.len(),
        hunt_way(left, message, outs, at) == Way::<HuntModel>::Do(OpModel::Continue),
    ensures
        at + 2 <= outs.len(),
        !at_last(last_in(outs[outs.len() - 2])),
        !flag_in(outs[outs.len() - 1]),
    decreases left,
{
    let x = outs[at];
    let y = outs[at + 1];
    if at + 2 < outs.len() {
        let z = outs[at + 2];
        match stopped_in(z) {
            Ok(stop) => {
                if !stop.exited {
                    match message_way(outs, at + 3) {
                        Way::Done(m, i) => {
                            triage_never_runs_past_the_panic((left - 1) as nat, m, outs, i);
                        },
                        _ => {},
                    }
                }
            },
            Err(_) => {},
        }
    }
}

} // verus!
