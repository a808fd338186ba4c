//! What the daemon does for each request: which operations it calls for, and
//! what the response holds of what came of them.

use vstd::prelude::*;
use crate::daemon::{
    current_way, dispatch_way, fns_way, frame_way, hit_row, hunt_way, launch_way, lines_way,
    nav_way, panicked_way, run_way, standing_of, state_way, status_doc, strings_of, thread_way,
    trace_text, trace_way, triage_way, until_way, user_index, value_texts, watched_way, HuntModel,
};
use crate::json::Doc;
use crate::loops::HitModel;
use crate::num::{int_text, padded_right};
use crate::ops::{EndModel, OpModel, OutcomeModel, StepKind, UntilModel, Way};
use crate::predicate::{predicate_of, predicate_text};
use crate::session::SessionModel;
use crate::stack::{user_frame, StopModel};
use crate::text::{join, lemma_join_push};
use crate::util::panic_message;

verus! {

// ---------------------------------------------------------------------------
// The commands
// ---------------------------------------------------------------------------

/// What tells the commands apart.
pub proof fn lemma_commands()
    ensures
        "ping"@.len() == 4,
        "ping"@[2] == 'n',
        "shutdown"@.len() == 8,
        "shutdown"@[6] == 'w',
        "status"@.len() == 6,
        "status"@[0] == 's',
        "launch"@.len() == 6,
        "launch"@[0] == 'l',
        "panic_triage"@.len() == 12,
        "where"@.len() == 5,
        "where"@[0] == 'w',
        "where"@[3] == 'r',
        "def"@.len() == 3,
        "def"@[0] == 'd',
        "refs"@.len() == 4,
        "refs"@[2] == 'f',
        "hover"@.len() == 5,
        "hover"@[0] == 'h',
        "hover"@[3] == 'e',
        "continue"@.len() == 8,
        "continue"@[6] == 'u',
        "continue_until"@.len() == 14,
        "step"@.len() == 4,
        "step"@[2] == 'e',
        "until"@.len() == 5,
        "until"@[0] == 'u',
        "until"@[3] == 'i',
        "pause"@.len() == 5,
        "pause"@[0] == 'p',
        "pause"@[3] == 's',
        "restart"@.len() == 7,
        "restart"@[0] == 'r',
        "trace"@.len() == 5,
        "trace"@[0] == 't',
        "trace"@[3] == 'c',
        "thread"@.len() == 6,
        "thread"@[0] == 't',
        "state"@.len() == 5,
        "state"@[0] == 's',
        "state"@[3] == 't',
        "stop"@.len() == 4,
        "stop"@[2] == 'o',
        "frame"@.len() == 5,
        "frame"@[0] == 'f',
        "frame"@[3] == 'm',
        "bp_add"@.len() == 6,
        "bp_add"@[0] == 'b',
        "bp_fn"@.len() == 5,
        "bp_fn"@[0] == 'b',
        "bp_fn"@[3] == 'f',
        "bp_panic"@.len() == 8,
        "bp_panic"@[6] == 'i',
        "bp_watch"@.len() == 8,
        "bp_watch"@[6] == 'c',
        "bp_list"@.len() == 7,
        "bp_list"@[0] == 'b',
        "bp_rm"@.len() == 5,
        "bp_rm"@[0] == 'b',
        "bp_rm"@[3] == 'r',
        "bp_enable"@.len() == 9,
        "threads"@.len() == 7,
        "threads"@[0] == 't',
        "vars"@.len() == 4,
        "vars"@[2] == 'r',
        "eval"@.len() == 4,
        "eval"@[2] == 'a',
        "set"@.len() == 3,
        "set"@[0] == 's',
        "watch_expr"@.len() == 10,
        "bt"@.len() == 2,
        "list"@.len() == 4,
        "list"@[2] == 's',
{
    reveal_strlit("ping");
    reveal_strlit("shutdown");
    reveal_strlit("status");
    reveal_strlit("launch");
    reveal_strlit("panic_triage");
    reveal_strlit("where");
    reveal_strlit("def");
    reveal_strlit("refs");
    reveal_strlit("hover");
    reveal_strlit("continue");
    reveal_strlit("continue_until");
    reveal_strlit("step");
    reveal_strlit("until");
    reveal_strlit("pause");
    reveal_strlit("restart");
    reveal_strlit("trace");
    reveal_strlit("thread");
    reveal_strlit("state");
    reveal_strlit("stop");
    reveal_strlit("frame");
    reveal_strlit("bp_add");
    reveal_strlit("bp_fn");
    reveal_strlit("bp_panic");
    reveal_strlit("bp_watch");
    reveal_strlit("bp_list");
    reveal_strlit("bp_rm");
    reveal_strlit("bp_enable");
    reveal_strlit("threads");
    reveal_strlit("vars");
    reveal_strlit("eval");
    reveal_strlit("set");
    reveal_strlit("watch_expr");
    reveal_strlit("bt");
    reveal_strlit("list");
}

/// The requests that run the program call for that run: on, to a line, to a
/// pause or from the start; that for another thread for that thread, that for
/// the state for the stop, and that to stop for the end.
pub proof fn running_requests_call_for_their_run(req: Doc)
    ensures
        req.at("cmd"@) == Doc::Str("continue"@) ==> dispatch_way(req, true, Seq::empty(), 0) == Way::<
            (Doc, bool),
        >::Do(
            OpModel::Continue,
        ),
        req.at("cmd"@) == Doc::Str("until"@) ==> dispatch_way(req, true, Seq::empty(), 0) == Way::<
            (Doc, bool),
        >::Do(
            OpModel::Until { file: req.at("file"@).text_or(""@), line: req.at("line"@).int_or(0) },
        ),
        req.at("cmd"@) == Doc::Str("pause"@) ==> dispatch_way(req, true, Seq::empty(), 0) == Way::<
            (Doc, bool),
        >::Do(
            OpModel::Pause,
        ),
        req.at("cmd"@) == Doc::Str("restart"@) ==> dispatch_way(req, true, Seq::empty(), 0) == Way::<
            (Doc, bool),
        >::Do(
            OpModel::Restart,
        ),
        req.at("cmd"@) == Doc::Str("stop"@) ==> dispatch_way(req, true, Seq::empty(), 0) == Way::<
            (Doc, bool),
        >::Do(
            OpModel::End,
        ),
        req.at("cmd"@) == Doc::Str("state"@) ==> dispatch_way(req, true, Seq::empty(), 0) == Way::<
            (Doc, bool),
        >::Do(
            OpModel::LastStop,
        ),
        req.at("cmd"@) == Doc::Str("thread"@) ==> dispatch_way(req, true, Seq::empty(), 0) == Way::<
            (Doc, bool),
        >::Do(
            OpModel::SelectThread { id: req.at("id"@).int_or(0) },
        ),
{
    if req.at("cmd"@) == Doc::Str("continue"@) {
        lemma_commands();
        assert(dispatch_way(req, true, Seq::empty(), 0) is Do);
    }
    if req.at("cmd"@) == Doc::Str("until"@) {
        lemma_commands();
        assert(dispatch_way(req, true, Seq::empty(), 0) is Do);
    }
    if req.at("cmd"@) == Doc::Str("pause"@) {
        lemma_commands();
        assert(dispatch_way(req, true, Seq::empty(), 0) is Do);
    }
    if req.at("cmd"@) == Doc::Str("restart"@) {
        lemma_commands();
        assert(dispatch_way(req, true, Seq::empty(), 0) is Do);
    }
    if req.at("cmd"@) == Doc::Str("stop"@) {
        lemma_commands();
        assert(dispatch_way(req, true, Seq::empty(), 0) is Do);
    }
    if req.at("cmd"@) == Doc::Str("state"@) {
        lemma_commands();
        assert(dispatch_way(req, true, Seq::empty(), 0) is Do);
    }
    if req.at("cmd"@) == Doc::Str("thread"@) {
        lemma_commands();
        assert(dispatch_way(req, true, Seq::empty(), 0) is Do);
    }
}

/// The requests on breakpoints call for what they name: a breakpoint on the
/// line with what narrows it down, on the function, on panics or on the
/// variable; the list; and the one to remove or to switch, by its id.
pub proof fn breakpoint_requests_call_for_their_breakpoint(req: Doc)
    ensures
        req.at("cmd"@) == Doc::Str("bp_add"@) ==> dispatch_way(req, true, Seq::empty(), 0) == Way::<
            (Doc, bool),
        >::Do(
            OpModel::AddLine {
                file: req.at("file"@).text_or(""@),
                line: req.at("line"@).int_or(0),
                condition: req.at("condition"@).text(),
                hit: req.at("hit"@).int64(),
                log: req.at("log"@).text(),
            },
        ),
        req.at("cmd"@) == Doc::Str("bp_fn"@) ==> dispatch_way(req, true, Seq::empty(), 0) == Way::<
            (Doc, bool),
        >::Do(
            OpModel::AddFn { name: req.at("name"@).text_or(""@) },
        ),
        req.at("cmd"@) == Doc::Str("bp_panic"@) ==> dispatch_way(req, true, Seq::empty(), 0) == Way::<
            (Doc, bool),
        >::Do(
            OpModel::AddPanic,
        ),
        req.at("cmd"@) == Doc::Str("bp_watch"@) ==> dispatch_way(req, true, Seq::empty(), 0) == Way::<
            (Doc, bool),
        >::Do(
            OpModel::Watch { var: req.at("var"@).text_or(""@) },
        ),
        req.at("cmd"@) == Doc::Str("bp_list"@) ==> dispatch_way(req, true, Seq::empty(), 0) == Way::<
            (Doc, bool),
        >::Do(
            OpModel::Breakpoints,
        ),
        req.at("cmd"@) == Doc::Str("bp_rm"@) ==> dispatch_way(req, true, Seq::empty(), 0) == Way::<
            (Doc, bool),
        >::Do(
            OpModel::Remove { id: req.at("id"@).text_or(""@) },
        ),
        req.at("cmd"@) == Doc::Str("bp_enable"@) ==> dispatch_way(req, true, Seq::empty(), 0) == Way::<
            (Doc, bool),
        >::Do(
            OpModel::Enable { id: req.at("id"@).text_or(""@), on: req.at("enabled"@).bool_or(true) },
        ),
{
    if req.at("cmd"@) == Doc::Str("bp_add"@) {
        lemma_commands();
        assert(dispatch_way(req, true, Seq::empty(), 0) is Do);
    }
    if req.at("cmd"@) == Doc::Str("bp_fn"@) {
        lemma_commands();
        assert(dispatch_way(req, true, Seq::empty(), 0) is Do);
    }
    if req.at("cmd"@) == Doc::Str("bp_panic"@) {
        lemma_commands();
        assert(dispatch_way(req, true, Seq::empty(), 0) is Do);
    }
    if req.at("cmd"@) == Doc::Str("bp_watch"@) {
        lemma_commands();
        assert(dispatch_way(req, true, Seq::empty(), 0) is Do);
    }
    if req.at("cmd"@) == Doc::Str("bp_list"@) {
        lemma_commands();
        assert(dispatch_way(req, true, Seq::empty(), 0) is Do);
    }
    if req.at("cmd"@) == Doc::Str("bp_rm"@) {
        lemma_commands();
        assert(dispatch_way(req, true, Seq::empty(), 0) is Do);
    }
    if req.at("cmd"@) == Doc::Str("bp_enable"@) {
        lemma_commands();
        assert(dispatch_way(req, true, Seq::empty(), 0) is Do);
    }
}

/// The requests that ask something call for that: the threads, the value of
/// the expression, the change to the variable, the watch, the backtrace or the
/// source, six lines around where nothing else is said.
pub proof fn questions_call_for_their_answer(req: Doc)
    ensures
        req.at("cmd"@) == Doc::Str("threads"@) ==> dispatch_way(req, true, Seq::empty(), 0) == Way::<
            (Doc, bool),
        >::Do(
            OpModel::Threads,
        ),
        req.at("cmd"@) == Doc::Str("eval"@) ==> dispatch_way(req, true, Seq::empty(), 0) == Way::<
            (Doc, bool),
        >::Do(
            OpModel::Evaluate { expr: req.at("expr"@).text_or(""@) },
        ),
        req.at("cmd"@) == Doc::Str("set"@) ==> dispatch_way(req, true, Seq::empty(), 0) == Way::<
            (Doc, bool),
        >::Do(
            OpModel::Assign { path: req.at("path"@).text_or(""@), value: req.at("value"@).text_or(""@) },
        ),
        req.at("cmd"@) == Doc::Str("watch_expr"@) ==> dispatch_way(req, true, Seq::empty(), 0) == Way::<
            (Doc, bool),
        >::Do(
            OpModel::WatchExpr {
                action: req.at("action"@).text_or("list"@),
                expr: req.at("expr"@).text(),
            },
        ),
        req.at("cmd"@) == Doc::Str("bt"@) ==> dispatch_way(req, true, Seq::empty(), 0) == Way::<
            (Doc, bool),
        >::Do(
            OpModel::Backtrace,
        ),
        req.at("cmd"@) == Doc::Str("list"@) ==> dispatch_way(req, true, Seq::empty(), 0) == Way::<
            (Doc, bool),
        >::Do(
            OpModel::Source { radius: req.at("radius"@).int_or(6) },
        ),
{
    if req.at("cmd"@) == Doc::Str("threads"@) {
        lemma_commands();
        assert(dispatch_way(req, true, Seq::empty(), 0) is Do);
    }
    if req.at("cmd"@) == Doc::Str("eval"@) {
        lemma_commands();
        assert(dispatch_way(req, true, Seq::empty(), 0) is Do);
    }
    if req.at("cmd"@) == Doc::Str("set"@) {
        lemma_commands();
        assert(dispatch_way(req, true, Seq::empty(), 0) is Do);
    }
    if req.at("cmd"@) == Doc::Str("watch_expr"@) {
        lemma_commands();
        assert(dispatch_way(req, true, Seq::empty(), 0) is Do);
    }
    if req.at("cmd"@) == Doc::Str("bt"@) {
        lemma_commands();
        assert(dispatch_way(req, true, Seq::empty(), 0) is Do);
    }
    if req.at("cmd"@) == Doc::Str("list"@) {
        lemma_commands();
        assert(dispatch_way(req, true, Seq::empty(), 0) is Do);
    }
}

/// How far a step goes is told by its kind: in, out, by one instruction, and
/// else over; a step over is also what is taken where no kind is given.
pub proof fn a_step_goes_as_far_as_its_kind_says(req: Doc)
    requires
        req.at("cmd"@) == Doc::Str("step"@),
    ensures
        req.at("kind"@) == Doc::Str("in"@) ==> dispatch_way(req, true, Seq::empty(), 0) == Way::<
            (Doc, bool),
        >::Do(OpModel::Step { kind: StepKind::In }),
        req.at("kind"@) == Doc::Str("out"@) ==> dispatch_way(req, true, Seq::empty(), 0) == Way::<
            (Doc, bool),
        >::Do(OpModel::Step { kind: StepKind::Out }),
        req.at("kind"@) == Doc::Str("insn"@) ==> dispatch_way(req, true, Seq::empty(), 0) == Way::<
            (Doc, bool),
        >::Do(OpModel::Step { kind: StepKind::Insn }),
        req.at("kind"@) == Doc::Str("over"@) || !(req.at("kind"@) is Str) ==> dispatch_way(
            req,
            true,
            Seq::empty(),
            0,
        ) == Way::<(Doc, bool)>::Do(OpModel::Step { kind: StepKind::Over }),
{
    lemma_commands();
    reveal_strlit("in");
    reveal_strlit("out");
    reveal_strlit("insn");
    reveal_strlit("over");
    assert("in"@.len() == 2 && "out"@.len() == 3 && "insn"@.len() == 4 && "over"@.len() == 4);
    assert("insn"@[0] == 'i' && "over"@[0] == 'o');
    assert(dispatch_way(req, true, Seq::empty(), 0) is Do);
}

/// A frame is selected by its number, or as the one up or down from the
/// current one.
pub proof fn a_frame_is_selected_as_the_request_says(req: Doc, n: int)
    requires
        req.at("cmd"@) == Doc::Str("frame"@),
    ensures
        req.at("dir"@) == Doc::Str("up"@) ==> dispatch_way(req, true, Seq::empty(), 0) == Way::<
            (Doc, bool),
        >::Do(OpModel::ShiftFrame { up: true }),
        req.at("dir"@) == Doc::Str("down"@) ==> dispatch_way(req, true, Seq::empty(), 0) == Way::<
            (Doc, bool),
        >::Do(OpModel::ShiftFrame { up: false }),
        !(req.at("dir"@) is Str) && req.at("index"@) == Doc::Int(n) && 0 <= n <= i64::MAX && n
            <= usize::MAX ==> dispatch_way(req, true, Seq::empty(), 0) == Way::<(Doc, bool)>::Do(
            OpModel::SelectFrame { index: n },
        ),
{
    lemma_commands();
    reveal_strlit("up");
    reveal_strlit("down");
    assert("up"@.len() == 2 && "down"@.len() == 4);
    assert(dispatch_way(req, true, Seq::empty(), 0) is Do);
}

/// The local variables are asked for three levels deep and twelve on each,
/// unless a depth is given; in full, ten deep and sixty-four on each.
pub proof fn variables_are_asked_for_as_deep_as_said(req: Doc, depth: int)
    requires
        req.at("cmd"@) == Doc::Str("vars"@),
        0 <= depth <= i32::MAX,
    ensures
        req.at("full"@) != Doc::Bool(true) && !req.has("depth"@) ==> dispatch_way(
            req,
            true,
            Seq::empty(),
            0,
        ) == Way::<(Doc, bool)>::Do(OpModel::Locals { depth: 3, cap: 12 }),
        req.at("full"@) == Doc::Bool(true) && !req.has("depth"@) ==> dispatch_way(
            req,
            true,
            Seq::empty(),
            0,
        ) == Way::<(Doc, bool)>::Do(OpModel::Locals { depth: 10, cap: 64 }),
        req.at("depth"@) == Doc::Int(depth) ==> (dispatch_way(req, true, Seq::empty(), 0)
            matches Way::Do(OpModel::Locals { depth: d, cap }) && d == depth && (cap == 64 <==> req.at(
            "full"@,
        ) == Doc::Bool(true)) && (cap == 64 || cap == 12)),
{
    lemma_commands();
    assert(dispatch_way(req, true, Seq::empty(), 0) is Do);
}

// ---------------------------------------------------------------------------
// Stops
// ---------------------------------------------------------------------------

proof fn lemma_stop_keys()
    ensures
        "exited"@ != "reason"@,
        "exited"@ != "frame"@,
        "exited"@ != "thread"@,
        "exited"@ != "source"@,
        "exited"@ != "watches"@,
        "exited"@ != "delta"@,
        "reason"@ != "frame"@,
        "reason"@ != "thread"@,
        "reason"@ != "source"@,
        "reason"@ != "watches"@,
        "reason"@ != "delta"@,
        "frame"@ != "thread"@,
        "frame"@ != "source"@,
        "frame"@ != "watches"@,
        "frame"@ != "delta"@,
        "thread"@ != "source"@,
        "thread"@ != "watches"@,
        "thread"@ != "delta"@,
        "source"@ != "watches"@,
        "source"@ != "delta"@,
        "watches"@ != "delta"@,
        "ok"@ != "stop"@,
        "ok"@ != "error"@,
        "stop"@ != "error"@,
        "source"@ != "error"@,
        "vars"@ != "error"@,
        "source"@ != "vars"@,
        "ok"@ != "source"@,
        "ok"@ != "vars"@,
        "exited"@ != "exit_code"@,
        "exited"@ != "output"@,
        "exited"@ != "breakpoints"@,
        "exit_code"@ != "output"@,
        "exit_code"@ != "breakpoints"@,
        "output"@ != "breakpoints"@,
        "until"@ != "exited"@,
        "until"@ != "reason"@,
        "until"@ != "frame"@,
        "until"@ != "thread"@,
        "until"@ != "source"@,
        "until"@ != "watches"@,
        "until"@ != "delta"@,
{
    reveal_strlit("error");
    assert("error"@.len() == 5);
    reveal_strlit("vars");
    assert("vars"@.len() == 4);
    reveal_strlit("exited");
    assert("exited"@.len() == 6);
    reveal_strlit("reason");
    assert("reason"@.len() == 6);
    reveal_strlit("frame");
    assert("frame"@.len() == 5);
    reveal_strlit("thread");
    assert("thread"@.len() == 6);
    reveal_strlit("source");
    assert("source"@.len() == 6);
    reveal_strlit("watches");
    assert("watches"@.len() == 7);
    reveal_strlit("delta");
    assert("delta"@.len() == 5);
    reveal_strlit("ok");
    assert("ok"@.len() == 2);
    reveal_strlit("stop");
    assert("stop"@.len() == 4);
    reveal_strlit("exit_code");
    assert("exit_code"@.len() == 9);
    reveal_strlit("output");
    assert("output"@.len() == 6);
    reveal_strlit("breakpoints");
    assert("breakpoints"@.len() == 11);
    reveal_strlit("until");
    assert("until"@.len() == 5);
    assert("exited"@[0] == 'e' && "reason"@[0] == 'r');
    assert("exited"@[0] == 'e' && "thread"@[0] == 't');
    assert("exited"@[0] == 'e' && "source"@[0] == 's');
    assert("reason"@[0] == 'r' && "thread"@[0] == 't');
    assert("reason"@[0] == 'r' && "source"@[0] == 's');
    assert("thread"@[0] == 't' && "source"@[0] == 's');
    assert("frame"@[0] == 'f' && "delta"@[0] == 'd');
    assert("exited"@[0] == 'e' && "output"@[0] == 'o');
    assert("until"@[0] == 'u' && "frame"@[0] == 'f');
    assert("until"@[0] == 'u' && "delta"@[0] == 'd');
}

/// What a stop is shown as: its reason, the place of its innermost frame, its
/// thread, the source around it, the watches and what changed.
pub open spec fn shows_stop(
    d: Doc,
    stop: StopModel,
    source: Seq<char>,
    watches: Seq<char>,
    delta: Seq<char>,
) -> bool {
    &&& d.at("exited"@) == Doc::Bool(false)
    &&& d.at("reason"@) == Doc::Str(stop.reason)
    &&& stop.frames.len() > 0 ==> d.at("frame"@) == Doc::Str(
        stop.frames[0].name + "  "@ + stop.frames[0].file + ":"@ + int_text(stop.frames[0].line),
    )
    &&& d.at("thread"@) == Doc::Int(stop.thread_id)
    &&& d.at("source"@) == Doc::Str(source)
    &&& d.at("watches"@) == Doc::Str(watches)
    &&& d.at("delta"@) == Doc::Str(delta)
}

/// A run that comes to a stop is answered with that stop, once what changed,
/// the source around it and, where there are any, the watches have been read;
/// one that fails is answered with its error.
pub proof fn a_run_is_answered_with_its_stop(
    op: OpModel,
    stop: StopModel,
    delta: Seq<char>,
    source: Seq<char>,
    watches: Seq<char>,
    e: Seq<char>,
)
    requires
        !stop.exited,
    ensures
        ({
            let at = OutcomeModel::Stopped(Ok::<StopModel, Seq<char>>(stop));
            let o1 = seq![at];
            let o2 = o1.push(OutcomeModel::Text(delta));
            let o3 = o2.push(OutcomeModel::Text(source));
            let o4 = o3.push(OutcomeModel::Flag(false));
            let o5 = o3.push(OutcomeModel::Flag(true));
            let o6 = o5.push(OutcomeModel::Text(watches));
            &&& run_way(op, Seq::empty(), 0) == Way::<Doc>::Do(op)
            &&& run_way(op, o1, 0) == Way::<Doc>::Do(OpModel::Delta)
            &&& run_way(op, o2, 0) == Way::<Doc>::Do(OpModel::Source { radius: 6 })
            &&& run_way(op, o3, 0) == Way::<Doc>::Do(OpModel::HasWatches)
            &&& run_way(op, o5, 0) == Way::<Doc>::Do(OpModel::Watches)
            &&& run_way(op, o4, 0) matches Way::Done(d, n) && n == 4 && d.at("ok"@) == Doc::Bool(true)
                && shows_stop(d.at("stop"@), stop, source, ""@, delta)
            &&& run_way(op, o6, 0) matches Way::Done(d, n) && n == 5 && d.at("ok"@) == Doc::Bool(true)
                && shows_stop(d.at("stop"@), stop, source, watches, delta)
            &&& run_way(
                op,
                seq![OutcomeModel::Stopped(Err::<StopModel, Seq<char>>(e))],
                0,
            ) matches Way::Done(d, n) && n == 1 && d.at("ok"@) == Doc::Bool(false) && d.at("error"@)
                == Doc::Str(e)
        }),
{
    lemma_stop_keys();
    reveal_strlit("error");
    assert("error"@.len() == 5);
    let at = OutcomeModel::Stopped(Ok::<StopModel, Seq<char>>(stop));
    let o1 = seq![at];
    let o2 = o1.push(OutcomeModel::Text(delta));
    let o3 = o2.push(OutcomeModel::Text(source));
    let o4 = o3.push(OutcomeModel::Flag(false));
    let o5 = o3.push(OutcomeModel::Flag(true));
    let o6 = o5.push(OutcomeModel::Text(watches));
    assert(o6[0] == at && o6[1] == OutcomeModel::Text(delta) && o6[2] == OutcomeModel::Text(source)
        && o6[3] == OutcomeModel::Flag(true) && o6[4] == OutcomeModel::Text(watches));
    assert(o4[0] == at && o4[1] == OutcomeModel::Text(delta) && o4[2] == OutcomeModel::Text(source)
        && o4[3] == OutcomeModel::Flag(false));
}

/// A run in which the program ends is answered with its exit code, the end of
/// what it printed and what became of the breakpoints; the session is dropped.
pub proof fn a_run_to_the_end_is_answered_with_the_exit(
    op: OpModel,
    stop: StopModel,
    code: int,
    out: Seq<char>,
    bps: Seq<Doc>,
    x: OutcomeModel,
)
    requires
        stop.exited,
        stop.exit_code == Some(code),
    ensures
        ({
            let at = OutcomeModel::Stopped(Ok::<StopModel, Seq<char>>(stop));
            let o1 = seq![at];
            let o2 = o1.push(OutcomeModel::Text(out));
            let o3 = o2.push(OutcomeModel::Values(bps));
            let o4 = o3.push(x);
            &&& run_way(op, o1, 0) == Way::<Doc>::Do(OpModel::Output)
            &&& run_way(op, o2, 0) == Way::<Doc>::Do(OpModel::BpSummary)
            &&& run_way(op, o3, 0) == Way::<Doc>::Do(OpModel::Drop)
            &&& run_way(op, o4, 0) matches Way::Done(d, n) && n == 4 && d.at("ok"@) == Doc::Bool(true)
                && d.at("stop"@).at("exited"@) == Doc::Bool(true) && d.at("stop"@).at("exit_code"@)
                == Doc::Int(code) && d.at("stop"@).at("breakpoints"@) == Doc::Arr(bps) && (d.at(
                "stop"@,
            ).at("output"@) matches Doc::Str(t) && t.is_suffix_of(out) && (
            vstd::utf8::encode_utf8(out).len() <= 2000 ==> t == out))
        }),
{
    lemma_stop_keys();
    crate::util::a_tail_is_an_end_that_fits(out, 2000);
    let at = OutcomeModel::Stopped(Ok::<StopModel, Seq<char>>(stop));
    let o1 = seq![at];
    let o2 = o1.push(OutcomeModel::Text(out));
    let o3 = o2.push(OutcomeModel::Values(bps));
    let o4 = o3.push(x);
    assert(o4[0] == at && o4[1] == OutcomeModel::Text(out) && o4[2] == OutcomeModel::Values(bps));
}

/// A run until a condition needs one that can be read, and a breakpoint that
/// is switched on; with both it is for the condition's path, operator and
/// value, at most as many stops as said, ten thousand where nothing is. The
/// answer is the stop, with how the run ended and after how many stops.
pub proof fn a_run_until_is_answered_with_its_end(
    req: Doc,
    cond: Seq<char>,
    path: Seq<char>,
    op: Seq<char>,
    rhs: Seq<char>,
    count: int,
    max: int,
    u: UntilModel,
    delta: Seq<char>,
    source: Seq<char>,
)
    requires
        req.at("until"@) == Doc::Str(cond),
        predicate_of(cond) == Some((path, op, rhs)),
        count > 0,
        1 <= max <= 1_000_000,
        !u.stop.exited,
    ensures
        ({
            let o1 = seq![OutcomeModel::Count(count)];
            let o2 = o1.push(OutcomeModel::Ended(Ok::<UntilModel, Seq<char>>(u)));
            let o5 = o2.push(OutcomeModel::Text(delta)).push(OutcomeModel::Text(source)).push(
                OutcomeModel::Flag(false),
            );
            &&& until_way(req, Seq::empty(), 0) == Way::<Doc>::Do(OpModel::ActiveCount)
            &&& until_way(req, seq![OutcomeModel::Count(0)], 0) matches Way::Done(d, _) && d.at("ok"@)
                == Doc::Bool(false)
            &&& req.at("max"@) == Doc::Int(max) ==> until_way(req, o1, 0) == Way::<Doc>::Do(
                OpModel::ContUntil { path, op, rhs, max },
            )
            &&& !req.has("max"@) ==> until_way(req, o1, 0) == Way::<Doc>::Do(
                OpModel::ContUntil { path, op, rhs, max: 10_000 },
            )
            &&& until_way(req, o5, 0) matches Way::Done(d, n) && n == 5 && d.at("ok"@) == Doc::Bool(
                true,
            ) && shows_stop(d.at("stop"@), u.stop, source, ""@, delta) && d.at("stop"@).at(
                "until"@,
            ).at("stops"@) == Doc::Int(u.stops) && d.at("stop"@).at("until"@).at("cond"@)
                == Doc::Str(predicate_text(path, op, rhs)) && match u.end {
                EndModel::Held(v) => d.at("stop"@).at("until"@).at("outcome"@) == Doc::Str("held"@)
                    && d.at("stop"@).at("until"@).at("observed"@) == Doc::Str(v),
                EndModel::Exited => d.at("stop"@).at("until"@).at("outcome"@) == Doc::Str(
                    "exited"@,
                ),
                EndModel::Cap => d.at("stop"@).at("until"@).at("outcome"@) == Doc::Str("cap"@),
            }
        }),
{
    lemma_stop_keys();
    reveal_strlit("outcome");
    reveal_strlit("cond");
    reveal_strlit("stops");
    reveal_strlit("observed");
    assert("outcome"@.len() == 7 && "cond"@.len() == 4 && "stops"@.len() == 5 && "observed"@.len()
        == 8);
    let o1 = seq![OutcomeModel::Count(count)];
    let o2 = o1.push(OutcomeModel::Ended(Ok::<UntilModel, Seq<char>>(u)));
    let o5 = o2.push(OutcomeModel::Text(delta)).push(OutcomeModel::Text(source)).push(
        OutcomeModel::Flag(false),
    );
    assert(o5[0] == OutcomeModel::Count(count) && o5[1] == OutcomeModel::Ended(
        Ok::<UntilModel, Seq<char>>(u),
    ) && o5[2] == OutcomeModel::Text(delta) && o5[3] == OutcomeModel::Text(source) && o5[4]
        == OutcomeModel::Flag(false));
}

/// A text that is no condition is refused, and nothing is run.
pub proof fn a_bad_condition_runs_nothing(req: Doc, outs: Seq<OutcomeModel>)
    requires
        predicate_of(req.at("until"@).text_or(""@)) is None,
    ensures
        until_way(req, outs, 0) matches Way::Done(d, n) && n == 0 && d.at("ok"@) == Doc::Bool(false),
{
    reveal_strlit("ok");
    reveal_strlit("error");
    assert("ok"@.len() == 2 && "error"@.len() == 5);
}

// ---------------------------------------------------------------------------
// Launches
// ---------------------------------------------------------------------------

proof fn lemma_lines_way(bps: Seq<Doc>, i: int, outs: Seq<OutcomeModel>, at: int)
    requires
        0 <= i <= bps.len(),
        0 <= at <= outs.len(),
    ensures
        at + bps.len() - i <= outs.len() ==> lines_way(bps, i, outs, at) == Way::Done(
            (),
            at + bps.len() - i,
        ),
        at + bps.len() - i > outs.len() ==> lines_way(bps, i, outs, at) == Way::<()>::Do(
            crate::daemon::line_op(bps[i + outs.len() - at]),
        ),
    decreases bps.len() - i,
{
    if i < bps.len() && at < outs.len() {
        lemma_lines_way(bps, i + 1, outs, at + 1);
    }
}

proof fn lemma_fns_way(names: Seq<Seq<char>>, i: int, outs: Seq<OutcomeModel>, at: int)
    requires
        0 <= i <= names.len(),
        0 <= at <= outs.len(),
    ensures
        at + names.len() - i <= outs.len() ==> fns_way(names, i, outs, at) == Way::Done(
            (),
            at + names.len() - i,
        ),
        at + names.len() - i > outs.len() ==> fns_way(names, i, outs, at) == Way::<()>::Do(
            OpModel::AddFn { name: names[i + outs.len() - at] },
        ),
    decreases names.len() - i,
{
    if i < names.len() && at < outs.len() {
        lemma_fns_way(names, i + 1, outs, at + 1);
    }
}

/// A launch starts the program with its directory and arguments, then sets
/// every breakpoint that came with it, lines before functions and each in its
/// order, and that on panics where it is asked for; and only then is the
/// program launched and run.
pub proof fn a_launch_sets_its_breakpoints_before_it_runs(
    req: Doc,
    outs: Seq<OutcomeModel>,
    b: Doc,
    k: int,
)
    requires
        outs.len() > 0 ==> outs[0] == OutcomeModel::Error(None),
    ensures
        ({
            let lines = req.at("breakpoints"@).items();
            let fns = strings_of(req.at("fn_breaks"@));
            let p = if req.at("panic"@) == Doc::Bool(true) {
                1int
            } else {
                0
            };
            let done = outs.len() as int;
            let next = launch_way(req, false, outs, 0);
            &&& done == 0 ==> next == Way::<Doc>::Do(
                OpModel::Start {
                    program: req.at("program"@).text_or(""@),
                    cwd: req.at("cwd"@).text(),
                    args: strings_of(req.at("args"@)),
                },
            )
            &&& 1 <= done <= lines.len() && b == lines[done - 1] ==> next == Way::<Doc>::Do(
                OpModel::AddLine {
                    file: b.at("file"@).text_or(""@),
                    line: b.at("line"@).int_or(0),
                    condition: b.at("condition"@).text(),
                    hit: b.at("hit"@).int64(),
                    log: b.at("log"@).text(),
                },
            )
            &&& lines.len() < done <= lines.len() + fns.len() ==> next == Way::<Doc>::Do(
                OpModel::AddFn { name: fns[done - 1 - lines.len()] },
            )
            &&& done == 1 + lines.len() + fns.len() && p == 1 ==> next == Way::<Doc>::Do(
                OpModel::AddPanic,
            )
            &&& done == 1 + lines.len() + fns.len() + p ==> next == Way::<Doc>::Do(OpModel::Launch)
            &&& done == 2 + lines.len() + fns.len() + p && outs.last() == OutcomeModel::Error(None)
                ==> next == Way::<Doc>::Do(OpModel::Run)
            &&& launch_way(req, true, Seq::empty(), 0) == Way::<Doc>::Do(OpModel::End)
        }),
{
    let lines = req.at("breakpoints"@).items();
    let fns = strings_of(req.at("fn_breaks"@));
    if outs.len() > 0 {
        lemma_lines_way(lines, 0, outs, 1);
        if outs.len() >= 1 + lines.len() {
            lemma_fns_way(fns, 0, outs, 1 + lines.len() as int);
        }
    }
}

/// A program that cannot be started is not launched: the answer is why.
pub proof fn a_failed_start_is_answered(req: Doc, e: Seq<char>)
    ensures
        launch_way(req, false, seq![OutcomeModel::Error(Some(e))], 0) matches Way::Done(d, n) && n == 1
            && d.at("ok"@) == Doc::Bool(false) && d.at("error"@) == Doc::Str(e),
        triage_way(req, false, seq![OutcomeModel::Error(Some(e))], 0) matches Way::Done(d, n) && n == 1
            && d.at("ok"@) == Doc::Bool(false) && d.at("error"@) == Doc::Str(e),
{
    reveal_strlit("ok");
    reveal_strlit("error");
    assert("ok"@.len() == 2 && "error"@.len() == 5);
}

// ---------------------------------------------------------------------------
// Panics
// ---------------------------------------------------------------------------

/// The triage of a panic starts the program with a breakpoint on panics and
/// runs it. Where the program ends without one, that is the answer, with its
/// exit code; else the user's own frame is selected first.
pub proof fn a_triage_looks_at_the_users_frame(
    req: Doc,
    stop: StopModel,
    code: int,
    out: Seq<char>,
    x: OutcomeModel,
    y: OutcomeModel,
)
    ensures
        ({
            let fine = OutcomeModel::Error(None);
            let o1 = seq![fine];
            let o2 = o1.push(x);
            let o3 = o2.push(fine);
            let o4 = o3.push(OutcomeModel::Stopped(Ok::<StopModel, Seq<char>>(stop)));
            let o6 = o4.push(OutcomeModel::Text(out)).push(y);
            &&& triage_way(req, false, Seq::empty(), 0) == Way::<Doc>::Do(
                OpModel::Start {
                    program: req.at("program"@).text_or(""@),
                    cwd: req.at("cwd"@).text(),
                    args: strings_of(req.at("args"@)),
                },
            )
            &&& triage_way(req, false, o1, 0) == Way::<Doc>::Do(OpModel::AddPanic)
            &&& triage_way(req, false, o2, 0) == Way::<Doc>::Do(OpModel::Launch)
            &&& triage_way(req, false, o3, 0) == Way::<Doc>::Do(OpModel::Run)
            &&& stop.exited ==> triage_way(req, false, o4, 0) == Way::<Doc>::Do(OpModel::Output)
            &&& stop.exited && stop.exit_code == Some(code) ==> (triage_way(req, false, o6, 0)
                matches Way::Done(d, n) && n == 6 && d.at("ok"@) == Doc::Bool(true) && d.at(
                "panicked"@,
            ) == Doc::Bool(false) && d.at("exit_code"@) == Doc::Int(code))
            &&& !stop.exited ==> triage_way(req, false, o4, 0) == Way::<Doc>::Do(
                OpModel::SelectFrame {
                    index: match user_frame(stop.frames) {
                        Some(i) => i,
                        None => 0,
                    },
                },
            )
        }),
{
    lemma_panic_keys();
    let fine = OutcomeModel::Error(None);
    let o1 = seq![fine];
    let o2 = o1.push(x);
    let o3 = o2.push(fine);
    let o4 = o3.push(OutcomeModel::Stopped(Ok::<StopModel, Seq<char>>(stop)));
    let o6 = o4.push(OutcomeModel::Text(out)).push(y);
    assert(o6[0] == fine && o6[1] == x && o6[2] == fine && o6[3] == OutcomeModel::Stopped(
        Ok::<StopModel, Seq<char>>(stop),
    ) && o6[4] == OutcomeModel::Text(out) && o6[5] == y);
}

proof fn lemma_panic_keys()
    ensures
        "ok"@ != "panicked"@,
        "ok"@ != "message"@,
        "ok"@ != "frame"@,
        "ok"@ != "frame_index"@,
        "ok"@ != "source"@,
        "ok"@ != "vars"@,
        "ok"@ != "bt"@,
        "ok"@ != "exited"@,
        "ok"@ != "exit_code"@,
        "ok"@ != "output"@,
        "panicked"@ != "message"@,
        "panicked"@ != "frame"@,
        "panicked"@ != "frame_index"@,
        "panicked"@ != "source"@,
        "panicked"@ != "vars"@,
        "panicked"@ != "bt"@,
        "panicked"@ != "exited"@,
        "panicked"@ != "exit_code"@,
        "panicked"@ != "output"@,
        "message"@ != "frame"@,
        "message"@ != "frame_index"@,
        "message"@ != "source"@,
        "message"@ != "vars"@,
        "message"@ != "bt"@,
        "message"@ != "exited"@,
        "message"@ != "exit_code"@,
        "message"@ != "output"@,
        "frame"@ != "frame_index"@,
        "frame"@ != "source"@,
        "frame"@ != "vars"@,
        "frame"@ != "bt"@,
        "frame"@ != "exited"@,
        "frame"@ != "exit_code"@,
        "frame"@ != "output"@,
        "frame_index"@ != "source"@,
        "frame_index"@ != "vars"@,
        "frame_index"@ != "bt"@,
        "frame_index"@ != "exited"@,
        "frame_index"@ != "exit_code"@,
        "frame_index"@ != "output"@,
        "source"@ != "vars"@,
        "source"@ != "bt"@,
        "source"@ != "exited"@,
        "source"@ != "exit_code"@,
        "source"@ != "output"@,
        "vars"@ != "bt"@,
        "vars"@ != "exited"@,
        "vars"@ != "exit_code"@,
        "vars"@ != "output"@,
        "bt"@ != "exited"@,
        "bt"@ != "exit_code"@,
        "bt"@ != "output"@,
        "exited"@ != "exit_code"@,
        "exited"@ != "output"@,
        "exit_code"@ != "output"@,
{
    reveal_strlit("ok");
    assert("ok"@.len() == 2);
    reveal_strlit("panicked");
    assert("panicked"@.len() == 8);
    reveal_strlit("message");
    assert("message"@.len() == 7);
    reveal_strlit("frame");
    assert("frame"@.len() == 5);
    reveal_strlit("frame_index");
    assert("frame_index"@.len() == 11);
    reveal_strlit("source");
    assert("source"@.len() == 6);
    reveal_strlit("vars");
    assert("vars"@.len() == 4);
    reveal_strlit("bt");
    assert("bt"@.len() == 2);
    reveal_strlit("exited");
    assert("exited"@.len() == 6);
    reveal_strlit("exit_code");
    assert("exit_code"@.len() == 9);
    reveal_strlit("output");
    assert("output"@.len() == 6);
    assert("ok"@[0] == 'o' && "bt"@[0] == 'b');
    assert("source"@[0] == 's' && "exited"@[0] == 'e');
    assert("source"@[0] == 's' && "output"@[0] == 'o');
    assert("exited"@[0] == 'e' && "output"@[0] == 'o');
}

/// A panic that has been reported when the program stops is answered at once:
/// with its report out of what the program printed, the place of the user's
/// frame, the source and the backtrace there, and the local variables of the
/// user's frame of the stop that the session is at.
pub proof fn a_panic_is_answered_with_its_report(
    stop: StopModel,
    source: Seq<char>,
    bt: Seq<char>,
    printed: Seq<char>,
    report: Seq<char>,
    last: StopModel,
    vars: Seq<char>,
    out: Seq<char>,
    x: OutcomeModel,
    y: OutcomeModel,
)
    requires
        panic_message(printed) == Some(report),
        user_frame(stop.frames) is Some,
        0 <= user_index(stop.frames) < stop.frames.len(),
    ensures
        ({
            let o4 = seq![
                x,
                OutcomeModel::Text(source),
                OutcomeModel::Text(bt),
                OutcomeModel::Text(printed),
            ];
            let o5 = o4.push(OutcomeModel::Last(Some(last)));
            let o8 = o5.push(y).push(OutcomeModel::Text(vars)).push(OutcomeModel::Text(out));
            let i = user_frame(stop.frames)->0;
            &&& panicked_way(stop, seq![x], 0) == Way::<Doc>::Do(OpModel::Source { radius: 4 })
            &&& panicked_way(stop, o4, 0) == Way::<Doc>::Do(OpModel::LastStop)
            &&& panicked_way(stop, o5, 0) == Way::<Doc>::Do(
                OpModel::SelectFrame {
                    index: match user_frame(last.frames) {
                        Some(i) => i,
                        None => 0,
                    },
                },
            )
            &&& panicked_way(stop, o8, 0) matches Way::Done(d, n) && n == 8 && d.at("ok"@)
                == Doc::Bool(true) && d.at("panicked"@) == Doc::Bool(true) && d.at("message"@)
                == Doc::Str(report) && d.at("frame_index"@) == Doc::Int(i) && d.at("frame"@)
                == Doc::Str(
                stop.frames[i].name + "  "@ + stop.frames[i].file + ":"@ + int_text(
                    stop.frames[i].line,
                ),
            ) && d.at("source"@) == Doc::Str(source) && d.at("bt"@) == Doc::Str(bt) && d.at("vars"@)
                == Doc::Str(vars) && d.at("exited"@) == Doc::Bool(false)
        }),
{
    lemma_panic_keys();
    let o4 = seq![
        x,
        OutcomeModel::Text(source),
        OutcomeModel::Text(bt),
        OutcomeModel::Text(printed),
    ];
    let o5 = o4.push(OutcomeModel::Last(Some(last)));
    let o8 = o5.push(y).push(OutcomeModel::Text(vars)).push(OutcomeModel::Text(out));
    assert(o8[0] == x && o8[1] == OutcomeModel::Text(source) && o8[2] == OutcomeModel::Text(bt)
        && o8[3] == OutcomeModel::Text(printed) && o8[4] == OutcomeModel::Last(Some(last)) && o8[5]
        == y && o8[6] == OutcomeModel::Text(vars) && o8[7] == OutcomeModel::Text(out));
}

/// While no report of a panic has come, it is waited for, and the program is
/// let run on past the stop at most as often as said; a report that has come
/// is taken, and nothing more is done for it.
pub proof fn a_report_is_waited_for(
    left: nat,
    outs: Seq<OutcomeModel>,
    at: int,
    report: Seq<char>,
    last: Option<StopModel>,
    printed: Seq<char>,
)
    requires
        0 <= at <= outs.len(),
    ensures
        hunt_way(left, Some(report), outs, at) == Way::Done(
            HuntModel { message: Some(report), exited: false, exit_code: None },
            at,
        ),
        hunt_way(0, None, outs, at) == Way::Done(
            HuntModel { message: None, exited: false, exit_code: None },
            at,
        ),
        left > 0 ==> hunt_way(left, None, Seq::empty(), 0) == Way::<HuntModel>::Do(OpModel::LastStop),
        left > 0 ==> (hunt_way(left, None, seq![OutcomeModel::Last(last)], 0) matches Way::Do(
            OpModel::WaitOutput { needle, millis },
        ) && needle == "panicked at"@ && millis > 0),
        left > 0 ==> hunt_way(
            left,
            None,
            seq![
                OutcomeModel::Last(last),
                OutcomeModel::Flag(true),
                OutcomeModel::Text(printed),
            ],
            0,
        ) == Way::Done(
            HuntModel { message: panic_message(printed), exited: false, exit_code: None },
            3,
        ),
{
}

// ---------------------------------------------------------------------------
// The rest
// ---------------------------------------------------------------------------

/// A question to rust-analyzer starts it first, and is then for what it names,
/// at the place that it names; what comes back is under the key of its kind.
pub proof fn navigation_asks_for_what_it_names(
    req: Doc,
    values: Seq<Doc>,
    text: Seq<char>,
    e: Seq<char>,
)
    ensures
        ({
            let file = req.at("file"@).text_or(""@);
            let line = req.at("line"@).int_or(0);
            let col = req.at("col"@).int_or(0);
            let o1 = seq![OutcomeModel::Error(None)];
            let v2 = o1.push(OutcomeModel::Values(values));
            let t2 = o1.push(OutcomeModel::Text(text));
            &&& nav_way("where"@, req, Seq::empty(), 0) == Way::<Doc>::Do(OpModel::StartLsp)
            &&& nav_way("where"@, req, o1, 0) == Way::<Doc>::Do(
                OpModel::Symbols { query: req.at("query"@).text_or(""@) },
            )
            &&& nav_way("def"@, req, o1, 0) == Way::<Doc>::Do(
                OpModel::Definition { file, line, col },
            )
            &&& nav_way("refs"@, req, o1, 0) == Way::<Doc>::Do(
                OpModel::References { file, line, col },
            )
            &&& nav_way("hover"@, req, o1, 0) == Way::<Doc>::Do(OpModel::Hover { file, line, col })
            &&& nav_way("where"@, req, v2, 0) matches Way::Done(d, n) && n == 2 && d.at("symbols"@)
                == Doc::Arr(values)
            &&& nav_way("def"@, req, v2, 0) matches Way::Done(d, n) && n == 2 && d.at("locations"@)
                == Doc::Arr(values)
            &&& nav_way("refs"@, req, v2, 0) matches Way::Done(d, n) && n == 2 && d.at("locations"@)
                == Doc::Arr(values)
            &&& nav_way("hover"@, req, t2, 0) matches Way::Done(d, n) && n == 2 && d.at("hover"@)
                == Doc::Str(text)
            &&& nav_way("where"@, req, seq![OutcomeModel::Error(Some(e))], 0) matches Way::Done(d, n)
                && n == 1 && d.at("ok"@) == Doc::Bool(false)
        }),
{
    lemma_commands();
    reveal_strlit("ok");
    reveal_strlit("error");
    assert("ok"@.len() == 2 && "error"@.len() == 5);
    let o1 = seq![OutcomeModel::Error(None)];
    let v2 = o1.push(OutcomeModel::Values(values));
    let t2 = o1.push(OutcomeModel::Text(text));
    assert(v2[0] == o1[0] && v2[1] == OutcomeModel::Values(values));
    assert(t2[0] == o1[0] && t2[1] == OutcomeModel::Text(text));
}

/// A trace is of the paths that the request gives, of at most as many hits as
/// it says, fifty where it says nothing; the answer counts the hits and shows
/// one row for each.
pub proof fn a_trace_is_answered_with_its_hits(
    req: Doc,
    max: int,
    hits: Seq<HitModel>,
    out: Seq<char>,
)
    requires
        1 <= max <= i32::MAX,
    ensures
        req.at("max"@) == Doc::Int(max) ==> trace_way(req, Seq::empty(), 0) == Way::<Doc>::Do(
            OpModel::Trace { captures: strings_of(req.at("captures"@)), max },
        ),
        !req.has("max"@) ==> trace_way(req, Seq::empty(), 0) == Way::<Doc>::Do(
            OpModel::Trace { captures: strings_of(req.at("captures"@)), max: 50 },
        ),
        trace_way(req, seq![OutcomeModel::Hits(hits)], 0) == Way::<Doc>::Do(OpModel::Output),
        trace_way(req, seq![OutcomeModel::Hits(hits), OutcomeModel::Text(out)], 0)
            matches Way::Done(d, n) && n == 2 && d.at("ok"@) == Doc::Bool(true) && d.at("hits"@)
            == Doc::Int(hits.len() as int) && d.at("trace"@) == Doc::Str(trace_text(hits)),
{
    reveal_strlit("ok");
    reveal_strlit("trace");
    reveal_strlit("hits");
    reveal_strlit("output");
    assert("ok"@.len() == 2 && "trace"@.len() == 5 && "hits"@.len() == 4 && "output"@.len() == 6);
    assert(usize::MAX >= i32::MAX);
}

/// The rows of a trace are its hits in their order, each with its number, its
/// function and place, and every captured path with its value.
pub proof fn a_trace_shows_a_row_for_each_hit(hits: Seq<HitModel>, h: HitModel)
    ensures
        trace_text(Seq::empty()) == "(no breakpoint hits)"@,
        trace_text(seq![h]) == " #"@ + padded_right(int_text(1), 3) + " "@ + h.func + "  "@ + h.loc
            + "   "@ + join(
            Seq::new(h.values.len(), |i: int| h.values[i].0 + "="@ + h.values[i].1),
            "  "@,
        ),
        hits.len() > 0 ==> trace_text(hits.push(h)) == trace_text(hits) + "\n"@ + (" #"@
            + padded_right(int_text(hits.len() as int + 1), 3) + " "@ + h.func + "  "@ + h.loc + "   "@
            + join(
            Seq::new(h.values.len(), |i: int| h.values[i].0 + "="@ + h.values[i].1),
            "  "@,
        )),
{
    let rows = Seq::new(hits.len(), |i: int| hit_row(hits[i], i));
    let more = Seq::new(hits.push(h).len(), |i: int| hit_row(hits.push(h)[i], i));
    assert(more =~= rows.push(hit_row(h, hits.len() as int)));
    lemma_join_push(rows, "\n"@, hit_row(h, hits.len() as int));
    let one = Seq::new(seq![h].len(), |i: int| hit_row(seq![h][i], i));
    assert(one =~= seq![hit_row(h, 0)]);
    assert(value_texts(h.values) =~= Seq::new(
        h.values.len(),
        |i: int| h.values[i].0 + "="@ + h.values[i].1,
    ));
}

/// The status tells whether there is a session, whether it is stopped, and
/// what else there is to know of it; without a session it tells of none.
pub proof fn the_status_tells_where_the_session_stands(
    m: SessionModel,
    stop: StopModel,
    lsp: bool,
    found: Option<Seq<char>>,
)
    ensures
        ({
            let on = status_doc(standing_of(Some(m), lsp, found));
            let off = status_doc(standing_of(None, lsp, found));
            &&& on.at("ok"@) == Doc::Bool(true) && off.at("ok"@) == Doc::Bool(true)
            &&& on.at("session"@) == Doc::Bool(true) && off.at("session"@) == Doc::Bool(false)
            &&& m.last_stop == Some(stop) ==> on.at("stopped"@) == Doc::Bool(!stop.exited)
            &&& m.last_stop is None ==> on.at("stopped"@) == Doc::Bool(false)
            &&& off.at("stopped"@) == Doc::Bool(false)
            &&& on.at("lsp_ready"@) == Doc::Bool(lsp) && off.at("lsp_ready"@) == Doc::Bool(lsp)
            &&& on.at("threads"@) == Doc::Int(m.threads.len() as int) && off.at("threads"@)
                == Doc::Int(0)
            &&& on.at("adapter"@) == Doc::Str(m.adapter)
            &&& found matches Some(a) ==> off.at("adapter"@) == Doc::Str(a)
            &&& m.cur_thread matches Some(t) ==> on.at("cur_thread"@) == Doc::Int(t)
            &&& crate::breaks::bp_count(m, false) <= usize::MAX ==> on.at("breakpoints"@) == Doc::Int(
                crate::breaks::bp_count(m, false),
            )
        }),
{
    reveal_strlit("ok");
    assert("ok"@.len() == 2);
    reveal_strlit("session");
    assert("session"@.len() == 7);
    reveal_strlit("stopped");
    assert("stopped"@.len() == 7);
    reveal_strlit("lsp_ready");
    assert("lsp_ready"@.len() == 9);
    reveal_strlit("cur_thread");
    assert("cur_thread"@.len() == 10);
    reveal_strlit("threads");
    assert("threads"@.len() == 7);
    reveal_strlit("breakpoints");
    assert("breakpoints"@.len() == 11);
    reveal_strlit("adapter");
    assert("adapter"@.len() == 7);
    assert("session"@[1] == 'e' && "stopped"@[1] == 't');
    assert("session"@[0] == 's' && "threads"@[0] == 't');
    assert("session"@[0] == 's' && "adapter"@[0] == 'a');
    assert("stopped"@[0] == 's' && "threads"@[0] == 't');
    assert("stopped"@[0] == 's' && "adapter"@[0] == 'a');
    assert("threads"@[0] == 't' && "adapter"@[0] == 'a');
}

/// A frame or a thread that is selected is shown where it is; one that is not
/// there is refused.
pub proof fn what_is_selected_is_shown(
    req: Doc,
    source: Seq<char>,
    vars: Seq<char>,
    stop: StopModel,
)
    requires
        !stop.exited,
    ensures
        ({
            let o3 = seq![
                OutcomeModel::Flag(true),
                OutcomeModel::Text(source),
                OutcomeModel::Text(vars),
            ];
            let t4 = seq![
                OutcomeModel::Flag(true),
                OutcomeModel::Last(Some(stop)),
                OutcomeModel::Text(source),
                OutcomeModel::Flag(false),
            ];
            &&& frame_way(req, o3, 0) matches Way::Done(d, n) && n == 3 && d.at("ok"@) == Doc::Bool(true)
                && d.at("source"@) == Doc::Str(source) && d.at("vars"@) == Doc::Str(vars)
            &&& frame_way(req, seq![OutcomeModel::Flag(false)], 0) matches Way::Done(d, n) && n == 1
                && d.at("ok"@) == Doc::Bool(false)
            &&& thread_way(req, t4, 0) matches Way::Done(d, n) && n == 4 && d.at("ok"@) == Doc::Bool(
                true,
            ) && d.at("stop"@).at("reason"@) == Doc::Str(stop.reason) && d.at("stop"@).at("source"@)
                == Doc::Str(source)
            &&& thread_way(req, seq![OutcomeModel::Flag(false)], 0) matches Way::Done(d, n) && n == 1
                && d.at("ok"@) == Doc::Bool(false)
        }),
{
    lemma_stop_keys();
    lemma_panic_keys();
    reveal_strlit("error");
    reveal_strlit("vars");
    reveal_strlit("stop");
    assert("error"@.len() == 5 && "vars"@.len() == 4 && "stop"@.len() == 4);
}

/// The state is the stop that the session is at, with the local variables and
/// the watches; where it is at none, none is shown.
pub proof fn the_state_is_the_stop_with_its_variables(
    stop: StopModel,
    source: Seq<char>,
    vars: Seq<char>,
)
    requires
        !stop.exited,
    ensures
        ({
            let o5 = seq![
                OutcomeModel::Last(Some(stop)),
                OutcomeModel::Text(source),
                OutcomeModel::Flag(false),
                OutcomeModel::Text(vars),
                OutcomeModel::Flag(false),
            ];
            &&& state_way(o5, 0) matches Way::Done(d, n) && n == 5 && d.at("ok"@) == Doc::Bool(true)
                && d.at("vars"@) == Doc::Str(vars) && d.at("stop"@).at("reason"@) == Doc::Str(
                stop.reason,
            ) && d.at("stop"@).at("source"@) == Doc::Str(source) && d.at("stop"@).at("thread"@)
                == Doc::Int(stop.thread_id)
            &&& current_way(seq![OutcomeModel::Last(None)], 0) == Way::Done(Doc::Null, 1)
        }),
{
    lemma_stop_keys();
    lemma_panic_keys();
    reveal_strlit("watches");
    reveal_strlit("vars");
    reveal_strlit("stop");
    reveal_strlit("ok");
    assert("watches"@.len() == 7 && "vars"@.len() == 4 && "stop"@.len() == 4 && "ok"@.len() == 2);
    assert("vars"@[0] == 'v' && "stop"@[0] == 's');
}

/// A watchpoint that is set is answered with its number, and one that cannot
/// be with why.
pub proof fn a_watchpoint_is_answered_with_its_number(req: Doc, id: int, e: Seq<char>)
    ensures
        watched_way(req, seq![OutcomeModel::Watched(Ok::<int, Seq<char>>(id))], 0) matches Way::Done(
            d,
            n,
        ) && n == 1 && d.at("ok"@) == Doc::Bool(true) && d.at("id"@) == Doc::Int(id),
        watched_way(req, seq![OutcomeModel::Watched(Err::<int, Seq<char>>(e))], 0) matches Way::Done(
            d,
            n,
        ) && n == 1 && d.at("ok"@) == Doc::Bool(false) && d.at("error"@) == Doc::Str(e),
{
    reveal_strlit("ok");
    reveal_strlit("id");
    reveal_strlit("error");
    assert("ok"@.len() == 2 && "id"@.len() == 2 && "error"@.len() == 5);
    assert("ok"@[0] == 'o' && "id"@[0] == 'i');
}

/// What came of an operation is what the response holds, under the key of the
/// request's kind: the id of a breakpoint and whether it bound, or the text
/// that was asked for.
pub proof fn responses_hold_what_came_of_the_request(
    req: Doc,
    id: int,
    flag: bool,
    text: Seq<char>,
)
    ensures
        req.at("cmd"@) == Doc::Str("bp_add"@) ==> (dispatch_way(req, true, seq![OutcomeModel::Added((id, flag))], 0)
            matches Way::Done((d, _), _) && d.at("ok"@) == Doc::Bool(true) && d.at("id"@) == Doc::Int(id) && d.at("verified"@) == Doc::Bool(flag)),
        req.at("cmd"@) == Doc::Str("bp_fn"@) ==> (dispatch_way(req, true, seq![OutcomeModel::Id(id)], 0)
            matches Way::Done((d, _), _) && d.at("ok"@) == Doc::Bool(true) && d.at("id"@) == Doc::Int(id)),
        req.at("cmd"@) == Doc::Str("bp_panic"@) ==> (dispatch_way(req, true, seq![OutcomeModel::Done], 0)
            matches Way::Done((d, _), _) && d.at("ok"@) == Doc::Bool(true) && d.at("id"@) == Doc::Str("panic"@)),
        req.at("cmd"@) == Doc::Str("bp_list"@) ==> (dispatch_way(req, true, seq![OutcomeModel::Text(text)], 0)
            matches Way::Done((d, _), _) && d.at("ok"@) == Doc::Bool(true) && d.at("breakpoints"@) == Doc::Str(text)),
        req.at("cmd"@) == Doc::Str("threads"@) ==> (dispatch_way(req, true, seq![OutcomeModel::Text(text)], 0)
            matches Way::Done((d, _), _) && d.at("ok"@) == Doc::Bool(true) && d.at("threads"@) == Doc::Str(text)),
        req.at("cmd"@) == Doc::Str("vars"@) ==> (dispatch_way(req, true, seq![OutcomeModel::Text(text)], 0)
            matches Way::Done((d, _), _) && d.at("ok"@) == Doc::Bool(true) && d.at("vars"@) == Doc::Str(text)),
        req.at("cmd"@) == Doc::Str("eval"@) ==> (dispatch_way(req, true, seq![OutcomeModel::Text(text)], 0)
            matches Way::Done((d, _), _) && d.at("ok"@) == Doc::Bool(true) && d.at("value"@) == Doc::Str(text)),
        req.at("cmd"@) == Doc::Str("set"@) ==> (dispatch_way(req, true, seq![OutcomeModel::Text(text)], 0)
            matches Way::Done((d, _), _) && d.at("ok"@) == Doc::Bool(true) && d.at("value"@) == Doc::Str(text)),
        req.at("cmd"@) == Doc::Str("watch_expr"@) ==> (dispatch_way(req, true, seq![OutcomeModel::Done, OutcomeModel::Text(text)], 0)
            matches Way::Done((d, _), _) && d.at("ok"@) == Doc::Bool(true) && d.at("watches"@) == Doc::Str(text)),
        req.at("cmd"@) == Doc::Str("bt"@) ==> (dispatch_way(req, true, seq![OutcomeModel::Text(text)], 0)
            matches Way::Done((d, _), _) && d.at("ok"@) == Doc::Bool(true) && d.at("bt"@) == Doc::Str(text)),
        req.at("cmd"@) == Doc::Str("list"@) ==> (dispatch_way(req, true, seq![OutcomeModel::Text(text)], 0)
            matches Way::Done((d, _), _) && d.at("ok"@) == Doc::Bool(true) && d.at("source"@) == Doc::Str(text)),
        req.at("cmd"@) == Doc::Str("bp_rm"@) ==> (dispatch_way(req, true, seq![OutcomeModel::Flag(flag)], 0)
            matches Way::Done((d, _), _) && d.at("ok"@) == Doc::Bool(flag) && (!flag ==> d.at("error"@)
            == Doc::Str("breakpoint not found"@))),
        req.at("cmd"@) == Doc::Str("bp_enable"@) ==> (dispatch_way(req, true, seq![OutcomeModel::Flag(flag)], 0)
            matches Way::Done((d, _), _) && d.at("ok"@) == Doc::Bool(flag) && (!flag ==> d.at("error"@)
            == Doc::Str("breakpoint not found"@))),
{
    reveal_strlit("ok");
    assert("ok"@.len() == 2);
    reveal_strlit("status");
    assert("status"@.len() == 6);
    reveal_strlit("error");
    assert("error"@.len() == 5);
    reveal_strlit("id");
    assert("id"@.len() == 2);
    reveal_strlit("verified");
    assert("verified"@.len() == 8);
    reveal_strlit("breakpoints");
    assert("breakpoints"@.len() == 11);
    reveal_strlit("threads");
    assert("threads"@.len() == 7);
    reveal_strlit("vars");
    assert("vars"@.len() == 4);
    reveal_strlit("value");
    assert("value"@.len() == 5);
    reveal_strlit("watches");
    assert("watches"@.len() == 7);
    reveal_strlit("bt");
    assert("bt"@.len() == 2);
    reveal_strlit("source");
    assert("source"@.len() == 6);
    assert("ok"@[0] == 'o' && "id"@[0] == 'i');
    assert("ok"@[0] == 'o' && "bt"@[0] == 'b');
    assert("status"@[1] == 't' && "source"@[1] == 'o');
    assert("error"@[0] == 'e' && "value"@[0] == 'v');
    assert("id"@[0] == 'i' && "bt"@[0] == 'b');
    assert("threads"@[0] == 't' && "watches"@[0] == 'w');
    if req.at("cmd"@) == Doc::Str("bp_add"@) {
        lemma_commands();
        assert(dispatch_way(req, true, seq![OutcomeModel::Added((id, flag))], 0) is Done);
    }
    if req.at("cmd"@) == Doc::Str("bp_fn"@) {
        lemma_commands();
        assert(dispatch_way(req, true, seq![OutcomeModel::Id(id)], 0) is Done);
    }
    if req.at("cmd"@) == Doc::Str("bp_panic"@) {
        lemma_commands();
        assert(dispatch_way(req, true, seq![OutcomeModel::Done], 0) is Done);
    }
    if req.at("cmd"@) == Doc::Str("bp_list"@) {
        lemma_commands();
        assert(dispatch_way(req, true, seq![OutcomeModel::Text(text)], 0) is Done);
    }
    if req.at("cmd"@) == Doc::Str("threads"@) {
        lemma_commands();
        assert(dispatch_way(req, true, seq![OutcomeModel::Text(text)], 0) is Done);
    }
    if req.at("cmd"@) == Doc::Str("vars"@) {
        lemma_commands();
        assert(dispatch_way(req, true, seq![OutcomeModel::Text(text)], 0) is Done);
    }
    if req.at("cmd"@) == Doc::Str("eval"@) {
        lemma_commands();
        assert(dispatch_way(req, true, seq![OutcomeModel::Text(text)], 0) is Done);
    }
    if req.at("cmd"@) == Doc::Str("set"@) {
        lemma_commands();
        assert(dispatch_way(req, true, seq![OutcomeModel::Text(text)], 0) is Done);
    }
    if req.at("cmd"@) == Doc::Str("watch_expr"@) {
        lemma_commands();
        assert(dispatch_way(req, true, seq![OutcomeModel::Done, OutcomeModel::Text(text)], 0) is Done);
    }
    if req.at("cmd"@) == Doc::Str("bt"@) {
        lemma_commands();
        assert(dispatch_way(req, true, seq![OutcomeModel::Text(text)], 0) is Done);
    }
    if req.at("cmd"@) == Doc::Str("list"@) {
        lemma_commands();
        assert(dispatch_way(req, true, seq![OutcomeModel::Text(text)], 0) is Done);
    }
    if req.at("cmd"@) == Doc::Str("bp_rm"@) {
        lemma_commands();
        assert(dispatch_way(req, true, seq![OutcomeModel::Flag(flag)], 0) is Done);
    }
    if req.at("cmd"@) == Doc::Str("bp_enable"@) {
        lemma_commands();
        assert(dispatch_way(req, true, seq![OutcomeModel::Flag(flag)], 0) is Done);
    }
}

} // verus!
