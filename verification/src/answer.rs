//! How a session answers operations: by itself, by a conversation with the
//! adapter, or by a plan that runs the program.

use vstd::prelude::*;
use crate::breaks::{at_most_max, bp_count, bp_list, summary_of};
use crate::daemon::{dispatch_way, stamped, success};
use crate::dap::{Step, Turn};
use crate::inspect::evaluate_turn;
use crate::json::{docs, Doc, Json};
use crate::locals::{locals_text_turn, set_turn, threads_turn, watches_turn};
use crate::ops::{Op, OpModel, Outcome, OutcomeModel, StepKind, Way};
use crate::run::{
    action_of, await_plan, pause_plan, resume_plan, stepped, task_of, until_plan, ActModel,
    InputModel, PhaseModel, Task, TaskModel,
};
use crate::session::{Session, SessionModel};
use crate::state::{
    backtrace_of, can_select, frame_selected, shifted, temp_added, watches_after,
    watches_are_added_and_removed,
};
use crate::text::concat;
use crate::util::{abs, joined};

verus! {

/// The session after an operation that it answers by itself, and the outcome;
/// `None` for any other operation.
pub open spec fn answer_of(m: SessionModel, op: OpModel) -> Option<(SessionModel, OutcomeModel)> {
    match op {
        OpModel::Output => Some((m, OutcomeModel::Text(concat(m.output)))),
        OpModel::BpSummary => Some((m, OutcomeModel::Values(summary_of(m)))),
        OpModel::HasWatches => Some((m, OutcomeModel::Flag(m.watches.len() > 0))),
        OpModel::Backtrace => Some((m, OutcomeModel::Text(backtrace_of(m)))),
        OpModel::Breakpoints => Some((m, OutcomeModel::Text(bp_list(m)))),
        OpModel::WatchExpr { action, expr } => Some(
            (
                SessionModel { watches: watches_after(m.watches, action, expr), ..m },
                OutcomeModel::Done,
            ),
        ),
        OpModel::SelectFrame { index } => Some(
            (frame_selected(m, index), OutcomeModel::Flag(can_select(m, index))),
        ),
        OpModel::ShiftFrame { up } => Some(
            (
                frame_selected(m, shifted(m.cur_frame, up)),
                OutcomeModel::Flag(can_select(m, shifted(m.cur_frame, up))),
            ),
        ),
        OpModel::LastStop => Some((m, OutcomeModel::Last(m.last_stop))),
        OpModel::ActiveCount => Some((m, OutcomeModel::Count(at_most_max(bp_count(m, true))))),
        _ => None,
    }
}

/// Performs an operation that the session answers by itself; hands any other
/// back.
pub fn answer(s: &mut Session, op: Op) -> (r: Result<Outcome, Op>)
    ensures
        match r {
            Ok(x) => answer_of(old(s)@, op@) == Some((final(s)@, x@)),
            Err(o) => answer_of(old(s)@, op@) is None && o == op && final(s)@ == old(s)@,
        },
        old(s)@.wf() ==> final(s)@.wf(),
{
    match op {
        Op::Output => Ok(Outcome::Text(s.output_text())),
        Op::BpSummary => Ok(Outcome::Values(s.bp_summary())),
        Op::HasWatches => Ok(Outcome::Flag(s.watches.len() > 0)),
        Op::Backtrace => Ok(Outcome::Text(s.backtrace_text())),
        Op::Breakpoints => Ok(Outcome::Text(s.breakpoints_text())),
        Op::WatchExpr { action, expr } => {
            s.watch_expr(action.as_str(), expr);
            Ok(Outcome::Done)
        },
        Op::SelectFrame { index } => Ok(Outcome::Flag(s.select_frame(index))),
        Op::ShiftFrame { up } => Ok(Outcome::Flag(s.frame_shift(up))),
        Op::LastStop => {
            let last = match &s.last_stop {
                Some(stop) => Some(stop.copy()),
                None => None,
            };
            Ok(Outcome::Last(last))
        },
        Op::ActiveCount => Ok(Outcome::Count(s.active_breakpoint_count())),
        op => Err(op),
    }
}

/// The conversation that answers an operation with a text; `None` for any other
/// operation.
pub open spec fn consult_turn(m: SessionModel, op: OpModel, replies: Seq<Doc>) -> Option<
    Turn<Seq<char>>,
> {
    match op {
        OpModel::Watches => Some(watches_turn(m, replies, 0)),
        OpModel::Locals { depth, cap } => Some(locals_text_turn(m, depth, cap, replies, 0)),
        OpModel::Threads => Some(threads_turn(m, replies, 0)),
        OpModel::Evaluate { expr } => Some(evaluate_turn(m, expr, replies, 0)),
        OpModel::Assign { path, value } => Some(set_turn(m, path, value, replies, 0)),
        _ => None,
    }
}

/// Where the conversation stands that answers an operation with a text, given
/// the adapter's replies so far.
pub fn consult(s: &Session, op: &Op, replies: &Vec<Json>) -> (r: Option<Step<String>>)
    ensures
        match r {
            Some(Step::Ask(q)) => consult_turn(s@, op@, docs(replies@)) == Some(
                Turn::<Seq<char>>::Ask(q@),
            ),
            Some(Step::Done(t, n)) => consult_turn(s@, op@, docs(replies@)) == Some(
                Turn::Done(t@, n as int),
            ) && n <= replies.len(),
            None => consult_turn(s@, op@, docs(replies@)) is None,
        },
{
    match op {
        Op::Watches => Some(s.watches_text(replies, 0)),
        Op::Locals { depth, cap } => Some(s.locals_text_capped(*depth, *cap, replies, 0)),
        Op::Threads => Some(s.threads_text(replies, 0)),
        Op::Evaluate { expr } => Some(s.evaluate(expr.as_str(), replies, 0)),
        Op::Assign { path, value } => Some(
            s.set_variable(path.as_str(), value.as_str(), replies, 0),
        ),
        _ => None,
    }
}

/// The plan of an operation that runs the program to a stop; files are seen
/// from `cwd`. `None` for any other operation.
pub open spec fn plan_of(op: OpModel, cwd: Seq<char>) -> Option<TaskModel> {
    match op {
        OpModel::Run => Some(task_of(await_plan(120))),
        OpModel::Continue => Some(task_of(resume_plan("continue"@, false))),
        OpModel::Step { kind } => Some(
            task_of(
                match kind {
                    StepKind::Over => resume_plan("next"@, false),
                    StepKind::In => resume_plan("stepIn"@, false),
                    StepKind::Out => resume_plan("stepOut"@, false),
                    StepKind::Insn => resume_plan("next"@, true),
                },
            ),
        ),
        OpModel::Until { file, line } => Some(task_of(until_plan(joined(cwd, file), line))),
        OpModel::Pause => Some(task_of(pause_plan())),
        _ => None,
    }
}

/// The plan of an operation that runs the program to a stop.
pub fn plan(s: &Session, op: &Op, cwd: &str) -> (r: Option<Task>)
    ensures
        match r {
            Some(t) => plan_of(op@, cwd@) == Some(t@),
            None => plan_of(op@, cwd@) is None,
        },
{
    match op {
        Op::Run => Some(s.run()),
        Op::Continue => Some(s.cont()),
        Op::Step { kind } => Some(
            match *kind {
                StepKind::Over => s.step_over(false),
                StepKind::In => s.step_in(),
                StepKind::Out => s.step_out(),
                StepKind::Insn => s.step_over(true),
            },
        ),
        Op::Until { file, line } => {
            let path = abs(file.as_str(), cwd);
            Some(s.until(path.as_str(), *line))
        },
        Op::Pause => Some(s.pause()),
        _ => None,
    }
}

/// A request for the backtrace or for the list of breakpoints is answered with
/// that of the session.
pub proof fn lists_come_from_the_session(m: SessionModel, bt: Doc, breaks: Doc)
    requires
        bt.at("cmd"@).text() == Some("bt"@),
        breaks.at("cmd"@).text() == Some("bp_list"@),
    ensures
        dispatch_way(bt, true, Seq::empty(), 0) == Way::<(Doc, bool)>::Do(OpModel::Backtrace),
        answer_of(m, OpModel::Backtrace) matches Some((n, x)) && n == m && dispatch_way(
            bt,
            true,
            seq![x],
            0,
        ) == Way::Done(
            (stamped(success().with("bt"@, Doc::Str(backtrace_of(m)))), false),
            1,
        ),
        dispatch_way(breaks, true, Seq::empty(), 0) == Way::<(Doc, bool)>::Do(
            OpModel::Breakpoints,
        ),
        answer_of(m, OpModel::Breakpoints) matches Some((n, x)) && n == m && dispatch_way(
            breaks,
            true,
            seq![x],
            0,
        ) == Way::Done(
            (stamped(success().with("breakpoints"@, Doc::Str(bp_list(m)))), false),
            1,
        ),
{
    reveal_strlit("ping");
    reveal_strlit("shutdown");
    reveal_strlit("status");
    reveal_strlit("launch");
    reveal_strlit("panic_triage");
    reveal_strlit("where");
    reveal_strlit("def");
    reveal_strlit("refs");
    reveal_strlit("hover");
    reveal_strlit("continue");
    reveal_strlit("continue_until");
    reveal_strlit("step");
    reveal_strlit("until");
    reveal_strlit("pause");
    reveal_strlit("restart");
    reveal_strlit("trace");
    reveal_strlit("thread");
    reveal_strlit("state");
    reveal_strlit("stop");
    reveal_strlit("frame");
    reveal_strlit("bp_add");
    reveal_strlit("bp_fn");
    reveal_strlit("bp_panic");
    reveal_strlit("bp_watch");
    reveal_strlit("bp_list");
    reveal_strlit("bp_rm");
    reveal_strlit("bp_enable");
    reveal_strlit("threads");
    reveal_strlit("vars");
    reveal_strlit("eval");
    reveal_strlit("set");
    reveal_strlit("watch_expr");
    reveal_strlit("bt");
    assert("bt"@.len() == 2 && "bp_list"@.len() == 7);
    assert("restart"@[0] == 'r' && "threads"@[0] == 't' && "bp_list"@[0] == 'b');
}

/// Asking for the output, the breakpoints, the backtrace, the last stop or a
/// count changes nothing; changing the watches or the frame changes that
/// alone. None of these runs the program.
pub proof fn questions_change_nothing(m: SessionModel, op: OpModel, cwd: Seq<char>)
    ensures
        op is Output || op is BpSummary || op is HasWatches || op is Backtrace || op is Breakpoints
            || op is LastStop || op is ActiveCount ==> (answer_of(m, op) matches Some((n, _)) && n
            == m),
        op is WatchExpr ==> (answer_of(m, op) matches Some((n, _)) && n == (SessionModel {
            watches: n.watches,
            ..m
        })),
        op is SelectFrame || op is ShiftFrame ==> (answer_of(m, op) matches Some((n, _)) && n == (
        SessionModel { cur_frame: n.cur_frame, ..m })),
        answer_of(m, op) is Some ==> plan_of(op, cwd) is None,
        answer_of(m, OpModel::HasWatches) == Some((m, OutcomeModel::Flag(m.watches.len() > 0))),
        answer_of(m, OpModel::LastStop) == Some((m, OutcomeModel::Last(m.last_stop))),
{
}

/// Each way to go on resumes the program by its own command: `continue`,
/// `next`, `stepIn`, `stepOut`, and by one instruction where that is asked
/// for; and a frame that is asked for is selected where there is one.
pub proof fn each_way_to_go_on_has_its_command(m: SessionModel, thread: int, cwd: Seq<char>)
    requires
        m.cur_thread == Some(thread),
    ensures
        resumes_by(plan_of(OpModel::Continue, cwd), m, "continue"@, false),
        resumes_by(plan_of(OpModel::Step { kind: StepKind::Over }, cwd), m, "next"@, false),
        resumes_by(plan_of(OpModel::Step { kind: StepKind::In }, cwd), m, "stepIn"@, false),
        resumes_by(plan_of(OpModel::Step { kind: StepKind::Out }, cwd), m, "stepOut"@, false),
        resumes_by(plan_of(OpModel::Step { kind: StepKind::Insn }, cwd), m, "next"@, true),
{
    reveal_strlit("threadId");
    reveal_strlit("granularity");
    assert("threadId"@.len() == 8 && "granularity"@.len() == 11);
    let a = resume_plan("continue"@, false);
    let b = resume_plan("next"@, false);
    let c = resume_plan("stepIn"@, false);
    let d = resume_plan("stepOut"@, false);
    let e = resume_plan("next"@, true);
    assert(a[2] == PhaseModel::Resume("continue"@, false));
    assert(b[2] == PhaseModel::Resume("next"@, false));
    assert(c[2] == PhaseModel::Resume("stepIn"@, false));
    assert(d[2] == PhaseModel::Resume("stepOut"@, false));
    assert(e[2] == PhaseModel::Resume("next"@, true));
}

/// The third step of a plan asks the adapter to resume the current thread by a
/// command, by one instruction or not.
pub open spec fn resumes_by(
    plan: Option<TaskModel>,
    m: SessionModel,
    command: Seq<char>,
    insn: bool,
) -> bool {
    &&& plan is Some
    &&& action_of(TaskModel { at: 2, ..plan->0 }, m) matches ActModel::Ask(a) && a.command
        == command && (a.args.at("granularity"@) == Doc::Str("instruction"@) <==> insn)
        && m.cur_thread is Some && a.args.at("threadId"@) == Doc::Int(m.cur_thread->0)
}

/// To run to a line is to run to that line of the file that was named, seen
/// from the directory.
pub proof fn a_line_to_run_to_is_of_the_named_file(
    m: SessionModel,
    file: Seq<char>,
    line: int,
    cwd: Seq<char>,
)
    ensures
        plan_of(OpModel::Until { file, line }, cwd) matches Some(t) && stepped(
            t,
            m,
            InputModel::Done,
        ).1 == temp_added(m, joined(cwd, file), line),
        plan_of(OpModel::Run, cwd) matches Some(t) && action_of(t, m) == ActModel::Poll(120),
        plan_of(OpModel::Pause, cwd) matches Some(t) && action_of(TaskModel { at: 1, ..t }, m)
            matches ActModel::Ask(a) && a.command == "pause"@,
{
    let p = until_plan(joined(cwd, file), line);
    assert(p[0] == PhaseModel::AddTemp(joined(cwd, file), line));
    let q = await_plan(120);
    assert(q[0] == PhaseModel::Await(120));
    let r = pause_plan();
    assert(r[1] == PhaseModel::Pause);
}

/// Adding a watch, and taking one away, changes the watches and nothing else;
/// selecting a frame changes the frame and nothing else.
pub proof fn watching_and_selecting_change_one_thing(
    m: SessionModel,
    e: Seq<char>,
    index: int,
)
    ensures
        ({
            let add = OpModel::WatchExpr { action: "add"@, expr: Some(e) };
            let rm = OpModel::WatchExpr { action: "rm"@, expr: Some(e) };
            &&& answer_of(m, add) == Some(
                (SessionModel { watches: m.watches.push(e), ..m }, OutcomeModel::Done),
            )
            &&& answer_of(m, rm) matches Some((after, _)) && !after.watches.contains(e)
                && after.line_bps == m.line_bps && after.cur_frame == m.cur_frame
            &&& answer_of(m, OpModel::SelectFrame { index }) matches Some((after, x)) && (x
                == OutcomeModel::Flag(true) ==> after.cur_frame == index) && (x
                == OutcomeModel::Flag(false) ==> after == m) && after.watches == m.watches
            &&& answer_of(m, OpModel::ShiftFrame { up: true }) matches Some((after, x)) && (x
                == OutcomeModel::Flag(true) ==> after.cur_frame == m.cur_frame + 1)
                && after.watches == m.watches
            &&& answer_of(m, OpModel::ShiftFrame { up: false }) matches Some((after, x)) && (x
                == OutcomeModel::Flag(true) && m.cur_frame > 0 ==> after.cur_frame == m.cur_frame
                - 1) && after.watches == m.watches
        }),
{
    reveal_strlit("add");
    reveal_strlit("rm");
    assert("add"@.len() == 3 && "rm"@.len() == 2);
    watches_are_added_and_removed(m.watches, e, e);
}

} // verus!
