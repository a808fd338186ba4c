//! Run control: launching, resuming, pausing and relaunching a program, each
//! as a plan whose steps the driver performs one by one.

use vstd::prelude::*;
use crate::breaks::{fns_replied, hit_counted};
use crate::dap::{asking, request, request_error, request_soft, soft_reply, Ask, Request};
use crate::inspect::{ask_frames, frames_ask};
use crate::json::{docs, no_keys, opt_view, str_docs, Doc, Json};
use crate::session::{fn_sync, line_sync, opt_stop, opt_text, FileModel, Session, SessionModel};
use crate::stack::{exit_stop, frames, frames_from, opt_int, Stop, StopModel};
use crate::state::{output_after, temp_added, temp_removed};
use crate::text::{copy_all, owned, same, views};

verus! {

// ---------------------------------------------------------------------------
// Plans
// ---------------------------------------------------------------------------

/// What a step of a plan is.
pub ghost enum PhaseModel {
    Check,
    Flush,
    Resume(Seq<char>, bool),
    Pause,
    Await(int),
    Threads,
    Frames,
    AddTemp(Seq<char>, int),
    RemoveTemp(Seq<char>, int),
    SyncLine(Seq<char>, bool),
    SyncFns,
    Initialize,
    Launch(bool, Seq<Seq<char>>),
    Initialized,
    Configure,
    Launched,
    Disconnect,
    Close,
    Spawn,
    Reset,
}

/// A step of a plan.
pub enum Phase {
    /// The program has to be stopped.
    Check,
    /// Takes in the events that have come already.
    Flush,
    /// Lets the program run on; by one instruction where it says so.
    Resume(String, bool),
    /// Asks the program to stop.
    Pause,
    /// Waits so many seconds for the program to stop or end. The two steps
    /// behind this one are those that read where it stopped.
    Await(u64),
    /// Reads the threads.
    Threads,
    /// Reads the frames of the current thread, which makes up the stop.
    Frames,
    /// Stops once at a line of a file.
    AddTemp(String, i64),
    /// Takes that line back, also where the plan has failed.
    RemoveTemp(String, i64),
    /// Tells the adapter of the line breakpoints of a file; also where the
    /// plan has failed, if it says so.
    SyncLine(String, bool),
    /// Tells the adapter of the function breakpoints.
    SyncFns,
    /// Introduces the debugger to the adapter.
    Initialize,
    /// Asks for the launch of the program, stopped at its entry where it says
    /// so, after commands to the adapter; the reply comes last.
    Launch(bool, Vec<String>),
    /// Waits for the adapter to be ready for breakpoints.
    Initialized,
    /// Says that all breakpoints have been told.
    Configure,
    /// Waits for the reply to the launch.
    Launched,
    /// Ends the program.
    Disconnect,
    /// Ends the adapter.
    Close,
    /// Starts the adapter again.
    Spawn,
    /// Forgets what belonged to the program that has ended.
    Reset,
}

impl View for Phase {
    type V = PhaseModel;

    open spec fn view(&self) -> PhaseModel {
        match self {
            Phase::Check => PhaseModel::Check,
            Phase::Flush => PhaseModel::Flush,
            Phase::Resume(c, i) => PhaseModel::Resume(c@, *i),
            Phase::Pause => PhaseModel::Pause,
            Phase::Await(s) => PhaseModel::Await(*s as int),
            Phase::Threads => PhaseModel::Threads,
            Phase::Frames => PhaseModel::Frames,
            Phase::AddTemp(p, l) => PhaseModel::AddTemp(p@, *l as int),
            Phase::RemoveTemp(p, l) => PhaseModel::RemoveTemp(p@, *l as int),
            Phase::SyncLine(p, a) => PhaseModel::SyncLine(p@, *a),
            Phase::SyncFns => PhaseModel::SyncFns,
            Phase::Initialize => PhaseModel::Initialize,
            Phase::Launch(e, c) => PhaseModel::Launch(*e, views(c@)),
            Phase::Initialized => PhaseModel::Initialized,
            Phase::Configure => PhaseModel::Configure,
            Phase::Launched => PhaseModel::Launched,
            Phase::Disconnect => PhaseModel::Disconnect,
            Phase::Close => PhaseModel::Close,
            Phase::Spawn => PhaseModel::Spawn,
            Phase::Reset => PhaseModel::Reset,
        }
    }
}

pub open spec fn phases_in(v: Seq<Phase>) -> Seq<PhaseModel> {
    Seq::new(v.len(), |i: int| v[i]@)
}

/// What a plan under way is.
pub ghost struct TaskModel {
    pub plan: Seq<PhaseModel>,
    pub at: int,
    pub reason: Seq<char>,
    pub stop: Option<StopModel>,
    pub error: Option<Seq<char>>,
}

/// A plan under way: the step it is at, why the program stopped, the stop, and
/// the error it failed with.
pub struct Task {
    pub plan: Vec<Phase>,
    pub at: usize,
    pub reason: String,
    pub stop: Option<Stop>,
    pub error: Option<String>,
}

impl View for Task {
    type V = TaskModel;

    open spec fn view(&self) -> TaskModel {
        TaskModel {
            plan: phases_in(self.plan@),
            at: self.at as int,
            reason: self.reason@,
            stop: opt_stop(self.stop),
            error: opt_text(self.error),
        }
    }
}

/// A plan that has not begun.
pub open spec fn task_of(plan: Seq<PhaseModel>) -> TaskModel {
    TaskModel { plan, at: 0, reason: Seq::empty(), stop: None, error: None }
}

fn begin(plan: Vec<Phase>) -> (t: Task)
    ensures
        t@ == task_of(phases_in(plan@)),
{
    Task { plan, at: 0, reason: String::new(), stop: None, error: None }
}

// ---------------------------------------------------------------------------
// Actions
// ---------------------------------------------------------------------------

/// What the driver has to do.
pub ghost enum ActModel {
    Go,
    Flush,
    Ask(Ask),
    Poll(int),
    Send(Ask),
    WaitEvent(Seq<char>, int),
    AwaitSent(int),
    Close,
    Spawn,
    Finish,
}

/// What the driver has to do.
pub enum Act {
    /// Nothing: go on.
    Go,
    /// Take in the events that have come already.
    Flush,
    /// Make a request and wait for its reply.
    Ask(Request),
    /// Wait so many seconds for the next event.
    Poll(u64),
    /// Send a request whose reply is waited for later.
    Send(Request),
    /// Wait so many seconds for an event of that name.
    WaitEvent(&'static str, u64),
    /// Wait so many seconds for the reply to the request that was sent.
    AwaitSent(u64),
    /// End the adapter.
    Close,
    /// Start the adapter.
    Spawn,
    /// Nothing more: the plan has come to its end.
    Finish,
}

impl View for Act {
    type V = ActModel;

    open spec fn view(&self) -> ActModel {
        match self {
            Act::Go => ActModel::Go,
            Act::Flush => ActModel::Flush,
            Act::Ask(r) => ActModel::Ask(r@),
            Act::Poll(s) => ActModel::Poll(*s as int),
            Act::Send(r) => ActModel::Send(r@),
            Act::WaitEvent(n, s) => ActModel::WaitEvent(n@, *s as int),
            Act::AwaitSent(s) => ActModel::AwaitSent(*s as int),
            Act::Close => ActModel::Close,
            Act::Spawn => ActModel::Spawn,
            Act::Finish => ActModel::Finish,
        }
    }
}

pub open spec fn resume_args(thread: int, insn: bool) -> Doc {
    let args = no_keys().with("threadId"@, Doc::Int(thread));
    if insn {
        args.with("granularity"@, Doc::Str("instruction"@))
    } else {
        args
    }
}

/// The thread that the session is at, or zero.
pub open spec fn thread_of(m: SessionModel) -> int {
    match m.cur_thread {
        Some(t) => t,
        None => 0,
    }
}

/// The thread to pause.
pub open spec fn pause_thread(m: SessionModel) -> int {
    match m.cur_thread {
        Some(t) => t,
        None => if m.threads.len() > 0 {
            m.threads[0].at("id"@).int_or(1)
        } else {
            1
        },
    }
}

pub open spec fn initialize_args() -> Doc {
    no_keys().with("adapterID"@, Doc::Str("lldb-dap"@)).with("clientID"@, Doc::Str("rdbg"@)).with(
        "linesStartAt1"@,
        Doc::Bool(true),
    ).with("columnsStartAt1"@, Doc::Bool(true)).with("pathFormat"@, Doc::Str("path"@)).with(
        "supportsVariableType"@,
        Doc::Bool(true),
    ).with("supportsRunInTerminalRequest"@, Doc::Bool(false))
}

pub open spec fn launch_args(m: SessionModel, entry: bool, commands: Seq<Seq<char>>) -> Doc {
    no_keys().with("program"@, Doc::Str(m.program)).with("cwd"@, Doc::Str(m.cwd)).with(
        "args"@,
        Doc::Arr(str_docs(m.args)),
    ).with("stopOnEntry"@, Doc::Bool(entry)).with("initCommands"@, Doc::Arr(str_docs(commands)))
}

pub open spec fn disconnect_ask() -> Ask {
    asking("disconnect"@, no_keys().with("terminateDebuggee"@, Doc::Bool(true)), 5)
}

/// What a plan calls for at the step it is at.
pub open spec fn action_of(t: TaskModel, m: SessionModel) -> ActModel {
    if t.at >= t.plan.len() {
        ActModel::Finish
    } else {
        match t.plan[t.at] {
            PhaseModel::Check => ActModel::Go,
            PhaseModel::Flush => ActModel::Flush,
            PhaseModel::Resume(c, i) => ActModel::Ask(
                asking(c, resume_args(thread_of(m), i), 120),
            ),
            PhaseModel::Pause => ActModel::Ask(
                asking("pause"@, no_keys().with("threadId"@, Doc::Int(pause_thread(m))), 5),
            ),
            PhaseModel::Await(s) => ActModel::Poll(s),
            PhaseModel::Threads => ActModel::Ask(asking("threads"@, Doc::Null, 10)),
            PhaseModel::Frames => ActModel::Ask(frames_ask(thread_of(m))),
            PhaseModel::AddTemp(_, _) => ActModel::Go,
            PhaseModel::RemoveTemp(_, _) => ActModel::Go,
            PhaseModel::SyncLine(p, _) => ActModel::Ask(line_sync(m, p)),
            PhaseModel::SyncFns => ActModel::Ask(fn_sync(m)),
            PhaseModel::Initialize => ActModel::Ask(
                asking("initialize"@, initialize_args(), 120),
            ),
            PhaseModel::Launch(e, c) => ActModel::Send(
                asking("launch"@, launch_args(m, e, c), 120),
            ),
            PhaseModel::Initialized => ActModel::WaitEvent("initialized"@, 120),
            PhaseModel::Configure => ActModel::Ask(
                asking("configurationDone"@, Doc::Null, 120),
            ),
            PhaseModel::Launched => ActModel::AwaitSent(120),
            PhaseModel::Disconnect => ActModel::Ask(disconnect_ask()),
            PhaseModel::Close => ActModel::Close,
            PhaseModel::Spawn => ActModel::Spawn,
            PhaseModel::Reset => ActModel::Go,
        }
    }
}

/// The request that ends the program.
pub fn disconnect() -> (r: Request)
    ensures
        r@ == disconnect_ask(),
{
    Request::new("disconnect", Json::obj().with("terminateDebuggee", Json::boolean(true)), 5)
}

impl Session {
    fn thread(&self) -> (r: i64)
        ensures
            r == thread_of(self@),
    {
        match self.cur_thread {
            Some(t) => t,
            None => 0,
        }
    }
}

impl Task {
    /// What the plan calls for at the step it is at.
    pub fn action(&self, s: &Session) -> (a: Act)
        ensures
            a@ == action_of(self@, s@),
    {
        if self.at >= self.plan.len() {
            return Act::Finish;
        }
        assert(self@.plan[self.at as int] == self.plan@[self.at as int]@);
        match &self.plan[self.at] {
            Phase::Check => Act::Go,
            Phase::Flush => Act::Flush,
            Phase::Resume(c, insn) => {
                let args = Json::obj().with("threadId", Json::number(s.thread()));
                let args = if *insn {
                    args.with("granularity", Json::text("instruction"))
                } else {
                    args
                };
                Act::Ask(Request::new(c.as_str(), args, 120))
            },
            Phase::Pause => {
                let thread: i64 = match s.cur_thread {
                    Some(t) => t,
                    None => if s.threads.len() > 0 {
                        s.threads[0].at("id").int_or(1)
                    } else {
                        1
                    },
                };
                Act::Ask(
                    Request::new("pause", Json::obj().with("threadId", Json::number(thread)), 5),
                )
            },
            Phase::Await(secs) => Act::Poll(*secs),
            Phase::Threads => Act::Ask(Request::new("threads", Json::Null, 10)),
            Phase::Frames => Act::Ask(ask_frames(s.thread())),
            Phase::AddTemp(_, _) => Act::Go,
            Phase::RemoveTemp(_, _) => Act::Go,
            Phase::SyncLine(p, _) => Act::Ask(s.sync_line(p.as_str())),
            Phase::SyncFns => Act::Ask(s.sync_fn()),
            Phase::Initialize => {
                let args = Json::obj().with("adapterID", Json::text("lldb-dap")).with(
                    "clientID",
                    Json::text("rdbg"),
                ).with("linesStartAt1", Json::boolean(true)).with(
                    "columnsStartAt1",
                    Json::boolean(true),
                ).with("pathFormat", Json::text("path")).with(
                    "supportsVariableType",
                    Json::boolean(true),
                ).with("supportsRunInTerminalRequest", Json::boolean(false));
                Act::Ask(Request::new("initialize", args, 120))
            },
            Phase::Launch(entry, commands) => {
                let args = Json::obj().with("program", Json::text(s.program.as_str())).with(
                    "cwd",
                    Json::text(s.cwd.as_str()),
                ).with("args", Json::strings(&s.args)).with("stopOnEntry", Json::boolean(*entry)).with(
                    "initCommands",
                    Json::strings(commands),
                );
                Act::Send(Request::new("launch", args, 120))
            },
            Phase::Initialized => Act::WaitEvent("initialized", 120),
            Phase::Configure => Act::Ask(Request::new("configurationDone", Json::Null, 120)),
            Phase::Launched => Act::AwaitSent(120),
            Phase::Disconnect => Act::Ask(disconnect()),
            Phase::Close => Act::Close,
            Phase::Spawn => Act::Spawn,
            Phase::Reset => Act::Go,
        }
    }
}

// ---------------------------------------------------------------------------
// What came of it
// ---------------------------------------------------------------------------

/// What came of an action.
pub ghost enum InputModel {
    Done,
    Reply(Option<Doc>),
    Event(Option<Doc>),
    Found(bool),
    Spawned(Option<Seq<char>>),
}

/// What came of an action.
pub enum Input {
    /// It is done.
    Done,
    /// The reply to a request; none within its time.
    Reply(Option<Json>),
    /// The next event; none within the time.
    Event(Option<Json>),
    /// Whether the awaited event came.
    Found(bool),
    /// The adapter was started, or why not.
    Spawned(Option<String>),
}

impl View for Input {
    type V = InputModel;

    open spec fn view(&self) -> InputModel {
        match self {
            Input::Done => InputModel::Done,
            Input::Reply(r) => InputModel::Reply(opt_view(*r)),
            Input::Event(e) => InputModel::Event(opt_view(*e)),
            Input::Found(b) => InputModel::Found(*b),
            Input::Spawned(e) => InputModel::Spawned(opt_text(*e)),
        }
    }
}

/// A step that is taken also where the plan has failed.
pub open spec fn is_cleanup(p: PhaseModel) -> bool {
    match p {
        PhaseModel::RemoveTemp(_, _) => true,
        PhaseModel::SyncLine(_, always) => always,
        _ => false,
    }
}

/// The next step from `i` on that is taken where the plan has failed.
pub open spec fn next_cleanup(plan: Seq<PhaseModel>, i: int) -> int
    decreases plan.len() - i,
{
    if i < 0 || i >= plan.len() || is_cleanup(plan[i]) {
        i
    } else {
        next_cleanup(plan, i + 1)
    }
}

/// The plan at its next step.
pub open spec fn onward(t: TaskModel) -> TaskModel {
    TaskModel {
        at: if t.error is Some {
            next_cleanup(t.plan, t.at + 1)
        } else {
            t.at + 1
        },
        ..t
    }
}

/// The plan where a step has failed: the first error stays.
pub open spec fn failed(t: TaskModel, e: Seq<char>) -> TaskModel {
    TaskModel { at: next_cleanup(t.plan, t.at + 1), error: Some(e), ..t }
}

/// The plan where a step that must succeed got a reply.
pub open spec fn answered(t: TaskModel, command: Seq<char>, reply: Option<Doc>) -> TaskModel {
    match request_error(command, reply) {
        Some(e) => failed(t, e),
        None => onward(t),
    }
}

/// What is said where the program neither stops nor ends.
pub open spec fn no_event() -> Seq<char> {
    "no stop/exit event (program may still be running — try `pause`)"@
}

/// The session and the plan where the program has ended.
pub open spec fn ended(t: TaskModel, m: SessionModel, code: Option<int>) -> (
    TaskModel,
    SessionModel,
) {
    let stop = exit_stop(code);
    (
        TaskModel {
            at: if t.plan.len() - t.at < 3 {
                t.plan.len() as int
            } else {
                t.at + 3
            },
            stop: Some(stop),
            ..t
        },
        SessionModel { last_stop: Some(stop), ..m },
    )
}

/// The session and the plan after an event.
pub open spec fn heard_event(t: TaskModel, m: SessionModel, ev: Doc) -> (TaskModel, SessionModel) {
    let name = ev.at("event"@).text();
    if name == Some("output"@) {
        (t, SessionModel { output: output_after(m.output, ev), ..m })
    } else if name == Some("exited"@) {
        ended(t, m, ev.at("body"@).at("exitCode"@).int64())
    } else if name == Some("terminated"@) {
        ended(t, m, None)
    } else if name == Some("stopped"@) {
        (
            TaskModel {
                at: t.at + 1,
                reason: ev.at("body"@).at("reason"@).text_or("stopped"@),
                ..t
            },
            SessionModel {
                cur_thread: match ev.at("body"@).at("threadId"@).int64() {
                    Some(n) => Some(n),
                    None => m.cur_thread,
                },
                cur_frame: 0,
                ..m
            },
        )
    } else {
        (t, m)
    }
}

/// A stop at a breakpoint.
pub open spec fn at_breakpoint(reason: Seq<char>) -> bool {
    reason == "breakpoint"@ || reason == "function breakpoint"@
}

/// The stop that the frames of the current thread make up.
pub open spec fn stop_from(m: SessionModel, reason: Seq<char>, reply: Doc) -> StopModel {
    StopModel {
        reason,
        thread_id: thread_of(m),
        frames: frames_from(reply),
        exited: false,
        exit_code: None,
    }
}

/// The session at a stop; with `count` as the hit of a breakpoint.
pub open spec fn stopped_at(m: SessionModel, stop: StopModel, count: bool) -> SessionModel {
    let counted = if count {
        hit_counted(m, stop)
    } else {
        m
    };
    SessionModel { last_stop: Some(stop), ..counted }
}

/// The session once its program has ended and another is to be launched.
pub open spec fn reset(m: SessionModel) -> SessionModel {
    SessionModel {
        configured: false,
        data_bps: Seq::empty(),
        threads: Seq::empty(),
        cur_thread: None,
        cur_frame: 0,
        prev_locals: Seq::empty(),
        ..m
    }
}

/// The plan and the session once the current step is done. An input that the
/// step does not call for changes nothing.
pub open spec fn stepped(t: TaskModel, m: SessionModel, input: InputModel) -> (
    TaskModel,
    SessionModel,
) {
    if t.at >= t.plan.len() {
        (t, m)
    } else {
        match (t.plan[t.at], input) {
            (PhaseModel::Check, InputModel::Done) => if m.cur_thread is None {
                (failed(t, "not stopped"@), m)
            } else {
                (onward(t), m)
            },
            (PhaseModel::Flush, InputModel::Done) => (onward(t), m),
            (PhaseModel::Resume(c, _), InputModel::Reply(r)) => (answered(t, c, r), m),
            (PhaseModel::Pause, InputModel::Reply(_)) => (onward(t), m),
            (PhaseModel::Await(_), InputModel::Event(Some(ev))) => heard_event(t, m, ev),
            (PhaseModel::Await(_), InputModel::Event(None)) => (failed(t, no_event()), m),
            (PhaseModel::Threads, InputModel::Reply(r)) => (
                onward(t),
                SessionModel {
                    threads: soft_reply(r).at("body"@).at("threads"@).items(),
                    ..m
                },
            ),
            (PhaseModel::Frames, InputModel::Reply(r)) => {
                let stop = stop_from(m, t.reason, soft_reply(r));
                (
                    onward(TaskModel { stop: Some(stop), ..t }),
                    stopped_at(m, stop, at_breakpoint(t.reason)),
                )
            },
            (PhaseModel::AddTemp(p, l), InputModel::Done) => (onward(t), temp_added(m, p, l)),
            (PhaseModel::RemoveTemp(p, l), InputModel::Done) => (onward(t), temp_removed(m, p, l)),
            (PhaseModel::SyncLine(_, _), InputModel::Reply(_)) => (onward(t), m),
            (PhaseModel::SyncFns, InputModel::Reply(r)) => (
                onward(t),
                fns_replied(m, soft_reply(r)),
            ),
            (PhaseModel::Initialize, InputModel::Reply(r)) => (answered(t, "initialize"@, r), m),
            (PhaseModel::Launch(_, _), InputModel::Done) => (onward(t), m),
            (PhaseModel::Initialized, InputModel::Found(b)) => if b {
                (onward(t), m)
            } else {
                (failed(t, "adapter never sent `initialized`"@), m)
            },
            (PhaseModel::Configure, InputModel::Reply(r)) => (
                answered(t, "configurationDone"@, r),
                if request_error("configurationDone"@, r) is None {
                    SessionModel { configured: true, ..m }
                } else {
                    m
                },
            ),
            (PhaseModel::Launched, InputModel::Reply(r)) => if r is None {
                (failed(t, "launch did not complete"@), m)
            } else {
                (onward(t), m)
            },
            (PhaseModel::Disconnect, InputModel::Reply(_)) => (onward(t), m),
            (PhaseModel::Close, InputModel::Done) => (onward(t), m),
            (PhaseModel::Spawn, InputModel::Spawned(e)) => match e {
                Some(why) => (failed(t, "relaunch failed: "@ + why), m),
                None => (onward(t), m),
            },
            (PhaseModel::Reset, InputModel::Done) => (onward(t), reset(m)),
            _ => (t, m),
        }
    }
}

fn cleanup(p: &Phase) -> (r: bool)
    ensures
        r == is_cleanup(p@),
{
    match p {
        Phase::RemoveTemp(_, _) => true,
        Phase::SyncLine(_, always) => *always,
        _ => false,
    }
}

impl Task {
    fn find_cleanup(&self, from: usize) -> (r: usize)
        requires
            from <= self.plan.len(),
        ensures
            r == next_cleanup(self@.plan, from as int),
            r <= self.plan.len(),
    {
        let mut i: usize = from;
        while i < self.plan.len() && !cleanup(&self.plan[i])
            invariant
                from <= i <= self.plan.len(),
                next_cleanup(self@.plan, from as int) == next_cleanup(self@.plan, i as int),
            decreases self.plan.len() - i,
        {
            assert(self@.plan[i as int] == self.plan@[i as int]@);
            i += 1;
        }
        if i < self.plan.len() {
            assert(self@.plan[i as int] == self.plan@[i as int]@);
        }
        i
    }

    fn go_on(&mut self)
        requires
            old(self).at < old(self).plan.len(),
        ensures
            final(self)@ == onward(old(self)@),
            final(self).plan == old(self).plan,
    {
        match &self.error {
            Some(_) => {
                let n: usize = self.find_cleanup(self.at + 1);
                self.at = n;
            },
            None => {
                self.at = self.at + 1;
            },
        }
    }

    fn fail(&mut self, e: String)
        requires
            old(self).at < old(self).plan.len(),
        ensures
            final(self)@ == failed(old(self)@, e@),
    {
        let n: usize = self.find_cleanup(self.at + 1);
        self.at = n;
        self.error = Some(e);
    }

    fn answer(&mut self, command: &str, reply: Option<Json>) -> (ok: bool)
        requires
            old(self).at < old(self).plan.len(),
        ensures
            final(self)@ == answered(old(self)@, command@, opt_view(reply)),
            ok == (request_error(command@, opt_view(reply)) is None),
    {
        match request(command, reply) {
            Ok(_) => {
                self.go_on();
                true
            },
            Err(e) => {
                self.fail(e);
                false
            },
        }
    }
}

impl Task {
    fn end(&mut self, s: &mut Session, code: Option<i64>)
        requires
            old(self).at < old(self).plan.len(),
        ensures
            (final(self)@, final(s)@) == ended(old(self)@, old(s)@, opt_int(code)),
            old(s)@.wf() ==> final(s)@.wf(),
    {
        let n: usize = self.plan.len();
        self.at = if n - self.at < 3 {
            n
        } else {
            self.at + 3
        };
        let stop = Stop::exited(code);
        s.last_stop = Some(stop.copy());
        self.stop = Some(stop);
    }

    fn hear(&mut self, s: &mut Session, ev: &Json)
        requires
            old(self).at < old(self).plan.len(),
        ensures
            (final(self)@, final(s)@) == heard_event(old(self)@, old(s)@, ev@),
            old(s)@.wf() ==> final(s)@.wf(),
    {
        let name = match ev.at("event").as_str() {
            Some(n) => n,
            None => return,
        };
        proof {
            reveal_strlit("output");
            reveal_strlit("exited");
            reveal_strlit("terminated");
            reveal_strlit("stopped");
        }
        if same(name, "output") {
            s.note_output(ev);
        } else if same(name, "exited") {
            self.end(s, ev.at("body").at("exitCode").as_i64());
        } else if same(name, "terminated") {
            self.end(s, None);
        } else if same(name, "stopped") {
            if let Some(tid) = ev.at("body").at("threadId").as_i64() {
                s.cur_thread = Some(tid);
            }
            s.cur_frame = 0;
            self.at = self.at + 1;
            self.reason = ev.at("body").at("reason").str_or("stopped");
        }
    }

    /// Takes what came of the action, and goes on to the next step.
    pub fn feed(&mut self, s: &mut Session, input: Input)
        ensures
            (final(self)@, final(s)@) == stepped(old(self)@, old(s)@, input@),
            old(s)@.wf() ==> final(s)@.wf(),
    {
        if self.at >= self.plan.len() {
            return;
        }
        assert(self@.plan[self.at as int] == self.plan@[self.at as int]@);
        match input {
            Input::Done => match &self.plan[self.at] {
                Phase::Check => match s.cur_thread {
                    None => self.fail(owned("not stopped")),
                    Some(_) => self.go_on(),
                },
                Phase::Flush => self.go_on(),
                Phase::AddTemp(p, l) => {
                    s.add_temp(p.as_str(), *l);
                    self.go_on();
                },
                Phase::RemoveTemp(p, l) => {
                    s.remove_temp(p.as_str(), *l);
                    self.go_on();
                },
                Phase::Launch(_, _) => self.go_on(),
                Phase::Close => self.go_on(),
                Phase::Reset => {
                    s.reset();
                    self.go_on();
                },
                _ => {},
            },
            Input::Reply(reply) => match &self.plan[self.at] {
                Phase::Resume(c, _) => {
                    let command = owned(c.as_str());
                    self.answer(command.as_str(), reply);
                },
                Phase::Pause => self.go_on(),
                Phase::Threads => {
                    let r = request_soft(reply);
                    s.set_threads(&r);
                    self.go_on();
                },
                Phase::Frames => {
                    let r = request_soft(reply);
                    let stop = s.arrive(self.reason.as_str(), &r);
                    self.stop = Some(stop);
                    self.go_on();
                },
                Phase::SyncLine(_, _) => self.go_on(),
                Phase::SyncFns => {
                    let r = request_soft(reply);
                    s.bind_fns(&r);
                    self.go_on();
                },
                Phase::Initialize => {
                    self.answer("initialize", reply);
                },
                Phase::Configure => {
                    if self.answer("configurationDone", reply) {
                        s.configured = true;
                    }
                },
                Phase::Launched => match reply {
                    None => self.fail(owned("launch did not complete")),
                    Some(_) => self.go_on(),
                },
                Phase::Disconnect => self.go_on(),
                _ => {},
            },
            Input::Event(ev) => match &self.plan[self.at] {
                Phase::Await(_) => match ev {
                    Some(e) => self.hear(s, &e),
                    None => self.fail(
                        owned("no stop/exit event (program may still be running — try `pause`)"),
                    ),
                },
                _ => {},
            },
            Input::Found(b) => match &self.plan[self.at] {
                Phase::Initialized => {
                    if b {
                        self.go_on();
                    } else {
                        self.fail(owned("adapter never sent `initialized`"));
                    }
                },
                _ => {},
            },
            Input::Spawned(e) => match &self.plan[self.at] {
                Phase::Spawn => match e {
                    Some(why) => {
                        let mut text = String::from_str("relaunch failed: ");
                        text.append(why.as_str());
                        self.fail(text);
                    },
                    None => self.go_on(),
                },
                _ => {},
            },
        }
    }

    /// What the plan came to: an error, or the stop it ended with.
    pub fn outcome(self) -> (r: Result<Option<Stop>, String>)
        ensures
            match r {
                Ok(stop) => self@.error is None && self@.stop == opt_stop(stop),
                Err(e) => self@.error == Some(e@),
            },
    {
        match self.error {
            Some(e) => Err(e),
            None => Ok(self.stop),
        }
    }
}

impl Session {
    fn set_threads(&mut self, reply: &Json)
        ensures
            final(self)@ == (SessionModel {
                threads: reply@.at("body"@).at("threads"@).items(),
                ..old(self)@
            }),
    {
        let mut out: Vec<Json> = Vec::new();
        match reply.at("body").at("threads").as_array() {
            Some(a) => {
                let mut i: usize = 0;
                while i < a.len()
                    invariant
                        i <= a.len(),
                        out.len() == i,
                        forall|k: int| 0 <= k < i ==> (#[trigger] out@[k])@ == a@[k]@,
                    decreases a.len() - i,
                {
                    out.push(a[i].copy());
                    i += 1;
                }
                assert(docs(out@) =~= docs(a@));
            },
            None => {
                assert(docs(out@) =~= Seq::empty());
            },
        }
        self.threads = out;
    }

    /// Arrives at a stop, by the reply with the frames of the current thread;
    /// a stop at a breakpoint counts as its hit.
    pub fn arrive(&mut self, reason: &str, reply: &Json) -> (stop: Stop)
        ensures
            stop@ == stop_from(old(self)@, reason@, reply@),
            final(self)@ == stopped_at(
                old(self)@,
                stop_from(old(self)@, reason@, reply@),
                at_breakpoint(reason@),
            ),
            old(self)@.wf() ==> final(self)@.wf(),
    {
        let stop = Stop {
            reason: owned(reason),
            thread_id: self.thread(),
            frames: frames(reply),
            exited: false,
            exit_code: None,
        };
        if same(reason, "breakpoint") || same(reason, "function breakpoint") {
            self.count_hit(&stop);
        }
        self.last_stop = Some(stop.copy());
        stop
    }

    /// Forgets what belonged to the program that has ended: watchpoints are
    /// bound to it, and there is nothing to diff against yet.
    pub fn reset(&mut self)
        ensures
            final(self)@ == reset(old(self)@),
            old(self)@.wf() ==> final(self)@.wf(),
    {
        self.configured = false;
        self.data_bps = Vec::new();
        self.threads = Vec::new();
        self.cur_thread = None;
        self.cur_frame = 0;
        self.prev_locals = Vec::new();
        assert(self@.data_bps =~= Seq::empty());
        assert(self@.threads =~= Seq::empty());
        assert(self@.prev_locals =~= Seq::empty());
    }
}

// ---------------------------------------------------------------------------
// The plans
// ---------------------------------------------------------------------------

/// Waiting for a stop, and reading where it is.
pub open spec fn await_plan(secs: int) -> Seq<PhaseModel> {
    seq![PhaseModel::Await(secs), PhaseModel::Threads, PhaseModel::Frames]
}

/// Letting the program run to its next stop.
pub open spec fn resume_plan(command: Seq<char>, insn: bool) -> Seq<PhaseModel> {
    seq![PhaseModel::Check, PhaseModel::Flush, PhaseModel::Resume(command, insn)] + await_plan(120)
}

/// Running to a line.
pub open spec fn until_plan(path: Seq<char>, line: int) -> Seq<PhaseModel> {
    seq![PhaseModel::AddTemp(path, line), PhaseModel::SyncLine(path, false)] + resume_plan(
        "continue"@,
        false,
    ) + seq![PhaseModel::RemoveTemp(path, line), PhaseModel::SyncLine(path, true)]
}

/// Interrupting the program.
pub open spec fn pause_plan() -> Seq<PhaseModel> {
    seq![PhaseModel::Flush, PhaseModel::Pause] + await_plan(30)
}

/// Telling the adapter of the breakpoints of each file.
pub open spec fn sync_plan(fs: Seq<FileModel>) -> Seq<PhaseModel> {
    Seq::new(fs.len(), |i: int| PhaseModel::SyncLine(fs[i].path, false))
}

/// Launching the program.
pub open spec fn launch_plan(
    m: SessionModel,
    entry: bool,
    commands: Seq<Seq<char>>,
) -> Seq<PhaseModel> {
    seq![PhaseModel::Initialize, PhaseModel::Launch(entry, commands), PhaseModel::Initialized]
        + sync_plan(m.line_bps) + seq![
        PhaseModel::SyncFns,
        PhaseModel::Configure,
        PhaseModel::Launched,
    ]
}

/// Relaunching the program.
pub open spec fn restart_plan(m: SessionModel, commands: Seq<Seq<char>>) -> Seq<PhaseModel> {
    seq![PhaseModel::Disconnect, PhaseModel::Close, PhaseModel::Spawn, PhaseModel::Reset]
        + launch_plan(m, false, commands) + await_plan(120)
}

fn push_await(plan: &mut Vec<Phase>, secs: u64)
    ensures
        phases_in(final(plan)@) == phases_in(old(plan)@) + await_plan(secs as int),
{
    plan.push(Phase::Await(secs));
    plan.push(Phase::Threads);
    plan.push(Phase::Frames);
    assert(phases_in(plan@) =~= phases_in(old(plan)@) + await_plan(secs as int));
}

fn push_resume(plan: &mut Vec<Phase>, command: &str, insn: bool)
    ensures
        phases_in(final(plan)@) == phases_in(old(plan)@) + resume_plan(command@, insn),
{
    plan.push(Phase::Check);
    plan.push(Phase::Flush);
    plan.push(Phase::Resume(owned(command), insn));
    push_await(plan, 120);
    assert(phases_in(plan@) =~= phases_in(old(plan)@) + resume_plan(command@, insn));
}

fn push_launch(plan: &mut Vec<Phase>, s: &Session, entry: bool, commands: &Vec<String>)
    ensures
        phases_in(final(plan)@) == phases_in(old(plan)@) + launch_plan(
            s@,
            entry,
            views(commands@),
        ),
{
    plan.push(Phase::Initialize);
    plan.push(Phase::Launch(entry, copy_all(commands)));
    plan.push(Phase::Initialized);
    let ghost head = phases_in(plan@);
    assert(head =~= phases_in(old(plan)@) + seq![
        PhaseModel::Initialize,
        PhaseModel::Launch(entry, views(commands@)),
        PhaseModel::Initialized,
    ]);
    let ghost syncs = sync_plan(s@.line_bps);
    let mut i: usize = 0;
    assert(head + syncs.take(0) =~= head);
    while i < s.line_bps.len()
        invariant
            i <= s.line_bps.len(),
            syncs == sync_plan(s@.line_bps),
            phases_in(plan@) == head + syncs.take(i as int),
        decreases s.line_bps.len() - i,
    {
        let ghost before = phases_in(plan@);
        plan.push(Phase::SyncLine(owned(s.line_bps[i].path.as_str()), false));
        assert(phases_in(plan@) =~= before.push(syncs[i as int]));
        assert(syncs.take(i + 1) =~= syncs.take(i as int).push(syncs[i as int]));
        assert(phases_in(plan@) =~= head + syncs.take(i + 1));
        i += 1;
    }
    assert(syncs.take(syncs.len() as int) =~= syncs);
    let ghost before = phases_in(plan@);
    plan.push(Phase::SyncFns);
    plan.push(Phase::Configure);
    plan.push(Phase::Launched);
    assert(phases_in(plan@) =~= before + seq![
        PhaseModel::SyncFns,
        PhaseModel::Configure,
        PhaseModel::Launched,
    ]);
    assert(phases_in(plan@) =~= phases_in(old(plan)@) + launch_plan(s@, entry, views(commands@)));
}

impl Session {
    /// Launches the program, after commands to the adapter.
    pub fn launch(&self, stop_on_entry: bool, commands: &Vec<String>) -> (t: Task)
        ensures
            t@ == task_of(launch_plan(self@, stop_on_entry, views(commands@))),
    {
        let mut plan: Vec<Phase> = Vec::new();
        push_launch(&mut plan, self, stop_on_entry, commands);
        assert(phases_in(plan@) =~= launch_plan(self@, stop_on_entry, views(commands@)));
        begin(plan)
    }

    /// Waits for the first stop of a program that has been launched.
    pub fn run(&self) -> (t: Task)
        ensures
            t@ == task_of(await_plan(120)),
    {
        let mut plan: Vec<Phase> = Vec::new();
        push_await(&mut plan, 120);
        assert(phases_in(plan@) =~= await_plan(120));
        begin(plan)
    }

    fn resume(&self, command: &str, insn: bool) -> (t: Task)
        ensures
            t@ == task_of(resume_plan(command@, insn)),
    {
        let mut plan: Vec<Phase> = Vec::new();
        push_resume(&mut plan, command, insn);
        assert(phases_in(plan@) =~= resume_plan(command@, insn));
        begin(plan)
    }

    /// Runs to the next stop.
    pub fn cont(&self) -> (t: Task)
        ensures
            t@ == task_of(resume_plan("continue"@, false)),
    {
        self.resume("continue", false)
    }

    /// Runs over a source line, or one instruction.
    pub fn step_over(&self, insn: bool) -> (t: Task)
        ensures
            t@ == task_of(resume_plan("next"@, insn)),
    {
        self.resume("next", insn)
    }

    /// Runs into the next call.
    pub fn step_in(&self) -> (t: Task)
        ensures
            t@ == task_of(resume_plan("stepIn"@, false)),
    {
        self.resume("stepIn", false)
    }

    /// Runs out of the current call.
    pub fn step_out(&self) -> (t: Task)
        ensures
            t@ == task_of(resume_plan("stepOut"@, false)),
    {
        self.resume("stepOut", false)
    }

    /// Runs to a line of a file, given by its absolute path.
    pub fn until(&self, path: &str, line: i64) -> (t: Task)
        ensures
            t@ == task_of(until_plan(path@, line as int)),
    {
        let mut plan: Vec<Phase> = Vec::new();
        plan.push(Phase::AddTemp(owned(path), line));
        plan.push(Phase::SyncLine(owned(path), false));
        assert(phases_in(plan@) =~= seq![
            PhaseModel::AddTemp(path@, line as int),
            PhaseModel::SyncLine(path@, false),
        ]);
        push_resume(&mut plan, "continue", false);
        let ghost before = phases_in(plan@);
        plan.push(Phase::RemoveTemp(owned(path), line));
        plan.push(Phase::SyncLine(owned(path), true));
        assert(phases_in(plan@) =~= before + seq![
            PhaseModel::RemoveTemp(path@, line as int),
            PhaseModel::SyncLine(path@, true),
        ]);
        assert(phases_in(plan@) =~= until_plan(path@, line as int));
        begin(plan)
    }

    /// Interrupts the program.
    pub fn pause(&self) -> (t: Task)
        ensures
            t@ == task_of(pause_plan()),
    {
        let mut plan: Vec<Phase> = Vec::new();
        plan.push(Phase::Flush);
        plan.push(Phase::Pause);
        push_await(&mut plan, 30);
        assert(phases_in(plan@) =~= pause_plan());
        begin(plan)
    }

    /// Relaunches the program with the same line, function and panic
    /// breakpoints.
    pub fn restart(&self, commands: &Vec<String>) -> (t: Task)
        ensures
            t@ == task_of(restart_plan(self@, views(commands@))),
    {
        let mut plan: Vec<Phase> = Vec::new();
        plan.push(Phase::Disconnect);
        plan.push(Phase::Close);
        plan.push(Phase::Spawn);
        plan.push(Phase::Reset);
        push_launch(&mut plan, self, false, commands);
        push_await(&mut plan, 120);
        assert(phases_in(plan@) =~= restart_plan(self@, views(commands@)));
        begin(plan)
    }
}

// ---------------------------------------------------------------------------
// Threads
// ---------------------------------------------------------------------------

/// There is a thread with that id.
pub open spec fn has_thread(m: SessionModel, id: int) -> bool {
    exists|i: int| 0 <= i < m.threads.len() && (#[trigger] m.threads[i]).at("id"@).int64() == Some(id)
}

/// The session with a thread selected, by the reply with its frames.
pub open spec fn thread_selected(m: SessionModel, id: int, reply: Doc) -> SessionModel {
    let at = SessionModel { cur_thread: Some(id), cur_frame: 0, ..m };
    stopped_at(at, stop_from(at, "switch"@, reply), false)
}

impl Session {
    /// The request for the frames of a thread to switch to; `None` where there
    /// is no such thread.
    pub fn ask_thread(&self, id: i64) -> (r: Option<Request>)
        ensures
            match r {
                Some(q) => has_thread(self@, id as int) && q@ == frames_ask(id as int),
                None => !has_thread(self@, id as int),
            },
    {
        let mut i: usize = 0;
        while i < self.threads.len()
            invariant
                i <= self.threads.len(),
                forall|k: int|
                    0 <= k < i ==> (#[trigger] self@.threads[k]).at("id"@).int64() != Some(
                        id as int,
                    ),
            decreases self.threads.len() - i,
        {
            assert(self@.threads[i as int] == self.threads@[i as int]@);
            let found = match self.threads[i].at("id").as_i64() {
                Some(n) => n == id,
                None => false,
            };
            if found {
                return Some(ask_frames(id));
            }
            i += 1;
        }
        None
    }

    /// Switches to a thread, by the reply with its frames.
    pub fn select_thread(&mut self, id: i64, reply: &Json)
        ensures
            final(self)@ == thread_selected(old(self)@, id as int, reply@),
            old(self)@.wf() ==> final(self)@.wf(),
    {
        self.cur_thread = Some(id);
        self.cur_frame = 0;
        let stop = Stop {
            reason: owned("switch"),
            thread_id: id,
            frames: frames(reply),
            exited: false,
            exit_code: None,
        };
        self.last_stop = Some(stop);
    }
}

// ---------------------------------------------------------------------------
// What plans keep
// ---------------------------------------------------------------------------

/// A run to a line takes its line back, whatever comes of it: no step before
/// that one leads past it, and that step does it.
pub proof fn until_takes_its_line_back(
    t: TaskModel,
    m: SessionModel,
    input: InputModel,
    path: Seq<char>,
    line: int,
)
    requires
        t.plan == until_plan(path, line),
        0 <= t.at <= 8,
    ensures
        stepped(t, m, input).0.plan == t.plan,
        t.at < 8 ==> t.at <= stepped(t, m, input).0.at <= 8,
        t.at == 8 ==> stepped(t, m, InputModel::Done).1 == temp_removed(m, path, line),
        t.at == 8 ==> stepped(t, m, InputModel::Done).0.at == 9,
{
    let plan = t.plan;
    assert(plan.len() == 10);
    assert(plan[0] == PhaseModel::AddTemp(path, line));
    assert(plan[1] == PhaseModel::SyncLine(path, false));
    assert(plan[2] == PhaseModel::Check);
    assert(plan[3] == PhaseModel::Flush);
    assert(plan[4] == PhaseModel::Resume("continue"@, false));
    assert(plan[5] == PhaseModel::Await(120));
    assert(plan[6] == PhaseModel::Threads);
    assert(plan[7] == PhaseModel::Frames);
    assert(plan[8] == PhaseModel::RemoveTemp(path, line));
    assert(plan[9] == PhaseModel::SyncLine(path, true));
    reveal_with_fuel(next_cleanup, 10);
    assert(next_cleanup(plan, 9) == 9);
    assert(next_cleanup(plan, 8) == 8);
    if t.at < 8 {
        assert(next_cleanup(plan, t.at + 1) == 8);
    }
}

/// A step that fails keeps the error, and the plan ends with it: what is still
/// done is cleaning up.
pub proof fn a_failed_plan_only_cleans_up(t: TaskModel, e: Seq<char>)
    requires
        0 <= t.at < t.plan.len(),
    ensures
        failed(t, e).error == Some(e),
        failed(t, e).at > t.at,
        failed(t, e).at < t.plan.len() ==> is_cleanup(t.plan[failed(t, e).at]),
        t.error is Some && onward(t).at < t.plan.len() ==> is_cleanup(t.plan[onward(t).at]),
{
    lemma_next_cleanup(t.plan, t.at + 1);
}

proof fn lemma_next_cleanup(plan: Seq<PhaseModel>, i: int)
    requires
        0 <= i <= plan.len(),
    ensures
        i <= next_cleanup(plan, i) <= plan.len(),
        next_cleanup(plan, i) < plan.len() ==> is_cleanup(plan[next_cleanup(plan, i)]),
    decreases plan.len() - i,
{
    if i < plan.len() && !is_cleanup(plan[i]) {
        lemma_next_cleanup(plan, i + 1);
    }
}

// ---------------------------------------------------------------------------
// What a run comes to
// ---------------------------------------------------------------------------

/// A program that is let run asks the adapter to resume the current thread, by
/// the command given, and waits. When the program stops, its threads are read
/// and the frames of the thread that stopped; the stop is made of the reason
/// and the thread of the event and of those frames, and the session is at its
/// innermost frame.
pub proof fn a_resumed_program_is_read_where_it_stops(
    m: SessionModel,
    command: Seq<char>,
    insn: bool,
    thread: int,
    ok: Doc,
    ev: Doc,
    reason: Seq<char>,
    stopped: int,
    threads: Doc,
    frames: Doc,
)
    requires
        m.cur_thread == Some(thread),
        ok.at("success"@) == Doc::Bool(true),
        ev.at("event"@) == Doc::Str("stopped"@),
        ev.at("body"@).at("reason"@) == Doc::Str(reason),
        ev.at("body"@).at("threadId"@) == Doc::Int(stopped),
        i64::MIN <= stopped <= i64::MAX,
    ensures
        ({
            let t0 = task_of(resume_plan(command, insn));
            let (t1, m1) = stepped(t0, m, InputModel::Done);
            let (t2, m2) = stepped(t1, m1, InputModel::Done);
            let (t3, m3) = stepped(t2, m2, InputModel::Reply(Some(ok)));
            let (t4, m4) = stepped(t3, m3, InputModel::Event(Some(ev)));
            let (t5, m5) = stepped(t4, m4, InputModel::Reply(Some(threads)));
            let (t6, m6) = stepped(t5, m5, InputModel::Reply(Some(frames)));
            &&& action_of(t1, m1) == ActModel::Flush
            &&& action_of(t2, m2) matches ActModel::Ask(a) && a.command == command && a.args.at(
                "threadId"@,
            ) == Doc::Int(thread) && (a.args.at("granularity"@) == Doc::Str("instruction"@)
                <==> insn)
            &&& action_of(t3, m3) == ActModel::Poll(120)
            &&& action_of(t4, m4) matches ActModel::Ask(a) && a.command == "threads"@
            &&& action_of(t5, m5) matches ActModel::Ask(a) && a.command == "stackTrace"@ && a.args.at(
                "threadId"@,
            ) == Doc::Int(stopped)
            &&& action_of(t6, m6) == ActModel::Finish
            &&& t6.error is None
            &&& t6.stop matches Some(stop) && stop.reason == reason && stop.thread_id == stopped
                && !stop.exited && stop.exit_code is None && stop.frames == frames_from(frames)
            &&& m6.last_stop == t6.stop
            &&& m6.cur_thread == Some(stopped)
            &&& m6.cur_frame == 0
            &&& m6.threads == threads.at("body"@).at("threads"@).items()
            &&& reason == "breakpoint"@ || reason == "function breakpoint"@ ==> m6.fn_bps
                == hit_counted(m5, t6.stop->0).fn_bps && m6.line_bps == hit_counted(
                m5,
                t6.stop->0,
            ).line_bps
            &&& reason != "breakpoint"@ && reason != "function breakpoint"@ ==> m6.fn_bps
                == m.fn_bps && m6.line_bps == m.line_bps
            &&& m6.output == m.output && m6.watches == m.watches && m6.data_bps == m.data_bps
        }),
{
    reveal_strlit("threadId");
    reveal_strlit("granularity");
    reveal_strlit("levels");
    assert("threadId"@.len() == 8 && "granularity"@.len() == 11 && "levels"@.len() == 6);
    lemma_event_names();
    let plan = resume_plan(command, insn);
    assert(plan.len() == 6);
    assert(plan[0] == PhaseModel::Check && plan[1] == PhaseModel::Flush);
    assert(plan[2] == PhaseModel::Resume(command, insn) && plan[3] == PhaseModel::Await(120));
    assert(plan[4] == PhaseModel::Threads && plan[5] == PhaseModel::Frames);
}

proof fn lemma_event_names()
    ensures
        "stopped"@ != "output"@,
        "stopped"@ != "exited"@,
        "stopped"@ != "terminated"@,
        "exited"@ != "output"@,
        "terminated"@ != "output"@,
        "terminated"@ != "exited"@,
{
    reveal_strlit("stopped");
    reveal_strlit("output");
    reveal_strlit("exited");
    reveal_strlit("terminated");
    assert("stopped"@.len() == 7 && "output"@.len() == 6 && "exited"@.len() == 6
        && "terminated"@.len() == 10);
    assert("output"@[0] == 'o' && "exited"@[0] == 'e');
}

/// A program that ends while it is waited for makes a stop that says so, with
/// the exit code where there is one, and nothing more is asked. What it prints
/// meanwhile is kept, and any other event changes nothing: the wait goes on.
pub proof fn a_program_that_ends_is_waited_for_no_more(
    m: SessionModel,
    secs: int,
    exited: Doc,
    code: int,
    gone: Doc,
    printed: Doc,
    text: Seq<char>,
    other: Doc,
)
    requires
        exited.at("event"@) == Doc::Str("exited"@),
        exited.at("body"@).at("exitCode"@) == Doc::Int(code),
        i64::MIN <= code <= i64::MAX,
        gone.at("event"@) == Doc::Str("terminated"@),
        printed.at("event"@) == Doc::Str("output"@),
        printed.at("body"@).at("output"@) == Doc::Str(text),
        other.at("event"@) != Doc::Str("exited"@),
        other.at("event"@) != Doc::Str("terminated"@),
        other.at("event"@) != Doc::Str("output"@),
        other.at("event"@) != Doc::Str("stopped"@),
    ensures
        ({
            let t = task_of(await_plan(secs));
            let (t1, m1) = stepped(t, m, InputModel::Event(Some(exited)));
            let (t2, m2) = stepped(t, m, InputModel::Event(Some(gone)));
            let (t3, m3) = stepped(t, m, InputModel::Event(Some(printed)));
            let (t4, m4) = stepped(t, m, InputModel::Event(None));
            &&& action_of(t, m) == ActModel::Poll(secs)
            &&& action_of(t1, m1) == ActModel::Finish && t1.error is None
            &&& t1.stop matches Some(stop) && stop.exited && stop.exit_code == Some(code)
                && stop.frames.len() == 0
            &&& m1 == (SessionModel { last_stop: t1.stop, ..m })
            &&& action_of(t2, m2) == ActModel::Finish && t2.error is None
            &&& t2.stop matches Some(stop) && stop.exited && stop.exit_code is None
            &&& m2 == (SessionModel { last_stop: t2.stop, ..m })
            &&& t3 == t && m3 == (SessionModel { output: m.output.push(text), ..m })
            &&& stepped(t, m, InputModel::Event(Some(other))) == (t, m)
            &&& action_of(t4, m4) == ActModel::Finish && t4.error is Some && t4.stop is None && m4
                == m
        }),
{
    lemma_event_names();
    let plan = await_plan(secs);
    let t = task_of(plan);
    assert(plan.len() == 3);
    lemma_no_cleanup(plan, 1);
}

proof fn lemma_no_cleanup(plan: Seq<PhaseModel>, i: int)
    requires
        0 <= i <= plan.len(),
        forall|k: int| i <= k < plan.len() ==> !is_cleanup(#[trigger] plan[k]),
    ensures
        next_cleanup(plan, i) == plan.len(),
    decreases plan.len() - i,
{
    if i < plan.len() {
        lemma_no_cleanup(plan, i + 1);
    }
}

/// A program that is not stopped is not let run, and one that the adapter does
/// not resume is not waited for: the plan ends with what it said.
pub proof fn what_cannot_run_is_not_waited_for(
    m: SessionModel,
    command: Seq<char>,
    insn: bool,
    refusal: Doc,
    why: Seq<char>,
)
    requires
        refusal.at("success"@) != Doc::Bool(true),
        refusal.at("message"@) == Doc::Str(why),
    ensures
        ({
            let t0 = task_of(resume_plan(command, insn));
            let (t1, m1) = stepped(t0, m, InputModel::Done);
            let (t2, m2) = stepped(t1, m1, InputModel::Done);
            let (t3, m3) = stepped(t2, m2, InputModel::Reply(Some(refusal)));
            &&& m.cur_thread is None ==> action_of(t1, m1) == ActModel::Finish && t1.error == Some(
                "not stopped"@,
            ) && m1 == m
            &&& m.cur_thread is Some ==> action_of(t3, m3) == ActModel::Finish && t3.error == Some(
                why,
            ) && t3.stop is None && m3 == m
        }),
{
    let plan = resume_plan(command, insn);
    assert(plan.len() == 6);
    assert(plan[0] == PhaseModel::Check && plan[1] == PhaseModel::Flush);
    assert(plan[2] == PhaseModel::Resume(command, insn) && plan[3] == PhaseModel::Await(120));
    assert(plan[4] == PhaseModel::Threads && plan[5] == PhaseModel::Frames);
    lemma_no_cleanup(plan, 1);
    lemma_no_cleanup(plan, 3);
}

/// A launch introduces the debugger, asks for the program with its directory
/// and arguments, and then, when the adapter is ready and before it says that
/// all is told, tells it of the breakpoints of every file and of the functions;
/// only at the end does it wait for the program to be launched.
pub proof fn a_launch_tells_of_every_breakpoint_before_it_ends(
    m: SessionModel,
    entry: bool,
    commands: Seq<Seq<char>>,
    f: int,
)
    ensures
        ({
            let plan = launch_plan(m, entry, commands);
            let n = m.line_bps.len() as int;
            let sent = action_of(TaskModel { at: 1, ..task_of(plan) }, m);
            let first = action_of(task_of(plan), m);
            &&& plan.len() == n + 6
            &&& first matches ActModel::Ask(a) && a.command == "initialize"@
            &&& sent matches ActModel::Send(a) && a.command == "launch"@ && a.args.at("program"@)
                == Doc::Str(m.program) && a.args.at("cwd"@) == Doc::Str(m.cwd) && a.args.at(
                "stopOnEntry"@,
            ) == Doc::Bool(entry) && a.args.at("args"@).items().len() == m.args.len() && a.args.at(
                "initCommands"@,
            ).items().len() == commands.len() && (forall|i: int|
                0 <= i < m.args.len() ==> #[trigger] a.args.at("args"@).items()[i] == Doc::Str(
                    m.args[i],
                )) && (forall|i: int|
                0 <= i < commands.len() ==> #[trigger] a.args.at("initCommands"@).items()[i]
                    == Doc::Str(commands[i]))
            &&& action_of(TaskModel { at: 2, ..task_of(plan) }, m) == ActModel::WaitEvent(
                "initialized"@,
                120,
            )
            &&& 0 <= f < n ==> action_of(TaskModel { at: 3 + f, ..task_of(plan) }, m)
                == ActModel::Ask(line_sync(m, m.line_bps[f].path))
            &&& action_of(TaskModel { at: 3 + n, ..task_of(plan) }, m) == ActModel::Ask(fn_sync(m))
            &&& action_of(TaskModel { at: 4 + n, ..task_of(plan) }, m) matches ActModel::Ask(a)
                && a.command == "configurationDone"@
            &&& action_of(TaskModel { at: 5 + n, ..task_of(plan) }, m) == ActModel::AwaitSent(120)
            &&& action_of(TaskModel { at: 6 + n, ..task_of(plan) }, m) == ActModel::Finish
        }),
{
    let plan = launch_plan(m, entry, commands);
    let n = m.line_bps.len() as int;
    assert(plan[0] == PhaseModel::Initialize && plan[1] == PhaseModel::Launch(entry, commands));
    assert(plan[2] == PhaseModel::Initialized && plan[3 + n] == PhaseModel::SyncFns);
    assert(plan[4 + n] == PhaseModel::Configure && plan[5 + n] == PhaseModel::Launched);
    if 0 <= f < n {
        assert(plan[3 + f] == sync_plan(m.line_bps)[f]);
    }
    reveal_strlit("program");
    reveal_strlit("cwd");
    reveal_strlit("args");
    reveal_strlit("stopOnEntry");
    reveal_strlit("initCommands");
    assert("program"@.len() == 7 && "cwd"@.len() == 3 && "args"@.len() == 4 && "stopOnEntry"@.len()
        == 11 && "initCommands"@.len() == 12);
}

/// A restart ends the program and its adapter, starts another and launches
/// there what a launch would, waiting for its first stop. Of the session it
/// forgets what belonged to the program that ended, and keeps the breakpoints
/// on lines, functions and panics, the watches, and what is to be run.
pub proof fn a_restart_keeps_what_is_not_the_programs(
    m: SessionModel,
    commands: Seq<Seq<char>>,
    i: int,
)
    ensures
        ({
            let plan = restart_plan(m, commands);
            let launch = launch_plan(m, false, commands);
            &&& plan.len() == launch.len() + 7
            &&& action_of(task_of(plan), m) matches ActModel::Ask(a) && a.command == "disconnect"@
                && a.args.at("terminateDebuggee"@) == Doc::Bool(true)
            &&& action_of(TaskModel { at: 1, ..task_of(plan) }, m) == ActModel::Close
            &&& action_of(TaskModel { at: 2, ..task_of(plan) }, m) == ActModel::Spawn
            &&& 0 <= i < launch.len() ==> plan[4 + i] == launch[i]
            &&& action_of(TaskModel { at: 4 + launch.len() as int, ..task_of(plan) }, m) == ActModel::Poll(
                120,
            )
            &&& stepped(TaskModel { at: 3, ..task_of(plan) }, m, InputModel::Done).1 == (
            SessionModel {
                configured: false,
                data_bps: Seq::empty(),
                threads: Seq::empty(),
                cur_thread: None,
                cur_frame: 0,
                prev_locals: Seq::empty(),
                ..m
            })
        }),
{
    let plan = restart_plan(m, commands);
    let launch = launch_plan(m, false, commands);
    let n = launch.len() as int;
    assert(plan[0] == PhaseModel::Disconnect && plan[1] == PhaseModel::Close);
    assert(plan[2] == PhaseModel::Spawn && plan[3] == PhaseModel::Reset);
    assert(plan[4 + n] == PhaseModel::Await(120));
}

/// A program is interrupted in its current thread, or else in the first that
/// is known of; then it is waited for as for any stop, for half a minute.
pub proof fn a_pause_interrupts_the_current_thread(m: SessionModel, reply: Option<Doc>, id: int)
    ensures
        ({
            let t0 = task_of(pause_plan());
            let (t1, m1) = stepped(t0, m, InputModel::Done);
            let (t2, m2) = stepped(t1, m1, InputModel::Reply(reply));
            &&& action_of(t0, m) == ActModel::Flush
            &&& action_of(t1, m1) matches ActModel::Ask(a) && a.command == "pause"@ && (
            m.cur_thread matches Some(t) ==> a.args.at("threadId"@) == Doc::Int(t)) && (
            m.cur_thread is None && m.threads.len() > 0 && m.threads[0].at("id"@) == Doc::Int(id)
                && i64::MIN <= id <= i64::MAX ==> a.args.at("threadId"@) == Doc::Int(id))
            &&& action_of(t2, m2) == ActModel::Poll(30)
            &&& m2 == m && t2.plan.skip(2) == await_plan(30) && t2.at == 2
        }),
{
    let plan = pause_plan();
    assert(plan[0] == PhaseModel::Flush && plan[1] == PhaseModel::Pause);
    assert(plan[2] == PhaseModel::Await(30));
    assert(plan.skip(2) =~= await_plan(30));
}

/// To run to a line is to stop there once: the adapter is told of the file with
/// that line before the program is let run, and again without it afterwards.
pub proof fn running_to_a_line_stops_there_once(m: SessionModel, path: Seq<char>, line: int)
    ensures
        ({
            let plan = until_plan(path, line);
            let (t1, m1) = stepped(task_of(plan), m, InputModel::Done);
            &&& m1 == temp_added(m, path, line)
            &&& action_of(t1, m1) == ActModel::Ask(line_sync(m1, path))
            &&& plan.subrange(2, 8) == resume_plan("continue"@, false)
            &&& plan.len() == 10
            &&& stepped(TaskModel { at: 8, ..task_of(plan) }, m1, InputModel::Done).1
                == temp_removed(m1, path, line)
            &&& action_of(TaskModel { at: 9, ..task_of(plan) }, m) == ActModel::Ask(
                line_sync(m, path),
            )
        }),
{
    let plan = until_plan(path, line);
    assert(plan[0] == PhaseModel::AddTemp(path, line));
    assert(plan[1] == PhaseModel::SyncLine(path, false));
    assert(plan[8] == PhaseModel::RemoveTemp(path, line));
    assert(plan[9] == PhaseModel::SyncLine(path, true));
    assert(plan.subrange(2, 8) =~= resume_plan("continue"@, false));
}

/// A thread that is selected is the current one, at its innermost frame, and
/// its frames are those that the adapter replies; it counts as no hit.
pub proof fn a_selected_thread_is_the_current_one(m: SessionModel, id: int, reply: Doc)
    ensures
        ({
            let r = thread_selected(m, id, reply);
            &&& r.cur_thread == Some(id) && r.cur_frame == 0
            &&& r.last_stop matches Some(stop) && stop.thread_id == id && stop.frames == frames_from(
                reply,
            ) && !stop.exited
            &&& r == (SessionModel {
                cur_thread: r.cur_thread,
                cur_frame: 0,
                last_stop: r.last_stop,
                ..m
            })
        }),
{
}

/// A list is seen item by item, in its order.
pub proof fn phases_are_seen_one_by_one(v: Seq<Phase>, i: int)
    ensures
        phases_in(v).len() == v.len(),
        0 <= i < v.len() ==> phases_in(v)[i] == v[i]@,
{
}

/// The adapter counts lines and columns from one, names files by their paths,
/// tells the types of variables and opens no terminal.
pub proof fn the_adapter_is_told_how_to_speak()
    ensures
        initialize_args().at("linesStartAt1"@) == Doc::Bool(true),
        initialize_args().at("columnsStartAt1"@) == Doc::Bool(true),
        initialize_args().at("pathFormat"@) == Doc::Str("path"@),
        initialize_args().at("supportsVariableType"@) == Doc::Bool(true),
        initialize_args().at("supportsRunInTerminalRequest"@) == Doc::Bool(false),
{
    reveal_strlit("linesStartAt1");
    reveal_strlit("columnsStartAt1");
    reveal_strlit("pathFormat");
    reveal_strlit("supportsVariableType");
    reveal_strlit("supportsRunInTerminalRequest");
    assert("linesStartAt1"@.len() == 13 && "columnsStartAt1"@.len() == 15 && "pathFormat"@.len()
        == 10 && "supportsVariableType"@.len() == 20 && "supportsRunInTerminalRequest"@.len()
        == 28);
}

} // verus!
