//! Operations that the daemon has performed for it, and what comes of them.

use vstd::prelude::*;
use crate::json::{docs, Doc, Json};
use crate::loops::{hits_in, HitModel, TraceHit, UntilOutcome};
use crate::session::{opt_stop, opt_text};
use crate::stack::{opt_int, Stop, StopModel};
use crate::text::{owned, views};

verus! {

/// How far a step goes.
#[derive(Clone, Copy, Debug)]
pub enum StepKind {
    Over,
    In,
    Out,
    Insn,
}

/// How a run until a condition ended.
pub ghost enum EndModel {
    Held(Seq<char>),
    Exited,
    Cap,
}

pub open spec fn end_of(o: UntilOutcome) -> EndModel {
    match o {
        UntilOutcome::Held(v) => EndModel::Held(v@),
        UntilOutcome::Exited => EndModel::Exited,
        UntilOutcome::Cap => EndModel::Cap,
    }
}

/// Where a run until a condition ended, how, and after how many stops.
pub ghost struct UntilModel {
    pub stop: StopModel,
    pub end: EndModel,
    pub stops: int,
}

/// Where a run until a condition ended, how, and after how many stops.
pub struct UntilEnd {
    pub stop: Stop,
    pub outcome: UntilOutcome,
    pub stops: usize,
}

impl View for UntilEnd {
    type V = UntilModel;

    open spec fn view(&self) -> UntilModel {
        UntilModel { stop: self.stop@, end: end_of(self.outcome), stops: self.stops as int }
    }
}

/// Where the daemon stands.
pub ghost struct StandingModel {
    pub session: bool,
    pub stopped: bool,
    pub lsp_ready: bool,
    pub cur_thread: Option<int>,
    pub threads: int,
    pub breakpoints: int,
    pub adapter: Option<Seq<char>>,
}

/// Where the daemon stands: whether there is a session and whether it is
/// stopped, whether rust-analyzer is ready, and which adapter is in play.
pub struct Standing {
    pub session: bool,
    pub stopped: bool,
    pub lsp_ready: bool,
    pub cur_thread: Option<i64>,
    pub threads: usize,
    pub breakpoints: usize,
    pub adapter: Option<String>,
}

impl View for Standing {
    type V = StandingModel;

    open spec fn view(&self) -> StandingModel {
        StandingModel {
            session: self.session,
            stopped: self.stopped,
            lsp_ready: self.lsp_ready,
            cur_thread: opt_int(self.cur_thread),
            threads: self.threads as int,
            breakpoints: self.breakpoints as int,
            adapter: opt_text(self.adapter),
        }
    }
}

pub open spec fn no_standing() -> StandingModel {
    StandingModel {
        session: false,
        stopped: false,
        lsp_ready: false,
        cur_thread: None,
        threads: 0,
        breakpoints: 0,
        adapter: None,
    }
}

pub open spec fn stop_result(r: Result<Stop, String>) -> Result<StopModel, Seq<char>> {
    match r {
        Ok(s) => Ok(s@),
        Err(e) => Err(e@),
    }
}

pub open spec fn id_result(r: Result<i64, String>) -> Result<int, Seq<char>> {
    match r {
        Ok(n) => Ok(n as int),
        Err(e) => Err(e@),
    }
}

pub open spec fn until_result(r: Result<UntilEnd, String>) -> Result<UntilModel, Seq<char>> {
    match r {
        Ok(u) => Ok(u@),
        Err(e) => Err(e@),
    }
}

/// What an operation is.
#[allow(inconsistent_fields)]
pub ghost enum OpModel {
    Status,
    End,
    Drop,
    Start { program: Seq<char>, cwd: Option<Seq<char>>, args: Seq<Seq<char>> },
    AddLine {
        file: Seq<char>,
        line: int,
        condition: Option<Seq<char>>,
        hit: Option<int>,
        log: Option<Seq<char>>,
    },
    AddFn { name: Seq<char> },
    AddPanic,
    Launch,
    Run,
    Continue,
    Step { kind: StepKind },
    Until { file: Seq<char>, line: int },
    Pause,
    Restart,
    Output,
    BpSummary,
    Source { radius: int },
    HasWatches,
    Watches,
    Delta,
    Locals { depth: int, cap: int },
    Backtrace,
    Breakpoints,
    Threads,
    Evaluate { expr: Seq<char> },
    Assign { path: Seq<char>, value: Seq<char> },
    Remove { id: Seq<char> },
    Enable { id: Seq<char>, on: bool },
    Watch { var: Seq<char> },
    WatchExpr { action: Seq<char>, expr: Option<Seq<char>> },
    SelectThread { id: int },
    SelectFrame { index: int },
    ShiftFrame { up: bool },
    LastStop,
    ActiveCount,
    ContUntil { path: Seq<char>, op: Seq<char>, rhs: Seq<char>, max: int },
    Trace { captures: Seq<Seq<char>>, max: int },
    WaitOutput { needle: Seq<char>, millis: int },
    StartLsp,
    Symbols { query: Seq<char> },
    Definition { file: Seq<char>, line: int, col: int },
    References { file: Seq<char>, line: int, col: int },
    Hover { file: Seq<char>, line: int, col: int },
}

/// An operation on the session or its surroundings.
#[allow(inconsistent_fields)]
pub enum Op {
    /// Whether there is a session, and where it stands.
    Status,
    /// End the session and its program.
    End,
    /// Drop the session.
    Drop,
    /// Start an adapter for a program and make a session for it.
    Start { program: String, cwd: Option<String>, args: Vec<String> },
    /// Add a line breakpoint.
    AddLine {
        file: String,
        line: i64,
        condition: Option<String>,
        hit: Option<i64>,
        log: Option<String>,
    },
    /// Add a function breakpoint.
    AddFn { name: String },
    /// Break where a panic is raised.
    AddPanic,
    /// Launch the program.
    Launch,
    /// Wait for the first stop.
    Run,
    /// Run to the next stop.
    Continue,
    /// Run a step.
    Step { kind: StepKind },
    /// Run to a line.
    Until { file: String, line: i64 },
    /// Interrupt the program.
    Pause,
    /// Relaunch the program.
    Restart,
    /// The program's output so far.
    Output,
    /// What became of each breakpoint.
    BpSummary,
    /// The source around the selected frame.
    Source { radius: i64 },
    /// Whether there are watch expressions.
    HasWatches,
    /// The watch expressions and their values.
    Watches,
    /// What changed of the locals since the last stop.
    Delta,
    /// The local variables.
    Locals { depth: i32, cap: usize },
    /// The backtrace.
    Backtrace,
    /// The list of breakpoints.
    Breakpoints,
    /// The list of threads.
    Threads,
    /// The value of an expression.
    Evaluate { expr: String },
    /// Change a variable.
    Assign { path: String, value: String },
    /// Remove a breakpoint.
    Remove { id: String },
    /// Switch a breakpoint on or off.
    Enable { id: String, on: bool },
    /// Break when a variable changes.
    Watch { var: String },
    /// Add or remove a watch expression.
    WatchExpr { action: String, expr: Option<String> },
    /// Switch to a thread.
    SelectThread { id: i64 },
    /// Select a frame.
    SelectFrame { index: usize },
    /// Select the frame one up or down.
    ShiftFrame { up: bool },
    /// The stop the session is at.
    LastStop,
    /// How many breakpoints are enabled.
    ActiveCount,
    /// Run until a condition holds.
    ContUntil { path: String, op: &'static str, rhs: String, max: usize },
    /// Trace the hits of breakpoints.
    Trace { captures: Vec<String>, max: usize },
    /// Wait so many milliseconds for the output to hold a text.
    WaitOutput { needle: String, millis: i64 },
    /// Start rust-analyzer, where it is not running, and wait for it.
    StartLsp,
    /// The symbols that match a query.
    Symbols { query: String },
    /// The definition of what stands at a place.
    Definition { file: String, line: i64, col: i64 },
    /// The references to what stands at a place.
    References { file: String, line: i64, col: i64 },
    /// What is known of what stands at a place.
    Hover { file: String, line: i64, col: i64 },
}

impl View for Op {
    type V = OpModel;

    open spec fn view(&self) -> OpModel {
        match self {
            Op::Status => OpModel::Status,
            Op::End => OpModel::End,
            Op::Drop => OpModel::Drop,
            Op::Start { program, cwd, args } => OpModel::Start {
                program: program@,
                cwd: opt_text(*cwd),
                args: views(args@),
            },
            Op::AddLine { file, line, condition, hit, log } => OpModel::AddLine {
                file: file@,
                line: *line as int,
                condition: opt_text(*condition),
                hit: opt_int(*hit),
                log: opt_text(*log),
            },
            Op::AddFn { name } => OpModel::AddFn { name: name@ },
            Op::AddPanic => OpModel::AddPanic,
            Op::Launch => OpModel::Launch,
            Op::Run => OpModel::Run,
            Op::Continue => OpModel::Continue,
            Op::Step { kind } => OpModel::Step { kind: *kind },
            Op::Until { file, line } => OpModel::Until { file: file@, line: *line as int },
            Op::Pause => OpModel::Pause,
            Op::Restart => OpModel::Restart,
            Op::Output => OpModel::Output,
            Op::BpSummary => OpModel::BpSummary,
            Op::Source { radius } => OpModel::Source { radius: *radius as int },
            Op::HasWatches => OpModel::HasWatches,
            Op::Watches => OpModel::Watches,
            Op::Delta => OpModel::Delta,
            Op::Locals { depth, cap } => OpModel::Locals { depth: *depth as int, cap: *cap as int },
            Op::Backtrace => OpModel::Backtrace,
            Op::Breakpoints => OpModel::Breakpoints,
            Op::Threads => OpModel::Threads,
            Op::Evaluate { expr } => OpModel::Evaluate { expr: expr@ },
            Op::Assign { path, value } => OpModel::Assign { path: path@, value: value@ },
            Op::Remove { id } => OpModel::Remove { id: id@ },
            Op::Enable { id, on } => OpModel::Enable { id: id@, on: *on },
            Op::Watch { var } => OpModel::Watch { var: var@ },
            Op::WatchExpr { action, expr } => OpModel::WatchExpr {
                action: action@,
                expr: opt_text(*expr),
            },
            Op::SelectThread { id } => OpModel::SelectThread { id: *id as int },
            Op::SelectFrame { index } => OpModel::SelectFrame { index: *index as int },
            Op::ShiftFrame { up } => OpModel::ShiftFrame { up: *up },
            Op::LastStop => OpModel::LastStop,
            Op::ActiveCount => OpModel::ActiveCount,
            Op::ContUntil { path, op, rhs, max } => OpModel::ContUntil {
                path: path@,
                op: op@,
                rhs: rhs@,
                max: *max as int,
            },
            Op::Trace { captures, max } => OpModel::Trace {
                captures: views(captures@),
                max: *max as int,
            },
            Op::WaitOutput { needle, millis } => OpModel::WaitOutput {
                needle: needle@,
                millis: *millis as int,
            },
            Op::StartLsp => OpModel::StartLsp,
            Op::Symbols { query } => OpModel::Symbols { query: query@ },
            Op::Definition { file, line, col } => OpModel::Definition {
                file: file@,
                line: *line as int,
                col: *col as int,
            },
            Op::References { file, line, col } => OpModel::References {
                file: file@,
                line: *line as int,
                col: *col as int,
            },
            Op::Hover { file, line, col } => OpModel::Hover {
                file: file@,
                line: *line as int,
                col: *col as int,
            },
        }
    }
}

/// What an outcome is.
pub ghost enum OutcomeModel {
    Done,
    Flag(bool),
    Text(Seq<char>),
    Id(int),
    Added((int, bool)),
    Count(int),
    Error(Option<Seq<char>>),
    Stopped(Result<StopModel, Seq<char>>),
    Last(Option<StopModel>),
    Values(Seq<Doc>),
    Watched(Result<int, Seq<char>>),
    Ended(Result<UntilModel, Seq<char>>),
    Hits(Seq<HitModel>),
    Standing(StandingModel),
}

/// What came of an operation.
pub enum Outcome {
    /// It is done.
    Done,
    /// Yes or no.
    Flag(bool),
    /// A text.
    Text(String),
    /// The id of a breakpoint.
    Id(i64),
    /// The id of a line breakpoint, and whether it bound.
    Added((i64, bool)),
    /// A number.
    Count(usize),
    /// What went wrong, where something did.
    Error(Option<String>),
    /// Where the program stopped, or what went wrong.
    Stopped(Result<Stop, String>),
    /// The stop, where there is one.
    Last(Option<Stop>),
    /// JSON values.
    Values(Vec<Json>),
    /// The id of a watchpoint, or why there is none.
    Watched(Result<i64, String>),
    /// How a run until a condition ended, or what went wrong.
    Ended(Result<UntilEnd, String>),
    /// The hits of a trace.
    Hits(Vec<TraceHit>),
    /// Where the daemon stands.
    Standing(Standing),
}

impl View for Outcome {
    type V = OutcomeModel;

    open spec fn view(&self) -> OutcomeModel {
        match self {
            Outcome::Done => OutcomeModel::Done,
            Outcome::Flag(x) => OutcomeModel::Flag(*x),
            Outcome::Text(x) => OutcomeModel::Text(x@),
            Outcome::Id(x) => OutcomeModel::Id(*x as int),
            Outcome::Added(x) => OutcomeModel::Added((x.0 as int, x.1)),
            Outcome::Count(x) => OutcomeModel::Count(*x as int),
            Outcome::Error(x) => OutcomeModel::Error(opt_text(*x)),
            Outcome::Stopped(x) => OutcomeModel::Stopped(stop_result(*x)),
            Outcome::Last(x) => OutcomeModel::Last(opt_stop(*x)),
            Outcome::Values(x) => OutcomeModel::Values(docs(x@)),
            Outcome::Watched(x) => OutcomeModel::Watched(id_result(*x)),
            Outcome::Ended(x) => OutcomeModel::Ended(until_result(*x)),
            Outcome::Hits(x) => OutcomeModel::Hits(hits_in(x@)),
            Outcome::Standing(x) => OutcomeModel::Standing(x@),
        }
    }
}

pub open spec fn flag_in(o: OutcomeModel) -> bool {
    match o {
        OutcomeModel::Flag(x) => x,
        _ => false,
    }
}

pub open spec fn text_in(o: OutcomeModel) -> Seq<char> {
    match o {
        OutcomeModel::Text(x) => x,
        _ => Seq::empty(),
    }
}

pub open spec fn id_in(o: OutcomeModel) -> int {
    match o {
        OutcomeModel::Id(x) => x,
        _ => 0,
    }
}

pub open spec fn added_in(o: OutcomeModel) -> (int, bool) {
    match o {
        OutcomeModel::Added(x) => x,
        _ => (0, true),
    }
}

pub open spec fn count_in(o: OutcomeModel) -> int {
    match o {
        OutcomeModel::Count(x) => x,
        _ => 0,
    }
}

pub open spec fn error_in(o: OutcomeModel) -> Option<Seq<char>> {
    match o {
        OutcomeModel::Error(x) => x,
        _ => None,
    }
}

pub open spec fn stopped_in(o: OutcomeModel) -> Result<StopModel, Seq<char>> {
    match o {
        OutcomeModel::Stopped(x) => x,
        _ => Err(Seq::empty()),
    }
}

pub open spec fn last_in(o: OutcomeModel) -> Option<StopModel> {
    match o {
        OutcomeModel::Last(x) => x,
        _ => None,
    }
}

pub open spec fn values_in(o: OutcomeModel) -> Seq<Doc> {
    match o {
        OutcomeModel::Values(x) => x,
        _ => Seq::empty(),
    }
}

pub open spec fn watched_in(o: OutcomeModel) -> Result<int, Seq<char>> {
    match o {
        OutcomeModel::Watched(x) => x,
        _ => Err(Seq::empty()),
    }
}

pub open spec fn ended_in(o: OutcomeModel) -> Result<UntilModel, Seq<char>> {
    match o {
        OutcomeModel::Ended(x) => x,
        _ => Err(Seq::empty()),
    }
}

pub open spec fn hits_out(o: OutcomeModel) -> Seq<HitModel> {
    match o {
        OutcomeModel::Hits(x) => x,
        _ => Seq::empty(),
    }
}

pub open spec fn standing_in(o: OutcomeModel) -> StandingModel {
    match o {
        OutcomeModel::Standing(x) => x,
        _ => no_standing(),
    }
}

/// The outcomes that a list of them holds.
pub open spec fn outcomes_in(v: Seq<Outcome>) -> Seq<OutcomeModel> {
    Seq::new(v.len(), |i: int| v[i]@)
}

/// Where a command stands, given the outcomes so far.
pub ghost enum Way<T> {
    /// The next operation.
    Do(OpModel),
    /// The result, and how many of the outcomes it took.
    Done(T, int),
}

/// Where a command stands: the next operation, or the result and how many of
/// the outcomes it took.
pub enum Progress<T> {
    Do(Op),
    Done(T, usize),
}

/// One operation and its outcome.
pub open spec fn perform(op: OpModel, outs: Seq<OutcomeModel>, at: int) -> Way<OutcomeModel> {
    if 0 <= at < outs.len() {
        Way::Done(outs[at], at + 1)
    } else {
        Way::Do(op)
    }
}

/// The outcome of an operation, where it has come; else the operation.
pub fn expect<'a>(op: Op, outs: &'a Vec<Outcome>, at: usize) -> (r: Progress<&'a Outcome>)
    requires
        at <= outs.len(),
    ensures
        match r {
            Progress::Do(o) => perform(op@, outcomes_in(outs@), at as int) == Way::<
                OutcomeModel,
            >::Do(o@),
            Progress::Done(x, n) => perform(op@, outcomes_in(outs@), at as int) == Way::Done(
                x@,
                n as int,
            ) && at < n <= outs.len(),
        },
{
    if at < outs.len() {
        assert(outcomes_in(outs@)[at as int] == outs@[at as int]@);
        Progress::Done(&outs[at], at + 1)
    } else {
        Progress::Do(op)
    }
}

impl Outcome {
    pub fn flag(&self) -> (r: bool)
        ensures
            r == flag_in(self@),
    {
        match self {
            Outcome::Flag(b) => *b,
            _ => false,
        }
    }

    pub fn text(&self) -> (r: &str)
        ensures
            r@ == text_in(self@),
    {
        match self {
            Outcome::Text(t) => t.as_str(),
            _ => {
                proof {
                    reveal_strlit("");
                    assert(""@ =~= Seq::empty());
                }
                ""
            },
        }
    }

    pub fn id(&self) -> (r: i64)
        ensures
            r == id_in(self@),
    {
        match self {
            Outcome::Id(n) => *n,
            _ => 0,
        }
    }

    pub fn added(&self) -> (r: (i64, bool))
        ensures
            (r.0 as int, r.1) == added_in(self@),
    {
        match self {
            Outcome::Added(p) => *p,
            _ => (0, true),
        }
    }

    pub fn count(&self) -> (r: usize)
        ensures
            r == count_in(self@),
    {
        match self {
            Outcome::Count(n) => *n,
            _ => 0,
        }
    }

    pub fn error(&self) -> (r: Option<&str>)
        ensures
            match r {
                Some(e) => error_in(self@) == Some(e@),
                None => error_in(self@) is None,
            },
    {
        match self {
            Outcome::Error(Some(e)) => Some(e.as_str()),
            _ => None,
        }
    }

    pub fn stopped(&self) -> (r: Result<&Stop, &str>)
        ensures
            match r {
                Ok(s) => stopped_in(self@) == Ok::<StopModel, Seq<char>>(s@),
                Err(e) => stopped_in(self@) == Err::<StopModel, Seq<char>>(e@),
            },
    {
        match self {
            Outcome::Stopped(Ok(s)) => Ok(s),
            Outcome::Stopped(Err(e)) => Err(e.as_str()),
            _ => {
                proof {
                    reveal_strlit("");
                    assert(""@ =~= Seq::empty());
                }
                Err("")
            },
        }
    }

    pub fn last(&self) -> (r: Option<&Stop>)
        ensures
            match r {
                Some(s) => last_in(self@) == Some(s@),
                None => last_in(self@) is None,
            },
    {
        match self {
            Outcome::Last(Some(s)) => Some(s),
            _ => None,
        }
    }

    /// The values as a JSON array.
    pub fn values(&self) -> (r: Json)
        ensures
            r@ == Doc::Arr(values_in(self@)),
    {
        let mut out: Vec<Json> = Vec::new();
        match self {
            Outcome::Values(v) => {
                let mut i: usize = 0;
                while i < v.len()
                    invariant
                        i <= v.len(),
                        out.len() == i,
                        forall|k: int| 0 <= k < i ==> (#[trigger] out@[k])@ == v@[k]@,
                    decreases v.len() - i,
                {
                    out.push(v[i].copy());
                    i += 1;
                }
                assert(docs(out@) =~= docs(v@));
            },
            _ => {
                assert(docs(out@) =~= Seq::empty());
            },
        }
        Json::list(out)
    }

    pub fn watched(&self) -> (r: Result<i64, &str>)
        ensures
            match r {
                Ok(n) => watched_in(self@) == Ok::<int, Seq<char>>(n as int),
                Err(e) => watched_in(self@) == Err::<int, Seq<char>>(e@),
            },
    {
        match self {
            Outcome::Watched(Ok(n)) => Ok(*n),
            Outcome::Watched(Err(e)) => Err(e.as_str()),
            _ => {
                proof {
                    reveal_strlit("");
                    assert(""@ =~= Seq::empty());
                }
                Err("")
            },
        }
    }

    pub fn ended(&self) -> (r: Result<&UntilEnd, &str>)
        ensures
            match r {
                Ok(u) => ended_in(self@) == Ok::<UntilModel, Seq<char>>(u@),
                Err(e) => ended_in(self@) == Err::<UntilModel, Seq<char>>(e@),
            },
    {
        match self {
            Outcome::Ended(Ok(u)) => Ok(u),
            Outcome::Ended(Err(e)) => Err(e.as_str()),
            _ => {
                proof {
                    reveal_strlit("");
                    assert(""@ =~= Seq::empty());
                }
                Err("")
            },
        }
    }

    pub fn hits(&self) -> (r: Option<&Vec<TraceHit>>)
        ensures
            match r {
                Some(v) => hits_in(v@) == self::hits_out(self@),
                None => self::hits_out(self@) == Seq::<HitModel>::empty(),
            },
    {
        match self {
            Outcome::Hits(v) => Some(v),
            _ => None,
        }
    }

    pub fn standing(&self) -> (r: Standing)
        ensures
            r@ == standing_in(self@),
    {
        match self {
            Outcome::Standing(x) => Standing {
                session: x.session,
                stopped: x.stopped,
                lsp_ready: x.lsp_ready,
                cur_thread: x.cur_thread,
                threads: x.threads,
                breakpoints: x.breakpoints,
                adapter: match &x.adapter {
                    Some(a) => Some(owned(a.as_str())),
                    None => None,
                },
            },
            _ => Standing {
                session: false,
                stopped: false,
                lsp_ready: false,
                cur_thread: None,
                threads: 0,
                breakpoints: 0,
                adapter: None,
            },
        }
    }
}

/// A list is seen item by item, in its order.
pub proof fn outcomes_are_seen_one_by_one(v: Seq<Outcome>, i: int)
    ensures
        outcomes_in(v).len() == v.len(),
        0 <= i < v.len() ==> outcomes_in(v)[i] == v[i]@,
{
}

} // verus!
