//! The state of a debug session: its breakpoints, threads, frames, watches
//! and captured output, and how each operation changes it.

use vstd::prelude::*;
use crate::dap::{asking, Ask, Request};
use crate::json::{docs, no_keys, Doc, Json};
use crate::num::{int_text, ints_in, show_int};
use crate::stack::{opt_int, Stop, StopModel};
use crate::text::{opt_str, owned, same, views};
use crate::util::{abs, joined, parent_of, parent_path, run_dir, work_dir};

verus! {

// ---------------------------------------------------------------------------
// Breakpoints
// ---------------------------------------------------------------------------

/// What a line breakpoint is.
pub ghost struct LineBpModel {
    pub id: int,
    pub line: int,
    pub condition: Option<Seq<char>>,
    pub hit: Option<int>,
    pub log: Option<Seq<char>>,
    pub enabled: bool,
    pub verified: bool,
    pub hits: int,
}

pub struct LineBp {
    pub id: i64,
    pub line: i64,
    pub condition: Option<String>,
    pub hit: Option<i64>,
    pub log: Option<String>,
    pub enabled: bool,
    pub verified: bool,
    pub hits: u32,
}

/// An optional string as an optional text.
pub open spec fn opt_text(s: Option<String>) -> Option<Seq<char>> {
    match s {
        Some(t) => Some(t@),
        None => None,
    }
}

impl View for LineBp {
    type V = LineBpModel;

    open spec fn view(&self) -> LineBpModel {
        LineBpModel {
            id: self.id as int,
            line: self.line as int,
            condition: opt_text(self.condition),
            hit: opt_int(self.hit),
            log: opt_text(self.log),
            enabled: self.enabled,
            verified: self.verified,
            hits: self.hits as int,
        }
    }
}

/// What a function breakpoint is.
pub ghost struct FnBpModel {
    pub id: int,
    pub name: Seq<char>,
    pub enabled: bool,
    pub verified: bool,
    pub hits: int,
}

pub struct FnBp {
    pub id: i64,
    pub name: String,
    pub enabled: bool,
    pub verified: bool,
    pub hits: u32,
}

impl View for FnBp {
    type V = FnBpModel;

    open spec fn view(&self) -> FnBpModel {
        FnBpModel {
            id: self.id as int,
            name: self.name@,
            enabled: self.enabled,
            verified: self.verified,
            hits: self.hits as int,
        }
    }
}

/// What a data breakpoint is.
pub ghost struct DataBpModel {
    pub id: int,
    pub name: Seq<char>,
    pub data_id: Seq<char>,
    pub enabled: bool,
}

pub struct DataBp {
    pub id: i64,
    pub name: String,
    pub data_id: String,
    pub enabled: bool,
}

impl View for DataBp {
    type V = DataBpModel;

    open spec fn view(&self) -> DataBpModel {
        DataBpModel {
            id: self.id as int,
            name: self.name@,
            data_id: self.data_id@,
            enabled: self.enabled,
        }
    }
}

/// The line breakpoints of one file.
pub ghost struct FileModel {
    pub path: Seq<char>,
    pub bps: Seq<LineBpModel>,
}

pub struct FileBps {
    pub path: String,
    pub bps: Vec<LineBp>,
}

/// The line breakpoints that a list of them holds.
pub open spec fn lines_in(v: Seq<LineBp>) -> Seq<LineBpModel> {
    Seq::new(v.len(), |i: int| v[i]@)
}

impl View for FileBps {
    type V = FileModel;

    open spec fn view(&self) -> FileModel {
        FileModel { path: self.path@, bps: lines_in(self.bps@) }
    }
}

pub open spec fn files_in(v: Seq<FileBps>) -> Seq<FileModel> {
    Seq::new(v.len(), |i: int| v[i]@)
}

pub open spec fn fns_in(v: Seq<FnBp>) -> Seq<FnBpModel> {
    Seq::new(v.len(), |i: int| v[i]@)
}

pub open spec fn datas_in(v: Seq<DataBp>) -> Seq<DataBpModel> {
    Seq::new(v.len(), |i: int| v[i]@)
}

/// The lines of one file that a run stops at once.
pub ghost struct TempModel {
    pub path: Seq<char>,
    pub lines: Seq<int>,
}

pub struct FileTemps {
    pub path: String,
    pub lines: Vec<i64>,
}

impl View for FileTemps {
    type V = TempModel;

    open spec fn view(&self) -> TempModel {
        TempModel { path: self.path@, lines: ints_in(self.lines@) }
    }
}

pub open spec fn temps_in(v: Seq<FileTemps>) -> Seq<TempModel> {
    Seq::new(v.len(), |i: int| v[i]@)
}

// ---------------------------------------------------------------------------
// The session
// ---------------------------------------------------------------------------

/// What a session is.
pub ghost struct SessionModel {
    pub program: Seq<char>,
    pub cwd: Seq<char>,
    pub args: Seq<Seq<char>>,
    pub adapter: Seq<char>,
    pub bp_id: int,
    pub line_bps: Seq<FileModel>,
    pub fn_bps: Seq<FnBpModel>,
    pub data_bps: Seq<DataBpModel>,
    pub panic: bool,
    pub temp: Seq<TempModel>,
    pub threads: Seq<Doc>,
    pub cur_thread: Option<int>,
    pub cur_frame: int,
    pub watches: Seq<Seq<char>>,
    pub output: Seq<Seq<char>>,
    pub last_stop: Option<StopModel>,
    pub prev_locals: Seq<(Seq<char>, Seq<char>)>,
    pub configured: bool,
}

/// No file comes twice among those with line breakpoints.
pub open spec fn distinct_files(fs: Seq<FileModel>) -> bool {
    forall|i: int, j: int|
        0 <= i < j < fs.len() ==> (#[trigger] fs[i]).path != (#[trigger] fs[j]).path
}

/// No file comes twice among those that a run stops in once.
pub open spec fn distinct_temps(ts: Seq<TempModel>) -> bool {
    forall|i: int, j: int|
        0 <= i < j < ts.len() ==> (#[trigger] ts[i]).path != (#[trigger] ts[j]).path
}

/// Numbers in order, none twice.
pub open spec fn increasing(v: Seq<int>) -> bool {
    forall|i: int, j: int| 0 <= i < j < v.len() ==> #[trigger] v[i] < #[trigger] v[j]
}

impl SessionModel {
    /// What every operation keeps: each file has one list of line breakpoints
    /// and one of lines to stop at once, and the latter come in order without
    /// repetition.
    pub open spec fn wf(self) -> bool {
        &&& distinct_files(self.line_bps)
        &&& distinct_temps(self.temp)
        &&& forall|i: int| 0 <= i < self.temp.len() ==> increasing((#[trigger] self.temp[i]).lines)
    }
}

/// The state of a debug session. The files of the line breakpoints are
/// distinct, and come in the order in which they were first named; so are
/// those of the lines to stop at once ([`SessionModel::wf`]).
pub struct Session {
    pub program: String,
    pub cwd: String,
    pub args: Vec<String>,
    pub adapter: String,
    pub bp_id: i64,
    pub line_bps: Vec<FileBps>,
    pub fn_bps: Vec<FnBp>,
    pub data_bps: Vec<DataBp>,
    pub panic: bool,
    pub temp: Vec<FileTemps>,
    pub threads: Vec<Json>,
    pub cur_thread: Option<i64>,
    pub cur_frame: usize,
    pub watches: Vec<String>,
    pub output: Vec<String>,
    pub last_stop: Option<Stop>,
    /// Top-frame locals (name, "type = value") from the previous stop, used to
    /// render only what changed at the next stop.
    pub prev_locals: Vec<(String, String)>,
    pub configured: bool,
}

/// The texts that a list of pairs of strings holds.
pub open spec fn pairs_in(v: Seq<(String, String)>) -> Seq<(Seq<char>, Seq<char>)> {
    Seq::new(v.len(), |i: int| (v[i].0@, v[i].1@))
}

pub open spec fn opt_stop(s: Option<Stop>) -> Option<StopModel> {
    match s {
        Some(t) => Some(t@),
        None => None,
    }
}

impl View for Session {
    type V = SessionModel;

    open spec fn view(&self) -> SessionModel {
        SessionModel {
            program: self.program@,
            cwd: self.cwd@,
            args: views(self.args@),
            adapter: self.adapter@,
            bp_id: self.bp_id as int,
            line_bps: files_in(self.line_bps@),
            fn_bps: fns_in(self.fn_bps@),
            data_bps: datas_in(self.data_bps@),
            panic: self.panic,
            temp: temps_in(self.temp@),
            threads: docs(self.threads@),
            cur_thread: opt_int(self.cur_thread),
            cur_frame: self.cur_frame as int,
            watches: views(self.watches@),
            output: views(self.output@),
            last_stop: opt_stop(self.last_stop),
            prev_locals: pairs_in(self.prev_locals@),
            configured: self.configured,
        }
    }
}

/// A session that has not been launched.
pub open spec fn new_session(
    program: Seq<char>,
    cwd: Seq<char>,
    args: Seq<Seq<char>>,
    adapter: Seq<char>,
) -> SessionModel {
    SessionModel {
        program,
        cwd,
        args,
        adapter,
        bp_id: 0,
        line_bps: Seq::empty(),
        fn_bps: Seq::empty(),
        data_bps: Seq::empty(),
        panic: false,
        temp: Seq::empty(),
        threads: Seq::empty(),
        cur_thread: None,
        cur_frame: 0,
        watches: Seq::empty(),
        output: Seq::empty(),
        last_stop: None,
        prev_locals: Seq::empty(),
        configured: false,
    }
}

impl Session {
    /// A session over an adapter that has been started. Paths are seen from
    /// `base`, the current directory; a program runs in its own directory
    /// unless another is given.
    pub fn new(
        program: &str,
        cwd: Option<&str>,
        args: Vec<String>,
        adapter: &str,
        base: &str,
    ) -> (r: Session)
        ensures
            r@ == new_session(
                joined(base@, program@),
                run_dir(opt_str(cwd), parent_path(joined(base@, program@)), base@),
                views(args@),
                adapter@,
            ),
            r@.wf(),
    {
        let program = abs(program, base);
        let cwd = match parent_of(program.as_str()) {
            Some(d) => work_dir(cwd, Some(d.as_str()), base),
            None => work_dir(cwd, None, base),
        };
        let r = Session {
            program,
            cwd,
            args,
            adapter: owned(adapter),
            bp_id: 0,
            line_bps: Vec::new(),
            fn_bps: Vec::new(),
            data_bps: Vec::new(),
            panic: false,
            temp: Vec::new(),
            threads: Vec::new(),
            cur_thread: None,
            cur_frame: 0,
            watches: Vec::new(),
            output: Vec::new(),
            last_stop: None,
            prev_locals: Vec::new(),
            configured: false,
        };
        assert(r@.line_bps =~= Seq::empty());
        assert(r@.fn_bps =~= Seq::empty());
        assert(r@.data_bps =~= Seq::empty());
        assert(r@.temp =~= Seq::empty());
        assert(r@.threads =~= Seq::empty());
        assert(r@.watches =~= Seq::empty());
        assert(r@.output =~= Seq::empty());
        assert(r@.prev_locals =~= Seq::empty());
        r
    }

    /// The debug adapter this session launched against (absolute path), so
    /// callers can confirm which one was selected — the bundled codelldb (full
    /// Rust expression eval) versus a PATH `lldb-dap`/`xcrun`.
    pub fn adapter(&self) -> (r: &str)
        ensures
            r@ == self@.adapter,
    {
        self.adapter.as_str()
    }
}

// ---------------------------------------------------------------------------
// Adding breakpoints
// ---------------------------------------------------------------------------

/// The number after `n`, in 64 bits.
pub open spec fn next_number(n: int) -> int {
    if n == i64::MAX {
        i64::MIN as int
    } else {
        n + 1
    }
}

/// The place of a file among those with line breakpoints, from `i` on.
pub open spec fn file_index(fs: Seq<FileModel>, path: Seq<char>, i: int) -> Option<int>
    decreases fs.len() - i,
{
    if i < 0 || i >= fs.len() {
        None
    } else if fs[i].path == path {
        Some(i)
    } else {
        file_index(fs, path, i + 1)
    }
}

/// The line breakpoints of a file.
pub open spec fn bps_of(fs: Seq<FileModel>, path: Seq<char>) -> Seq<LineBpModel> {
    match file_index(fs, path, 0) {
        Some(i) => fs[i].bps,
        None => Seq::empty(),
    }
}

/// The files with the line breakpoints of one of them set.
pub open spec fn with_bps(
    fs: Seq<FileModel>,
    path: Seq<char>,
    bps: Seq<LineBpModel>,
) -> Seq<FileModel> {
    match file_index(fs, path, 0) {
        Some(i) => fs.update(i, FileModel { path: fs[i].path, bps }),
        None => fs.push(FileModel { path, bps }),
    }
}

/// A line breakpoint as it is made.
pub open spec fn new_line_bp(
    id: int,
    line: int,
    condition: Option<Seq<char>>,
    hit: Option<int>,
    log: Option<Seq<char>>,
) -> LineBpModel {
    LineBpModel { id, line, condition, hit, log, enabled: true, verified: true, hits: 0 }
}

impl SessionModel {
    pub open spec fn with_line_bp(
        self,
        path: Seq<char>,
        line: int,
        condition: Option<Seq<char>>,
        hit: Option<int>,
        log: Option<Seq<char>>,
    ) -> SessionModel {
        let id = next_number(self.bp_id);
        SessionModel {
            bp_id: id,
            line_bps: with_bps(
                self.line_bps,
                path,
                bps_of(self.line_bps, path).push(new_line_bp(id, line, condition, hit, log)),
            ),
            ..self
        }
    }

    pub open spec fn with_fn_bp(self, name: Seq<char>) -> SessionModel {
        let id = next_number(self.bp_id);
        SessionModel {
            bp_id: id,
            fn_bps: self.fn_bps.push(
                FnBpModel { id, name, enabled: true, verified: false, hits: 0 },
            ),
            ..self
        }
    }

    pub open spec fn with_panic(self, on: bool) -> SessionModel {
        SessionModel { panic: on, ..self }
    }

    pub open spec fn with_data_bp(self, name: Seq<char>, data_id: Seq<char>) -> SessionModel {
        let id = next_number(self.bp_id);
        SessionModel {
            bp_id: id,
            data_bps: self.data_bps.push(DataBpModel { id, name, data_id, enabled: true }),
            ..self
        }
    }
}

/// What a search for a file finds.
pub proof fn lemma_file_index(fs: Seq<FileModel>, path: Seq<char>, i: int)
    requires
        0 <= i <= fs.len(),
    ensures
        match file_index(fs, path, i) {
            Some(k) => i <= k < fs.len() && fs[k].path == path,
            None => forall|j: int| i <= j < fs.len() ==> (#[trigger] fs[j]).path != path,
        },
    decreases fs.len() - i,
{
    if i < fs.len() && fs[i].path != path {
        lemma_file_index(fs, path, i + 1);
    }
}

/// Setting the line breakpoints of a file brings no file in twice.
proof fn lemma_with_bps(fs: Seq<FileModel>, path: Seq<char>, bps: Seq<LineBpModel>)
    requires
        distinct_files(fs),
    ensures
        distinct_files(with_bps(fs, path, bps)),
{
    lemma_file_index(fs, path, 0);
}

/// The place of a file among those with line breakpoints.
pub fn find_file(fs: &Vec<FileBps>, path: &str) -> (r: Option<usize>)
    ensures
        match r {
            Some(i) => i < fs.len() && file_index(files_in(fs@), path@, 0) == Some(i as int),
            None => file_index(files_in(fs@), path@, 0) is None,
        },
{
    let mut i: usize = 0;
    while i < fs.len()
        invariant
            i <= fs.len(),
            file_index(files_in(fs@), path@, 0) == file_index(files_in(fs@), path@, i as int),
        decreases fs.len() - i,
    {
        assert(files_in(fs@)[i as int].path == fs@[i as int].path@);
        if same(fs[i].path.as_str(), path) {
            return Some(i);
        }
        i += 1;
    }
    None
}

impl Session {
    fn next_id(&mut self) -> (id: i64)
        ensures
            id == next_number(old(self)@.bp_id),
            final(self)@ == (SessionModel { bp_id: id as int, ..old(self)@ }),
    {
        if self.bp_id == i64::MAX {
            self.bp_id = i64::MIN;
        } else {
            self.bp_id = self.bp_id + 1;
        }
        self.bp_id
    }

    /// Adds a breakpoint at a line of a file, given by its absolute path;
    /// gives its id. The adapter learns of it by [`Session::sync_line`].
    pub fn add_line_bp(
        &mut self,
        path: &str,
        line: i64,
        condition: Option<String>,
        hit: Option<i64>,
        log: Option<String>,
    ) -> (id: i64)
        ensures
            id == next_number(old(self)@.bp_id),
            final(self)@ == old(self)@.with_line_bp(
                path@,
                line as int,
                opt_text(condition),
                opt_int(hit),
                opt_text(log),
            ),
            old(self)@.wf() ==> final(self)@.wf(),
    {
        let id = self.next_id();
        let ghost m = self@;
        let bp = LineBp { id, line, condition, hit, log, enabled: true, verified: true, hits: 0 };
        let ghost made = bp@;
        proof {
            if m.wf() {
                lemma_with_bps(m.line_bps, path@, bps_of(m.line_bps, path@).push(made));
            }
        }
        match find_file(&self.line_bps, path) {
            Some(i) => {
                let ghost before = self.line_bps@[i as int];
                self.line_bps[i].bps.push(bp);
                assert(lines_in(self.line_bps@[i as int].bps@) =~= lines_in(before.bps@).push(
                    made,
                ));
                assert(files_in(self.line_bps@) =~= with_bps(
                    m.line_bps,
                    path@,
                    bps_of(m.line_bps, path@).push(made),
                ));
            },
            None => {
                let mut bps: Vec<LineBp> = Vec::new();
                bps.push(bp);
                assert(lines_in(bps@) =~= Seq::empty().push(made));
                self.line_bps.push(FileBps { path: owned(path), bps });
                assert(files_in(self.line_bps@) =~= with_bps(
                    m.line_bps,
                    path@,
                    bps_of(m.line_bps, path@).push(made),
                ));
            },
        }
        id
    }

    /// Adds a breakpoint on a function; gives its id. The adapter learns of it
    /// by [`Session::sync_fn`].
    pub fn add_fn_bp(&mut self, name: &str) -> (id: i64)
        ensures
            id == next_number(old(self)@.bp_id),
            final(self)@ == old(self)@.with_fn_bp(name@),
            old(self)@.wf() ==> final(self)@.wf(),
    {
        let id = self.next_id();
        let ghost before = self@.fn_bps;
        let bp = FnBp { id, name: owned(name), enabled: true, verified: false, hits: 0 };
        let ghost made = bp@;
        self.fn_bps.push(bp);
        assert(fns_in(self.fn_bps@) =~= before.push(made));
        id
    }

    /// Breaks where a Rust panic is raised. The adapter learns of it by
    /// [`Session::sync_fn`].
    pub fn add_panic_bp(&mut self)
        ensures
            final(self)@ == old(self)@.with_panic(true),
            old(self)@.wf() ==> final(self)@.wf(),
    {
        self.panic = true;
    }

    /// Adds a breakpoint on the data that the adapter knows by `data_id`;
    /// gives its id. The adapter learns of it by [`Session::sync_data`].
    pub fn add_data_bp(&mut self, name: &str, data_id: &str) -> (id: i64)
        ensures
            id == next_number(old(self)@.bp_id),
            final(self)@ == old(self)@.with_data_bp(name@, data_id@),
            old(self)@.wf() ==> final(self)@.wf(),
    {
        let id = self.next_id();
        let ghost before = self@.data_bps;
        let bp = DataBp { id, name: owned(name), data_id: owned(data_id), enabled: true };
        let ghost made = bp@;
        self.data_bps.push(bp);
        assert(datas_in(self.data_bps@) =~= before.push(made));
        id
    }
}

// ---------------------------------------------------------------------------
// Telling the adapter
// ---------------------------------------------------------------------------

/// A line breakpoint as the adapter is told of it.
pub open spec fn line_wire(b: LineBpModel) -> Doc {
    let m0 = no_keys().with("line"@, Doc::Int(b.line));
    let m1 = match b.condition {
        Some(c) => m0.with("condition"@, Doc::Str(c)),
        None => m0,
    };
    let m2 = match b.hit {
        Some(h) => m1.with("hitCondition"@, Doc::Str(int_text(h))),
        None => m1,
    };
    match b.log {
        Some(l) => m2.with("logMessage"@, Doc::Str(l)),
        None => m2,
    }
}

/// The enabled line breakpoints as the adapter is told of them.
pub open spec fn line_wires(bps: Seq<LineBpModel>) -> Seq<Doc>
    decreases bps.len(),
{
    if bps.len() == 0 {
        Seq::empty()
    } else if bps.last().enabled {
        line_wires(bps.drop_last()).push(line_wire(bps.last()))
    } else {
        line_wires(bps.drop_last())
    }
}

/// The place of a file among those that a run stops in once, from `i` on.
pub open spec fn temp_index(ts: Seq<TempModel>, path: Seq<char>, i: int) -> Option<int>
    decreases ts.len() - i,
{
    if i < 0 || i >= ts.len() {
        None
    } else if ts[i].path == path {
        Some(i)
    } else {
        temp_index(ts, path, i + 1)
    }
}

/// The lines of a file that a run stops at once.
pub open spec fn temps_of(ts: Seq<TempModel>, path: Seq<char>) -> Seq<int> {
    match temp_index(ts, path, 0) {
        Some(i) => ts[i].lines,
        None => Seq::empty(),
    }
}

pub open spec fn temp_wires(lines: Seq<int>) -> Seq<Doc> {
    lines.map_values(|l: int| no_keys().with("line"@, Doc::Int(l)))
}

/// The request that tells the adapter of the line breakpoints of a file.
pub open spec fn line_sync(m: SessionModel, path: Seq<char>) -> Ask {
    asking(
        "setBreakpoints"@,
        no_keys().with("source"@, no_keys().with("path"@, Doc::Str(path))).with(
            "breakpoints"@,
            Doc::Arr(line_wires(bps_of(m.line_bps, path)) + temp_wires(temps_of(m.temp, path))),
        ),
        120,
    )
}

/// The place of a file among those that a run stops in once.
pub fn find_temp(ts: &Vec<FileTemps>, path: &str) -> (r: Option<usize>)
    ensures
        match r {
            Some(i) => i < ts.len() && temp_index(temps_in(ts@), path@, 0) == Some(i as int),
            None => temp_index(temps_in(ts@), path@, 0) is None,
        },
{
    let mut i: usize = 0;
    while i < ts.len()
        invariant
            i <= ts.len(),
            temp_index(temps_in(ts@), path@, 0) == temp_index(temps_in(ts@), path@, i as int),
        decreases ts.len() - i,
    {
        assert(temps_in(ts@)[i as int].path == ts@[i as int].path@);
        if same(ts[i].path.as_str(), path) {
            return Some(i);
        }
        i += 1;
    }
    None
}

fn wire_of(b: &LineBp) -> (r: Json)
    ensures
        r@ == line_wire(b@),
{
    let m = Json::obj().with("line", Json::number(b.line));
    let m = match &b.condition {
        Some(c) => m.with("condition", Json::text(c.as_str())),
        None => m,
    };
    let m = match b.hit {
        Some(h) => {
            let t = show_int(h);
            m.with("hitCondition", Json::text(t.as_str()))
        },
        None => m,
    };
    match &b.log {
        Some(l) => m.with("logMessage", Json::text(l.as_str())),
        None => m,
    }
}

pub open spec fn name_wire(name: Seq<char>) -> Doc {
    no_keys().with("name"@, Doc::Str(name))
}

/// The enabled function breakpoints as the adapter is told of them.
pub open spec fn fn_wires(bps: Seq<FnBpModel>) -> Seq<Doc>
    decreases bps.len(),
{
    if bps.len() == 0 {
        Seq::empty()
    } else if bps.last().enabled {
        fn_wires(bps.drop_last()).push(name_wire(bps.last().name))
    } else {
        fn_wires(bps.drop_last())
    }
}

/// The request that tells the adapter of the function breakpoints. To break on
/// panics is to break on the functions that raise them, as adapters have no
/// filter for Rust's panics.
pub open spec fn fn_sync(m: SessionModel) -> Ask {
    let own = fn_wires(m.fn_bps);
    let all = if m.panic {
        own.push(name_wire("rust_panic"@)).push(name_wire("core::panicking::panic_fmt"@)).push(
            name_wire("core::panicking::panic"@),
        )
    } else {
        own
    };
    asking("setFunctionBreakpoints"@, no_keys().with("breakpoints"@, Doc::Arr(all)), 120)
}

/// The enabled data breakpoints as the adapter is told of them.
pub open spec fn data_wires(bps: Seq<DataBpModel>) -> Seq<Doc>
    decreases bps.len(),
{
    if bps.len() == 0 {
        Seq::empty()
    } else if bps.last().enabled {
        data_wires(bps.drop_last()).push(
            no_keys().with("dataId"@, Doc::Str(bps.last().data_id)),
        )
    } else {
        data_wires(bps.drop_last())
    }
}

/// The request that tells the adapter of the data breakpoints.
pub open spec fn data_sync(m: SessionModel) -> Ask {
    asking(
        "setDataBreakpoints"@,
        no_keys().with("breakpoints"@, Doc::Arr(data_wires(m.data_bps))),
        120,
    )
}

impl Session {
    /// The request that tells the adapter of the line breakpoints of a file.
    pub fn sync_line(&self, path: &str) -> (r: Request)
        ensures
            r@ == line_sync(self@, path@),
    {
        let mut wire: Vec<Json> = Vec::new();
        assert(docs(wire@) =~= Seq::empty());
        match find_file(&self.line_bps, path) {
            Some(f) => {
                let bps = &self.line_bps[f].bps;
                let ghost all = lines_in(bps@);
                let mut i: usize = 0;
                assert(all.take(0) =~= Seq::empty());
                while i < bps.len()
                    invariant
                        i <= bps.len(),
                        all == lines_in(bps@),
                        docs(wire@) == line_wires(all.take(i as int)),
                    decreases bps.len() - i,
                {
                    let ghost before = wire@;
                    assert(all.take(i + 1).drop_last() =~= all.take(i as int));
                    assert(all.take(i + 1).last() == bps@[i as int]@);
                    if bps[i].enabled {
                        wire.push(wire_of(&bps[i]));
                        assert(docs(wire@) =~= docs(before).push(line_wire(bps@[i as int]@)));
                    }
                    i += 1;
                }
                assert(all.take(all.len() as int) =~= all);
                assert(bps_of(self@.line_bps, path@) == all);
            },
            None => {},
        }
        let ghost own = docs(wire@);
        assert(own == line_wires(bps_of(self@.line_bps, path@)));
        match find_temp(&self.temp, path) {
            Some(t) => {
                let lines = &self.temp[t].lines;
                let ghost all = ints_in(lines@);
                let mut i: usize = 0;
                while i < lines.len()
                    invariant
                        i <= lines.len(),
                        all == ints_in(lines@),
                        docs(wire@) == own + temp_wires(all.take(i as int)),
                    decreases lines.len() - i,
                {
                    let ghost before = wire@;
                    wire.push(Json::obj().with("line", Json::number(lines[i])));
                    assert(docs(wire@) =~= docs(before).push(
                        no_keys().with("line"@, Doc::Int(all[i as int])),
                    ));
                    assert(temp_wires(all.take(i + 1)) =~= temp_wires(all.take(i as int)).push(
                        no_keys().with("line"@, Doc::Int(all[i as int])),
                    ));
                    assert(docs(wire@) =~= own + temp_wires(all.take(i + 1)));
                    i += 1;
                }
                assert(all.take(all.len() as int) =~= all);
                assert(temps_of(self@.temp, path@) == all);
            },
            None => {
                assert(temp_wires(Seq::empty()) =~= Seq::empty());
                assert(own + temp_wires(Seq::empty()) =~= own);
            },
        }
        assert(docs(wire@) == own + temp_wires(temps_of(self@.temp, path@)));
        Request::new(
            "setBreakpoints",
            Json::obj().with("source", Json::obj().with("path", Json::text(path))).with(
                "breakpoints",
                Json::list(wire),
            ),
            120,
        )
    }

    /// The request that tells the adapter of the function breakpoints.
    pub fn sync_fn(&self) -> (r: Request)
        ensures
            r@ == fn_sync(self@),
    {
        let mut wire: Vec<Json> = Vec::new();
        assert(docs(wire@) =~= Seq::empty());
        let ghost all = self@.fn_bps;
        let mut i: usize = 0;
        assert(all.take(0) =~= Seq::empty());
        while i < self.fn_bps.len()
            invariant
                i <= self.fn_bps.len(),
                all == fns_in(self.fn_bps@),
                docs(wire@) == fn_wires(all.take(i as int)),
            decreases self.fn_bps.len() - i,
        {
            let ghost before = wire@;
            assert(all.take(i + 1).drop_last() =~= all.take(i as int));
            assert(all.take(i + 1).last() == self.fn_bps@[i as int]@);
            if self.fn_bps[i].enabled {
                wire.push(wire_name(self.fn_bps[i].name.as_str()));
                assert(docs(wire@) =~= docs(before).push(name_wire(all[i as int].name)));
            }
            i += 1;
        }
        assert(all.take(all.len() as int) =~= all);
        if self.panic {
            let ghost own = docs(wire@);
            wire.push(wire_name("rust_panic"));
            assert(docs(wire@) =~= own.push(name_wire("rust_panic"@)));
            let ghost own = docs(wire@);
            wire.push(wire_name("core::panicking::panic_fmt"));
            assert(docs(wire@) =~= own.push(name_wire("core::panicking::panic_fmt"@)));
            let ghost own = docs(wire@);
            wire.push(wire_name("core::panicking::panic"));
            assert(docs(wire@) =~= own.push(name_wire("core::panicking::panic"@)));
        }
        Request::new(
            "setFunctionBreakpoints",
            Json::obj().with("breakpoints", Json::list(wire)),
            120,
        )
    }

    /// The request that tells the adapter of the data breakpoints.
    pub fn sync_data(&self) -> (r: Request)
        ensures
            r@ == data_sync(self@),
    {
        let mut wire: Vec<Json> = Vec::new();
        assert(docs(wire@) =~= Seq::empty());
        let ghost all = self@.data_bps;
        let mut i: usize = 0;
        assert(all.take(0) =~= Seq::empty());
        while i < self.data_bps.len()
            invariant
                i <= self.data_bps.len(),
                all == datas_in(self.data_bps@),
                docs(wire@) == data_wires(all.take(i as int)),
            decreases self.data_bps.len() - i,
        {
            let ghost before = wire@;
            assert(all.take(i + 1).drop_last() =~= all.take(i as int));
            assert(all.take(i + 1).last() == self.data_bps@[i as int]@);
            if self.data_bps[i].enabled {
                wire.push(
                    Json::obj().with("dataId", Json::text(self.data_bps[i].data_id.as_str())),
                );
                assert(docs(wire@) =~= docs(before).push(
                    no_keys().with("dataId"@, Doc::Str(all[i as int].data_id)),
                ));
            }
            i += 1;
        }
        assert(all.take(all.len() as int) =~= all);
        Request::new("setDataBreakpoints", Json::obj().with("breakpoints", Json::list(wire)), 120)
    }
}

fn wire_name(name: &str) -> (r: Json)
    ensures
        r@ == name_wire(name@),
{
    Json::obj().with("name", Json::text(name))
}

// ---------------------------------------------------------------------------
// What the adapter is told
// ---------------------------------------------------------------------------

proof fn lemma_line_wires(bps: Seq<LineBpModel>)
    ensures
        line_wires(bps) == bps.filter(|b: LineBpModel| b.enabled).map_values(
            |b: LineBpModel| line_wire(b),
        ),
    decreases bps.len(),
{
    reveal(Seq::filter);
    if bps.len() > 0 {
        lemma_line_wires(bps.drop_last());
    }
    assert(line_wires(bps) =~= bps.filter(|b: LineBpModel| b.enabled).map_values(
        |b: LineBpModel| line_wire(b),
    ));
}

proof fn lemma_fn_wires(bps: Seq<FnBpModel>)
    ensures
        fn_wires(bps) == bps.filter(|b: FnBpModel| b.enabled).map_values(
            |b: FnBpModel| name_wire(b.name),
        ),
    decreases bps.len(),
{
    reveal(Seq::filter);
    if bps.len() > 0 {
        lemma_fn_wires(bps.drop_last());
    }
    assert(fn_wires(bps) =~= bps.filter(|b: FnBpModel| b.enabled).map_values(
        |b: FnBpModel| name_wire(b.name),
    ));
}

proof fn lemma_data_wires(bps: Seq<DataBpModel>)
    ensures
        data_wires(bps) == bps.filter(|b: DataBpModel| b.enabled).map_values(
            |b: DataBpModel| no_keys().with("dataId"@, Doc::Str(b.data_id)),
        ),
    decreases bps.len(),
{
    reveal(Seq::filter);
    if bps.len() > 0 {
        lemma_data_wires(bps.drop_last());
    }
    assert(data_wires(bps) =~= bps.filter(|b: DataBpModel| b.enabled).map_values(
        |b: DataBpModel| no_keys().with("dataId"@, Doc::Str(b.data_id)),
    ));
}

proof fn lemma_temp_index(ts: Seq<TempModel>, path: Seq<char>, i: int)
    requires
        0 <= i <= ts.len(),
    ensures
        match temp_index(ts, path, i) {
            Some(k) => i <= k < ts.len() && ts[k].path == path,
            None => forall|j: int| i <= j < ts.len() ==> (#[trigger] ts[j]).path != path,
        },
    decreases ts.len() - i,
{
    if i < ts.len() && ts[i].path != path {
        lemma_temp_index(ts, path, i + 1);
    }
}

/// A message that puts a breakpoint on a line says which line, and carries the
/// condition, the hit count and the log message that the breakpoint has, and
/// no other.
pub open spec fn tells_of(d: Doc, b: LineBpModel) -> bool {
    &&& d.at("line"@) == Doc::Int(b.line)
    &&& match b.condition {
        Some(c) => d.at("condition"@) == Doc::Str(c),
        None => !d.has("condition"@),
    }
    &&& match b.hit {
        Some(n) => d.at("hitCondition"@) == Doc::Str(int_text(n)),
        None => !d.has("hitCondition"@),
    }
    &&& match b.log {
        Some(l) => d.at("logMessage"@) == Doc::Str(l),
        None => !d.has("logMessage"@),
    }
}

/// The requests name their keys apart.
proof fn lemma_keys_apart()
    ensures
        "line"@ != "condition"@,
        "line"@ != "hitCondition"@,
        "line"@ != "logMessage"@,
        "condition"@ != "hitCondition"@,
        "condition"@ != "logMessage"@,
        "hitCondition"@ != "logMessage"@,
        "source"@ != "breakpoints"@,
{
    reveal_strlit("line");
    reveal_strlit("condition");
    reveal_strlit("hitCondition");
    reveal_strlit("logMessage");
    reveal_strlit("source");
    reveal_strlit("breakpoints");
    assert("line"@.len() == 4 && "condition"@.len() == 9 && "hitCondition"@.len() == 12);
    assert("logMessage"@.len() == 10 && "source"@.len() == 6 && "breakpoints"@.len() == 11);
}

/// The adapter is told of exactly the line breakpoints of a file that are
/// switched on, in their order and each as it is, and after them of the lines
/// that the run stops at once; and of nothing else.
pub proof fn enabled_line_breakpoints_are_told(m: SessionModel, path: Seq<char>)
    requires
        m.wf(),
    ensures
        line_sync(m, path).command == "setBreakpoints"@,
        line_sync(m, path).args.at("source"@).at("path"@) == Doc::Str(path),
        ({
            let told = line_sync(m, path).args.at("breakpoints"@).items();
            exists|on: Seq<LineBpModel>, once: Seq<int>|
                {
                    &&& told.len() == #[trigger] on.len() + #[trigger] once.len()
                    &&& forall|k: int| 0 <= k < on.len() ==> tells_of(#[trigger] told[k], on[k])
                    &&& forall|k: int|
                        0 <= k < once.len() ==> #[trigger] told[on.len() + k] == Doc::Obj(
                            Map::<Seq<char>, Doc>::empty().insert("line"@, Doc::Int(once[k])),
                        )
                    &&& forall|f: int|
                        0 <= f < m.line_bps.len() && (#[trigger] m.line_bps[f]).path == path
                            ==> on == m.line_bps[f].bps.filter(|b: LineBpModel| b.enabled)
                    &&& (forall|f: int|
                        0 <= f < m.line_bps.len() ==> (#[trigger] m.line_bps[f]).path != path)
                        ==> on.len() == 0
                    &&& forall|t: int|
                        0 <= t < m.temp.len() && (#[trigger] m.temp[t]).path == path ==> once
                            == m.temp[t].lines
                    &&& (forall|t: int|
                        0 <= t < m.temp.len() ==> (#[trigger] m.temp[t]).path != path)
                        ==> once.len() == 0
                }
        }),
{
    lemma_keys_apart();
    let bps = bps_of(m.line_bps, path);
    let on = bps.filter(|b: LineBpModel| b.enabled);
    let once = temps_of(m.temp, path);
    let told = line_sync(m, path).args.at("breakpoints"@).items();
    lemma_line_wires(bps);
    lemma_file_index(m.line_bps, path, 0);
    lemma_temp_index(m.temp, path, 0);
    assert(told == line_wires(bps) + temp_wires(once));
    assert forall|k: int| 0 <= k < on.len() implies tells_of(#[trigger] told[k], on[k]) by {
        assert(told[k] == line_wire(on[k]));
    }
    assert forall|k: int| 0 <= k < once.len() implies #[trigger] told[on.len() + k] == Doc::Obj(
        Map::<Seq<char>, Doc>::empty().insert("line"@, Doc::Int(once[k])),
    ) by {
        assert(told[on.len() + k] == temp_wires(once)[k]);
    }
    if forall|f: int| 0 <= f < m.line_bps.len() ==> (#[trigger] m.line_bps[f]).path != path {
        reveal(Seq::filter);
    }
}

/// A breakpoint that is added to a line is told to the adapter, behind those
/// that its file had before; what other files are told stays as it was, and so
/// do the functions and the data.
pub proof fn a_new_line_breakpoint_is_told(
    m: SessionModel,
    path: Seq<char>,
    line: int,
    condition: Option<Seq<char>>,
    hit: Option<int>,
    log: Option<Seq<char>>,
    other: Seq<char>,
)
    requires
        m.wf(),
    ensures
        ({
            let n = m.with_line_bp(path, line, condition, hit, log);
            &&& other != path ==> line_sync(n, other) == line_sync(m, other)
            &&& fn_sync(n) == fn_sync(m)
            &&& data_sync(n) == data_sync(m)
            &&& exists|at: int, d: Doc|
                {
                    &&& 0 <= at <= line_sync(m, path).args.at("breakpoints"@).items().len()
                    &&& line_sync(n, path).args.at("breakpoints"@).items() == #[trigger] line_sync(
                        m,
                        path,
                    ).args.at("breakpoints"@).items().insert(at, d)
                    &&& d.at("line"@) == Doc::Int(line)
                    &&& d.at("condition"@).text() == condition
                    &&& d.at("logMessage"@).text() == log
                    &&& d.at("hitCondition"@).text() == match hit {
                        Some(h) => Some(int_text(h)),
                        None => None,
                    }
                    &&& m.temp.len() == 0 ==> at == line_sync(m, path).args.at(
                        "breakpoints"@,
                    ).items().len()
                }
        }),
{
    lemma_keys_apart();
    let n = m.with_line_bp(path, line, condition, hit, log);
    let b = new_line_bp(next_number(m.bp_id), line, condition, hit, log);
    let bps = bps_of(m.line_bps, path);
    lemma_file_index(m.line_bps, path, 0);
    lemma_bps_after(m.line_bps, path, bps.push(b), path);
    lemma_bps_after(m.line_bps, path, bps.push(b), other);
    assert(bps_of(n.line_bps, path) == bps.push(b));
    assert(bps.push(b).drop_last() =~= bps);
    let own = line_wires(bps);
    let once = temp_wires(temps_of(m.temp, path));
    let before = line_sync(m, path).args.at("breakpoints"@).items();
    let after = line_sync(n, path).args.at("breakpoints"@).items();
    let at = own.len() as int;
    let d = line_wire(b);
    assert(before == own + once);
    assert(after == own.push(d) + once);
    assert(after =~= before.insert(at, d));
    assert(d.at("line"@) == Doc::Int(line));
}

/// What the files hold once the line breakpoints of one of them are set.
pub proof fn lemma_bps_after(
    fs: Seq<FileModel>,
    path: Seq<char>,
    bps: Seq<LineBpModel>,
    other: Seq<char>,
)
    requires
        distinct_files(fs),
    ensures
        bps_of(with_bps(fs, path, bps), other) == if other == path {
            bps
        } else {
            bps_of(fs, other)
        },
{
    let gs = with_bps(fs, path, bps);
    lemma_file_index(fs, path, 0);
    lemma_file_index(fs, other, 0);
    lemma_file_index(gs, other, 0);
    lemma_file_index(gs, path, 0);
    lemma_with_bps(fs, path, bps);
    match file_index(fs, path, 0) {
        Some(i) => {
            assert(gs[i].path == path);
            if other == path {
                let k = file_index(gs, path, 0)->0;
                if k < i {
                    assert(gs[k].path != gs[i].path);
                } else if i < k {
                    assert(gs[i].path != gs[k].path);
                }
            } else {
                match file_index(fs, other, 0) {
                    Some(j) => {
                        assert(gs[j].path == other);
                        let k = file_index(gs, other, 0)->0;
                        if k < j {
                            assert(gs[k].path != gs[j].path);
                        } else if j < k {
                            assert(gs[j].path != gs[k].path);
                        }
                    },
                    None => {
                        assert forall|j: int| 0 <= j < gs.len() implies (#[trigger] gs[j]).path
                            != other by {
                            assert(gs[j].path == fs[j].path);
                        }
                    },
                }
            }
        },
        None => {
            let last = fs.len() as int;
            assert(gs[last].path == path);
            if other == path {
                let k = file_index(gs, path, 0)->0;
                if k < last {
                    assert(gs[k] == fs[k]);
                }
            } else {
                match file_index(fs, other, 0) {
                    Some(j) => {
                        assert(gs[j] == fs[j]);
                        let k = file_index(gs, other, 0)->0;
                        if k < j {
                            assert(gs[k].path != gs[j].path);
                        } else if j < k {
                            assert(gs[j].path != gs[k].path);
                        }
                    },
                    None => {
                        assert forall|j: int| 0 <= j < gs.len() implies (#[trigger] gs[j]).path
                            != other by {
                            if j < last {
                                assert(gs[j] == fs[j]);
                            }
                        }
                    },
                }
            }
        },
    }
}

/// The adapter is told of exactly the functions whose breakpoint is switched
/// on, by name and in their order; and, where panics are to be caught, behind
/// them of the three functions that raise one.
pub proof fn enabled_functions_are_told(m: SessionModel)
    ensures
        fn_sync(m).command == "setFunctionBreakpoints"@,
        ({
            let told = fn_sync(m).args.at("breakpoints"@).items();
            let on = m.fn_bps.filter(|b: FnBpModel| b.enabled);
            &&& told.len() == on.len() + if m.panic {
                3int
            } else {
                0
            }
            &&& forall|k: int|
                0 <= k < on.len() ==> (#[trigger] told[k]).at("name"@) == Doc::Str(on[k].name)
            &&& m.panic ==> {
                &&& told[on.len() as int].at("name"@) == Doc::Str("rust_panic"@)
                &&& told[on.len() as int + 1].at("name"@) == Doc::Str("core::panicking::panic_fmt"@)
                &&& told[on.len() as int + 2].at("name"@) == Doc::Str("core::panicking::panic"@)
            }
        }),
{
    lemma_fn_wires(m.fn_bps);
}

/// The adapter is told of exactly the data whose breakpoint is switched on, by
/// the id that it knows the data by and in their order.
pub proof fn enabled_data_are_told(m: SessionModel)
    ensures
        data_sync(m).command == "setDataBreakpoints"@,
        ({
            let told = data_sync(m).args.at("breakpoints"@).items();
            let on = m.data_bps.filter(|b: DataBpModel| b.enabled);
            &&& told.len() == on.len()
            &&& forall|k: int|
                0 <= k < on.len() ==> (#[trigger] told[k]).at("dataId"@) == Doc::Str(on[k].data_id)
        }),
{
    lemma_data_wires(m.data_bps);
}

/// A function or a piece of data that a breakpoint is added for is told to the
/// adapter behind those of before, and what else it is told stays as it was;
/// each new breakpoint has a number of its own.
pub proof fn new_breakpoints_are_told(
    m: SessionModel,
    name: Seq<char>,
    data_id: Seq<char>,
    path: Seq<char>,
)
    ensures
        ({
            let f = m.with_fn_bp(name);
            let d = m.with_data_bp(name, data_id);
            let p = m.with_panic(true);
            let told = fn_sync(m).args.at("breakpoints"@).items();
            let datas = data_sync(m).args.at("breakpoints"@).items();
            &&& line_sync(f, path) == line_sync(m, path) && line_sync(d, path) == line_sync(m, path)
                && line_sync(p, path) == line_sync(m, path)
            &&& data_sync(f) == data_sync(m) && data_sync(p) == data_sync(m)
            &&& fn_sync(d) == fn_sync(m)
            &&& !m.panic ==> fn_sync(f).args.at("breakpoints"@).items() == told.push(
                Doc::Obj(Map::<Seq<char>, Doc>::empty().insert("name"@, Doc::Str(name))),
            )
            &&& data_sync(d).args.at("breakpoints"@).items() == datas.push(
                Doc::Obj(Map::<Seq<char>, Doc>::empty().insert("dataId"@, Doc::Str(data_id))),
            )
            &&& !m.panic ==> told.is_prefix_of(fn_sync(p).args.at("breakpoints"@).items())
            &&& m.panic ==> fn_sync(p) == fn_sync(m)
        }),
{
    let f = m.with_fn_bp(name);
    assert(f.fn_bps.drop_last() =~= m.fn_bps);
    let d = m.with_data_bp(name, data_id);
    assert(d.data_bps.drop_last() =~= m.data_bps);
}

/// A list is seen item by item, in its order.
pub proof fn breakpoints_are_seen_one_by_one(lines: Seq<LineBp>, files: Seq<FileBps>, fns: Seq<FnBp>, datas: Seq<DataBp>, temps: Seq<FileTemps>, i: int)
    ensures
        lines_in(lines).len() == lines.len(),
        0 <= i < lines.len() ==> lines_in(lines)[i] == lines[i]@,
        files_in(files).len() == files.len(),
        0 <= i < files.len() ==> files_in(files)[i] == files[i]@,
        fns_in(fns).len() == fns.len(),
        0 <= i < fns.len() ==> fns_in(fns)[i] == fns[i]@,
        datas_in(datas).len() == datas.len(),
        0 <= i < datas.len() ==> datas_in(datas)[i] == datas[i]@,
        temps_in(temps).len() == temps.len(),
        0 <= i < temps.len() ==> temps_in(temps)[i] == temps[i]@,
{
}

/// A session begins with its program and nothing else: no breakpoint, no stop,
/// no watch and no output, and the adapter has yet to be configured.
pub proof fn a_session_begins_with_its_program(
    program: Seq<char>,
    cwd: Seq<char>,
    args: Seq<Seq<char>>,
    adapter: Seq<char>,
)
    ensures
        ({
            let m = new_session(program, cwd, args, adapter);
            &&& m.program == program && m.cwd == cwd && m.args == args && m.adapter == adapter
            &&& m.line_bps.len() == 0 && m.fn_bps.len() == 0 && m.data_bps.len() == 0 && !m.panic
            &&& m.temp.len() == 0 && m.threads.len() == 0 && m.watches.len() == 0
            &&& m.output.len() == 0 && m.prev_locals.len() == 0
            &&& m.last_stop is None && m.cur_thread is None && m.cur_frame == 0 && m.bp_id == 0
            &&& !m.configured
        }),
{
}

} // verus!
