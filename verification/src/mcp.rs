//! MCP server: exposes the debugger to MCP clients over newline-delimited
//! JSON-RPC. Each tool call ensures the per-project daemon is up and forwards
//! to it — the same daemon the CLI drives.

use vstd::prelude::*;
use crate::batch::{run_batch_full, script_need};
use crate::cargo::{build_target, target_need};
use crate::cli::VERSION;
use crate::client::{cmd_of, command, resolve, resolve_need, PATIENCE};
use crate::daemon::{
    dispatch_way, opt_int_doc, opt_number, responses_carry_their_status,
};
use crate::json::{
    docs, items_of, json_pretty, json_text, no_keys, opt_view, parsed, strings_in, texts_in, Doc,
    Json,
};
use crate::launch::{
    launch_doc, launch_payload, place_doc, show_triage, triage_doc, triage_payload, triage_text,
};
use crate::num::{i64_value, int_text, int_text_reads_back, lemma_int_text, read_i64, show_int};
use crate::ops::{OutcomeModel, Way};
use crate::report::{definite, is_ok, jresp, ok};
use crate::text::{
    debug_text, digit, join, join_all, opt_str, owned, rhalves, same, show_debug, split_last,
    texts_are_cut_at_their_separator, trim, trimmed, views,
};
use crate::tools::{tool_docs, tools};
use crate::util::{build_status, classify_build_error, join_path, joined, parent_of, parent_path};
use crate::wants::{
    answers_in, obtain, send, sent, want, Answer, AnswerModel, Need, Pending, Want, WantModel,
};

verus! {

pub const PROTOCOL: &'static str = "2024-11-05";

// ---------------------------------------------------------------------------
// Results
// ---------------------------------------------------------------------------

/// What a tool call gave.
pub ghost struct CallModel {
    pub text: Seq<char>,
    pub error: bool,
    pub status: Seq<char>,
}

/// What a tool call gave: its text, whether it failed, and its outcome.
pub struct Call {
    pub text: String,
    pub error: bool,
    pub status: String,
}

impl View for Call {
    type V = CallModel;

    open spec fn view(&self) -> CallModel {
        CallModel { text: self.text@, error: self.error, status: self.status@ }
    }
}

pub open spec fn call_failed(text: Seq<char>, status: Seq<char>) -> CallModel {
    CallModel { text, error: true, status }
}

fn failed_call(text: String, status: &str) -> (r: Call)
    ensures
        r@ == call_failed(text@, status@),
{
    Call { text, error: true, status: owned(status) }
}

/// The outcome of a response.
pub open spec fn outcome_of(resp: Doc) -> Seq<char> {
    definite(Some(resp)).at("status"@).text_or("ok"@)
}

fn outcome(resp: &Json) -> (r: String)
    ensures
        r@ == outcome_of(resp@),
{
    jresp(Some(resp.copy())).at("status").str_or("ok")
}

/// The keys whose value is shown, in order.
pub open spec fn shown_keys() -> Seq<Seq<char>> {
    seq![
        "stop"@,
        "vars"@,
        "value"@,
        "bt"@,
        "source"@,
        "threads"@,
        "breakpoints"@,
        "hover"@,
        "watches"@,
    ]
}

/// How a value is shown, where it is: a text that is not empty as it is, an
/// object indented.
pub open spec fn shown_value(v: Doc) -> Option<Seq<char>> {
    match v {
        Doc::Str(s) => if s.len() > 0 {
            Some(s)
        } else {
            None
        },
        Doc::Obj(_) => Some(json_pretty(v)),
        _ => None,
    }
}

/// The first value shown, among the keys from `i` on.
pub open spec fn first_shown(resp: Doc, keys: Seq<Seq<char>>, i: int) -> Option<Seq<char>>
    decreases keys.len() - i,
{
    if i < 0 || i >= keys.len() {
        None
    } else {
        match shown_value(resp.at(keys[i])) {
            Some(t) => Some(t),
            None => first_shown(resp, keys, i + 1),
        }
    }
}

pub open spec fn found_row(s: Doc) -> Seq<char> {
    s.at("name"@).text_or("?"@) + "  "@ + s.at("file"@).text_or("?"@) + ":"@ + json_text(
        s.at("line"@),
    )
}

pub open spec fn found_rows(v: Seq<Doc>) -> Seq<Seq<char>> {
    Seq::new(v.len(), |i: int| found_row(v[i]))
}

pub open spec fn spot_row(l: Doc) -> Seq<char> {
    l.at("file"@).text_or("?"@) + ":"@ + json_text(l.at("line"@)) + ":"@ + json_text(
        l.at("col"@),
    )
}

pub open spec fn spot_rows(v: Seq<Doc>) -> Seq<Seq<char>> {
    Seq::new(v.len(), |i: int| spot_row(v[i]))
}

/// A text, or another where it is empty.
pub open spec fn text_or_else(t: Seq<char>, none: Seq<char>) -> Seq<char> {
    if t.len() > 0 {
        t
    } else {
        none
    }
}

/// A success as text.
pub open spec fn success_text(resp: Doc) -> Seq<char> {
    match first_shown(resp, shown_keys(), 0) {
        Some(t) => t,
        None => match resp.at("symbols"@) {
            Doc::Arr(a) => text_or_else(join(found_rows(a), "\n"@), "(no matches)"@),
            _ => match resp.at("locations"@) {
                Doc::Arr(a) => text_or_else(join(spot_rows(a), "\n"@), "(no results)"@),
                _ => "ok"@,
            },
        },
    }
}

/// The error of a response as text.
pub open spec fn failure_text(resp: Doc) -> Seq<char> {
    "error: "@ + resp.at("error"@).text_or("unknown"@)
}

/// A response as what a tool call gives.
pub open spec fn response_call(resp: Doc) -> CallModel {
    if resp.at("ok"@).bool_or(true) {
        CallModel { text: success_text(resp), error: false, status: outcome_of(resp) }
    } else {
        call_failed(failure_text(resp), outcome_of(resp))
    }
}

fn show_value(v: &Json) -> (r: Option<String>)
    ensures
        match r {
            Some(t) => shown_value(v@) == Some(t@),
            None => shown_value(v@) is None,
        },
{
    if let Some(t) = v.as_str() {
        if t.is_empty() {
            return None;
        }
        return Some(owned(t));
    }
    if v.is_object() {
        return Some(v.render_pretty());
    }
    None
}

fn show_first(resp: &Json, keys: &Vec<String>) -> (r: Option<String>)
    ensures
        match r {
            Some(t) => first_shown(resp@, views(keys@), 0) == Some(t@),
            None => first_shown(resp@, views(keys@), 0) is None,
        },
{
    let mut i: usize = 0;
    while i < keys.len()
        invariant
            i <= keys.len(),
            first_shown(resp@, views(keys@), 0) == first_shown(resp@, views(keys@), i as int),
        decreases keys.len() - i,
    {
        assert(views(keys@)[i as int] == keys@[i as int]@);
        if let Some(t) = show_value(resp.at(keys[i].as_str())) {
            return Some(t);
        }
        i += 1;
    }
    None
}

fn show_found(s: &Json) -> (t: String)
    ensures
        t@ == found_row(s@),
{
    let mut t = s.at("name").str_or("?");
    t.append("  ");
    let file = s.at("file").str_or("?");
    t.append(file.as_str());
    t.append(":");
    let line = s.at("line").render();
    t.append(line.as_str());
    t
}

fn show_spot(l: &Json) -> (t: String)
    ensures
        t@ == spot_row(l@),
{
    let mut t = l.at("file").str_or("?");
    t.append(":");
    let line = l.at("line").render();
    t.append(line.as_str());
    t.append(":");
    let col = l.at("col").render();
    t.append(col.as_str());
    t
}

fn or_else(t: String, none: &str) -> (r: String)
    ensures
        r@ == text_or_else(t@, none@),
{
    if t.as_str().is_empty() {
        owned(none)
    } else {
        t
    }
}

fn show_success(resp: &Json) -> (t: String)
    ensures
        t@ == success_text(resp@),
{
    let keys = vec![
        owned("stop"),
        owned("vars"),
        owned("value"),
        owned("bt"),
        owned("source"),
        owned("threads"),
        owned("breakpoints"),
        owned("hover"),
        owned("watches"),
    ];
    assert(views(keys@) =~= shown_keys());
    if let Some(t) = show_first(resp, &keys) {
        return t;
    }
    if let Some(a) = resp.at("symbols").as_array() {
        let mut rows: Vec<String> = Vec::new();
        let mut i: usize = 0;
        while i < a.len()
            invariant
                i <= a.len(),
                rows.len() == i,
                forall|k: int| 0 <= k < i ==> (#[trigger] rows@[k])@ == found_row(a@[k]@),
            decreases a.len() - i,
        {
            rows.push(show_found(&a[i]));
            i += 1;
        }
        assert(views(rows@) =~= found_rows(docs(a@)));
        return or_else(join_all(&rows, "\n"), "(no matches)");
    }
    if let Some(a) = resp.at("locations").as_array() {
        let mut rows: Vec<String> = Vec::new();
        let mut i: usize = 0;
        while i < a.len()
            invariant
                i <= a.len(),
                rows.len() == i,
                forall|k: int| 0 <= k < i ==> (#[trigger] rows@[k])@ == spot_row(a@[k]@),
            decreases a.len() - i,
        {
            rows.push(show_spot(&a[i]));
            i += 1;
        }
        assert(views(rows@) =~= spot_rows(docs(a@)));
        return or_else(join_all(&rows, "\n"), "(no results)");
    }
    owned("ok")
}

/// A response as what a tool call gives.
pub fn format_resp(resp: &Json) -> (r: Call)
    ensures
        r@ == response_call(resp@),
{
    let status = outcome(resp);
    if !resp.at("ok").bool_or(true) {
        let mut t = String::from_str("error: ");
        let e = resp.at("error").str_or("unknown");
        t.append(e.as_str());
        return Call { text: t, error: true, status };
    }
    Call { text: show_success(resp), error: false, status }
}

// ---------------------------------------------------------------------------
// Arguments
// ---------------------------------------------------------------------------

/// The file and line that a spec names, seen from a directory: line zero where
/// it names none.
pub open spec fn loc_of(spec: Seq<char>, cwd: Seq<char>) -> (Seq<char>, int) {
    match rhalves(spec, ":"@) {
        Some((f, l)) => (
            joined(cwd, f),
            match i64_value(l) {
                Some(n) => n,
                None => 0,
            },
        ),
        None => (joined(cwd, spec), 0),
    }
}

/// The file, in its canonical form, and the line that a spec names.
pub open spec fn loc_need(
    spec: Seq<char>,
    cwd: Seq<char>,
    answers: Seq<AnswerModel>,
    at: int,
) -> Need<(Seq<char>, int)> {
    let (f, l) = loc_of(spec, cwd);
    match resolve_need(f, answers, at) {
        Need::Want(w) => Need::Want(w),
        Need::Done(p, n) => Need::Done((p, l), n),
    }
}

/// The file and line that a `file.rs:line` spec names.
pub fn parse_loc(spec: &str, cwd: &str, answers: &Vec<Answer>, at: usize) -> (r: Pending<
    (String, i64),
>)
    requires
        at <= answers.len(),
    ensures
        match r {
            Pending::Want(q) => loc_need(spec@, cwd@, answers_in(answers@), at as int) == Need::<
                (Seq<char>, int),
            >::Want(q@),
            Pending::Done((f, l), n) => loc_need(spec@, cwd@, answers_in(answers@), at as int)
                == Need::Done((f@, l as int), n as int) && at <= n <= answers.len(),
        },
{
    let (f, l): (String, i64) = match split_last(spec, ":") {
        Some((f, l)) => {
            let line: i64 = match read_i64(l.as_str()) {
                Some(n) => n,
                None => 0,
            };
            (join_path(cwd, f.as_str()), line)
        },
        None => (join_path(cwd, spec), 0),
    };
    match resolve(f, answers, at) {
        Pending::Want(q) => Pending::Want(q),
        Pending::Done(p, n) => Pending::Done((p, l), n),
    }
}

/// The line breakpoints of the specs from `i` on, behind those that are done.
pub open spec fn spots_need(
    specs: Seq<Seq<char>>,
    i: int,
    done: Seq<Doc>,
    cwd: Seq<char>,
    answers: Seq<AnswerModel>,
    at: int,
) -> Need<Seq<Doc>>
    decreases specs.len() - i,
{
    if i < 0 || i >= specs.len() {
        Need::Done(done, at)
    } else {
        match loc_need(specs[i], cwd, answers, at) {
            Need::Want(w) => Need::Want(w),
            Need::Done((f, l), n) => spots_need(
                specs,
                i + 1,
                done.push(place_doc(f, l)),
                cwd,
                answers,
                n,
            ),
        }
    }
}

fn read_spots(specs: &Vec<String>, cwd: &str, answers: &Vec<Answer>, at: usize) -> (r: Pending<
    Vec<Json>,
>)
    requires
        at <= answers.len(),
    ensures
        match r {
            Pending::Want(q) => spots_need(
                views(specs@),
                0,
                Seq::empty(),
                cwd@,
                answers_in(answers@),
                at as int,
            ) == Need::<Seq<Doc>>::Want(q@),
            Pending::Done(bps, n) => spots_need(
                views(specs@),
                0,
                Seq::empty(),
                cwd@,
                answers_in(answers@),
                at as int,
            ) == Need::Done(docs(bps@), n as int) && at <= n <= answers.len(),
        },
{
    let ghost all = views(specs@);
    let ghost model = answers_in(answers@);
    let ghost whole = spots_need(all, 0, Seq::empty(), cwd@, model, at as int);
    let mut bps: Vec<Json> = Vec::new();
    let mut n: usize = at;
    let mut i: usize = 0;
    assert(docs(bps@) =~= Seq::empty());
    while i < specs.len()
        invariant
            i <= specs.len(),
            at <= n <= answers.len(),
            all == views(specs@),
            model == answers_in(answers@),
            whole == spots_need(all, 0, Seq::empty(), cwd@, model, at as int),
            whole == spots_need(all, i as int, docs(bps@), cwd@, model, n as int),
        decreases specs.len() - i,
    {
        assert(all[i as int] == specs@[i as int]@);
        match parse_loc(specs[i].as_str(), cwd, answers, n) {
            Pending::Want(q) => return Pending::Want(q),
            Pending::Done((f, l), k) => {
                let ghost before = docs(bps@);
                let b = Json::obj().with("file", Json::text(f.as_str())).with(
                    "line",
                    Json::number(l),
                );
                let ghost doc = b@;
                bps.push(b);
                assert(docs(bps@) =~= before.push(doc));
                n = k;
            },
        }
        i += 1;
    }
    Pending::Done(bps, n)
}

/// The strings in a list of an argument.
pub open spec fn list_arg(a: Doc, key: Seq<char>) -> Seq<Seq<char>> {
    texts_in(a.at(key).items())
}

fn strings_of(a: &Json, key: &str) -> (r: Vec<String>)
    ensures
        views(r@) == list_arg(a@, key@),
{
    match a.at(key).as_array() {
        Some(v) => strings_in(v),
        None => {
            let r: Vec<String> = Vec::new();
            assert(views(r@) =~= Seq::empty());
            r
        },
    }
}

/// The arguments to run a program with: the call's own as they come, behind a
/// test filter where the build put one in front.
pub open spec fn run_args(a: Doc, used: Seq<Seq<char>>) -> Seq<Doc> {
    let given = a.at("args"@).items();
    if used.len() > texts_in(given).len() {
        seq![Doc::Str(used[0])] + given
    } else {
        given
    }
}

fn make_args(a: &Json, used: &Vec<String>) -> (r: Vec<Json>)
    ensures
        docs(r@) == run_args(a@, views(used@)),
{
    let given = items_of(a.at("args"));
    let texts = strings_of(a, "args");
    assert(texts.len() == views(texts@).len());
    if used.len() > texts.len() {
        assert(views(used@)[0] == used@[0]@);
        let mut r: Vec<Json> = Vec::new();
        r.push(Json::text(used[0].as_str()));
        let mut given = given;
        let ghost rest = docs(given@);
        let ghost first = r@[0]@;
        r.append(&mut given);
        assert(docs(r@) =~= seq![first] + rest);
        r
    } else {
        given
    }
}

/// The program that a call names, and its arguments; or what the call gives
/// where it names none.
pub open spec fn program_of(a: Doc, answers: Seq<AnswerModel>, at: int) -> Need<
    Result<(Seq<char>, Seq<Doc>), CallModel>,
> {
    let args = list_arg(a, "args"@);
    match a.at("cargo"@).text() {
        Some(dir) => match target_need(
            dir,
            a.at("bin"@).text(),
            a.at("test"@).text(),
            a.at("lib"@).bool_or(false),
            args,
            answers,
            at,
        ) {
            Need::Want(w) => Need::Want(w),
            Need::Done(Ok((exe, used)), n) => Need::Done(Ok((exe, run_args(a, used))), n),
            Need::Done(Err(e), n) => Need::Done(Err(call_failed(e, build_status(e))), n),
        },
        None => match a.at("bin_path"@).text() {
            Some(path) => match resolve_need(path, answers, at) {
                Need::Want(w) => Need::Want(w),
                Need::Done(exe, n) => Need::Done(Ok((exe, run_args(a, args))), n),
            },
            None => Need::Done(
                Err(
                    call_failed(
                        "provide either `cargo` (project dir) or `bin_path`"@,
                        "user_error"@,
                    ),
                ),
                at,
            ),
        },
    }
}

fn find_program(a: &Json, answers: &Vec<Answer>, at: usize) -> (r: Pending<
    Result<(String, Vec<Json>), Call>,
>)
    requires
        at <= answers.len(),
    ensures
        match r {
            Pending::Want(q) => program_of(a@, answers_in(answers@), at as int) == Need::<
                Result<(Seq<char>, Seq<Doc>), CallModel>,
            >::Want(q@),
            Pending::Done(Ok((exe, args)), n) => program_of(a@, answers_in(answers@), at as int)
                == Need::<Result<(Seq<char>, Seq<Doc>), CallModel>>::Done(
                Ok((exe@, docs(args@))),
                n as int,
            ) && at <= n <= answers.len(),
            Pending::Done(Err(c), n) => program_of(a@, answers_in(answers@), at as int) == Need::<
                Result<(Seq<char>, Seq<Doc>), CallModel>,
            >::Done(Err(c@), n as int) && at <= n <= answers.len(),
        },
{
    let args = strings_of(a, "args");
    match a.at("cargo").as_str() {
        Some(dir) => {
            let bin = a.at("bin").as_str();
            let test = a.at("test").as_str();
            let lib = a.at("lib").bool_or(false);
            assert(opt_str(bin) == a@.at("bin"@).text());
            assert(opt_str(test) == a@.at("test"@).text());
            match build_target(dir, bin, test, lib, &args, answers, at) {
                Pending::Want(q) => Pending::Want(q),
                Pending::Done(Ok((exe, used)), n) => {
                    let args = make_args(a, &used);
                    Pending::Done(Ok((exe, args)), n)
                },
                Pending::Done(Err(e), n) => {
                    let status = classify_build_error(e.as_str());
                    Pending::Done(Err(failed_call(e, status)), n)
                },
            }
        },
        None => match a.at("bin_path").as_str() {
            Some(path) => match resolve(owned(path), answers, at) {
                Pending::Want(q) => Pending::Want(q),
                Pending::Done(exe, n) => {
                    let args = make_args(a, &args);
                    Pending::Done(Ok((exe, args)), n)
                },
            },
            None => Pending::Done(
                Err(
                    failed_call(
                        owned("provide either `cargo` (project dir) or `bin_path`"),
                        "user_error",
                    ),
                ),
                at,
            ),
        },
    }
}

// ---------------------------------------------------------------------------
// Requests
// ---------------------------------------------------------------------------

/// The request of a tool that runs the program.
pub open spec fn run_request(name: Seq<char>, a: Doc) -> Option<Doc> {
    if name == "debug_breakpoints"@ {
        Some(command("bp_list"@))
    } else if name == "debug_remove_breakpoint"@ {
        Some(command("bp_rm"@).with("id"@, Doc::Str(a.at("id"@).text_or(""@))))
    } else if name == "debug_continue"@ {
        match a.at("until"@).text() {
            Some(cond) => Some(command("continue_until"@).with("until"@, Doc::Str(cond))),
            None => Some(command("continue"@)),
        }
    } else if name == "debug_step"@ {
        Some(command("step"@).with("kind"@, Doc::Str(a.at("kind"@).text_or("over"@))))
    } else if name == "debug_pause"@ {
        Some(command("pause"@))
    } else if name == "debug_restart"@ {
        Some(command("restart"@))
    } else {
        None
    }
}

/// The request of a tool that inspects or changes the program.
pub open spec fn inspect_request(name: Seq<char>, a: Doc) -> Option<Doc> {
    if name == "debug_locals"@ {
        let full = a.at("full"@).bool_or(false);
        Some(
            command("vars"@).with(
                "depth"@,
                Doc::Int(
                    a.at("depth"@).int_or(
                        if full {
                            10
                        } else {
                            3
                        },
                    ),
                ),
            ).with("full"@, Doc::Bool(full)),
        )
    } else if name == "debug_eval"@ {
        Some(command("eval"@).with("expr"@, Doc::Str(a.at("path"@).text_or(""@))))
    } else if name == "debug_set"@ {
        Some(
            command("set"@).with("path"@, Doc::Str(a.at("path"@).text_or(""@))).with(
                "value"@,
                Doc::Str(a.at("value"@).text_or(""@)),
            ),
        )
    } else if name == "debug_backtrace"@ {
        Some(command("bt"@))
    } else if name == "debug_source"@ {
        Some(command("list"@).with("radius"@, Doc::Int(a.at("radius"@).int_or(6))))
    } else if name == "debug_state"@ {
        Some(command("state"@))
    } else if name == "debug_status"@ {
        Some(command("status"@))
    } else if name == "debug_threads"@ {
        Some(command("threads"@))
    } else {
        None
    }
}

pub open spec fn spot_request(cmd: Seq<char>, a: Doc) -> Doc {
    command(cmd).with("file"@, Doc::Str(a.at("file"@).text_or(""@))).with(
        "line"@,
        Doc::Int(a.at("line"@).int_or(0)),
    ).with("col"@, Doc::Int(a.at("col"@).int_or(0)))
}

/// The request of a tool that selects, watches, navigates or stops.
pub open spec fn place_request(name: Seq<char>, a: Doc) -> Option<Doc> {
    if name == "debug_select_thread"@ {
        Some(command("thread"@).with("id"@, Doc::Int(a.at("id"@).int_or(0))))
    } else if name == "debug_select_frame"@ {
        Some(command("frame"@).with("index"@, Doc::Int(a.at("index"@).int_or(0))))
    } else if name == "debug_watch_expr"@ {
        Some(
            command("watch_expr"@).with(
                "action"@,
                Doc::Str(a.at("action"@).text_or("list"@)),
            ).with("expr"@, a.at("expr"@)),
        )
    } else if name == "debug_where"@ {
        Some(command("where"@).with("query"@, Doc::Str(a.at("query"@).text_or(""@))))
    } else if name == "debug_definition"@ {
        Some(spot_request("def"@, a))
    } else if name == "debug_hover"@ {
        Some(spot_request("hover"@, a))
    } else if name == "debug_references"@ {
        Some(spot_request("refs"@, a))
    } else if name == "debug_stop"@ {
        Some(command("stop"@))
    } else {
        None
    }
}

/// The request of a breakpoint on no line.
pub open spec fn named_break(a: Doc) -> Option<Doc> {
    match a.at("fn"@).text() {
        Some(f) => Some(command("bp_fn"@).with("name"@, Doc::Str(f))),
        None => if a.at("panic"@).bool_or(false) {
            Some(command("bp_panic"@))
        } else {
            match a.at("watch"@).text() {
                Some(w) => Some(command("bp_watch"@).with("var"@, Doc::Str(w))),
                None => None,
            }
        },
    }
}

/// The request of a tool that needs nothing but its arguments.
pub open spec fn simple_request(name: Seq<char>, a: Doc) -> Option<Doc> {
    match run_request(name, a) {
        Some(p) => Some(p),
        None => match inspect_request(name, a) {
            Some(p) => Some(p),
            None => place_request(name, a),
        },
    }
}

fn make_run(name: &str, a: &Json) -> (r: Option<Json>)
    ensures
        opt_view(r) == run_request(name@, a@),
{
    if same(name, "debug_breakpoints") {
        Some(cmd_of("bp_list"))
    } else if same(name, "debug_remove_breakpoint") {
        let id = a.at("id").str_or("");
        Some(cmd_of("bp_rm").with("id", Json::text(id.as_str())))
    } else if same(name, "debug_continue") {
        match a.at("until").as_str() {
            Some(cond) => Some(cmd_of("continue_until").with("until", Json::text(cond))),
            None => Some(cmd_of("continue")),
        }
    } else if same(name, "debug_step") {
        let kind = a.at("kind").str_or("over");
        Some(cmd_of("step").with("kind", Json::text(kind.as_str())))
    } else if same(name, "debug_pause") {
        Some(cmd_of("pause"))
    } else if same(name, "debug_restart") {
        Some(cmd_of("restart"))
    } else {
        None
    }
}

fn make_inspect(name: &str, a: &Json) -> (r: Option<Json>)
    ensures
        opt_view(r) == inspect_request(name@, a@),
{
    if same(name, "debug_locals") {
        let full = a.at("full").bool_or(false);
        let usual: i64 = if full {
            10
        } else {
            3
        };
        let depth: i64 = a.at("depth").int_or(usual);
        Some(
            cmd_of("vars").with("depth", Json::number(depth)).with("full", Json::boolean(full)),
        )
    } else if same(name, "debug_eval") {
        let path = a.at("path").str_or("");
        Some(cmd_of("eval").with("expr", Json::text(path.as_str())))
    } else if same(name, "debug_set") {
        let path = a.at("path").str_or("");
        let value = a.at("value").str_or("");
        Some(
            cmd_of("set").with("path", Json::text(path.as_str())).with(
                "value",
                Json::text(value.as_str()),
            ),
        )
    } else if same(name, "debug_backtrace") {
        Some(cmd_of("bt"))
    } else if same(name, "debug_source") {
        Some(cmd_of("list").with("radius", Json::number(a.at("radius").int_or(6))))
    } else if same(name, "debug_state") {
        Some(cmd_of("state"))
    } else if same(name, "debug_status") {
        Some(cmd_of("status"))
    } else if same(name, "debug_threads") {
        Some(cmd_of("threads"))
    } else {
        None
    }
}

fn make_spot(cmd: &str, a: &Json) -> (r: Json)
    ensures
        r@ == spot_request(cmd@, a@),
{
    let file = a.at("file").str_or("");
    cmd_of(cmd).with("file", Json::text(file.as_str())).with(
        "line",
        Json::number(a.at("line").int_or(0)),
    ).with("col", Json::number(a.at("col").int_or(0)))
}

fn make_place(name: &str, a: &Json) -> (r: Option<Json>)
    ensures
        opt_view(r) == place_request(name@, a@),
{
    if same(name, "debug_select_thread") {
        Some(cmd_of("thread").with("id", Json::number(a.at("id").int_or(0))))
    } else if same(name, "debug_select_frame") {
        Some(cmd_of("frame").with("index", Json::number(a.at("index").int_or(0))))
    } else if same(name, "debug_watch_expr") {
        let action = a.at("action").str_or("list");
        Some(
            cmd_of("watch_expr").with("action", Json::text(action.as_str())).with(
                "expr",
                a.at("expr").copy(),
            ),
        )
    } else if same(name, "debug_where") {
        let query = a.at("query").str_or("");
        Some(cmd_of("where").with("query", Json::text(query.as_str())))
    } else if same(name, "debug_definition") {
        Some(make_spot("def", a))
    } else if same(name, "debug_hover") {
        Some(make_spot("hover", a))
    } else if same(name, "debug_references") {
        Some(make_spot("refs", a))
    } else if same(name, "debug_stop") {
        Some(cmd_of("stop"))
    } else {
        None
    }
}

fn make_named_break(a: &Json) -> (r: Option<Json>)
    ensures
        opt_view(r) == named_break(a@),
{
    match a.at("fn").as_str() {
        Some(f) => Some(cmd_of("bp_fn").with("name", Json::text(f))),
        None => if a.at("panic").bool_or(false) {
            Some(cmd_of("bp_panic"))
        } else {
            match a.at("watch").as_str() {
                Some(w) => Some(cmd_of("bp_watch").with("var", Json::text(w))),
                None => None,
            }
        },
    }
}

fn make_simple(name: &str, a: &Json) -> (r: Option<Json>)
    ensures
        opt_view(r) == simple_request(name@, a@),
{
    match make_run(name, a) {
        Some(p) => Some(p),
        None => match make_inspect(name, a) {
            Some(p) => Some(p),
            None => make_place(name, a),
        },
    }
}

/// The request of a launch.
pub open spec fn launch_request(
    a: Doc,
    cwd: Seq<char>,
    answers: Seq<AnswerModel>,
    at: int,
    fn_breaks: Seq<Doc>,
    panic: bool,
) -> Need<Result<Doc, CallModel>> {
    match program_of(a, answers, at) {
        Need::Want(w) => Need::Want(w),
        Need::Done(Err(c), n) => Need::Done(Err(c), n),
        Need::Done(Ok((exe, args)), n) => match spots_need(
            list_arg(a, "breakpoints"@),
            0,
            Seq::empty(),
            cwd,
            answers,
            n,
        ) {
            Need::Want(w) => Need::Want(w),
            Need::Done(bps, k) => Need::Done(
                Ok(launch_doc(exe, parent_path(exe), args, bps, fn_breaks, panic)),
                k,
            ),
        },
    }
}

/// The request of a line breakpoint.
pub open spec fn line_request(a: Doc, file: Seq<char>) -> Doc {
    command("bp_add"@).with("file"@, Doc::Str(file)).with(
        "line"@,
        Doc::Int(a.at("line"@).int_or(0)),
    ).with("condition"@, a.at("condition"@)).with("hit"@, opt_int_doc(a.at("hit"@).int64())).with(
        "log"@,
        a.at("log"@),
    )
}

/// The request of a tool, or what the call gives where there is none.
pub open spec fn request_need(
    name: Seq<char>,
    a: Doc,
    cwd: Seq<char>,
    answers: Seq<AnswerModel>,
    at: int,
) -> Need<Result<Doc, CallModel>> {
    if name == "debug_launch"@ {
        launch_request(
            a,
            cwd,
            answers,
            at,
            a.at("fn_breaks"@).items(),
            a.at("panic"@).bool_or(false),
        )
    } else if name == "debug_add_breakpoint"@ {
        match named_break(a) {
            Some(p) => Need::Done(Ok(p), at),
            None => match resolve_need(
                joined(cwd, a.at("file"@).text_or(""@)),
                answers,
                at,
            ) {
                Need::Want(w) => Need::Want(w),
                Need::Done(f, n) => Need::Done(Ok(line_request(a, f)), n),
            },
        }
    } else if name == "debug_run_to"@ {
        match loc_need(a.at("location"@).text_or(""@), cwd, answers, at) {
            Need::Want(w) => Need::Want(w),
            Need::Done((f, l), n) => Need::Done(
                Ok(command("until"@).with("file"@, Doc::Str(f)).with("line"@, Doc::Int(l))),
                n,
            ),
        }
    } else {
        match simple_request(name, a) {
            Some(p) => Need::Done(Ok(p), at),
            None => Need::Done(
                Err(call_failed("unknown tool "@ + debug_text(name), "user_error"@)),
                at,
            ),
        }
    }
}

fn make_launch(
    a: &Json,
    cwd: &str,
    answers: &Vec<Answer>,
    at: usize,
    fn_breaks: Vec<Json>,
    panic: bool,
) -> (r: Pending<Result<Json, Call>>)
    requires
        at <= answers.len(),
    ensures
        match r {
            Pending::Want(q) => launch_request(
                a@,
                cwd@,
                answers_in(answers@),
                at as int,
                docs(fn_breaks@),
                panic,
            ) == Need::<Result<Doc, CallModel>>::Want(q@),
            Pending::Done(Ok(p), n) => launch_request(
                a@,
                cwd@,
                answers_in(answers@),
                at as int,
                docs(fn_breaks@),
                panic,
            ) == Need::<Result<Doc, CallModel>>::Done(Ok(p@), n as int) && at <= n
                <= answers.len(),
            Pending::Done(Err(c), n) => launch_request(
                a@,
                cwd@,
                answers_in(answers@),
                at as int,
                docs(fn_breaks@),
                panic,
            ) == Need::<Result<Doc, CallModel>>::Done(Err(c@), n as int) && at <= n
                <= answers.len(),
        },
{
    let (exe, args, n): (String, Vec<Json>, usize) = match find_program(a, answers, at) {
        Pending::Want(q) => return Pending::Want(q),
        Pending::Done(Err(c), n) => return Pending::Done(Err(c), n),
        Pending::Done(Ok((exe, args)), n) => (exe, args, n),
    };
    let specs = strings_of(a, "breakpoints");
    match read_spots(&specs, cwd, answers, n) {
        Pending::Want(q) => Pending::Want(q),
        Pending::Done(bps, k) => {
            let parent = parent_of(exe.as_str());
            let p = launch_payload(exe.as_str(), &parent, args, bps, fn_breaks, panic);
            Pending::Done(Ok(p), k)
        },
    }
}

fn make_request(name: &str, a: &Json, cwd: &str, answers: &Vec<Answer>, at: usize) -> (r: Pending<
    Result<Json, Call>,
>)
    requires
        at <= answers.len(),
    ensures
        match r {
            Pending::Want(q) => request_need(name@, a@, cwd@, answers_in(answers@), at as int)
                == Need::<Result<Doc, CallModel>>::Want(q@),
            Pending::Done(Ok(p), n) => request_need(
                name@,
                a@,
                cwd@,
                answers_in(answers@),
                at as int,
            ) == Need::<Result<Doc, CallModel>>::Done(Ok(p@), n as int) && at <= n
                <= answers.len(),
            Pending::Done(Err(c), n) => request_need(
                name@,
                a@,
                cwd@,
                answers_in(answers@),
                at as int,
            ) == Need::<Result<Doc, CallModel>>::Done(Err(c@), n as int) && at <= n
                <= answers.len(),
        },
{
    if same(name, "debug_launch") {
        let fns = items_of(a.at("fn_breaks"));
        let panic = a.at("panic").bool_or(false);
        make_launch(a, cwd, answers, at, fns, panic)
    } else if same(name, "debug_add_breakpoint") {
        if let Some(p) = make_named_break(a) {
            return Pending::Done(Ok(p), at);
        }
        let file = a.at("file").str_or("");
        match resolve(join_path(cwd, file.as_str()), answers, at) {
            Pending::Want(q) => Pending::Want(q),
            Pending::Done(f, n) => {
                let hit = a.at("hit").as_i64();
                let p = cmd_of("bp_add").with("file", Json::text(f.as_str())).with(
                    "line",
                    Json::number(a.at("line").int_or(0)),
                ).with("condition", a.at("condition").copy()).with("hit", opt_number(hit)).with(
                    "log",
                    a.at("log").copy(),
                );
                Pending::Done(Ok(p), n)
            },
        }
    } else if same(name, "debug_run_to") {
        let spec = a.at("location").str_or("");
        match parse_loc(spec.as_str(), cwd, answers, at) {
            Pending::Want(q) => Pending::Want(q),
            Pending::Done((f, l), n) => {
                let p = cmd_of("until").with("file", Json::text(f.as_str())).with(
                    "line",
                    Json::number(l),
                );
                Pending::Done(Ok(p), n)
            },
        }
    } else {
        match make_simple(name, a) {
            Some(p) => Pending::Done(Ok(p), at),
            None => {
                let mut t = String::from_str("unknown tool ");
                let d = show_debug(name);
                t.append(d.as_str());
                Pending::Done(Err(failed_call(t, "user_error")), at)
            },
        }
    }
}

// ---------------------------------------------------------------------------
// Calls
// ---------------------------------------------------------------------------

/// A request to a daemon that is up.
pub open spec fn forwarded(payload: Doc, answers: Seq<AnswerModel>, at: int) -> Need<
    Option<Doc>,
> {
    match obtain(WantModel::EnsureDaemon, answers, at) {
        Need::Want(w) => Need::Want(w),
        Need::Done(_, n) => sent(payload, PATIENCE as int, answers, n),
    }
}

fn forward(payload: Json, answers: &Vec<Answer>, at: usize) -> (r: Pending<Option<Json>>)
    requires
        at <= answers.len(),
    ensures
        match r {
            Pending::Want(q) => forwarded(payload@, answers_in(answers@), at as int) == Need::<
                Option<Doc>,
            >::Want(q@),
            Pending::Done(j, n) => forwarded(payload@, answers_in(answers@), at as int)
                == Need::Done(opt_view(j), n as int) && at <= n <= answers.len(),
        },
{
    match want(Want::EnsureDaemon, answers, at) {
        Pending::Want(q) => Pending::Want(q),
        Pending::Done(_, n) => send(payload, PATIENCE, answers, n),
    }
}

/// What a call gives where no response came.
pub open spec fn no_reply() -> CallModel {
    call_failed(
        "the rdbg daemon did not respond (call debug_launch first?)"@,
        "timeout"@,
    )
}

/// A response to a tool as what its call gives: the status whole, a panic as
/// one bundle.
pub open spec fn tool_call(name: Seq<char>, resp: Doc) -> CallModel {
    if name == "debug_status"@ && resp.at("ok"@).bool_or(true) {
        CallModel { text: json_pretty(resp), error: false, status: outcome_of(resp) }
    } else if name == "debug_panic"@ && resp.at("ok"@).bool_or(true) {
        CallModel { text: triage_text(resp), error: false, status: outcome_of(resp) }
    } else {
        response_call(resp)
    }
}

/// A response to a tool as what its call gives.
pub fn format_tool(name: &str, resp: &Json) -> (r: Call)
    ensures
        r@ == tool_call(name@, resp@),
{
    let fine = resp.at("ok").bool_or(true);
    if same(name, "debug_status") && fine {
        let status = outcome(resp);
        Call { text: resp.render_pretty(), error: false, status }
    } else if same(name, "debug_panic") && fine {
        let status = outcome(resp);
        Call { text: show_triage(resp), error: false, status }
    } else {
        format_resp(resp)
    }
}

/// What a request that is ready gives.
pub open spec fn ready_call(
    name: Seq<char>,
    payload: Doc,
    answers: Seq<AnswerModel>,
    at: int,
) -> Need<CallModel> {
    match forwarded(payload, answers, at) {
        Need::Want(w) => Need::Want(w),
        Need::Done(Some(resp), n) => Need::Done(tool_call(name, resp), n),
        Need::Done(None, n) => Need::Done(no_reply(), n),
    }
}

/// A trace as what its call gives.
pub open spec fn traced_call(r: Option<Doc>) -> CallModel {
    match r {
        Some(v) => if is_ok(v) {
            CallModel {
                text: "trace: "@ + int_text(v.at("hits"@).int_or(0)) + " hit(s)\n"@ + v.at(
                    "trace"@,
                ).text_or(""@),
                error: false,
                status: outcome_of(v),
            }
        } else {
            call_failed("trace failed"@, outcome_of(v))
        },
        None => call_failed("trace failed"@, "timeout"@),
    }
}

pub open spec fn trace_request(a: Doc) -> Doc {
    command("trace"@).with("captures"@, Doc::Arr(a.at("capture"@).items())).with(
        "max"@,
        Doc::Int(a.at("max"@).int_or(50)),
    )
}

/// Launch, run through all hits, and give the trace.
pub open spec fn trace_call_need(
    a: Doc,
    cwd: Seq<char>,
    answers: Seq<AnswerModel>,
    at: int,
) -> Need<CallModel> {
    match launch_request(a, cwd, answers, at, Seq::empty(), false) {
        Need::Want(w) => Need::Want(w),
        Need::Done(Err(c), n) => Need::Done(c, n),
        Need::Done(Ok(payload), n) => match forwarded(payload, answers, n) {
            Need::Want(w) => Need::Want(w),
            Need::Done(None, k) => Need::Done(
                call_failed("the rdbg daemon did not respond"@, "timeout"@),
                k,
            ),
            Need::Done(Some(v), k) => if is_ok(v) {
                match sent(trace_request(a), PATIENCE as int, answers, k) {
                    Need::Want(w) => Need::Want(w),
                    Need::Done(t, j) => Need::Done(traced_call(t), j),
                }
            } else {
                Need::Done(
                    call_failed(
                        "launch failed: "@ + v.at("error"@).text_or("?"@),
                        outcome_of(v),
                    ),
                    k,
                )
            },
        },
    }
}

/// Run to the panic, and give its bundle.
pub open spec fn panic_call_need(a: Doc, answers: Seq<AnswerModel>, at: int) -> Need<CallModel> {
    match program_of(a, answers, at) {
        Need::Want(w) => Need::Want(w),
        Need::Done(Err(c), n) => Need::Done(c, n),
        Need::Done(Ok((exe, args)), n) => ready_call(
            "debug_panic"@,
            triage_doc(exe, parent_path(exe), args),
            answers,
            n,
        ),
    }
}

/// Several subcommands in one call.
pub open spec fn do_call_need(
    a: Doc,
    cwd: Seq<char>,
    answers: Seq<AnswerModel>,
    at: int,
) -> Need<CallModel> {
    match obtain(WantModel::EnsureDaemon, answers, at) {
        Need::Want(w) => Need::Want(w),
        Need::Done(_, n) => match script_need(a.at("commands"@).text_or(""@), cwd, answers, n) {
            Need::Want(w) => Need::Want(w),
            Need::Done(b, k) => Need::Done(
                CallModel {
                    text: b.text,
                    error: b.errored,
                    status: b.value.at("status"@).text_or("ok"@),
                },
                k,
            ),
        },
    }
}

/// A tool call.
pub open spec fn call_need(
    name: Seq<char>,
    a: Doc,
    cwd: Seq<char>,
    answers: Seq<AnswerModel>,
    at: int,
) -> Need<CallModel> {
    if name == "debug_trace"@ {
        trace_call_need(a, cwd, answers, at)
    } else if name == "debug_panic"@ {
        panic_call_need(a, answers, at)
    } else if name == "debug_do"@ {
        do_call_need(a, cwd, answers, at)
    } else {
        match request_need(name, a, cwd, answers, at) {
            Need::Want(w) => Need::Want(w),
            Need::Done(Err(c), n) => Need::Done(c, n),
            Need::Done(Ok(p), n) => ready_call(name, p, answers, n),
        }
    }
}

fn run_ready(name: &str, payload: Json, answers: &Vec<Answer>, at: usize) -> (r: Pending<Call>)
    requires
        at <= answers.len(),
    ensures
        match r {
            Pending::Want(q) => ready_call(name@, payload@, answers_in(answers@), at as int)
                == Need::<CallModel>::Want(q@),
            Pending::Done(c, n) => ready_call(name@, payload@, answers_in(answers@), at as int)
                == Need::Done(c@, n as int) && at <= n <= answers.len(),
        },
{
    match forward(payload, answers, at) {
        Pending::Want(q) => Pending::Want(q),
        Pending::Done(Some(resp), n) => Pending::Done(format_tool(name, &resp), n),
        Pending::Done(None, n) => Pending::Done(
            failed_call(
                owned("the rdbg daemon did not respond (call debug_launch first?)"),
                "timeout",
            ),
            n,
        ),
    }
}

fn make_trace(a: &Json) -> (r: Json)
    ensures
        r@ == trace_request(a@),
{
    let captures = items_of(a.at("capture"));
    cmd_of("trace").with("captures", Json::list(captures)).with("max", Json::number(a.at("max").int_or(50)))
}

/// A trace as what its call gives.
pub fn format_trace_call(r: &Option<Json>) -> (c: Call)
    ensures
        c@ == traced_call(opt_view(*r)),
{
    match r {
        Some(v) => if ok(v) {
            let mut t = String::from_str("trace: ");
            let n: i64 = v.at("hits").int_or(0);
            let hits = show_int(n);
            t.append(hits.as_str());
            t.append(" hit(s)\n");
            let table = v.at("trace").str_or("");
            t.append(table.as_str());
            Call { text: t, error: false, status: outcome(v) }
        } else {
            let status = outcome(v);
            failed_call(owned("trace failed"), status.as_str())
        },
        None => failed_call(owned("trace failed"), "timeout"),
    }
}

/// Launch + run through all hits + return the trace, in one tool call.
pub fn trace_call(a: &Json, cwd: &str, answers: &Vec<Answer>, at: usize) -> (r: Pending<Call>)
    requires
        at <= answers.len(),
    ensures
        match r {
            Pending::Want(q) => trace_call_need(a@, cwd@, answers_in(answers@), at as int)
                == Need::<CallModel>::Want(q@),
            Pending::Done(c, n) => trace_call_need(a@, cwd@, answers_in(answers@), at as int)
                == Need::Done(c@, n as int) && at <= n <= answers.len(),
        },
{
    let none: Vec<Json> = Vec::new();
    assert(docs(none@) =~= Seq::empty());
    let (payload, n): (Json, usize) = match make_launch(a, cwd, answers, at, none, false) {
        Pending::Want(q) => return Pending::Want(q),
        Pending::Done(Err(c), n) => return Pending::Done(c, n),
        Pending::Done(Ok(p), n) => (p, n),
    };
    let (v, k): (Json, usize) = match forward(payload, answers, n) {
        Pending::Want(q) => return Pending::Want(q),
        Pending::Done(None, k) => {
            return Pending::Done(
                failed_call(owned("the rdbg daemon did not respond"), "timeout"),
                k,
            );
        },
        Pending::Done(Some(v), k) => (v, k),
    };
    if !ok(&v) {
        let mut t = String::from_str("launch failed: ");
        let e = v.at("error").str_or("?");
        t.append(e.as_str());
        let status = outcome(&v);
        return Pending::Done(failed_call(t, status.as_str()), k);
    }
    match send(make_trace(a), PATIENCE, answers, k) {
        Pending::Want(q) => Pending::Want(q),
        Pending::Done(t, j) => Pending::Done(format_trace_call(&t), j),
    }
}

fn panic_call(a: &Json, answers: &Vec<Answer>, at: usize) -> (r: Pending<Call>)
    requires
        at <= answers.len(),
    ensures
        match r {
            Pending::Want(q) => panic_call_need(a@, answers_in(answers@), at as int) == Need::<
                CallModel,
            >::Want(q@),
            Pending::Done(c, n) => panic_call_need(a@, answers_in(answers@), at as int)
                == Need::Done(c@, n as int) && at <= n <= answers.len(),
        },
{
    let (exe, args, n): (String, Vec<Json>, usize) = match find_program(a, answers, at) {
        Pending::Want(q) => return Pending::Want(q),
        Pending::Done(Err(c), n) => return Pending::Done(c, n),
        Pending::Done(Ok((exe, args)), n) => (exe, args, n),
    };
    let parent = parent_of(exe.as_str());
    let payload = triage_payload(exe.as_str(), &parent, args);
    run_ready("debug_panic", payload, answers, n)
}

fn do_call(a: &Json, cwd: &str, answers: &Vec<Answer>, at: usize) -> (r: Pending<Call>)
    requires
        at <= answers.len(),
    ensures
        match r {
            Pending::Want(q) => do_call_need(a@, cwd@, answers_in(answers@), at as int) == Need::<
                CallModel,
            >::Want(q@),
            Pending::Done(c, n) => do_call_need(a@, cwd@, answers_in(answers@), at as int)
                == Need::Done(c@, n as int) && at <= n <= answers.len(),
        },
{
    let n: usize = match want(Want::EnsureDaemon, answers, at) {
        Pending::Want(q) => return Pending::Want(q),
        Pending::Done(_, n) => n,
    };
    let script = a.at("commands").str_or("");
    match run_batch_full(script.as_str(), cwd, answers, n) {
        Pending::Want(q) => Pending::Want(q),
        Pending::Done(b, k) => {
            let status = b.value.at("status").str_or("ok");
            Pending::Done(Call { text: b.text, error: b.errored, status }, k)
        },
    }
}

/// Map a tool call to a daemon request, and its response to what the call
/// gives.
pub fn call(name: &str, a: &Json, cwd: &str, answers: &Vec<Answer>, at: usize) -> (r: Pending<
    Call,
>)
    requires
        at <= answers.len(),
    ensures
        match r {
            Pending::Want(q) => call_need(name@, a@, cwd@, answers_in(answers@), at as int)
                == Need::<CallModel>::Want(q@),
            Pending::Done(c, n) => call_need(name@, a@, cwd@, answers_in(answers@), at as int)
                == Need::Done(c@, n as int) && at <= n <= answers.len(),
        },
{
    if same(name, "debug_trace") {
        trace_call(a, cwd, answers, at)
    } else if same(name, "debug_panic") {
        panic_call(a, answers, at)
    } else if same(name, "debug_do") {
        do_call(a, cwd, answers, at)
    } else {
        match make_request(name, a, cwd, answers, at) {
            Pending::Want(q) => Pending::Want(q),
            Pending::Done(Err(c), n) => Pending::Done(c, n),
            Pending::Done(Ok(p), n) => run_ready(name, p, answers, n),
        }
    }
}

// ---------------------------------------------------------------------------
// The protocol
// ---------------------------------------------------------------------------

/// A reply with a result.
pub open spec fn reply_doc(id: Doc, result: Doc) -> Doc {
    no_keys().with("jsonrpc"@, Doc::Str("2.0"@)).with("id"@, id).with("result"@, result)
}

/// A reply to a method that is none.
pub open spec fn unknown_method(id: Doc, method: Seq<char>) -> Doc {
    no_keys().with("jsonrpc"@, Doc::Str("2.0"@)).with("id"@, id).with(
        "error"@,
        no_keys().with("code"@, Doc::Int(-32601)).with(
            "message"@,
            Doc::Str("method "@ + debug_text(method) + " not found"@),
        ),
    )
}

/// What the server says of itself.
pub open spec fn welcome(params: Doc) -> Doc {
    no_keys().with(
        "protocolVersion"@,
        Doc::Str(params.at("protocolVersion"@).text_or(PROTOCOL@)),
    ).with("capabilities"@, no_keys().with("tools"@, no_keys())).with(
        "serverInfo"@,
        no_keys().with("name"@, Doc::Str("rust-debugger-skill"@)).with(
            "version"@,
            Doc::Str(VERSION@),
        ),
    )
}

/// The result of a tool call.
pub open spec fn call_doc(c: CallModel) -> Doc {
    no_keys().with(
        "content"@,
        Doc::Arr(
            seq![no_keys().with("type"@, Doc::Str("text"@)).with("text"@, Doc::Str(c.text))],
        ),
    ).with("isError"@, Doc::Bool(c.error)).with(
        "_meta"@,
        no_keys().with("rdbg/status"@, Doc::Str(c.status)),
    )
}

/// The reply to a message, where there is one.
pub open spec fn message_need(
    msg: Doc,
    cwd: Seq<char>,
    answers: Seq<AnswerModel>,
) -> Need<Option<Doc>> {
    let method = msg.at("method"@).text_or(""@);
    let id = msg.at("id"@);
    if method == "initialize"@ {
        Need::Done(Some(reply_doc(id, welcome(msg.at("params"@)))), 0)
    } else if method == "notifications/initialized"@ || method == "initialized"@ {
        Need::Done(None, 0)
    } else if method == "ping"@ || method == "shutdown"@ {
        Need::Done(Some(reply_doc(id, no_keys())), 0)
    } else if method == "tools/list"@ {
        Need::Done(
            Some(reply_doc(id, no_keys().with("tools"@, Doc::Arr(tool_docs())))),
            0,
        )
    } else if method == "tools/call"@ {
        let params = msg.at("params"@);
        match call_need(
            params.at("name"@).text_or(""@),
            params.at("arguments"@),
            cwd,
            answers,
            0,
        ) {
            Need::Want(w) => Need::Want(w),
            Need::Done(c, n) => Need::Done(Some(reply_doc(id, call_doc(c))), n),
        }
    } else if id is Null {
        Need::Done(None, 0)
    } else {
        Need::Done(Some(unknown_method(id, method)), 0)
    }
}

/// The reply to a line, where there is one: a line that is no JSON has none.
pub open spec fn line_need(
    line: Seq<char>,
    cwd: Seq<char>,
    answers: Seq<AnswerModel>,
) -> Need<Option<Doc>> {
    if trimmed(line).len() == 0 {
        Need::Done(None, 0)
    } else {
        match parsed(trimmed(line)) {
            Some(msg) => message_need(msg, cwd, answers),
            None => Need::Done(None, 0),
        }
    }
}

fn reply(id: &Json, result: Json) -> (r: Json)
    ensures
        r@ == reply_doc(id@, result@),
{
    Json::obj().with("jsonrpc", Json::text("2.0")).with("id", id.copy()).with("result", result)
}

fn greet(params: &Json) -> (r: Json)
    ensures
        r@ == welcome(params@),
{
    let protocol = params.at("protocolVersion").str_or(PROTOCOL);
    Json::obj().with("protocolVersion", Json::text(protocol.as_str())).with(
        "capabilities",
        Json::obj().with("tools", Json::obj()),
    ).with(
        "serverInfo",
        Json::obj().with("name", Json::text("rust-debugger-skill")).with(
            "version",
            Json::text(VERSION),
        ),
    )
}

/// The result of a tool call, as its reply carries it.
pub fn call_result(c: &Call) -> (r: Json)
    ensures
        r@ == call_doc(c@),
{
    let item = Json::obj().with("type", Json::text("text")).with(
        "text",
        Json::text(c.text.as_str()),
    );
    let ghost doc = item@;
    let content = vec![item];
    assert(docs(content@) =~= seq![doc]);
    Json::obj().with("content", Json::list(content)).with("isError", Json::boolean(c.error)).with(
        "_meta",
        Json::obj().with("rdbg/status", Json::text(c.status.as_str())),
    )
}

/// The reply to a message, where there is one.
pub fn handle(msg: &Json, cwd: &str, answers: &Vec<Answer>) -> (r: Pending<Option<Json>>)
    ensures
        match r {
            Pending::Want(q) => message_need(msg@, cwd@, answers_in(answers@)) == Need::<
                Option<Doc>,
            >::Want(q@),
            Pending::Done(x, n) => message_need(msg@, cwd@, answers_in(answers@)) == Need::Done(
                opt_view(x),
                n as int,
            ) && n <= answers.len(),
        },
{
    let method = msg.at("method").str_or("");
    let m = method.as_str();
    let id = msg.at("id");
    if same(m, "initialize") {
        Pending::Done(Some(reply(id, greet(msg.at("params")))), 0)
    } else if same(m, "notifications/initialized") || same(m, "initialized") {
        Pending::Done(None, 0)
    } else if same(m, "ping") || same(m, "shutdown") {
        Pending::Done(Some(reply(id, Json::obj())), 0)
    } else if same(m, "tools/list") {
        let list = Json::obj().with("tools", Json::list(tools()));
        Pending::Done(Some(reply(id, list)), 0)
    } else if same(m, "tools/call") {
        let params = msg.at("params");
        let name = params.at("name").str_or("");
        match call(name.as_str(), params.at("arguments"), cwd, answers, 0) {
            Pending::Want(q) => Pending::Want(q),
            Pending::Done(c, n) => Pending::Done(Some(reply(id, call_result(&c))), n),
        }
    } else if id.is_null() {
        Pending::Done(None, 0)
    } else {
        let mut t = String::from_str("method ");
        let d = show_debug(m);
        t.append(d.as_str());
        t.append(" not found");
        let error = Json::obj().with("code", Json::number(-32601)).with(
            "message",
            Json::text(t.as_str()),
        );
        let r = Json::obj().with("jsonrpc", Json::text("2.0")).with("id", id.copy()).with(
            "error",
            error,
        );
        Pending::Done(Some(r), 0)
    }
}

/// The reply to a line, where there is one.
pub fn handle_line(line: &str, cwd: &str, answers: &Vec<Answer>) -> (r: Pending<Option<Json>>)
    ensures
        match r {
            Pending::Want(q) => line_need(line@, cwd@, answers_in(answers@)) == Need::<
                Option<Doc>,
            >::Want(q@),
            Pending::Done(x, n) => line_need(line@, cwd@, answers_in(answers@)) == Need::Done(
                opt_view(x),
                n as int,
            ) && n <= answers.len(),
        },
{
    let t = trim(line);
    if t.as_str().is_empty() {
        return Pending::Done(None, 0);
    }
    match Json::parse(t.as_str()) {
        Some(msg) => handle(&msg, cwd, answers),
        None => Pending::Done(None, 0),
    }
}

// ---------------------------------------------------------------------------
// Laws
// ---------------------------------------------------------------------------

/// The server has the tool.
pub open spec fn is_tool(name: Seq<char>) -> bool {
    name == "debug_trace"@ || name == "debug_panic"@ || name == "debug_do"@ || name
        == "debug_launch"@ || name == "debug_add_breakpoint"@ || name == "debug_run_to"@
        || simple_request(name, Doc::Null) is Some
}

/// Every tool that the server lists, it has.
pub proof fn listed_tools_are_served(i: int)
    requires
        0 <= i < tool_docs().len(),
    ensures
        tool_docs()[i].at("name"@) matches Doc::Str(name) && is_tool(name),
{
    reveal_strlit("name");
    reveal_strlit("description");
    reveal_strlit("inputSchema");
    assert("name"@.len() == 4 && "description"@.len() == 11 && "inputSchema"@.len() == 11);
}

/// A call of a tool that the server does not have is refused, as an error of
/// the user's, and nothing is asked of the daemon.
pub proof fn unknown_tools_are_refused(
    name: Seq<char>,
    a: Doc,
    cwd: Seq<char>,
    answers: Seq<AnswerModel>,
    at: int,
)
    requires
        !is_tool(name),
    ensures
        call_need(name, a, cwd, answers, at) == Need::Done(
            call_failed("unknown tool "@ + debug_text(name), "user_error"@),
            at,
        ),
{
}

/// A tool call carries the outcome that the daemon gave, and fails exactly
/// where the daemon's response is no success.
pub proof fn calls_carry_the_daemons_outcome(
    name: Seq<char>,
    req: Doc,
    has_session: bool,
    outs: Seq<OutcomeModel>,
    resp: Doc,
    end: bool,
    n: int,
)
    requires
        dispatch_way(req, has_session, outs, 0) == Way::Done((resp, end), n),
    ensures
        resp.at("status"@) == Doc::Str(tool_call(name, resp).status),
        tool_call(name, resp).error <==> resp.at("ok"@) == Doc::Bool(false),
        tool_call(name, resp).error <==> tool_call(name, resp).status != "ok"@,
{
    responses_carry_their_status(req, has_session, outs, resp, end, n);
}

/// What tells the tools apart.
proof fn lemma_tools()
    ensures
        "debug_breakpoints"@.len() == 17,
        "debug_remove_breakpoint"@.len() == 23,
        "debug_continue"@.len() == 14,
        "debug_step"@.len() == 10,
        "debug_step"@[8] == 'e',
        "debug_pause"@.len() == 11,
        "debug_pause"@[9] == 's',
        "debug_restart"@.len() == 13,
        "debug_restart"@[6] == 'r',
        "debug_locals"@.len() == 12,
        "debug_locals"@[9] == 'a',
        "debug_eval"@.len() == 10,
        "debug_eval"@[8] == 'a',
        "debug_set"@.len() == 9,
        "debug_backtrace"@.len() == 15,
        "debug_source"@.len() == 12,
        "debug_source"@[9] == 'r',
        "debug_state"@.len() == 11,
        "debug_state"@[9] == 't',
        "debug_status"@.len() == 12,
        "debug_status"@[9] == 't',
        "debug_threads"@.len() == 13,
        "debug_threads"@[6] == 't',
        "debug_select_thread"@.len() == 19,
        "debug_select_frame"@.len() == 18,
        "debug_watch_expr"@.len() == 16,
        "debug_watch_expr"@[6] == 'w',
        "debug_where"@.len() == 11,
        "debug_where"@[9] == 'r',
        "debug_definition"@.len() == 16,
        "debug_definition"@[6] == 'd',
        "debug_hover"@.len() == 11,
        "debug_hover"@[9] == 'e',
        "debug_references"@.len() == 16,
        "debug_references"@[6] == 'r',
        "debug_stop"@.len() == 10,
        "debug_stop"@[8] == 'o',
        "debug_launch"@.len() == 12,
        "debug_launch"@[9] == 'n',
        "debug_add_breakpoint"@.len() == 20,
        "debug_run_to"@.len() == 12,
        "debug_run_to"@[9] == '_',
        "debug_trace"@.len() == 11,
        "debug_trace"@[9] == 'c',
        "debug_panic"@.len() == 11,
        "debug_panic"@[9] == 'i',
        "debug_do"@.len() == 8,
{
    reveal_strlit("debug_breakpoints");
    reveal_strlit("debug_remove_breakpoint");
    reveal_strlit("debug_continue");
    reveal_strlit("debug_step");
    reveal_strlit("debug_pause");
    reveal_strlit("debug_restart");
    reveal_strlit("debug_locals");
    reveal_strlit("debug_eval");
    reveal_strlit("debug_set");
    reveal_strlit("debug_backtrace");
    reveal_strlit("debug_source");
    reveal_strlit("debug_state");
    reveal_strlit("debug_status");
    reveal_strlit("debug_threads");
    reveal_strlit("debug_select_thread");
    reveal_strlit("debug_select_frame");
    reveal_strlit("debug_watch_expr");
    reveal_strlit("debug_where");
    reveal_strlit("debug_definition");
    reveal_strlit("debug_hover");
    reveal_strlit("debug_references");
    reveal_strlit("debug_stop");
    reveal_strlit("debug_launch");
    reveal_strlit("debug_add_breakpoint");
    reveal_strlit("debug_run_to");
    reveal_strlit("debug_trace");
    reveal_strlit("debug_panic");
    reveal_strlit("debug_do");
}

/// What tells the keys of requests apart.
proof fn lemma_keys()
    ensures
        "cmd"@.len() == 3,
        "cmd"@[2] == 'd',
        "id"@.len() == 2,
        "until"@.len() == 5,
        "until"@[0] == 'u',
        "kind"@.len() == 4,
        "kind"@[0] == 'k',
        "kind"@[1] == 'i',
        "depth"@.len() == 5,
        "depth"@[0] == 'd',
        "full"@.len() == 4,
        "full"@[0] == 'f',
        "full"@[1] == 'u',
        "expr"@.len() == 4,
        "expr"@[0] == 'e',
        "expr"@[1] == 'x',
        "path"@.len() == 4,
        "path"@[0] == 'p',
        "path"@[1] == 'a',
        "value"@.len() == 5,
        "value"@[0] == 'v',
        "radius"@.len() == 6,
        "radius"@[0] == 'r',
        "index"@.len() == 5,
        "index"@[0] == 'i',
        "action"@.len() == 6,
        "action"@[0] == 'a',
        "query"@.len() == 5,
        "query"@[0] == 'q',
        "file"@.len() == 4,
        "file"@[0] == 'f',
        "file"@[1] == 'i',
        "line"@.len() == 4,
        "line"@[0] == 'l',
        "line"@[1] == 'i',
        "col"@.len() == 3,
        "col"@[2] == 'l',
        "name"@.len() == 4,
        "name"@[0] == 'n',
        "name"@[1] == 'a',
        "var"@.len() == 3,
        "var"@[2] == 'r',
        "condition"@.len() == 9,
        "hit"@.len() == 3,
        "hit"@[2] == 't',
        "log"@.len() == 3,
        "log"@[2] == 'g',
        "captures"@.len() == 8,
        "max"@.len() == 3,
        "max"@[2] == 'x',
{
    reveal_strlit("cmd");
    reveal_strlit("id");
    reveal_strlit("until");
    reveal_strlit("kind");
    reveal_strlit("depth");
    reveal_strlit("full");
    reveal_strlit("expr");
    reveal_strlit("path");
    reveal_strlit("value");
    reveal_strlit("radius");
    reveal_strlit("index");
    reveal_strlit("action");
    reveal_strlit("query");
    reveal_strlit("file");
    reveal_strlit("line");
    reveal_strlit("col");
    reveal_strlit("name");
    reveal_strlit("var");
    reveal_strlit("condition");
    reveal_strlit("hit");
    reveal_strlit("log");
    reveal_strlit("captures");
    reveal_strlit("max");
}

/// The request of a tool, where it needs nothing but the arguments of the call.
pub open spec fn asks(name: Seq<char>, a: Doc, payload: Doc) -> bool {
    forall|cwd: Seq<char>, answers: Seq<AnswerModel>, at: int|
        #[trigger] request_need(name, a, cwd, answers, at) == Need::Done(
            Ok::<Doc, CallModel>(payload),
            at,
        )
}

/// Each tool that runs the program asks for what it is named after.
/// A step goes over a call where the call of the tool says nothing else, and a
/// condition to run to is handed on as it is.
pub proof fn tools_that_run_ask_for_their_run(a: Doc, t: Seq<char>)
    ensures
        (exists|p: Doc| #[trigger] asks("debug_breakpoints"@, a, p) && p.at("cmd"@) == Doc::Str("bp_list"@)),
        a.at("id"@) == Doc::Str(t) ==> (exists|p: Doc| #[trigger] asks("debug_remove_breakpoint"@, a, p) && p.at("cmd"@) == Doc::Str("bp_rm"@) && p.at("id"@) == Doc::Str(t)),
        a.at("until"@) == Doc::Str(t) ==> (exists|p: Doc| #[trigger] asks("debug_continue"@, a, p) && p.at("cmd"@) == Doc::Str("continue_until"@) && p.at("until"@) == Doc::Str(t)),
        a.at("until"@) is Null ==> (exists|p: Doc| #[trigger] asks("debug_continue"@, a, p) && p.at("cmd"@) == Doc::Str("continue"@)),
        a.at("kind"@) == Doc::Str(t) ==> (exists|p: Doc| #[trigger] asks("debug_step"@, a, p) && p.at("cmd"@) == Doc::Str("step"@) && p.at("kind"@) == Doc::Str(t)),
        a.at("kind"@) is Null ==> (exists|p: Doc| #[trigger] asks("debug_step"@, a, p) && p.at("cmd"@) == Doc::Str("step"@) && p.at("kind"@) == Doc::Str("over"@)),
        (exists|p: Doc| #[trigger] asks("debug_pause"@, a, p) && p.at("cmd"@) == Doc::Str("pause"@)),
        (exists|p: Doc| #[trigger] asks("debug_restart"@, a, p) && p.at("cmd"@) == Doc::Str("restart"@)),
        (exists|p: Doc| #[trigger] asks("debug_stop"@, a, p) && p.at("cmd"@) == Doc::Str("stop"@)),
{
    lemma_tools();
    lemma_keys();
    assert(asks("debug_breakpoints"@, a, simple_request("debug_breakpoints"@, a)->0));
    assert(asks("debug_remove_breakpoint"@, a, simple_request("debug_remove_breakpoint"@, a)->0));
    assert(asks("debug_continue"@, a, simple_request("debug_continue"@, a)->0));
    assert(asks("debug_continue"@, a, simple_request("debug_continue"@, a)->0));
    assert(asks("debug_step"@, a, simple_request("debug_step"@, a)->0));
    assert(asks("debug_step"@, a, simple_request("debug_step"@, a)->0));
    assert(asks("debug_pause"@, a, simple_request("debug_pause"@, a)->0));
    assert(asks("debug_restart"@, a, simple_request("debug_restart"@, a)->0));
    assert(asks("debug_stop"@, a, simple_request("debug_stop"@, a)->0));
}

/// Each tool that inspects or changes the program asks for what it is named
/// after, with the arguments of the call; variables are shown three levels deep
/// and the source six lines around where the call says nothing else.
pub proof fn tools_that_inspect_ask_for_their_answer(a: Doc, t: Seq<char>, u: Seq<char>, n: int)
    requires
        i64::MIN <= n <= i64::MAX,
    ensures
        a.at("depth"@) is Null && a.at("full"@) is Null ==> (exists|p: Doc| #[trigger] asks("debug_locals"@, a, p) && p.at("cmd"@) == Doc::Str("vars"@) && p.at("depth"@) == Doc::Int(3) && p.at("full"@) == Doc::Bool(false)),
        a.at("depth"@) is Null && a.at("full"@) == Doc::Bool(true) ==> (exists|p: Doc| #[trigger] asks("debug_locals"@, a, p) && p.at("cmd"@) == Doc::Str("vars"@) && p.at("depth"@) == Doc::Int(10) && p.at("full"@) == Doc::Bool(true)),
        a.at("depth"@) == Doc::Int(n) ==> (exists|p: Doc| #[trigger] asks("debug_locals"@, a, p) && p.at("cmd"@) == Doc::Str("vars"@) && p.at("depth"@) == Doc::Int(n)),
        a.at("path"@) == Doc::Str(t) ==> (exists|p: Doc| #[trigger] asks("debug_eval"@, a, p) && p.at("cmd"@) == Doc::Str("eval"@) && p.at("expr"@) == Doc::Str(t)),
        a.at("path"@) == Doc::Str(t) && a.at("value"@) == Doc::Str(u) ==> (exists|p: Doc| #[trigger] asks("debug_set"@, a, p) && p.at("cmd"@) == Doc::Str("set"@) && p.at("path"@) == Doc::Str(t) && p.at("value"@) == Doc::Str(u)),
        (exists|p: Doc| #[trigger] asks("debug_backtrace"@, a, p) && p.at("cmd"@) == Doc::Str("bt"@)),
        a.at("radius"@) == Doc::Int(n) ==> (exists|p: Doc| #[trigger] asks("debug_source"@, a, p) && p.at("cmd"@) == Doc::Str("list"@) && p.at("radius"@) == Doc::Int(n)),
        a.at("radius"@) is Null ==> (exists|p: Doc| #[trigger] asks("debug_source"@, a, p) && p.at("cmd"@) == Doc::Str("list"@) && p.at("radius"@) == Doc::Int(6)),
        (exists|p: Doc| #[trigger] asks("debug_state"@, a, p) && p.at("cmd"@) == Doc::Str("state"@)),
        (exists|p: Doc| #[trigger] asks("debug_status"@, a, p) && p.at("cmd"@) == Doc::Str("status"@)),
        (exists|p: Doc| #[trigger] asks("debug_threads"@, a, p) && p.at("cmd"@) == Doc::Str("threads"@)),
{
    lemma_tools();
    lemma_keys();
    assert(asks("debug_locals"@, a, simple_request("debug_locals"@, a)->0));
    assert(asks("debug_locals"@, a, simple_request("debug_locals"@, a)->0));
    assert(asks("debug_locals"@, a, simple_request("debug_locals"@, a)->0));
    assert(asks("debug_eval"@, a, simple_request("debug_eval"@, a)->0));
    assert(asks("debug_set"@, a, simple_request("debug_set"@, a)->0));
    assert(asks("debug_backtrace"@, a, simple_request("debug_backtrace"@, a)->0));
    assert(asks("debug_source"@, a, simple_request("debug_source"@, a)->0));
    assert(asks("debug_source"@, a, simple_request("debug_source"@, a)->0));
    assert(asks("debug_state"@, a, simple_request("debug_state"@, a)->0));
    assert(asks("debug_status"@, a, simple_request("debug_status"@, a)->0));
    assert(asks("debug_threads"@, a, simple_request("debug_threads"@, a)->0));
}

/// Each tool that selects, watches or navigates asks for what it is named
/// after, with the arguments of the call.
pub proof fn tools_that_select_ask_for_what_they_name(a: Doc, t: Seq<char>, u: Seq<char>, n: int, m: int)
    requires
        i64::MIN <= n <= i64::MAX,
        i64::MIN <= m <= i64::MAX,
    ensures
        a.at("id"@) == Doc::Int(n) ==> (exists|p: Doc| #[trigger] asks("debug_select_thread"@, a, p) && p.at("cmd"@) == Doc::Str("thread"@) && p.at("id"@) == Doc::Int(n)),
        a.at("index"@) == Doc::Int(n) ==> (exists|p: Doc| #[trigger] asks("debug_select_frame"@, a, p) && p.at("cmd"@) == Doc::Str("frame"@) && p.at("index"@) == Doc::Int(n)),
        a.at("action"@) == Doc::Str(t) && a.at("expr"@) == Doc::Str(u) ==> (exists|p: Doc| #[trigger] asks("debug_watch_expr"@, a, p) && p.at("cmd"@) == Doc::Str("watch_expr"@) && p.at("action"@) == Doc::Str(t) && p.at("expr"@) == Doc::Str(u)),
        a.at("action"@) is Null ==> (exists|p: Doc| #[trigger] asks("debug_watch_expr"@, a, p) && p.at("cmd"@) == Doc::Str("watch_expr"@) && p.at("action"@) == Doc::Str("list"@)),
        a.at("query"@) == Doc::Str(t) ==> (exists|p: Doc| #[trigger] asks("debug_where"@, a, p) && p.at("cmd"@) == Doc::Str("where"@) && p.at("query"@) == Doc::Str(t)),
        a.at("file"@) == Doc::Str(t) && a.at("line"@) == Doc::Int(n) && a.at("col"@) == Doc::Int(m) ==> (exists|p: Doc| #[trigger] asks("debug_definition"@, a, p) && p.at("cmd"@) == Doc::Str("def"@) && p.at("file"@) == Doc::Str(t) && p.at("line"@) == Doc::Int(n) && p.at("col"@) == Doc::Int(m)),
        a.at("file"@) == Doc::Str(t) && a.at("line"@) == Doc::Int(n) && a.at("col"@) == Doc::Int(m) ==> (exists|p: Doc| #[trigger] asks("debug_hover"@, a, p) && p.at("cmd"@) == Doc::Str("hover"@) && p.at("file"@) == Doc::Str(t) && p.at("line"@) == Doc::Int(n) && p.at("col"@) == Doc::Int(m)),
        a.at("file"@) == Doc::Str(t) && a.at("line"@) == Doc::Int(n) && a.at("col"@) == Doc::Int(m) ==> (exists|p: Doc| #[trigger] asks("debug_references"@, a, p) && p.at("cmd"@) == Doc::Str("refs"@) && p.at("file"@) == Doc::Str(t) && p.at("line"@) == Doc::Int(n) && p.at("col"@) == Doc::Int(m)),
{
    lemma_tools();
    lemma_keys();
    assert(asks("debug_select_thread"@, a, simple_request("debug_select_thread"@, a)->0));
    assert(asks("debug_select_frame"@, a, simple_request("debug_select_frame"@, a)->0));
    assert(asks("debug_watch_expr"@, a, simple_request("debug_watch_expr"@, a)->0));
    assert(asks("debug_watch_expr"@, a, simple_request("debug_watch_expr"@, a)->0));
    assert(asks("debug_where"@, a, simple_request("debug_where"@, a)->0));
    assert(asks("debug_definition"@, a, simple_request("debug_definition"@, a)->0));
    assert(asks("debug_hover"@, a, simple_request("debug_hover"@, a)->0));
    assert(asks("debug_references"@, a, simple_request("debug_references"@, a)->0));
}

/// A breakpoint is set on a function, on panics or on a variable where the call
/// names one of these; else on the line of the file that it names, as seen from
/// the directory, with its condition, its count and its message.
pub proof fn a_breakpoint_is_set_on_what_the_call_names(
    a: Doc,
    cwd: Seq<char>,
    answers: Seq<AnswerModel>,
    at: int,
    t: Seq<char>,
    n: int,
    f: Seq<char>,
    k: int,
)
    requires
        i64::MIN <= n <= i64::MAX,
    ensures
        ({
            let need = request_need("debug_add_breakpoint"@, a, cwd, answers, at);
            let line = a.at("fn"@) is Null && a.at("panic"@) is Null && a.at("watch"@) is Null;
            &&& a.at("fn"@) == Doc::Str(t) ==> (need matches Need::Done(Ok(p), j) && p.at("cmd"@)
                == Doc::Str("bp_fn"@) && p.at("name"@) == Doc::Str(t))
            &&& a.at("fn"@) is Null && a.at("panic"@) == Doc::Bool(true) ==> (need matches Need::Done(
                Ok(p),
                j,
            ) && p.at("cmd"@) == Doc::Str("bp_panic"@))
            &&& a.at("fn"@) is Null && a.at("panic"@) is Null && a.at("watch"@) == Doc::Str(t) ==> (
            need matches Need::Done(Ok(p), j) && p.at("cmd"@) == Doc::Str("bp_watch"@) && p.at(
                "var"@,
            ) == Doc::Str(t))
            &&& line && a.at("file"@) == Doc::Str(t) && a.at("line"@) == Doc::Int(n)
                && resolve_need(joined(cwd, t), answers, at) == Need::Done(f, k) ==> (
            need matches Need::Done(Ok(p), j) && j == k && p.at("cmd"@) == Doc::Str("bp_add"@)
                && p.at("file"@) == Doc::Str(f) && p.at("line"@) == Doc::Int(n) && p.at(
                "condition"@,
            ) == a.at("condition"@) && p.at("log"@) == a.at("log"@))
            &&& line && a.at("hit"@) == Doc::Int(n) && resolve_need(
                joined(cwd, a.at("file"@).text_or(""@)),
                answers,
                at,
            ) == Need::Done(f, k) ==> (need matches Need::Done(Ok(p), j) && p.at("hit"@)
                == Doc::Int(n))
        }),
{
    lemma_tools();
    lemma_keys();
}

/// A place to run to is a file and a line with a colon between them, and the
/// file is seen from the directory.
pub proof fn a_place_to_run_to_is_a_file_and_a_line(
    a: Doc,
    cwd: Seq<char>,
    answers: Seq<AnswerModel>,
    at: int,
    f: Seq<char>,
    n: int,
    file: Seq<char>,
    k: int,
)
    requires
        i64::MIN <= n <= i64::MAX,
        a.at("location"@) == Doc::Str(f + seq![':'] + int_text(n)),
        resolve_need(joined(cwd, f), answers, at) == Need::Done(file, k),
    ensures
        request_need("debug_run_to"@, a, cwd, answers, at) matches Need::Done(Ok(p), j) && j == k
            && p.at("cmd"@) == Doc::Str("until"@) && p.at("file"@) == Doc::Str(file) && p.at(
            "line"@,
        ) == Doc::Int(n),
{
    lemma_tools();
    lemma_keys();
    reveal_strlit(":");
    assert(":"@ =~= seq![':']);
    lemma_int_text(n);
    int_text_reads_back(n);
    let t = int_text(n);
    assert(!t.contains(':')) by {
        if t.contains(':') {
            let i = choose|i: int| 0 <= i < t.len() && t[i] == ':';
            assert(digit(t[i]) || t[i] == '-');
        }
    }
    texts_are_cut_at_their_separator(f, ':', t);
}

/// A call of a tool brings the daemon up, sends it the request of the tool, and
/// gives what the daemon answers; where no answer comes, it says so.
pub proof fn a_tool_call_gives_what_the_daemon_answers(
    name: Seq<char>,
    a: Doc,
    cwd: Seq<char>,
    answers: Seq<AnswerModel>,
    n: int,
    payload: Doc,
    resp: Doc,
)
    requires
        name != "debug_trace"@,
        name != "debug_panic"@,
        name != "debug_do"@,
        request_need(name, a, cwd, answers, 0) == Need::Done(Ok::<Doc, CallModel>(payload), n),
        0 <= n,
    ensures
        answers.len() == n ==> call_need(name, a, cwd, answers, 0) == Need::<CallModel>::Want(
            WantModel::EnsureDaemon,
        ),
        answers.len() == n + 1 ==> (call_need(name, a, cwd, answers, 0) matches Need::Want(
            WantModel::Send { payload: q, secs },
        ) && q == payload),
        answers.len() == n + 2 && answers[n + 1] == AnswerModel::Reply(Some(resp)) ==> call_need(
            name,
            a,
            cwd,
            answers,
            0,
        ) == Need::Done(tool_call(name, resp), n + 2),
        answers.len() == n + 2 && answers[n + 1] == AnswerModel::Reply(None) ==> (call_need(
            name,
            a,
            cwd,
            answers,
            0,
        ) matches Need::Done(c, k) && c.error && c.status == "timeout"@),
{
}

/// A success is shown by the first of its values that is not empty: the stop,
/// the variables, the value, and so on, in this order; symbols and places that
/// were found by a row for each; and where there is nothing to show, as done.
pub proof fn a_response_is_shown_by_its_first_value(resp: Doc, i: int, t: Seq<char>)
    requires
        resp.at("ok"@) == Doc::Bool(true),
        0 <= i < shown_keys().len(),
        resp.at(shown_keys()[i]) == Doc::Str(t),
        t.len() > 0,
        forall|j: int| 0 <= j < i ==> resp.at(#[trigger] shown_keys()[j]) is Null,
    ensures
        response_call(resp).text == t,
        !response_call(resp).error,
        shown_keys() == seq![
            "stop"@,
            "vars"@,
            "value"@,
            "bt"@,
            "source"@,
            "threads"@,
            "breakpoints"@,
            "hover"@,
            "watches"@,
        ],
{
    lemma_first_shown(resp, 0, i);
}

proof fn lemma_first_shown(resp: Doc, k: int, i: int)
    requires
        0 <= k <= i < shown_keys().len(),
        resp.at(shown_keys()[i]) matches Doc::Str(t) && t.len() > 0,
        forall|j: int| 0 <= j < i ==> resp.at(#[trigger] shown_keys()[j]) is Null,
    ensures
        first_shown(resp, shown_keys(), k) == resp.at(shown_keys()[i]).text(),
    decreases i - k,
{
    if k < i {
        assert(resp.at(shown_keys()[k]) is Null);
        lemma_first_shown(resp, k + 1, i);
    }
}

proof fn lemma_none_shown(resp: Doc, k: int)
    requires
        0 <= k <= shown_keys().len(),
        forall|j: int| 0 <= j < shown_keys().len() ==> resp.at(#[trigger] shown_keys()[j]) is Null,
    ensures
        first_shown(resp, shown_keys(), k) is None,
    decreases shown_keys().len() - k,
{
    if k < shown_keys().len() {
        assert(resp.at(shown_keys()[k]) is Null);
        lemma_none_shown(resp, k + 1);
    }
}

/// What was found is shown row by row, each with its file and its line; a
/// response with nothing in it says that it is done, and a failure its error.
pub proof fn a_response_without_a_value_is_shown(
    resp: Doc,
    found: Seq<Doc>,
    i: int,
    name: Seq<char>,
    file: Seq<char>,
    e: Seq<char>,
)
    requires
        forall|j: int| 0 <= j < shown_keys().len() ==> resp.at(#[trigger] shown_keys()[j]) is Null,
    ensures
        ({
            let fine = resp.at("ok"@) == Doc::Bool(true);
            let some = 0 <= i < found.len() && found[i].at("name"@) == Doc::Str(name)
                && found[i].at("file"@) == Doc::Str(file);
            &&& fine && resp.at("symbols"@) == Doc::Arr(found) && found.len() == 0 ==> response_call(
                resp,
            ).text == "(no matches)"@
            &&& fine && resp.at("symbols"@) == Doc::Arr(found) && some ==> response_call(resp).text
                == join(found_rows(found), "\n"@) && found_rows(found).len() == found.len()
                && found_rows(found)[i] == name + "  "@ + file + ":"@ + json_text(
                found[i].at("line"@),
            )
            &&& fine && resp.at("symbols"@) is Null && resp.at("locations"@) == Doc::Arr(found)
                && found.len() == 0 ==> response_call(resp).text == "(no results)"@
            &&& fine && resp.at("symbols"@) is Null && resp.at("locations"@) == Doc::Arr(found)
                && some ==> response_call(resp).text == join(spot_rows(found), "\n"@) && spot_rows(
                found,
            ).len() == found.len() && spot_rows(found)[i] == file + ":"@ + json_text(
                found[i].at("line"@),
            ) + ":"@ + json_text(found[i].at("col"@))
            &&& fine && resp.at("symbols"@) is Null && resp.at("locations"@) is Null
                ==> response_call(resp).text == "ok"@
            &&& resp.at("ok"@) == Doc::Bool(false) && resp.at("error"@) == Doc::Str(e)
                ==> response_call(resp).text == "error: "@ + e && response_call(resp).error
        }),
{
    lemma_none_shown(resp, 0);
    reveal_strlit("");
    if 0 <= i < found.len() {
        assert(found_rows(found)[i] == found_row(found[i]));
        assert(spot_rows(found)[i] == spot_row(found[i]));
        reveal_strlit("  ");
        reveal_strlit(":");
        assert(":"@.len() == 1);
        lemma_row_in_join(found_rows(found), "\n"@, i);
        lemma_row_in_join(spot_rows(found), "\n"@, i);
    }
}

proof fn lemma_row_in_join(rows: Seq<Seq<char>>, sep: Seq<char>, i: int)
    requires
        0 <= i < rows.len(),
    ensures
        join(rows, sep).len() >= rows[i].len(),
    decreases rows.len(),
{
    if i < rows.len() - 1 {
        assert(rows.drop_last()[i] == rows[i]);
        lemma_row_in_join(rows.drop_last(), sep, i);
    }
}

/// A trace by a tool launches the program, asks for its hits, and gives them
/// with their number.
pub proof fn a_trace_gives_its_hits(a: Doc, v: Doc, n: int, rows: Seq<char>)
    requires
        i64::MIN <= n <= i64::MAX,
    ensures
        trace_request(a).at("cmd"@) == Doc::Str("trace"@),
        trace_request(a).at("captures"@) == Doc::Arr(a.at("capture"@).items()),
        a.at("max"@) == Doc::Int(n) ==> trace_request(a).at("max"@) == Doc::Int(n),
        a.at("max"@) is Null ==> trace_request(a).at("max"@) == Doc::Int(50),
        v.at("ok"@) == Doc::Bool(true) && v.at("hits"@) == Doc::Int(n) && v.at("trace"@)
            == Doc::Str(rows) ==> traced_call(Some(v)).text == "trace: "@ + int_text(n)
            + " hit(s)\n"@ + rows && !traced_call(Some(v)).error,
        v.at("ok"@) == Doc::Bool(false) ==> traced_call(Some(v)).error,
        traced_call(None).error && traced_call(None).status == "timeout"@,
{
    lemma_keys();
}

/// A program that a tool launches runs with the arguments of the call as they
/// come, behind the filter of a test where one was put in front.
pub proof fn a_program_runs_with_the_arguments_of_the_call(
    a: Doc,
    given: Seq<Doc>,
    filter: Seq<char>,
)
    requires
        a.at("args"@) == Doc::Arr(given),
    ensures
        run_args(a, texts_in(given)) == given,
        run_args(a, seq![filter] + texts_in(given)) == seq![Doc::Str(filter)] + given,
{
    assert((seq![filter] + texts_in(given))[0] == filter);
}

/// Every message with a number is answered under that number, and a notice is
/// not answered; what the server has is listed, what it is called for is done,
/// and a method that it does not know is refused.
pub proof fn messages_are_answered(
    msg: Doc,
    cwd: Seq<char>,
    answers: Seq<AnswerModel>,
    method: Seq<char>,
)
    requires
        msg.at("method"@) == Doc::Str(method),
        method != "tools/call"@,
    ensures
        ({
            let r = message_need(msg, cwd, answers);
            let notice = method == "notifications/initialized"@ || method == "initialized"@;
            let known = method == "initialize"@ || method == "ping"@ || method == "shutdown"@
                || method == "tools/list"@;
            &&& notice ==> r == Need::Done(None::<Doc>, 0)
            &&& !notice && !known && msg.at("id"@) is Null ==> r == Need::Done(None::<Doc>, 0)
            &&& known ==> (r matches Need::Done(Some(d), n) && d.at("id"@) == msg.at("id"@) && d.has(
                "result"@,
            ) && !d.has("error"@) && d.at("jsonrpc"@) == Doc::Str("2.0"@))
            &&& !notice && !known && msg.at("id"@) !is Null ==> (r matches Need::Done(Some(d), n)
                && d.at("id"@) == msg.at("id"@) && d.at("error"@).at("code"@) == Doc::Int(-32601)
                && !d.has("result"@))
            &&& method == "tools/list"@ ==> (r matches Need::Done(Some(d), n) && d.at("result"@).at(
                "tools"@,
            ) == Doc::Arr(tool_docs()))
        }),
{
    lemma_methods();
}

proof fn lemma_methods()
    ensures
        "jsonrpc"@ != "id"@,
        "jsonrpc"@ != "result"@,
        "jsonrpc"@ != "error"@,
        "id"@ != "result"@,
        "id"@ != "error"@,
        "result"@ != "error"@,
        "code"@ != "message"@,
        "initialize"@ != "notifications/initialized"@,
        "initialize"@ != "initialized"@,
        "ping"@ != "initialize"@,
        "shutdown"@ != "initialize"@,
        "tools/list"@ != "initialize"@,
        "tools/list"@ != "tools/call"@,
        "tools/list"@ != "ping"@,
        "tools/list"@ != "shutdown"@,
        "tools/list"@ != "notifications/initialized"@,
        "tools/list"@ != "initialized"@,
        "tools/call"@ != "initialize"@,
        "tools/call"@ != "notifications/initialized"@,
        "tools/call"@ != "initialized"@,
        "tools/call"@ != "ping"@,
        "tools/call"@ != "shutdown"@,
        "ping"@ != "notifications/initialized"@,
        "ping"@ != "initialized"@,
        "shutdown"@ != "notifications/initialized"@,
        "shutdown"@ != "initialized"@,
        "content"@ != "isError"@,
        "content"@ != "_meta"@,
        "isError"@ != "_meta"@,
        "type"@ != "text"@,
{
    reveal_strlit("jsonrpc");
    reveal_strlit("id");
    reveal_strlit("result");
    reveal_strlit("error");
    reveal_strlit("code");
    reveal_strlit("message");
    reveal_strlit("initialize");
    reveal_strlit("notifications/initialized");
    reveal_strlit("initialized");
    reveal_strlit("ping");
    reveal_strlit("shutdown");
    reveal_strlit("tools/list");
    reveal_strlit("tools/call");
    reveal_strlit("content");
    reveal_strlit("isError");
    reveal_strlit("_meta");
    reveal_strlit("type");
    reveal_strlit("text");
    assert("jsonrpc"@.len() == 7);
    assert("id"@.len() == 2);
    assert("result"@.len() == 6);
    assert("error"@.len() == 5);
    assert("code"@.len() == 4);
    assert("message"@.len() == 7);
    assert("initialize"@.len() == 10);
    assert("notifications/initialized"@.len() == 25);
    assert("initialized"@.len() == 11);
    assert("ping"@.len() == 4);
    assert("shutdown"@.len() == 8);
    assert("tools/list"@.len() == 10);
    assert("tools/call"@.len() == 10);
    assert("content"@.len() == 7);
    assert("isError"@.len() == 7);
    assert("_meta"@.len() == 5);
    assert("type"@.len() == 4);
    assert("text"@.len() == 4);
    assert("initialize"@[0] == 'i' && "tools/list"@[0] == 't' && "tools/list"@[6] == 'l'
        && "tools/call"@[0] == 't' && "tools/call"@[6] == 'c');
    assert("content"@[0] == 'c' && "isError"@[0] == 'i' && "type"@[1] == 'y' && "text"@[1] == 'e');
}

/// A tool is called with its arguments, and its reply holds the text that the
/// call gave, whether it failed, and its outcome.
pub proof fn a_call_is_answered_with_what_it_gave(
    msg: Doc,
    cwd: Seq<char>,
    answers: Seq<AnswerModel>,
    name: Seq<char>,
    c: CallModel,
    n: int,
)
    requires
        msg.at("method"@) == Doc::Str("tools/call"@),
        msg.at("params"@).at("name"@) == Doc::Str(name),
        call_need(name, msg.at("params"@).at("arguments"@), cwd, answers, 0) == Need::Done(c, n),
    ensures
        message_need(msg, cwd, answers) matches Need::Done(Some(d), k) && k == n && d.at("id"@)
            == msg.at("id"@) && d.at("result"@).at("isError"@) == Doc::Bool(c.error) && d.at(
            "result"@,
        ).at("_meta"@).at("rdbg/status"@) == Doc::Str(c.status) && d.at("result"@).at(
            "content"@,
        ).items().len() == 1 && d.at("result"@).at("content"@).items()[0].at("text"@) == Doc::Str(
            c.text,
        ) && d.at("result"@).at("content"@).items()[0].at("type"@) == Doc::Str("text"@),
{
    lemma_methods();
}

/// Every spec of a line in a call is looked up in its turn: each becomes a
/// breakpoint at its own file and line, in order.
pub proof fn every_spec_of_a_call_becomes_a_breakpoint(
    specs: Seq<Seq<char>>,
    done: Seq<Doc>,
    i: int,
    cwd: Seq<char>,
    answers: Seq<AnswerModel>,
    at: int,
    f: Seq<char>,
    n: int,
    file: Seq<char>,
    k: int,
)
    requires
        0 <= i < specs.len(),
        i64::MIN <= n <= i64::MAX,
        specs[i] == f + seq![':'] + int_text(n),
        resolve_need(joined(cwd, f), answers, at) == Need::Done(file, k),
    ensures
        spots_need(specs, i, done, cwd, answers, at) == spots_need(
            specs,
            i + 1,
            done.push(no_keys().with("file"@, Doc::Str(file)).with("line"@, Doc::Int(n))),
            cwd,
            answers,
            k,
        ),
        spots_need(specs, specs.len() as int, done, cwd, answers, at) == Need::Done(done, at),
{
    reveal_strlit(":");
    assert(":"@ =~= seq![':']);
    lemma_int_text(n);
    int_text_reads_back(n);
    let t = int_text(n);
    assert(!t.contains(':')) by {
        if t.contains(':') {
            let j = choose|j: int| 0 <= j < t.len() && t[j] == ':';
            assert(digit(t[j]) || t[j] == '-');
        }
    }
    texts_are_cut_at_their_separator(f, ':', t);
}

/// A launch by a tool tells the daemon of the program, of its arguments, of the
/// directory that holds it and of every breakpoint of the call; a triage of the
/// program alone.
pub proof fn a_launch_by_a_tool_names_what_the_call_names(
    a: Doc,
    cwd: Seq<char>,
    answers: Seq<AnswerModel>,
    at: int,
    exe: Seq<char>,
    args: Seq<Doc>,
    n: int,
    bps: Seq<Doc>,
    k: int,
)
    requires
        program_of(a, answers, at) == Need::Done(Ok::<(Seq<char>, Seq<Doc>), CallModel>((exe, args)), n),
        spots_need(list_arg(a, "breakpoints"@), 0, Seq::empty(), cwd, answers, n) == Need::Done(
            bps,
            k,
        ),
    ensures
        request_need("debug_launch"@, a, cwd, answers, at) matches Need::Done(Ok(p), j) && j == k
            && p.at("cmd"@) == Doc::Str("launch"@) && p.at("program"@) == Doc::Str(exe) && p.at(
            "args"@,
        ) == Doc::Arr(args) && p.at("breakpoints"@) == Doc::Arr(bps) && p.at("fn_breaks"@)
            == Doc::Arr(a.at("fn_breaks"@).items()) && (a.at("panic"@) == Doc::Bool(true) ==> p.at(
            "panic"@,
        ) == Doc::Bool(true)) && (a.at("panic"@) is Null ==> p.at("panic"@) == Doc::Bool(false)),
        answers.len() == n ==> call_need("debug_panic"@, a, cwd, answers, at) == Need::<
            CallModel,
        >::Want(WantModel::EnsureDaemon),
        0 <= n && answers.len() == n + 1 ==> (call_need("debug_panic"@, a, cwd, answers, at) matches Need::Want(
            WantModel::Send { payload, secs },
        ) && payload.at("cmd"@) == Doc::Str("panic_triage"@) && payload.at("program"@) == Doc::Str(
            exe,
        ) && payload.at("args"@) == Doc::Arr(args)),
{
    lemma_tools();
    reveal_strlit("cmd");
    reveal_strlit("program");
    reveal_strlit("cwd");
    reveal_strlit("args");
    reveal_strlit("breakpoints");
    reveal_strlit("fn_breaks");
    reveal_strlit("panic");
    assert("cmd"@.len() == 3 && "program"@.len() == 7 && "cwd"@.len() == 3 && "args"@.len() == 4
        && "breakpoints"@.len() == 11 && "fn_breaks"@.len() == 9 && "panic"@.len() == 5);
    assert("cmd"@[1] == 'm' && "cwd"@[1] == 'w');
}

/// A program that a call names by its path is the file there, with the arguments
/// of the call; one that cargo builds is the one that it built; and a call that
/// names neither is an error of the user's.
pub proof fn the_program_of_a_call_is_the_one_it_names(
    a: Doc,
    answers: Seq<AnswerModel>,
    at: int,
    dir: Seq<char>,
    exe: Seq<char>,
    used: Seq<Seq<char>>,
    e: Seq<char>,
    n: int,
)
    ensures
        ({
            let target = target_need(
                dir,
                a.at("bin"@).text(),
                a.at("test"@).text(),
                a.at("lib"@) == Doc::Bool(true),
                texts_in(a.at("args"@).items()),
                answers,
                at,
            );
            &&& a.at("cargo"@) == Doc::Str(dir) && target == Need::Done(
                Ok::<(Seq<char>, Seq<Seq<char>>), Seq<char>>((exe, used)),
                n,
            ) ==> program_of(a, answers, at) == Need::Done(
                Ok::<(Seq<char>, Seq<Doc>), CallModel>((exe, run_args(a, used))),
                n,
            )
            &&& a.at("cargo"@) == Doc::Str(dir) && target == Need::Done(
                Err::<(Seq<char>, Seq<Seq<char>>), Seq<char>>(e),
                n,
            ) ==> (program_of(a, answers, at) matches Need::Done(Err(c), k) && c.error && c.text == e
                && c.status == build_status(e))
            &&& a.at("cargo"@) is Null && a.at("bin_path"@) == Doc::Str(dir) && resolve_need(
                dir,
                answers,
                at,
            ) == Need::Done(exe, n) ==> program_of(a, answers, at) == Need::Done(
                Ok::<(Seq<char>, Seq<Doc>), CallModel>((exe, a.at("args"@).items())),
                n,
            )
            &&& a.at("cargo"@) is Null && a.at("bin_path"@) is Null ==> (program_of(a, answers, at)
                matches Need::Done(Err(c), k) && c.error && c.status == "user_error"@ && k == at)
        }),
{
}

/// Every tool that the server has, it lists.
pub proof fn served_tools_are_listed(name: Seq<char>)
    requires
        is_tool(name),
    ensures
        exists|i: int|
            0 <= i < tool_docs().len() && (#[trigger] tool_docs()[i]).at("name"@) == Doc::Str(name),
{
    reveal_strlit("name");
    reveal_strlit("description");
    reveal_strlit("inputSchema");
    assert("name"@.len() == 4 && "description"@.len() == 11 && "inputSchema"@.len() == 11);
    assert(tool_docs()[0].at("name"@) == Doc::Str("debug_launch"@));
    assert(tool_docs()[1].at("name"@) == Doc::Str("debug_add_breakpoint"@));
    assert(tool_docs()[2].at("name"@) == Doc::Str("debug_trace"@));
    assert(tool_docs()[3].at("name"@) == Doc::Str("debug_panic"@));
    assert(tool_docs()[4].at("name"@) == Doc::Str("debug_do"@));
    assert(tool_docs()[5].at("name"@) == Doc::Str("debug_breakpoints"@));
    assert(tool_docs()[6].at("name"@) == Doc::Str("debug_remove_breakpoint"@));
    assert(tool_docs()[7].at("name"@) == Doc::Str("debug_continue"@));
    assert(tool_docs()[8].at("name"@) == Doc::Str("debug_step"@));
    assert(tool_docs()[9].at("name"@) == Doc::Str("debug_run_to"@));
    assert(tool_docs()[10].at("name"@) == Doc::Str("debug_pause"@));
    assert(tool_docs()[11].at("name"@) == Doc::Str("debug_restart"@));
    assert(tool_docs()[12].at("name"@) == Doc::Str("debug_locals"@));
    assert(tool_docs()[13].at("name"@) == Doc::Str("debug_eval"@));
    assert(tool_docs()[14].at("name"@) == Doc::Str("debug_set"@));
    assert(tool_docs()[15].at("name"@) == Doc::Str("debug_backtrace"@));
    assert(tool_docs()[16].at("name"@) == Doc::Str("debug_source"@));
    assert(tool_docs()[17].at("name"@) == Doc::Str("debug_state"@));
    assert(tool_docs()[18].at("name"@) == Doc::Str("debug_status"@));
    assert(tool_docs()[19].at("name"@) == Doc::Str("debug_threads"@));
    assert(tool_docs()[20].at("name"@) == Doc::Str("debug_select_thread"@));
    assert(tool_docs()[21].at("name"@) == Doc::Str("debug_select_frame"@));
    assert(tool_docs()[22].at("name"@) == Doc::Str("debug_watch_expr"@));
    assert(tool_docs()[23].at("name"@) == Doc::Str("debug_where"@));
    assert(tool_docs()[24].at("name"@) == Doc::Str("debug_definition"@));
    assert(tool_docs()[25].at("name"@) == Doc::Str("debug_hover"@));
    assert(tool_docs()[26].at("name"@) == Doc::Str("debug_references"@));
    assert(tool_docs()[27].at("name"@) == Doc::Str("debug_stop"@));
}

} // verus!
