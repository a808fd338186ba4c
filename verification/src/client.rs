//! The `rdbg` command-line client: subcommands, as requests to the daemon and
//! responses shown.

use vstd::prelude::*;
use crate::daemon::{opt_int_doc, opt_number, opt_string, opt_text_doc};
use crate::json::{docs, json_pretty, json_text, no_keys, opt_view, Doc, Json};
use crate::num::{i64_value, read_i64};
use crate::report::{
    definite, err_value, error_doc, error_line, field_text, fmt_field, fmt_result_stop, fmt_stop,
    is_ok, jresp, ok, result_stop_text, show_error, stop_text,
};
use crate::session::opt_text;
use crate::text::{
    begins, contains, copy_from, debug_text, first_index, halves, has, index_of, join, join_all,
    lines, owned, rhalves, same, show_debug, split_first, split_last, trim, trimmed, views, words,
};
use crate::util::{join_path, joined};
use crate::wants::{
    answers_in, obtain, send, sent, text_in, want, Answer, AnswerModel, Need, Pending, Want,
    WantModel,
};

verus! {

pub const USAGE: &'static str = "\
rdbg — IDE-grade Rust debugging for agents (rust-analyzer + lldb-dap)

LAUNCH
  rdbg launch --cargo <dir> [--bin <t>|--test <t>|--lib] --break f.rs:L [...] [-- ARGS]
    --bin <t>   a binary target        --test <t>  an integration test (tests/<t>.rs)
    --lib       the library's own unit tests (#[cfg(test)] mod tests) — pass the
                test name after --,  e.g.  --lib --break src/lib.rs:42 -- my_test
  rdbg launch --bin-path <path> --break f.rs:L [...]      (skip the build)
    at launch you may also pass  --break-fn <name>  --panic

TRACE (one call instead of break→inspect→continue×N)
  rdbg trace --cargo . --bin app --break f.rs:L --capture i,sum --max 30 -- ARGS
  rdbg trace --cargo . --lib --break src/lib.rs:42 --capture a,b -- my_test
    runs through every hit, captures the paths at each, returns a table

PANIC TRIAGE (one call instead of launch→bt→frame→vars)
  rdbg debug --cargo <dir> [--bin <t>|--test <t>|--lib] --panic [-- ARGS]
    runs to the panic, returns its message, your frame with its locals, and a backtrace

BREAKPOINTS (set or change any time, even while paused)
  rdbg break f.rs:L [--if <expr>] [--hit <N>] [--log <msg>]
  rdbg break --fn <name>        break entering a function
  rdbg break --panic            break where a Rust panic is raised
  rdbg watch <var>              break when a local changes (data breakpoint)
  rdbg breaks                   list breakpoints with ids
  rdbg break-rm <id|panic> | break-off <id> | break-on <id>

RUN CONTROL
  rdbg run | continue           resume to the next stop
  rdbg continue --until '<path> <op> <value>'   keep resuming past breakpoint
      stops until the condition holds (op: == != < <= > >=), checked by rdbg
      itself at each stop — needs at least one active breakpoint
  rdbg step [over|in|out|insn]  step a source line, or one instruction
  rdbg until f.rs:L             run to a line
  rdbg pause                    interrupt a running program
  rdbg restart                  relaunch with the same breakpoints

THREADS / FRAMES
  rdbg threads | thread <id>
  rdbg frame <n> | up | down

INSPECT / MUTATE
  rdbg vars [--depth N] [--full]   locals with real Rust values (--full: deep dump)
  rdbg eval <path> [<path>...]  evaluate one or more variable paths
  rdbg set <path> = <value> [--then continue|step]   change a value (test a fix)
  rdbg watch-expr add|rm <path>
  rdbg list [--radius N] | bt | state

BATCH (one call instead of several)
  rdbg do 'break f.rs:L; continue; vars; eval sum; bt'
    run several subcommands in order, labeled; stops on the first error/exit

NAVIGATE (rust-analyzer)
  rdbg where <Name>
  rdbg def|hover|refs <file> <line> <col>

  rdbg status | stop | down | mcp

OUTPUT
  --json (anywhere in the args)  print the result as one compact JSON line with
    a `status` outcome field: ok | user_error | target_error | build_error |
    debug_adapter_error | timeout | no_session | no_new_information.
    Works with every command — see docs/json-schema.md";

/// How long the client waits for a response, in seconds.
pub const PATIENCE: u64 = 300;

// ---------------------------------------------------------------------------
// Arguments
// ---------------------------------------------------------------------------

/// The argument that follows a flag.
pub open spec fn option_value(args: Seq<Seq<char>>, flag: Seq<char>) -> Option<Seq<char>> {
    match first_index(args, flag, 0) {
        Some(i) => if i + 1 < args.len() {
            Some(args[i + 1])
        } else {
            None
        },
        None => None,
    }
}

/// The arguments from `i` on, up to the next `--option`.
pub open spec fn plain_run(args: Seq<Seq<char>>, i: int) -> Seq<Seq<char>>
    decreases args.len() - i,
{
    if i < 0 || i >= args.len() || "--"@.is_prefix_of(args[i]) {
        Seq::empty()
    } else {
        seq![args[i]] + plain_run(args, i + 1)
    }
}

/// The words that follow a flag, up to the next `--option`.
pub open spec fn option_words(args: Seq<Seq<char>>, flag: Seq<char>) -> Option<Seq<char>> {
    match first_index(args, flag, 0) {
        Some(i) => {
            let toks = plain_run(args, i + 1);
            if toks.len() == 0 {
                None
            } else {
                Some(join(toks, " "@))
            }
        },
        None => None,
    }
}

/// The number that follows a flag.
pub open spec fn option_number(args: Seq<Seq<char>>, flag: Seq<char>) -> Option<int> {
    match option_value(args, flag) {
        Some(t) => i64_value(t),
        None => None,
    }
}

pub open spec fn first_or(args: Seq<Seq<char>>, default: Seq<char>) -> Seq<char> {
    if args.len() > 0 {
        args[0]
    } else {
        default
    }
}

/// The number that an argument is; zero where it is none.
pub open spec fn number_at(args: Seq<Seq<char>>, i: int) -> int {
    if 0 <= i < args.len() {
        match i64_value(args[i]) {
            Some(n) => n,
            None => 0,
        }
    } else {
        0
    }
}

/// The argument that follows a flag.
pub fn opt<'a>(args: &'a Vec<String>, flag: &str) -> (r: Option<&'a str>)
    ensures
        match r {
            Some(t) => option_value(views(args@), flag@) == Some(t@),
            None => option_value(views(args@), flag@) is None,
        },
{
    match index_of(args, flag) {
        Some(i) => if i < args.len() - 1 {
            assert(views(args@)[i + 1] == args@[i + 1]@);
            Some(args[i + 1].as_str())
        } else {
            None
        },
        None => None,
    }
}

/// Value that may span several tokens (an unquoted expression/message): all
/// tokens after the flag up to the next `--option` or end.
pub fn opt_multi(args: &Vec<String>, flag: &str) -> (r: Option<String>)
    ensures
        opt_text(r) == option_words(views(args@), flag@),
{
    let at: usize = match index_of(args, flag) {
        Some(i) => i + 1,
        None => return None,
    };
    let ghost all = views(args@);
    let mut toks: Vec<String> = Vec::new();
    let mut i: usize = at;
    assert(views(toks@) + plain_run(all, i as int) =~= plain_run(all, at as int));
    while i < args.len()
        invariant_except_break
            at <= i <= args.len(),
            all == views(args@),
            views(toks@) + plain_run(all, i as int) == plain_run(all, at as int),
        ensures
            views(toks@) == plain_run(all, at as int),
        decreases args.len() - i,
    {
        assert(all[i as int] == args@[i as int]@);
        let ghost before = views(toks@);
        if begins(args[i].as_str(), "--") {
            assert(views(toks@) + Seq::<Seq<char>>::empty() =~= views(toks@));
            break;
        }
        toks.push(owned(args[i].as_str()));
        assert(views(toks@) =~= before.push(all[i as int]));
        assert(before.push(all[i as int]) + plain_run(all, i + 1) =~= before + (seq![all[i as int]]
            + plain_run(all, i + 1)));
        i += 1;
        if i == args.len() {
            assert(views(toks@) + Seq::<Seq<char>>::empty() =~= views(toks@));
        }
    }
    if toks.len() == 0 {
        None
    } else {
        Some(join_all(&toks, " "))
    }
}

fn opt_i64(args: &Vec<String>, flag: &str) -> (r: Option<i64>)
    ensures
        match r {
            Some(n) => option_number(views(args@), flag@) == Some(n as int),
            None => option_number(views(args@), flag@) is None,
        },
{
    match opt(args, flag) {
        Some(t) => read_i64(t),
        None => None,
    }
}

fn first<'a>(args: &'a Vec<String>, default: &'a str) -> (r: &'a str)
    ensures
        r@ == first_or(views(args@), default@),
{
    if args.len() > 0 {
        assert(views(args@)[0] == args@[0]@);
        args[0].as_str()
    } else {
        default
    }
}

fn num_at(args: &Vec<String>, i: usize) -> (r: i64)
    ensures
        r == number_at(views(args@), i as int),
{
    if i < args.len() {
        assert(views(args@)[i as int] == args@[i as int]@);
        match read_i64(args[i].as_str()) {
            Some(n) => n,
            None => 0,
        }
    } else {
        0
    }
}

// ---------------------------------------------------------------------------
// Breakpoint specs
// ---------------------------------------------------------------------------

/// The file and line that a `file.rs:line` spec names, seen from a directory.
pub open spec fn location(spec: Seq<char>, base: Seq<char>) -> Result<
    (Seq<char>, int),
    Seq<char>,
> {
    match rhalves(spec, ":"@) {
        Some((f, l)) => match i64_value(l) {
            Some(n) => Ok((joined(base, f), n)),
            None => Err("bad line in "@ + debug_text(spec)),
        },
        None => Err("bad breakpoint "@ + debug_text(spec) + " (want file.rs:line)"@),
    }
}

/// A path in its canonical form, or as it is where it has none.
pub open spec fn resolved(path: Seq<char>, a: AnswerModel) -> Seq<char> {
    match text_in(a) {
        Some(p) => p,
        None => path,
    }
}

/// The canonical form of a path.
pub open spec fn resolve_need(path: Seq<char>, answers: Seq<AnswerModel>, at: int) -> Need<
    Seq<char>,
> {
    match obtain(WantModel::Resolve { path }, answers, at) {
        Need::Want(w) => Need::Want(w),
        Need::Done(a, n) => Need::Done(resolved(path, a), n),
    }
}

/// The file, in its canonical form, and the line of a breakpoint spec.
pub open spec fn location_need(
    spec: Seq<char>,
    base: Seq<char>,
    answers: Seq<AnswerModel>,
    at: int,
) -> Need<Result<(Seq<char>, int), Seq<char>>> {
    match location(spec, base) {
        Err(e) => Need::Done(Err(e), at),
        Ok((f, l)) => match resolve_need(f, answers, at) {
            Need::Want(w) => Need::Want(w),
            Need::Done(p, n) => Need::Done(Ok((p, l)), n),
        },
    }
}

pub open spec fn location_result(r: Result<(String, i64), String>) -> Result<
    (Seq<char>, int),
    Seq<char>,
> {
    match r {
        Ok((f, l)) => Ok((f@, l as int)),
        Err(e) => Err(e@),
    }
}

/// The canonical form of a path, or the path where it has none.
pub fn resolve(path: String, answers: &Vec<Answer>, at: usize) -> (r: Pending<String>)
    requires
        at <= answers.len(),
    ensures
        match r {
            Pending::Want(q) => resolve_need(path@, answers_in(answers@), at as int) == Need::<
                Seq<char>,
            >::Want(q@),
            Pending::Done(p, n) => resolve_need(path@, answers_in(answers@), at as int)
                == Need::Done(p@, n as int) && at <= n <= answers.len(),
        },
{
    let w = Want::Resolve { path: owned(path.as_str()) };
    match want(w, answers, at) {
        Pending::Want(q) => Pending::Want(q),
        Pending::Done(a, n) => match a.text() {
            Some(p) => Pending::Done(owned(p), n),
            None => Pending::Done(path, n),
        },
    }
}

/// Parse a `file.rs:line` breakpoint spec; returns an error instead of exiting
/// the process — subcommands are run by the MCP server and `do` too (never
/// exit there).
pub fn parse_bp_soft(spec: &str, base: &str, answers: &Vec<Answer>, at: usize) -> (r: Pending<
    Result<(String, i64), String>,
>)
    requires
        at <= answers.len(),
    ensures
        match r {
            Pending::Want(q) => location_need(spec@, base@, answers_in(answers@), at as int)
                == Need::<Result<(Seq<char>, int), Seq<char>>>::Want(q@),
            Pending::Done(x, n) => location_need(spec@, base@, answers_in(answers@), at as int)
                == Need::Done(location_result(x), n as int) && at <= n <= answers.len(),
        },
{
    match split_last(spec, ":") {
        Some((f, l)) => match read_i64(l.as_str()) {
            Some(line) => {
                let path = join_path(base, f.as_str());
                match resolve(path, answers, at) {
                    Pending::Want(q) => Pending::Want(q),
                    Pending::Done(p, n) => Pending::Done(Ok((p, line)), n),
                }
            },
            None => {
                let mut e = String::from_str("bad line in ");
                let d = show_debug(spec);
                e.append(d.as_str());
                Pending::Done(Err(e), at)
            },
        },
        None => {
            let mut e = String::from_str("bad breakpoint ");
            let d = show_debug(spec);
            e.append(d.as_str());
            e.append(" (want file.rs:line)");
            Pending::Done(Err(e), at)
        },
    }
}

// ---------------------------------------------------------------------------
// Subcommands of one request
// ---------------------------------------------------------------------------

/// A result: its text and its JSON value.
pub ghost struct Shown {
    pub text: Seq<char>,
    pub value: Doc,
}

/// A result: its text and its JSON value, with its `status`.
pub struct Rendered {
    pub text: String,
    pub value: Json,
}

impl View for Rendered {
    type V = Shown;

    open spec fn view(&self) -> Shown {
        Shown { text: self.text@, value: self.value@ }
    }
}

/// An argument error of the client's own, in both renderings.
pub open spec fn usage_error(msg: Seq<char>) -> Shown {
    Shown { text: "error: "@ + msg, value: error_doc("user_error"@, msg) }
}

fn usage_err(msg: &str) -> (r: Rendered)
    ensures
        r@ == usage_error(msg@),
{
    let mut text = String::from_str("error: ");
    text.append(msg);
    Rendered { text, value: err_value("user_error", msg) }
}

/// A request to the daemon.
pub open spec fn command(name: Seq<char>) -> Doc {
    no_keys().with("cmd"@, Doc::Str(name))
}

pub fn cmd_of(name: &str) -> (r: Json)
    ensures
        r@ == command(name@),
{
    Json::obj().with("cmd", Json::text(name))
}

/// The request of a breakpoint subcommand.
pub open spec fn break_payload(cmd: Seq<char>, rest: Seq<Seq<char>>) -> Option<Doc> {
    if cmd == "break"@ {
        if rest.contains("--fn"@) {
            Some(
                command("bp_fn"@).with(
                    "name"@,
                    Doc::Str(
                        match option_value(rest, "--fn"@) {
                            Some(n) => n,
                            None => ""@,
                        },
                    ),
                ),
            )
        } else {
            Some(command("bp_panic"@))
        }
    } else if cmd == "watch"@ {
        Some(command("bp_watch"@).with("var"@, Doc::Str(first_or(rest, ""@))))
    } else if cmd == "breaks"@ {
        Some(command("bp_list"@))
    } else if cmd == "break-rm"@ {
        Some(command("bp_rm"@).with("id"@, Doc::Str(first_or(rest, ""@))))
    } else if cmd == "break-on"@ || cmd == "break-off"@ {
        Some(
            command("bp_enable"@).with("id"@, Doc::Str(first_or(rest, ""@))).with(
                "enabled"@,
                Doc::Bool(cmd == "break-on"@),
            ),
        )
    } else {
        None
    }
}

/// The request of a subcommand that runs the program.
pub open spec fn run_payload(cmd: Seq<char>, rest: Seq<Seq<char>>) -> Option<Doc> {
    if cmd == "run"@ || cmd == "continue"@ {
        match option_words(rest, "--until"@) {
            Some(cond) => Some(command("continue_until"@).with("until"@, Doc::Str(cond))),
            None => Some(command("continue"@)),
        }
    } else if cmd == "step"@ {
        Some(command("step"@).with("kind"@, Doc::Str(first_or(rest, "over"@))))
    } else if cmd == "pause"@ || cmd == "restart"@ {
        Some(command(cmd))
    } else if cmd == "thread"@ {
        Some(command("thread"@).with("id"@, Doc::Int(number_at(rest, 0))))
    } else {
        None
    }
}

/// The action of `watch-expr`.
pub open spec fn watch_action(rest: Seq<Seq<char>>) -> Seq<char> {
    let a = first_or(rest, ""@);
    if a == "add"@ || a == "rm"@ {
        a
    } else {
        "list"@
    }
}

/// The request of a subcommand that inspects the program.
pub open spec fn inspect_payload(cmd: Seq<char>, rest: Seq<Seq<char>>) -> Option<Doc> {
    if cmd == "status"@ || cmd == "threads"@ || cmd == "bt"@ || cmd == "state"@ || cmd == "stop"@ {
        Some(command(cmd))
    } else if cmd == "up"@ || cmd == "down"@ {
        Some(command("frame"@).with("dir"@, Doc::Str(cmd)))
    } else if cmd == "frame"@ {
        Some(command("frame"@).with("index"@, Doc::Int(number_at(rest, 0))))
    } else if cmd == "vars"@ {
        let p = command("vars"@).with("full"@, Doc::Bool(rest.contains("--full"@)));
        match option_number(rest, "--depth"@) {
            Some(d) => Some(p.with("depth"@, Doc::Int(d))),
            None => Some(p),
        }
    } else if cmd == "watch-expr"@ {
        let action = watch_action(rest);
        Some(
            command("watch_expr"@).with("action"@, Doc::Str(action)).with(
                "expr"@,
                if action == "list"@ {
                    Doc::Null
                } else {
                    Doc::Str(join(rest.skip(1), " "@))
                },
            ),
        )
    } else if cmd == "list"@ {
        Some(
            command("list"@).with(
                "radius"@,
                Doc::Int(
                    match option_number(rest, "--radius"@) {
                        Some(n) => n,
                        None => 6,
                    },
                ),
            ),
        )
    } else if cmd == "where"@ {
        Some(command("where"@).with("query"@, Doc::Str(first_or(rest, ""@))))
    } else if cmd == "def"@ || cmd == "refs"@ || cmd == "hover"@ {
        Some(
            command(cmd).with("file"@, Doc::Str(first_or(rest, ""@))).with(
                "line"@,
                Doc::Int(number_at(rest, 1)),
            ).with("col"@, Doc::Int(number_at(rest, 2))),
        )
    } else {
        None
    }
}

/// The request of a subcommand that makes just one.
pub open spec fn payload_of(cmd: Seq<char>, rest: Seq<Seq<char>>) -> Option<Doc> {
    match break_payload(cmd, rest) {
        Some(p) => Some(p),
        None => match run_payload(cmd, rest) {
            Some(p) => Some(p),
            None => inspect_payload(cmd, rest),
        },
    }
}

fn make_break(cmd: &str, rest: &Vec<String>) -> (r: Option<Json>)
    ensures
        opt_view(r) == break_payload(cmd@, views(rest@)),
{
    if same(cmd, "break") {
        if has(rest, "--fn") {
            let name = match opt(rest, "--fn") {
                Some(n) => n,
                None => "",
            };
            Some(cmd_of("bp_fn").with("name", Json::text(name)))
        } else {
            Some(cmd_of("bp_panic"))
        }
    } else if same(cmd, "watch") {
        Some(cmd_of("bp_watch").with("var", Json::text(first(rest, ""))))
    } else if same(cmd, "breaks") {
        Some(cmd_of("bp_list"))
    } else if same(cmd, "break-rm") {
        Some(cmd_of("bp_rm").with("id", Json::text(first(rest, ""))))
    } else if same(cmd, "break-on") || same(cmd, "break-off") {
        let on = same(cmd, "break-on");
        Some(
            cmd_of("bp_enable").with("id", Json::text(first(rest, ""))).with(
                "enabled",
                Json::boolean(on),
            ),
        )
    } else {
        None
    }
}

fn make_run(cmd: &str, rest: &Vec<String>) -> (r: Option<Json>)
    ensures
        opt_view(r) == run_payload(cmd@, views(rest@)),
{
    if same(cmd, "run") || same(cmd, "continue") {
        // `--until '<path> <op> <value>'`: the daemon keeps resuming and
        // re-checks the condition itself at each breakpoint stop
        match opt_multi(rest, "--until") {
            Some(cond) => Some(
                cmd_of("continue_until").with("until", Json::text(cond.as_str())),
            ),
            None => Some(cmd_of("continue")),
        }
    } else if same(cmd, "step") {
        Some(cmd_of("step").with("kind", Json::text(first(rest, "over"))))
    } else if same(cmd, "pause") || same(cmd, "restart") {
        Some(cmd_of(cmd))
    } else if same(cmd, "thread") {
        Some(cmd_of("thread").with("id", Json::number(num_at(rest, 0))))
    } else {
        None
    }
}

fn make_watch_expr(rest: &Vec<String>) -> (r: Json)
    ensures
        Some(r@) == inspect_payload("watch-expr"@, views(rest@)),
{
    proof {
        reveal_strlit("add");
        reveal_strlit("rm");
        reveal_strlit("list");
        reveal_strlit("");
        reveal_strlit("watch-expr");
        reveal_strlit("status");
        reveal_strlit("threads");
        reveal_strlit("bt");
        reveal_strlit("state");
        reveal_strlit("stop");
        reveal_strlit("up");
        reveal_strlit("down");
        reveal_strlit("frame");
        reveal_strlit("vars");
        assert("add"@.len() == 3 && "rm"@.len() == 2 && "list"@.len() == 4 && ""@.len() == 0);
        assert("watch-expr"@.len() == 10 && "status"@.len() == 6 && "threads"@.len() == 7
            && "bt"@.len() == 2 && "state"@.len() == 5 && "stop"@.len() == 4 && "up"@.len() == 2
            && "down"@.len() == 4 && "frame"@.len() == 5 && "vars"@.len() == 4);
    }
    let a = first(rest, "");
    if same(a, "add") || same(a, "rm") {
        let words = copy_from(rest, 1);
        assert(views(words@) =~= views(rest@).skip(1));
        let expr = join_all(&words, " ");
        cmd_of("watch_expr").with("action", Json::text(a)).with("expr", Json::text(expr.as_str()))
    } else {
        cmd_of("watch_expr").with("action", Json::text("list")).with("expr", Json::Null)
    }
}

fn make_inspect(cmd: &str, rest: &Vec<String>) -> (r: Option<Json>)
    ensures
        opt_view(r) == inspect_payload(cmd@, views(rest@)),
{
    if same(cmd, "status") || same(cmd, "threads") || same(cmd, "bt") || same(cmd, "state") || same(
        cmd,
        "stop",
    ) {
        Some(cmd_of(cmd))
    } else if same(cmd, "up") || same(cmd, "down") {
        Some(cmd_of("frame").with("dir", Json::text(cmd)))
    } else if same(cmd, "frame") {
        Some(cmd_of("frame").with("index", Json::number(num_at(rest, 0))))
    } else if same(cmd, "vars") {
        let p = cmd_of("vars").with("full", Json::boolean(has(rest, "--full")));
        match opt_i64(rest, "--depth") {
            Some(d) => Some(p.with("depth", Json::number(d))),
            None => Some(p),
        }
    } else if same(cmd, "watch-expr") {
        Some(make_watch_expr(rest))
    } else if same(cmd, "list") {
        let radius: i64 = match opt_i64(rest, "--radius") {
            Some(n) => n,
            None => 6,
        };
        Some(cmd_of("list").with("radius", Json::number(radius)))
    } else if same(cmd, "where") {
        Some(cmd_of("where").with("query", Json::text(first(rest, ""))))
    } else if same(cmd, "def") || same(cmd, "refs") || same(cmd, "hover") {
        Some(
            cmd_of(cmd).with("file", Json::text(first(rest, ""))).with(
                "line",
                Json::number(num_at(rest, 1)),
            ).with("col", Json::number(num_at(rest, 2))),
        )
    } else {
        None
    }
}

fn make_payload(cmd: &str, rest: &Vec<String>) -> (r: Option<Json>)
    ensures
        opt_view(r) == payload_of(cmd@, views(rest@)),
{
    match make_break(cmd, rest) {
        Some(p) => Some(p),
        None => match make_run(cmd, rest) {
            Some(p) => Some(p),
            None => make_inspect(cmd, rest),
        },
    }
}

// ---------------------------------------------------------------------------
// Responses shown
// ---------------------------------------------------------------------------

/// The text under a key, where there is one.
pub open spec fn listed(v: Doc, key: Seq<char>) -> Seq<Seq<char>> {
    match v.at(key).text() {
        Some(t) => seq![t],
        None => Seq::empty(),
    }
}

/// The watches of a state, where there are any.
pub open spec fn watch_rows(v: Doc) -> Seq<Seq<char>> {
    match v.at("watches"@).text() {
        Some(w) => if w.len() > 0 {
            seq!["watches:\n"@ + w]
        } else {
            Seq::empty()
        },
        None => Seq::empty(),
    }
}

/// A response with a frame.
pub open spec fn frame_text(r: Option<Doc>) -> Seq<char> {
    match r {
        Some(v) => if is_ok(v) {
            join(listed(v, "source"@).push("locals:"@) + listed(v, "vars"@), "\n"@)
        } else {
            "no such frame"@
        },
        None => "no such frame"@,
    }
}

/// A response with the state.
pub open spec fn state_text(r: Option<Doc>) -> Seq<char> {
    match r {
        Some(v) => if is_ok(v) {
            join(
                seq![stop_text(v.at("stop"@)), "locals:"@] + listed(v, "vars"@) + watch_rows(v),
                "\n"@,
            )
        } else {
            "error"@
        },
        None => "error"@,
    }
}

/// A response with a watchpoint on a variable.
pub open spec fn watchpoint_text(var: Seq<char>, r: Option<Doc>) -> Seq<char> {
    match r {
        Some(v) => if is_ok(v) {
            "watchpoint ["@ + json_text(v.at("id"@)) + "] on "@ + var
                + " (breaks when it changes)"@
        } else {
            error_line(v)
        },
        None => "error: daemon did not respond"@,
    }
}

pub open spec fn symbol_row(s: Doc) -> Seq<char> {
    let c = match s.at("container"@).text() {
        Some(c) => " ("@ + c + ")"@,
        None => ""@,
    };
    "  "@ + s.at("name"@).text_or("?"@) + c + "  "@ + s.at("file"@).text_or("?"@) + ":"@
        + json_text(s.at("line"@))
}

pub open spec fn symbol_rows(v: Seq<Doc>) -> Seq<Seq<char>> {
    Seq::new(v.len(), |i: int| symbol_row(v[i]))
}

/// A response with symbols.
pub open spec fn symbols_text(r: Option<Doc>) -> Seq<char> {
    match r {
        Some(v) => if is_ok(v) {
            join(symbol_rows(v.at("symbols"@).items()), "\n"@)
        } else {
            error_line(v)
        },
        None => "error"@,
    }
}

pub open spec fn place_row(l: Doc) -> Seq<char> {
    "  "@ + l.at("file"@).text_or("?"@) + ":"@ + json_text(l.at("line"@)) + ":"@ + json_text(
        l.at("col"@),
    )
}

pub open spec fn place_rows(v: Seq<Doc>) -> Seq<Seq<char>> {
    Seq::new(v.len(), |i: int| place_row(v[i]))
}

/// A response to a navigation request.
pub open spec fn places_text(cmd: Seq<char>, r: Option<Doc>) -> Seq<char> {
    match r {
        Some(v) => if !is_ok(v) {
            error_line(v)
        } else if cmd == "hover"@ {
            let t = v.at("hover"@).text_or(""@);
            if t.len() > 0 {
                t
            } else {
                "(no hover)"@
            }
        } else {
            let ls = v.at("locations"@).items();
            if ls.len() == 0 {
                "(none)"@
            } else {
                join(place_rows(ls), "\n"@)
            }
        },
        None => "error"@,
    }
}

/// The text of the response to a subcommand of one request.
pub open spec fn reply_text(cmd: Seq<char>, rest: Seq<Seq<char>>, r: Option<Doc>) -> Seq<char> {
    if cmd == "break"@ {
        if rest.contains("--fn"@) {
            match r {
                Some(v) => "fn breakpoint ["@ + json_text(v.at("id"@)) + "]"@,
                None => "error"@,
            }
        } else {
            "panic breakpoint [panic] set (breaks where a Rust panic is raised)"@
        }
    } else if cmd == "watch"@ {
        watchpoint_text(first_or(rest, ""@), r)
    } else if cmd == "breaks"@ {
        field_text(r, "breakpoints"@)
    } else if cmd == "break-rm"@ || cmd == "break-on"@ || cmd == "break-off"@ {
        "ok"@
    } else if cmd == "status"@ {
        json_pretty(
            match r {
                Some(v) => v,
                None => Doc::Null,
            },
        )
    } else if cmd == "threads"@ || cmd == "vars"@ || cmd == "bt"@ {
        field_text(r, cmd)
    } else if cmd == "watch-expr"@ {
        field_text(r, "watches"@)
    } else if cmd == "list"@ {
        field_text(r, "source"@)
    } else if cmd == "frame"@ || cmd == "up"@ || cmd == "down"@ {
        frame_text(r)
    } else if cmd == "state"@ {
        state_text(r)
    } else if cmd == "stop"@ {
        "debug session ended"@
    } else if cmd == "where"@ {
        symbols_text(r)
    } else if cmd == "def"@ || cmd == "refs"@ || cmd == "hover"@ {
        places_text(cmd, r)
    } else {
        result_stop_text(r)
    }
}

fn push_listed(lines: &mut Vec<String>, v: &Json, key: &str)
    ensures
        views(final(lines)@) == views(old(lines)@) + listed(v@, key@),
{
    let ghost before = views(lines@);
    if let Some(t) = v.at(key).as_str() {
        lines.push(owned(t));
        assert(views(lines@) =~= before + seq![t@]);
        return;
    }
    assert(before + Seq::<Seq<char>>::empty() =~= before);
}

fn show_frame(r: &Option<Json>) -> (t: String)
    ensures
        t@ == frame_text(opt_view(*r)),
{
    match r {
        Some(v) => if ok(v) {
            let mut lines: Vec<String> = Vec::new();
            push_listed(&mut lines, v, "source");
            assert(views(lines@) =~= listed(v@, "source"@));
            let ghost before = views(lines@);
            lines.push(owned("locals:"));
            assert(views(lines@) =~= before.push("locals:"@));
            push_listed(&mut lines, v, "vars");
            join_all(&lines, "\n")
        } else {
            owned("no such frame")
        },
        None => owned("no such frame"),
    }
}

fn show_state(r: &Option<Json>) -> (t: String)
    ensures
        t@ == state_text(opt_view(*r)),
{
    match r {
        Some(v) => if ok(v) {
            let mut lines: Vec<String> = Vec::new();
            let stop = fmt_stop(v.at("stop"));
            let ghost head = stop@;
            lines.push(stop);
            lines.push(owned("locals:"));
            assert(views(lines@) =~= seq![head, "locals:"@]);
            push_listed(&mut lines, v, "vars");
            let ghost before = views(lines@);
            let mut shown = false;
            if let Some(w) = v.at("watches").as_str() {
                if !w.is_empty() {
                    let mut t = String::from_str("watches:\n");
                    t.append(w);
                    let ghost row = t@;
                    lines.push(t);
                    assert(views(lines@) =~= before + seq![row]);
                    shown = true;
                }
            }
            if !shown {
                assert(before + Seq::<Seq<char>>::empty() =~= before);
            }
            assert(views(lines@) == before + watch_rows(v@));
            join_all(&lines, "\n")
        } else {
            owned("error")
        },
        None => owned("error"),
    }
}

fn show_watchpoint(var: &str, r: &Option<Json>) -> (t: String)
    ensures
        t@ == watchpoint_text(var@, opt_view(*r)),
{
    match r {
        Some(v) => if ok(v) {
            let mut t = String::from_str("watchpoint [");
            let id = v.at("id").render();
            t.append(id.as_str());
            t.append("] on ");
            t.append(var);
            t.append(" (breaks when it changes)");
            t
        } else {
            show_error(v)
        },
        None => owned("error: daemon did not respond"),
    }
}

fn show_symbol(s: &Json) -> (t: String)
    ensures
        t@ == symbol_row(s@),
{
    let mut t = String::from_str("  ");
    let name = s.at("name").str_or("?");
    t.append(name.as_str());
    let c = match s.at("container").as_str() {
        Some(c) => {
            let mut x = String::from_str(" (");
            x.append(c);
            x.append(")");
            x
        },
        None => owned(""),
    };
    t.append(c.as_str());
    t.append("  ");
    let file = s.at("file").str_or("?");
    t.append(file.as_str());
    t.append(":");
    let line = s.at("line").render();
    t.append(line.as_str());
    t
}

fn show_symbols(r: &Option<Json>) -> (t: String)
    ensures
        t@ == symbols_text(opt_view(*r)),
{
    match r {
        Some(v) => if ok(v) {
            let mut rows: Vec<String> = Vec::new();
            if let Some(a) = v.at("symbols").as_array() {
                let mut i: usize = 0;
                while i < a.len()
                    invariant
                        i <= a.len(),
                        rows.len() == i,
                        forall|k: int| 0 <= k < i ==> (#[trigger] rows@[k])@ == symbol_row(a@[k]@),
                    decreases a.len() - i,
                {
                    rows.push(show_symbol(&a[i]));
                    i += 1;
                }
            }
            assert(views(rows@) =~= symbol_rows(v@.at("symbols"@).items()));
            join_all(&rows, "\n")
        } else {
            show_error(v)
        },
        None => owned("error"),
    }
}

fn show_place(l: &Json) -> (t: String)
    ensures
        t@ == place_row(l@),
{
    let mut t = String::from_str("  ");
    let file = l.at("file").str_or("?");
    t.append(file.as_str());
    t.append(":");
    let line = l.at("line").render();
    t.append(line.as_str());
    t.append(":");
    let col = l.at("col").render();
    t.append(col.as_str());
    t
}

fn show_places(cmd: &str, r: &Option<Json>) -> (t: String)
    ensures
        t@ == places_text(cmd@, opt_view(*r)),
{
    let v = match r {
        Some(v) => v,
        None => return owned("error"),
    };
    if !ok(v) {
        return show_error(v);
    }
    if same(cmd, "hover") {
        proof {
            reveal_strlit("");
        }
        if let Some(t) = v.at("hover").as_str() {
            if !t.is_empty() {
                return owned(t);
            }
        }
        return owned("(no hover)");
    }
    let mut rows: Vec<String> = Vec::new();
    if let Some(a) = v.at("locations").as_array() {
        let mut i: usize = 0;
        while i < a.len()
            invariant
                i <= a.len(),
                rows.len() == i,
                forall|k: int| 0 <= k < i ==> (#[trigger] rows@[k])@ == place_row(a@[k]@),
            decreases a.len() - i,
        {
            rows.push(show_place(&a[i]));
            i += 1;
        }
    }
    assert(views(rows@) =~= place_rows(v@.at("locations"@).items()));
    if rows.len() == 0 {
        owned("(none)")
    } else {
        join_all(&rows, "\n")
    }
}

fn show_reply(cmd: &str, rest: &Vec<String>, r: &Option<Json>) -> (t: String)
    ensures
        t@ == reply_text(cmd@, views(rest@), opt_view(*r)),
{
    if same(cmd, "break") {
        if has(rest, "--fn") {
            match r {
                Some(v) => {
                    let mut t = String::from_str("fn breakpoint [");
                    let id = v.at("id").render();
                    t.append(id.as_str());
                    t.append("]");
                    t
                },
                None => owned("error"),
            }
        } else {
            owned("panic breakpoint [panic] set (breaks where a Rust panic is raised)")
        }
    } else if same(cmd, "watch") {
        show_watchpoint(first(rest, ""), r)
    } else if same(cmd, "breaks") {
        fmt_field(r, "breakpoints")
    } else if same(cmd, "break-rm") || same(cmd, "break-on") || same(cmd, "break-off") {
        owned("ok")
    } else if same(cmd, "status") {
        match r {
            Some(v) => v.render_pretty(),
            None => Json::Null.render_pretty(),
        }
    } else if same(cmd, "threads") || same(cmd, "vars") || same(cmd, "bt") {
        fmt_field(r, cmd)
    } else if same(cmd, "watch-expr") {
        fmt_field(r, "watches")
    } else if same(cmd, "list") {
        fmt_field(r, "source")
    } else if same(cmd, "frame") || same(cmd, "up") || same(cmd, "down") {
        show_frame(r)
    } else if same(cmd, "state") {
        show_state(r)
    } else if same(cmd, "stop") {
        owned("debug session ended")
    } else if same(cmd, "where") {
        show_symbols(r)
    } else if same(cmd, "def") || same(cmd, "refs") || same(cmd, "hover") {
        show_places(cmd, r)
    } else {
        fmt_result_stop(r)
    }
}

// ---------------------------------------------------------------------------
// Subcommands of several steps
// ---------------------------------------------------------------------------

/// What an argument error of a subcommand is.
pub open spec fn argument_error(cmd: Seq<char>, rest: Seq<Seq<char>>) -> Option<Seq<char>> {
    if cmd == "break"@ && rest.len() == 0 {
        Some("break needs file.rs:line"@)
    } else if cmd == "watch"@ && rest.len() == 0 {
        Some("watch needs a variable"@)
    } else if cmd == "until"@ && rest.len() == 0 {
        Some("until needs file.rs:line"@)
    } else if cmd == "eval"@ && eval_paths(rest).len() == 0 {
        Some("eval needs at least one variable path"@)
    } else if cmd == "set"@ && set_body(rest).len() == 0 {
        Some("set needs <path> = <value>"@)
    } else if (cmd == "def"@ || cmd == "refs"@ || cmd == "hover"@) && rest.len() == 0 {
        Some("needs <file> <line> <col>"@)
    } else {
        None
    }
}

/// The request that adds a line breakpoint.
pub open spec fn line_break_payload(
    file: Seq<char>,
    line: int,
    condition: Option<Seq<char>>,
    hit: Option<int>,
    log: Option<Seq<char>>,
) -> Doc {
    command("bp_add"@).with("file"@, Doc::Str(file)).with("line"@, Doc::Int(line)).with(
        "condition"@,
        opt_text_doc(condition),
    ).with("hit"@, opt_int_doc(hit)).with("log"@, opt_text_doc(log))
}

/// The text of the response to a line breakpoint.
pub open spec fn line_break_text(spec: Seq<char>, r: Option<Doc>) -> Seq<char> {
    match r {
        Some(v) => if is_ok(v) {
            "breakpoint ["@ + json_text(v.at("id"@)) + "] "@ + spec + if v.at("verified"@).bool_or(
                true,
            ) {
                ""@
            } else {
                "  (UNVERIFIED — no code at that line?)"@
            }
        } else {
            "error setting breakpoint"@
        },
        None => "error setting breakpoint"@,
    }
}

/// `break file.rs:line`.
pub open spec fn line_break_need(
    rest: Seq<Seq<char>>,
    cwd: Seq<char>,
    answers: Seq<AnswerModel>,
    at: int,
) -> Need<Shown> {
    match location_need(rest[0], cwd, answers, at) {
        Need::Want(w) => Need::Want(w),
        Need::Done(Err(e), n) => Need::Done(usage_error(e), n),
        Need::Done(Ok((f, l)), n) => match sent(
            line_break_payload(
                f,
                l,
                option_words(rest, "--if"@),
                option_number(rest, "--hit"@),
                option_words(rest, "--log"@),
            ),
            PATIENCE as int,
            answers,
            n,
        ) {
            Need::Want(w) => Need::Want(w),
            Need::Done(r, k) => Need::Done(
                Shown { text: line_break_text(rest[0], r), value: definite(r) },
                k,
            ),
        },
    }
}

/// `until file.rs:line`.
pub open spec fn until_need(
    rest: Seq<Seq<char>>,
    cwd: Seq<char>,
    answers: Seq<AnswerModel>,
    at: int,
) -> Need<Shown> {
    match location_need(rest[0], cwd, answers, at) {
        Need::Want(w) => Need::Want(w),
        Need::Done(Err(e), n) => Need::Done(usage_error(e), n),
        Need::Done(Ok((f, l)), n) => match sent(
            command("until"@).with("file"@, Doc::Str(f)).with("line"@, Doc::Int(l)),
            PATIENCE as int,
            answers,
            n,
        ) {
            Need::Want(w) => Need::Want(w),
            Need::Done(r, k) => Need::Done(
                Shown { text: result_stop_text(r), value: definite(r) },
                k,
            ),
        },
    }
}

/// The paths among the arguments of `eval`.
pub open spec fn eval_paths(rest: Seq<Seq<char>>) -> Seq<Seq<char>>
    decreases rest.len(),
{
    if rest.len() == 0 {
        Seq::empty()
    } else if "--"@.is_prefix_of(rest.last()) {
        eval_paths(rest.drop_last())
    } else {
        eval_paths(rest.drop_last()).push(rest.last())
    }
}

pub open spec fn eval_payload(path: Seq<char>) -> Doc {
    command("eval"@).with("expr"@, Doc::Str(path))
}

/// The responses to the first paths.
pub open spec fn eval_replies(
    paths: Seq<Seq<char>>,
    i: int,
    answers: Seq<AnswerModel>,
    at: int,
) -> Need<Seq<Option<Doc>>>
    decreases i,
{
    if i <= 0 {
        Need::Done(Seq::empty(), at)
    } else {
        match eval_replies(paths, i - 1, answers, at) {
            Need::Want(w) => Need::Want(w),
            Need::Done(rs, n) => match sent(
                eval_payload(paths[i - 1]),
                PATIENCE as int,
                answers,
                n,
            ) {
                Need::Want(w) => Need::Want(w),
                Need::Done(r, k) => Need::Done(rs.push(r), k),
            },
        }
    }
}

/// A path and its value.
pub open spec fn eval_row(path: Seq<char>, r: Option<Doc>) -> Seq<char> {
    path + " = "@ + match r {
        Some(v) => if is_ok(v) {
            v.at("value"@).text_or(""@)
        } else {
            "error"@
        },
        None => "error"@,
    }
}

pub open spec fn eval_rows(paths: Seq<Seq<char>>, rs: Seq<Option<Doc>>) -> Seq<Seq<char>> {
    Seq::new(rs.len(), |i: int| eval_row(paths[i], rs[i]))
}

pub open spec fn eval_results(paths: Seq<Seq<char>>, rs: Seq<Option<Doc>>) -> Seq<Doc> {
    Seq::new(rs.len(), |i: int| definite(rs[i]).with("expr"@, Doc::Str(paths[i])))
}

/// The first response from `i` on that is no success.
pub open spec fn first_failure(rs: Seq<Option<Doc>>, i: int) -> Option<Doc>
    decreases rs.len() - i,
{
    if i < 0 || i >= rs.len() {
        None
    } else if is_ok(definite(rs[i])) {
        first_failure(rs, i + 1)
    } else {
        Some(definite(rs[i]))
    }
}

/// The beginning of the value of several responses: a success where all are,
/// or else the outcome and the error of the first that is none.
pub open spec fn aggregate(failure: Option<Doc>) -> Doc {
    match failure {
        Some(d) => error_doc(
            d.at("status"@).text_or("user_error"@),
            d.at("error"@).text_or("unknown"@),
        ),
        None => no_keys().with("ok"@, Doc::Bool(true)).with("status"@, Doc::Str("ok"@)),
    }
}

/// The results of `eval`.
pub open spec fn eval_shown(paths: Seq<Seq<char>>, rs: Seq<Option<Doc>>) -> Shown {
    Shown {
        text: join(eval_rows(paths, rs), "\n"@),
        value: aggregate(first_failure(rs, 0)).with(
            "results"@,
            Doc::Arr(eval_results(paths, rs)),
        ),
    }
}

/// `eval`.
pub open spec fn eval_need(rest: Seq<Seq<char>>, answers: Seq<AnswerModel>, at: int) -> Need<
    Shown,
> {
    let paths = eval_paths(rest);
    match eval_replies(paths, paths.len() as int, answers, at) {
        Need::Want(w) => Need::Want(w),
        Need::Done(rs, n) => Need::Done(eval_shown(paths, rs), n),
    }
}

/// The arguments of `set` before `--then`.
pub open spec fn set_body(rest: Seq<Seq<char>>) -> Seq<Seq<char>> {
    match first_index(rest, "--then"@, 0) {
        Some(i) => rest.take(i),
        None => rest,
    }
}

/// The path and the value of `set`.
pub open spec fn set_parts(body: Seq<Seq<char>>) -> (Seq<char>, Seq<char>) {
    match halves(join(body, " "@), "="@) {
        Some((p, v)) => (trimmed(p), trimmed(v)),
        None => (body[0], join(body.skip(1), " "@)),
    }
}

pub open spec fn set_payload(rest: Seq<Seq<char>>) -> Doc {
    let (path, value) = set_parts(set_body(rest));
    command("set"@).with("path"@, Doc::Str(path)).with("value"@, Doc::Str(value))
}

/// The request that resumes after `set`.
pub open spec fn resume_payload(rest: Seq<Seq<char>>) -> Doc {
    if option_value(rest, "--then"@) == Some("step"@) {
        command("step"@).with("kind"@, Doc::Str("over"@))
    } else {
        command("continue"@)
    }
}

/// The value of `set` and of the resume after it: a failure of the resume
/// makes a failure of both.
pub open spec fn set_value(first: Doc, after: Doc) -> Doc {
    let both = if is_ok(first) && !is_ok(after) {
        first.with("ok"@, Doc::Bool(false)).with("status"@, after.at("status"@)).with(
            "error"@,
            Doc::Str(after.at("error"@).text_or("unknown"@)),
        )
    } else {
        first
    };
    both.with("then"@, after)
}

/// `set`.
pub open spec fn set_need(rest: Seq<Seq<char>>, answers: Seq<AnswerModel>, at: int) -> Need<
    Shown,
> {
    match sent(set_payload(rest), PATIENCE as int, answers, at) {
        Need::Want(w) => Need::Want(w),
        Need::Done(r, n) => match first_index(rest, "--then"@, 0) {
            None => Need::Done(
                Shown { text: field_text(r, "value"@), value: definite(r) },
                n,
            ),
            Some(_) => match sent(resume_payload(rest), PATIENCE as int, answers, n) {
                Need::Want(w) => Need::Want(w),
                Need::Done(t, k) => Need::Done(
                    Shown {
                        text: field_text(r, "value"@) + "\n"@ + result_stop_text(t),
                        value: set_value(definite(r), definite(t)),
                    },
                    k,
                ),
            },
        },
    }
}

/// A subcommand of one request.
pub open spec fn single_need(
    cmd: Seq<char>,
    rest: Seq<Seq<char>>,
    payload: Doc,
    answers: Seq<AnswerModel>,
    at: int,
) -> Need<Shown> {
    match sent(payload, PATIENCE as int, answers, at) {
        Need::Want(w) => Need::Want(w),
        Need::Done(r, n) => Need::Done(
            Shown { text: reply_text(cmd, rest, r), value: definite(r) },
            n,
        ),
    }
}

/// A subcommand that is none.
pub open spec fn unknown_command(cmd: Seq<char>) -> Shown {
    Shown {
        text: USAGE@,
        value: error_doc("user_error"@, "unknown subcommand "@ + debug_text(cmd)),
    }
}

/// A subcommand.
pub open spec fn command_need(
    cmd: Seq<char>,
    rest: Seq<Seq<char>>,
    cwd: Seq<char>,
    answers: Seq<AnswerModel>,
    at: int,
) -> Need<Shown> {
    match argument_error(cmd, rest) {
        Some(e) => Need::Done(usage_error(e), at),
        None => if cmd == "break"@ && !rest.contains("--fn"@) && !rest.contains("--panic"@) {
            line_break_need(rest, cwd, answers, at)
        } else if cmd == "until"@ {
            until_need(rest, cwd, answers, at)
        } else if cmd == "eval"@ {
            eval_need(rest, answers, at)
        } else if cmd == "set"@ {
            set_need(rest, answers, at)
        } else {
            match payload_of(cmd, rest) {
                Some(p) => single_need(cmd, rest, p, answers, at),
                None => Need::Done(unknown_command(cmd), at),
            }
        },
    }
}

fn paths_among(rest: &Vec<String>) -> (r: Vec<String>)
    ensures
        views(r@) == eval_paths(views(rest@)),
{
    let ghost all = views(rest@);
    let mut r: Vec<String> = Vec::new();
    let mut i: usize = 0;
    assert(all.take(0) =~= Seq::empty());
    assert(views(r@) =~= Seq::empty());
    while i < rest.len()
        invariant
            i <= rest.len(),
            all == views(rest@),
            views(r@) == eval_paths(all.take(i as int)),
        decreases rest.len() - i,
    {
        assert(all.take(i + 1).drop_last() =~= all.take(i as int));
        assert(all.take(i + 1).last() == rest@[i as int]@);
        let option = begins(rest[i].as_str(), "--");
        if !option {
            let ghost before = views(r@);
            r.push(owned(rest[i].as_str()));
            assert(views(r@) =~= before.push(rest@[i as int]@));
        }
        i += 1;
    }
    assert(all.take(all.len() as int) =~= all);
    r
}

fn body_of_set(rest: &Vec<String>) -> (r: Vec<String>)
    ensures
        views(r@) == set_body(views(rest@)),
{
    let n: usize = match index_of(rest, "--then") {
        Some(i) => i,
        None => rest.len(),
    };
    let mut r: Vec<String> = Vec::new();
    let mut i: usize = 0;
    while i < n
        invariant
            i <= n <= rest.len(),
            r.len() == i,
            forall|k: int| 0 <= k < i ==> (#[trigger] r@[k])@ == rest@[k]@,
        decreases n - i,
    {
        r.push(owned(rest[i].as_str()));
        i += 1;
    }
    assert(views(r@) =~= views(rest@).take(n as int));
    assert(views(rest@).take(rest.len() as int) =~= views(rest@));
    r
}

fn check_arguments(cmd: &str, rest: &Vec<String>) -> (r: Option<&'static str>)
    ensures
        match r {
            Some(e) => argument_error(cmd@, views(rest@)) == Some(e@),
            None => argument_error(cmd@, views(rest@)) is None,
        },
{
    if same(cmd, "break") && rest.len() == 0 {
        Some("break needs file.rs:line")
    } else if same(cmd, "watch") && rest.len() == 0 {
        Some("watch needs a variable")
    } else if same(cmd, "until") && rest.len() == 0 {
        Some("until needs file.rs:line")
    } else if same(cmd, "eval") && paths_among(rest).len() == 0 {
        Some("eval needs at least one variable path")
    } else if same(cmd, "set") && body_of_set(rest).len() == 0 {
        Some("set needs <path> = <value>")
    } else if (same(cmd, "def") || same(cmd, "refs") || same(cmd, "hover")) && rest.len() == 0 {
        Some("needs <file> <line> <col>")
    } else {
        None
    }
}

fn show_line_break(spec: &str, r: &Option<Json>) -> (t: String)
    ensures
        t@ == line_break_text(spec@, opt_view(*r)),
{
    match r {
        Some(v) => if ok(v) {
            let mut t = String::from_str("breakpoint [");
            let id = v.at("id").render();
            t.append(id.as_str());
            t.append("] ");
            t.append(spec);
            if v.at("verified").bool_or(true) {
                t.append("");
            } else {
                t.append("  (UNVERIFIED — no code at that line?)");
            }
            t
        } else {
            owned("error setting breakpoint")
        },
        None => owned("error setting breakpoint"),
    }
}

fn run_line_break(rest: &Vec<String>, cwd: &str, answers: &Vec<Answer>, at: usize) -> (r: Pending<
    Rendered,
>)
    requires
        at <= answers.len(),
        rest.len() > 0,
    ensures
        match r {
            Pending::Want(q) => line_break_need(
                views(rest@),
                cwd@,
                answers_in(answers@),
                at as int,
            ) == Need::<Shown>::Want(q@),
            Pending::Done(x, n) => line_break_need(
                views(rest@),
                cwd@,
                answers_in(answers@),
                at as int,
            ) == Need::Done(x@, n as int) && at <= n <= answers.len(),
        },
{
    assert(views(rest@)[0] == rest@[0]@);
    let spec = rest[0].as_str();
    let (f, l, n): (String, i64, usize) = match parse_bp_soft(spec, cwd, answers, at) {
        Pending::Want(q) => return Pending::Want(q),
        Pending::Done(Err(e), n) => return Pending::Done(usage_err(e.as_str()), n),
        Pending::Done(Ok((f, l)), n) => (f, l, n),
    };
    let condition = opt_multi(rest, "--if");
    let hit = opt_i64(rest, "--hit");
    let log = opt_multi(rest, "--log");
    let payload = cmd_of("bp_add").with("file", Json::text(f.as_str())).with(
        "line",
        Json::number(l),
    ).with("condition", opt_string(&condition)).with("hit", opt_number(hit)).with(
        "log",
        opt_string(&log),
    );
    assert(payload@ == line_break_payload(
        f@,
        l as int,
        option_words(views(rest@), "--if"@),
        option_number(views(rest@), "--hit"@),
        option_words(views(rest@), "--log"@),
    ));
    match send(payload, PATIENCE, answers, n) {
        Pending::Want(q) => Pending::Want(q),
        Pending::Done(resp, k) => {
            let text = show_line_break(spec, &resp);
            Pending::Done(Rendered { text, value: jresp(resp) }, k)
        },
    }
}

fn run_until(rest: &Vec<String>, cwd: &str, answers: &Vec<Answer>, at: usize) -> (r: Pending<
    Rendered,
>)
    requires
        at <= answers.len(),
        rest.len() > 0,
    ensures
        match r {
            Pending::Want(q) => until_need(views(rest@), cwd@, answers_in(answers@), at as int)
                == Need::<Shown>::Want(q@),
            Pending::Done(x, n) => until_need(
                views(rest@),
                cwd@,
                answers_in(answers@),
                at as int,
            ) == Need::Done(x@, n as int) && at <= n <= answers.len(),
        },
{
    assert(views(rest@)[0] == rest@[0]@);
    let (f, l, n): (String, i64, usize) = match parse_bp_soft(
        rest[0].as_str(),
        cwd,
        answers,
        at,
    ) {
        Pending::Want(q) => return Pending::Want(q),
        Pending::Done(Err(e), n) => return Pending::Done(usage_err(e.as_str()), n),
        Pending::Done(Ok((f, l)), n) => (f, l, n),
    };
    let payload = cmd_of("until").with("file", Json::text(f.as_str())).with(
        "line",
        Json::number(l),
    );
    match send(payload, PATIENCE, answers, n) {
        Pending::Want(q) => Pending::Want(q),
        Pending::Done(resp, k) => {
            let text = fmt_result_stop(&resp);
            Pending::Done(Rendered { text, value: jresp(resp) }, k)
        },
    }
}

pub open spec fn opt_views(v: Seq<Option<Json>>) -> Seq<Option<Doc>> {
    Seq::new(v.len(), |i: int| opt_view(v[i]))
}

fn ask_paths(paths: &Vec<String>, answers: &Vec<Answer>, at: usize) -> (r: Pending<
    Vec<Option<Json>>,
>)
    requires
        at <= answers.len(),
    ensures
        match r {
            Pending::Want(q) => eval_replies(
                views(paths@),
                paths.len() as int,
                answers_in(answers@),
                at as int,
            ) == Need::<Seq<Option<Doc>>>::Want(q@),
            Pending::Done(rs, n) => eval_replies(
                views(paths@),
                paths.len() as int,
                answers_in(answers@),
                at as int,
            ) == Need::Done(opt_views(rs@), n as int) && at <= n <= answers.len() && rs.len()
                == paths.len(),
        },
{
    let mut rs: Vec<Option<Json>> = Vec::new();
    let mut n: usize = at;
    let mut i: usize = 0;
    assert(opt_views(rs@) =~= Seq::empty());
    while i < paths.len()
        invariant
            i <= paths.len(),
            at <= n <= answers.len(),
            rs.len() == i,
            eval_replies(views(paths@), i as int, answers_in(answers@), at as int) == Need::Done(
                opt_views(rs@),
                n as int,
            ),
        decreases paths.len() - i,
    {
        assert(views(paths@)[i as int] == paths@[i as int]@);
        let payload = cmd_of("eval").with("expr", Json::text(paths[i].as_str()));
        match send(payload, PATIENCE, answers, n) {
            Pending::Want(q) => {
                proof {
                    lemma_replies_want(
                        views(paths@),
                        i + 1,
                        paths.len() as int,
                        answers_in(answers@),
                        at as int,
                        q@,
                    );
                }
                return Pending::Want(q);
            },
            Pending::Done(resp, k) => {
                let ghost before = opt_views(rs@);
                let ghost reply = opt_view(resp);
                rs.push(resp);
                assert(opt_views(rs@) =~= before.push(reply));
                n = k;
            },
        }
        i += 1;
    }
    Pending::Done(rs, n)
}

/// What the first paths still need, all need.
proof fn lemma_replies_want(
    paths: Seq<Seq<char>>,
    i: int,
    j: int,
    answers: Seq<AnswerModel>,
    at: int,
    w: WantModel,
)
    requires
        i <= j,
        eval_replies(paths, i, answers, at) == Need::<Seq<Option<Doc>>>::Want(w),
    ensures
        eval_replies(paths, j, answers, at) == Need::<Seq<Option<Doc>>>::Want(w),
    decreases j - i,
{
    if i < j {
        lemma_replies_want(paths, i, j - 1, answers, at, w);
        assert(i > 0);
    }
}

fn find_failure(rs: &Vec<Option<Json>>) -> (r: Option<Json>)
    ensures
        opt_view(r) == first_failure(opt_views(rs@), 0),
{
    let mut i: usize = 0;
    while i < rs.len()
        invariant
            i <= rs.len(),
            first_failure(opt_views(rs@), 0) == first_failure(opt_views(rs@), i as int),
        decreases rs.len() - i,
    {
        assert(opt_views(rs@)[i as int] == opt_view(rs@[i as int]));
        let v = settle(&rs[i]);
        if !ok(&v) {
            return Some(v);
        }
        i += 1;
    }
    None
}

fn settle(r: &Option<Json>) -> (v: Json)
    ensures
        v@ == definite(opt_view(*r)),
{
    match r {
        Some(j) => jresp(Some(j.copy())),
        None => jresp(None),
    }
}

fn make_aggregate(failure: &Option<Json>) -> (r: Json)
    ensures
        r@ == aggregate(opt_view(*failure)),
{
    match failure {
        Some(d) => {
            let status = d.at("status").str_or("user_error");
            let error = d.at("error").str_or("unknown");
            err_value(status.as_str(), error.as_str())
        },
        None => Json::obj().with("ok", Json::boolean(true)).with("status", Json::text("ok")),
    }
}

fn show_eval(path: &str, r: &Option<Json>) -> (t: String)
    ensures
        t@ == eval_row(path@, opt_view(*r)),
{
    let mut t = owned(path);
    t.append(" = ");
    let val = match r {
        Some(v) => if ok(v) {
            v.at("value").str_or("")
        } else {
            owned("error")
        },
        None => owned("error"),
    };
    t.append(val.as_str());
    t
}

/// The results of evaluating paths, from the responses to each.
pub fn eval_all(paths: &Vec<String>, rs: &Vec<Option<Json>>) -> (r: Rendered)
    requires
        rs.len() == paths.len(),
    ensures
        r@ == eval_shown(views(paths@), opt_views(rs@)),
{
    let mut rows: Vec<String> = Vec::new();
    let mut results: Vec<Json> = Vec::new();
    let mut i: usize = 0;
    while i < rs.len()
        invariant
            i <= rs.len(),
            rs.len() == paths.len(),
            rows.len() == i,
            results.len() == i,
            forall|k: int|
                0 <= k < i ==> (#[trigger] rows@[k])@ == eval_row(paths@[k]@, opt_view(rs@[k])),
            forall|k: int|
                0 <= k < i ==> (#[trigger] results@[k])@ == definite(opt_view(rs@[k])).with(
                    "expr"@,
                    Doc::Str(paths@[k]@),
                ),
        decreases rs.len() - i,
    {
        rows.push(show_eval(paths[i].as_str(), &rs[i]));
        let v = settle(&rs[i]);
        results.push(v.with("expr", Json::text(paths[i].as_str())));
        i += 1;
    }
    assert(views(rows@) =~= eval_rows(views(paths@), opt_views(rs@)));
    assert(docs(results@) =~= eval_results(views(paths@), opt_views(rs@)));
    let failure = find_failure(rs);
    let value = make_aggregate(&failure).with("results", Json::list(results));
    Rendered { text: join_all(&rows, "\n"), value }
}

fn run_eval(rest: &Vec<String>, answers: &Vec<Answer>, at: usize) -> (r: Pending<Rendered>)
    requires
        at <= answers.len(),
    ensures
        match r {
            Pending::Want(q) => eval_need(views(rest@), answers_in(answers@), at as int) == Need::<
                Shown,
            >::Want(q@),
            Pending::Done(x, n) => eval_need(views(rest@), answers_in(answers@), at as int)
                == Need::Done(x@, n as int) && at <= n <= answers.len(),
        },
{
    let paths = paths_among(rest);
    match ask_paths(&paths, answers, at) {
        Pending::Want(q) => Pending::Want(q),
        Pending::Done(rs, n) => Pending::Done(eval_all(&paths, &rs), n),
    }
}

fn parts_of_set(rest: &Vec<String>) -> (r: (String, String))
    requires
        set_body(views(rest@)).len() > 0,
    ensures
        (r.0@, r.1@) == set_parts(set_body(views(rest@))),
{
    let body = body_of_set(rest);
    let joined = join_all(&body, " ");
    match split_first(joined.as_str(), "=") {
        Some((p, v)) => (trim(p.as_str()), trim(v.as_str())),
        None => {
            assert(views(body@)[0] == body@[0]@);
            let words = copy_from(&body, 1);
            assert(views(words@) =~= views(body@).skip(1));
            (owned(body[0].as_str()), join_all(&words, " "))
        },
    }
}

/// The value of `set` and of the resume after it.
pub fn both_values(first: Json, after: Json) -> (r: Json)
    ensures
        r@ == set_value(first@, after@),
{
    let failed = ok(&first) && !ok(&after);
    let both = if failed {
        let error = after.at("error").str_or("unknown");
        first.with("ok", Json::boolean(false)).with("status", after.at("status").copy()).with(
            "error",
            Json::text(error.as_str()),
        )
    } else {
        first
    };
    both.with("then", after)
}

fn run_set(rest: &Vec<String>, answers: &Vec<Answer>, at: usize) -> (r: Pending<Rendered>)
    requires
        at <= answers.len(),
        set_body(views(rest@)).len() > 0,
    ensures
        match r {
            Pending::Want(q) => set_need(views(rest@), answers_in(answers@), at as int) == Need::<
                Shown,
            >::Want(q@),
            Pending::Done(x, n) => set_need(views(rest@), answers_in(answers@), at as int)
                == Need::Done(x@, n as int) && at <= n <= answers.len(),
        },
{
    // rdbg set <path> = <value> [--then continue|step]   (test a fix live)
    let (path, value) = parts_of_set(rest);
    let payload = cmd_of("set").with("path", Json::text(path.as_str())).with(
        "value",
        Json::text(value.as_str()),
    );
    let (resp, n): (Option<Json>, usize) = match send(payload, PATIENCE, answers, at) {
        Pending::Want(q) => return Pending::Want(q),
        Pending::Done(resp, n) => (resp, n),
    };
    let mut text = fmt_field(&resp, "value");
    let value = jresp(resp);
    match index_of(rest, "--then") {
        None => Pending::Done(Rendered { text, value }, n),
        Some(_) => {
            let step = match opt(rest, "--then") {
                Some(t) => same(t, "step"),
                None => false,
            };
            let resume = if step {
                cmd_of("step").with("kind", Json::text("over"))
            } else {
                cmd_of("continue")
            };
            match send(resume, PATIENCE, answers, n) {
                Pending::Want(q) => Pending::Want(q),
                Pending::Done(t, k) => {
                    text.append("\n");
                    let stop = fmt_result_stop(&t);
                    text.append(stop.as_str());
                    let after = jresp(t);
                    Pending::Done(Rendered { text, value: both_values(value, after) }, k)
                },
            }
        },
    }
}

/// Run one subcommand against the daemon and return its rendered text plus the
/// JSON response (with `status`). The client prints one of the two (`--json`
/// picks the JSON line); `do` and the MCP `debug_do` tool collect the text.
/// Never exits the process — safe to call from the MCP server.
pub fn run_command_full(
    cmd: &str,
    rest: &Vec<String>,
    cwd: &str,
    answers: &Vec<Answer>,
    at: usize,
) -> (r: Pending<Rendered>)
    requires
        at <= answers.len(),
    ensures
        match r {
            Pending::Want(q) => command_need(
                cmd@,
                views(rest@),
                cwd@,
                answers_in(answers@),
                at as int,
            ) == Need::<Shown>::Want(q@),
            Pending::Done(x, n) => command_need(
                cmd@,
                views(rest@),
                cwd@,
                answers_in(answers@),
                at as int,
            ) == Need::Done(x@, n as int) && at <= n <= answers.len(),
        },
{
    if let Some(e) = check_arguments(cmd, rest) {
        return Pending::Done(usage_err(e), at);
    }
    let named = has(rest, "--fn") || has(rest, "--panic");
    if same(cmd, "break") && !named {
        run_line_break(rest, cwd, answers, at)
    } else if same(cmd, "until") {
        run_until(rest, cwd, answers, at)
    } else if same(cmd, "eval") {
        run_eval(rest, answers, at)
    } else if same(cmd, "set") {
        run_set(rest, answers, at)
    } else {
        match make_payload(cmd, rest) {
            Some(p) => match send(p, PATIENCE, answers, at) {
                Pending::Want(q) => Pending::Want(q),
                Pending::Done(resp, n) => {
                    let text = show_reply(cmd, rest, &resp);
                    Pending::Done(Rendered { text, value: jresp(resp) }, n)
                },
            },
            None => {
                let mut e = String::from_str("unknown subcommand ");
                let d = show_debug(cmd);
                e.append(d.as_str());
                Pending::Done(
                    Rendered { text: owned(USAGE), value: err_value("user_error", e.as_str()) },
                    at,
                )
            },
        }
    }
}

} // verus!
