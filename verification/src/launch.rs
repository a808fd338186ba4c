//! `launch`, `trace` and `debug`: build a program, run it to its first stop,
//! and show what came of it.

use vstd::prelude::*;
use crate::cargo::{build_target, target_need};
use crate::client::{cmd_of, command, parse_bp_soft, location_need, PATIENCE};
use crate::daemon::{opt_string, opt_text_doc};
use crate::json::{docs, is_line, json_text, no_keys, one_line, str_docs, text_list, Doc, Json};
use crate::num::{i64_value, int_text, int_text_reads_back, read_i64, show_int};
use crate::report::{
    code_of, definite, err_value, error_doc, exit_code, fmt_stop, is_ok, jresp, ok, output_note,
    stop_text,
};
use crate::session::opt_text;
use crate::text::{
    copy_from, debug_text, joined_parts_split_again, lemma_join_push, opt_str, owned, same,
    show_debug, split_char, split_on, trim, trim_back, trimmed, trimmed_end, views,
};
use crate::util::{
    build_status, classify_build_error, file_name, file_name_of, parent_of, parent_path,
};
use crate::wants::{
    answers_in, note, noted, obtain, send, sent, text_in, want, Answer, AnswerModel, Need,
    Pending, Want, WantModel,
};

verus! {

// ---------------------------------------------------------------------------
// Arguments
// ---------------------------------------------------------------------------

/// What is done with the program.
#[derive(Clone, Copy, PartialEq, Eq, Structural)]
pub enum Verb {
    /// It is run to its first stop.
    Launch,
    /// It is run through every hit.
    Trace,
    /// It is run to its panic.
    Debug,
}

pub open spec fn verb_name(v: Verb) -> Seq<char> {
    match v {
        Verb::Launch => "launch"@,
        Verb::Trace => "trace"@,
        Verb::Debug => "debug"@,
    }
}

fn name_of(v: Verb) -> (r: &'static str)
    ensures
        r@ == verb_name(v),
{
    match v {
        Verb::Launch => "launch",
        Verb::Trace => "trace",
        Verb::Debug => "debug",
    }
}

/// What was asked for.
pub ghost struct PlanModel {
    pub cargo: Option<Seq<char>>,
    pub bin_path: Option<Seq<char>>,
    pub bin: Option<Seq<char>>,
    pub test: Option<Seq<char>>,
    pub lib: bool,
    pub breaks: Seq<Seq<char>>,
    pub fn_breaks: Seq<Seq<char>>,
    pub args: Seq<Seq<char>>,
    pub captures: Seq<Seq<char>>,
    pub max: int,
    pub panic: bool,
}

struct Plan {
    cargo: Option<String>,
    bin_path: Option<String>,
    bin: Option<String>,
    test: Option<String>,
    lib: bool,
    breaks: Vec<String>,
    fn_breaks: Vec<String>,
    args: Vec<String>,
    captures: Vec<String>,
    max: i64,
    panic: bool,
}

impl View for Plan {
    type V = PlanModel;

    closed spec fn view(&self) -> PlanModel {
        PlanModel {
            cargo: opt_text(self.cargo),
            bin_path: opt_text(self.bin_path),
            bin: opt_text(self.bin),
            test: opt_text(self.test),
            lib: self.lib,
            breaks: views(self.breaks@),
            fn_breaks: views(self.fn_breaks@),
            args: views(self.args@),
            captures: views(self.captures@),
            max: self.max as int,
            panic: self.panic,
        }
    }
}

pub open spec fn no_plan() -> PlanModel {
    PlanModel {
        cargo: None,
        bin_path: None,
        bin: None,
        test: None,
        lib: false,
        breaks: Seq::empty(),
        fn_breaks: Seq::empty(),
        args: Seq::empty(),
        captures: Seq::empty(),
        max: 50,
        panic: false,
    }
}

/// The element at `i`, where there is one.
pub open spec fn nth(v: Seq<Seq<char>>, i: int) -> Option<Seq<char>> {
    if 0 <= i < v.len() {
        Some(v[i])
    } else {
        None
    }
}

/// A list, and an element more where there is one.
pub open spec fn with_next(v: Seq<Seq<char>>, x: Option<Seq<char>>) -> Seq<Seq<char>> {
    match x {
        Some(t) => v.push(t),
        None => v,
    }
}

/// The paths in a list with commas between them.
pub open spec fn capture_list(x: Option<Seq<char>>) -> Seq<Seq<char>> {
    match x {
        Some(t) => split_on(t, ',').map_values(|s: Seq<char>| trimmed(s)),
        None => Seq::empty(),
    }
}

pub open spec fn max_of(x: Option<Seq<char>>) -> int {
    match x {
        Some(t) => match i64_value(t) {
            Some(n) => n,
            None => 50,
        },
        None => 50,
    }
}

/// What the arguments from `i` on add to a plan; an argument that is none is
/// the error.
pub open spec fn plan_from(
    verb: Verb,
    rest: Seq<Seq<char>>,
    i: int,
    p: PlanModel,
) -> Result<PlanModel, Seq<char>>
    decreases rest.len() + 1 - i,
{
    if i < 0 || i >= rest.len() {
        Ok(p)
    } else {
        let a = rest[i];
        let x = nth(rest, i + 1);
        let breaks = verb != Verb::Debug;
        if a == "--cargo"@ {
            plan_from(verb, rest, i + 2, PlanModel { cargo: x, ..p })
        } else if a == "--bin-path"@ {
            plan_from(verb, rest, i + 2, PlanModel { bin_path: x, ..p })
        } else if a == "--bin"@ {
            plan_from(verb, rest, i + 2, PlanModel { bin: x, ..p })
        } else if a == "--test"@ {
            plan_from(verb, rest, i + 2, PlanModel { test: x, ..p })
        } else if a == "--lib"@ {
            plan_from(verb, rest, i + 1, PlanModel { lib: true, ..p })
        } else if a == "--panic"@ {
            plan_from(verb, rest, i + 1, PlanModel { panic: true, ..p })
        } else if a == "--"@ {
            Ok(PlanModel { args: rest.skip(i + 1), ..p })
        } else if breaks && a == "--break"@ {
            plan_from(verb, rest, i + 2, PlanModel { breaks: with_next(p.breaks, x), ..p })
        } else if breaks && a == "--break-fn"@ {
            plan_from(verb, rest, i + 2, PlanModel { fn_breaks: with_next(p.fn_breaks, x), ..p })
        } else if breaks && a == "--capture"@ {
            plan_from(
                verb,
                rest,
                i + 2,
                PlanModel { captures: p.captures + capture_list(x), ..p },
            )
        } else if breaks && a == "--max"@ {
            plan_from(verb, rest, i + 2, PlanModel { max: max_of(x), ..p })
        } else {
            Err(a)
        }
    }
}

/// How the command is used.
pub open spec fn usage_of(verb: Verb) -> Seq<char> {
    let v = verb_name(verb);
    let stops = match verb {
        Verb::Launch => " --break <file.rs:line> [--break-fn <fn>] [--panic]"@,
        Verb::Trace =>
            " --break <file.rs:line> [--break-fn <fn>] [--panic] [--capture a,b] [--max N]"@,
        Verb::Debug => " --panic"@,
    };
    let stop = match verb {
        Verb::Debug => " --panic"@,
        _ => " --break <file.rs:line>"@,
    };
    "usage: rdbg "@ + v + " --cargo <dir> [--bin <name> | --test <name> | --lib]"@ + stops
        + " [-- <program args / test-name filter>]\n       rdbg "@ + v + " --bin-path <path>"@
        + stop
        + "\n  --bin <name>   a binary target        --test <name>  an integration test (tests/<name>.rs)\n  --lib          the library's own unit tests (#[cfg(test)] mod tests); pass the test name after --"@
}

/// More than one target was asked for.
pub open spec fn many_targets(p: PlanModel) -> bool {
    (p.bin is Some && p.test is Some) || (p.bin is Some && p.lib) || (p.test is Some && p.lib)
}

/// Nothing would stop the program.
pub open spec fn nothing_stops(verb: Verb, p: PlanModel) -> bool {
    match verb {
        Verb::Debug => !p.panic,
        _ => p.breaks.len() == 0 && p.fn_breaks.len() == 0 && !p.panic,
    }
}

pub open spec fn no_stop_error(verb: Verb) -> Seq<char> {
    match verb {
        Verb::Debug =>
            "debug needs --panic\n  e.g.  rdbg debug --cargo . --lib --panic -- my_test"@,
        _ => verb_name(verb)
            + " needs at least one --break <file.rs:line>, --break-fn <name>, or --panic\n  e.g.  rdbg "@
            + verb_name(verb) + " --cargo . --lib --break src/lib.rs:42 -- my_test"@,
    }
}

/// What was asked for, or what is wrong with it: that nothing would stop the
/// program only where cargo need not be asked for it.
pub open spec fn plan_of(verb: Verb, rest: Seq<Seq<char>>) -> Result<PlanModel, Seq<char>> {
    match plan_from(verb, rest, 0, no_plan()) {
        Err(a) => Err(
            "unknown "@ + verb_name(verb) + " arg "@ + debug_text(a) + "\n"@ + usage_of(verb),
        ),
        Ok(p) => if many_targets(p) {
            Err(
                "pick one target — --bin <name>, --test <name> (tests/<name>.rs), or --lib (the library's #[cfg(test)] unit tests)"@,
            )
        } else if p.cargo is None && nothing_stops(verb, p) {
            Err(no_stop_error(verb))
        } else if p.cargo is None && p.bin_path is None {
            Err(
                verb_name(verb)
                    + " needs --cargo <dir> (build then debug) or --bin-path <path> (a prebuilt binary)\n"@
                    + usage_of(verb),
            )
        } else {
            Ok(p)
        },
    }
}

fn arg_at(v: &Vec<String>, i: usize) -> (r: Option<String>)
    ensures
        opt_text(r) == nth(views(v@), i as int),
{
    if i < v.len() {
        assert(views(v@)[i as int] == v@[i as int]@);
        Some(owned(v[i].as_str()))
    } else {
        None
    }
}

fn push_next(v: &mut Vec<String>, x: Option<String>)
    ensures
        views(final(v)@) == with_next(views(old(v)@), opt_text(x)),
{
    let ghost before = views(v@);
    if let Some(t) = x {
        let ghost text = t@;
        v.push(t);
        assert(views(v@) =~= before.push(text));
    }
}

fn push_captures(v: &mut Vec<String>, x: Option<String>)
    ensures
        views(final(v)@) == views(old(v)@) + capture_list(opt_text(x)),
{
    let ghost before = views(v@);
    if let Some(t) = x {
        let parts = split_char(t.as_str(), ',');
        let ghost all = capture_list(Some(t@));
        let mut i: usize = 0;
        assert(before + all.take(0) =~= before);
        while i < parts.len()
            invariant
                i <= parts.len(),
                views(parts@) == split_on(t@, ','),
                all == capture_list(Some(t@)),
                all.len() == parts.len(),
                views(v@) == before + all.take(i as int),
            decreases parts.len() - i,
        {
            assert(split_on(t@, ',')[i as int] == parts@[i as int]@);
            let s = trim(parts[i].as_str());
            let ghost text = s@;
            let ghost now = views(v@);
            v.push(s);
            assert(views(v@) =~= now.push(text));
            assert(all[i as int] == text);
            assert(now.push(text) =~= before + all.take(i + 1));
            i += 1;
        }
        assert(all.take(all.len() as int) =~= all);
    } else {
        assert(before + Seq::<Seq<char>>::empty() =~= before);
    }
}

fn read_max(x: Option<String>) -> (r: i64)
    ensures
        r == max_of(opt_text(x)),
{
    match x {
        Some(t) => match read_i64(t.as_str()) {
            Some(n) => n,
            None => 50,
        },
        None => 50,
    }
}

/// The plan of the arguments, or the argument that is none.
fn read_plan(verb: Verb, rest: &Vec<String>) -> (r: Result<Plan, String>)
    ensures
        match r {
            Ok(p) => plan_from(verb, views(rest@), 0, no_plan()) == Ok::<PlanModel, Seq<char>>(p@),
            Err(a) => plan_from(verb, views(rest@), 0, no_plan()) == Err::<PlanModel, Seq<char>>(
                a@,
            ),
        },
{
    let ghost all = views(rest@);
    let ghost whole = plan_from(verb, all, 0, no_plan());
    let mut p = Plan {
        cargo: None,
        bin_path: None,
        bin: None,
        test: None,
        lib: false,
        breaks: Vec::new(),
        fn_breaks: Vec::new(),
        args: Vec::new(),
        captures: Vec::new(),
        max: 50,
        panic: false,
    };
    assert(p@.breaks =~= Seq::empty());
    assert(p@.fn_breaks =~= Seq::empty());
    assert(p@.args =~= Seq::empty());
    assert(p@.captures =~= Seq::empty());
    assert(p@ == no_plan());
    let breaks = verb != Verb::Debug;
    let mut i: usize = 0;
    while i < rest.len()
        invariant
            all == views(rest@),
            whole == plan_from(verb, all, 0, no_plan()),
            whole == plan_from(verb, all, i as int, p@),
            breaks == (verb != Verb::Debug),
            rest.len() <= usize::MAX,
        decreases rest.len() - i,
    {
        assert(all[i as int] == rest@[i as int]@);
        let a = rest[i].as_str();
        let two: usize = if i < rest.len() - 1 {
            i + 2
        } else {
            rest.len()
        };
        proof {
            lemma_plan_end(verb, all, i + 2);
        }
        let ghost before = p@;
        if same(a, "--cargo") {
            p.cargo = arg_at(rest, i + 1);
            assert(p@ == PlanModel { cargo: nth(all, i + 1), ..before });
            i = two;
            assert(whole == plan_from(verb, all, i as int, p@));
        } else if same(a, "--bin-path") {
            p.bin_path = arg_at(rest, i + 1);
            assert(p@ == PlanModel { bin_path: nth(all, i + 1), ..before });
            i = two;
            assert(whole == plan_from(verb, all, i as int, p@));
        } else if same(a, "--bin") {
            p.bin = arg_at(rest, i + 1);
            assert(p@ == PlanModel { bin: nth(all, i + 1), ..before });
            i = two;
            assert(whole == plan_from(verb, all, i as int, p@));
        } else if same(a, "--test") {
            p.test = arg_at(rest, i + 1);
            assert(p@ == PlanModel { test: nth(all, i + 1), ..before });
            i = two;
            assert(whole == plan_from(verb, all, i as int, p@));
        } else if same(a, "--lib") {
            p.lib = true;
            assert(p@ == PlanModel { lib: true, ..before });
            i += 1;
            assert(whole == plan_from(verb, all, i as int, p@));
        } else if same(a, "--panic") {
            p.panic = true;
            assert(p@ == PlanModel { panic: true, ..before });
            i += 1;
            assert(whole == plan_from(verb, all, i as int, p@));
        } else if same(a, "--") {
            p.args = copy_from(rest, i + 1);
            assert(p@.args =~= all.skip(i + 1));
            assert(p@ == PlanModel { args: all.skip(i + 1), ..before });
            return Ok(p);
        } else if breaks && same(a, "--break") {
            let x = arg_at(rest, i + 1);
            push_next(&mut p.breaks, x);
            assert(p@ == PlanModel { breaks: with_next(before.breaks, nth(all, i + 1)), ..before });
            i = two;
            assert(whole == plan_from(verb, all, i as int, p@));
        } else if breaks && same(a, "--break-fn") {
            let x = arg_at(rest, i + 1);
            push_next(&mut p.fn_breaks, x);
            assert(p@ == PlanModel {
                fn_breaks: with_next(before.fn_breaks, nth(all, i + 1)),
                ..before
            });
            i = two;
            assert(whole == plan_from(verb, all, i as int, p@));
        } else if breaks && same(a, "--capture") {
            let x = arg_at(rest, i + 1);
            push_captures(&mut p.captures, x);
            assert(p@ == PlanModel {
                captures: before.captures + capture_list(nth(all, i + 1)),
                ..before
            });
            i = two;
            assert(whole == plan_from(verb, all, i as int, p@));
        } else if breaks && same(a, "--max") {
            let x = arg_at(rest, i + 1);
            p.max = read_max(x);
            assert(p@ == PlanModel { max: max_of(nth(all, i + 1)), ..before });
            i = two;
            assert(whole == plan_from(verb, all, i as int, p@));
        } else {
            return Err(owned(a));
        }
    }
    Ok(p)
}

/// Past the arguments there is nothing to add.
proof fn lemma_plan_end(verb: Verb, rest: Seq<Seq<char>>, i: int)
    ensures
        forall|q: PlanModel| i >= rest.len() ==> #[trigger] plan_from(verb, rest, i, q) == Ok::<
            PlanModel,
            Seq<char>,
        >(q),
        forall|q: PlanModel| #[trigger] plan_from(verb, rest, rest.len() as int, q) == Ok::<
            PlanModel,
            Seq<char>,
        >(q),
{
}

fn show_usage(verb: Verb) -> (r: String)
    ensures
        r@ == usage_of(verb),
{
    let stops = match verb {
        Verb::Launch => " --break <file.rs:line> [--break-fn <fn>] [--panic]",
        Verb::Trace =>
            " --break <file.rs:line> [--break-fn <fn>] [--panic] [--capture a,b] [--max N]",
        Verb::Debug => " --panic",
    };
    let stop = match verb {
        Verb::Debug => " --panic",
        _ => " --break <file.rs:line>",
    };
    let mut t = String::from_str("usage: rdbg ");
    t.append(name_of(verb));
    t.append(" --cargo <dir> [--bin <name> | --test <name> | --lib]");
    t.append(stops);
    t.append(" [-- <program args / test-name filter>]\n       rdbg ");
    t.append(name_of(verb));
    t.append(" --bin-path <path>");
    t.append(stop);
    t.append(
        "\n  --bin <name>   a binary target        --test <name>  an integration test (tests/<name>.rs)\n  --lib          the library's own unit tests (#[cfg(test)] mod tests); pass the test name after --",
    );
    t
}

fn some(x: &Option<String>) -> (r: bool)
    ensures
        r == (opt_text(*x) is Some),
{
    match x {
        Some(_) => true,
        None => false,
    }
}

fn unstopped(verb: Verb, p: &Plan) -> (r: bool)
    ensures
        r == nothing_stops(verb, p@),
{
    match verb {
        Verb::Debug => !p.panic,
        _ => p.breaks.len() == 0 && p.fn_breaks.len() == 0 && !p.panic,
    }
}

fn show_no_stop(verb: Verb) -> (r: String)
    ensures
        r@ == no_stop_error(verb),
{
    match verb {
        Verb::Debug => owned(
            "debug needs --panic\n  e.g.  rdbg debug --cargo . --lib --panic -- my_test",
        ),
        _ => {
            let mut e = owned(name_of(verb));
            e.append(
                " needs at least one --break <file.rs:line>, --break-fn <name>, or --panic\n  e.g.  rdbg ",
            );
            e.append(name_of(verb));
            e.append(" --cargo . --lib --break src/lib.rs:42 -- my_test");
            e
        },
    }
}

fn checked_plan(verb: Verb, rest: &Vec<String>) -> (r: Result<Plan, String>)
    ensures
        match r {
            Ok(p) => plan_of(verb, views(rest@)) == Ok::<PlanModel, Seq<char>>(p@),
            Err(e) => plan_of(verb, views(rest@)) == Err::<PlanModel, Seq<char>>(e@),
        },
{
    let p = match read_plan(verb, rest) {
        Ok(p) => p,
        Err(a) => {
            let mut e = String::from_str("unknown ");
            e.append(name_of(verb));
            e.append(" arg ");
            let d = show_debug(a.as_str());
            e.append(d.as_str());
            e.append("\n");
            let u = show_usage(verb);
            e.append(u.as_str());
            return Err(e);
        },
    };
    let many = (some(&p.bin) && some(&p.test)) || (some(&p.bin) && p.lib) || (some(&p.test)
        && p.lib);
    if many {
        return Err(
            owned(
                "pick one target — --bin <name>, --test <name> (tests/<name>.rs), or --lib (the library's #[cfg(test)] unit tests)",
            ),
        );
    }
    let cargo = some(&p.cargo);
    let bin_path = some(&p.bin_path);
    if !cargo && unstopped(verb, &p) {
        return Err(show_no_stop(verb));
    }
    if !cargo && !bin_path {
        let mut e = owned(name_of(verb));
        e.append(
            " needs --cargo <dir> (build then debug) or --bin-path <path> (a prebuilt binary)\n",
        );
        let u = show_usage(verb);
        e.append(u.as_str());
        return Err(e);
    }
    Ok(p)
}

// ---------------------------------------------------------------------------
// Ends
// ---------------------------------------------------------------------------

/// How the client ends: what it prints, and its exit code.
pub ghost struct ExitModel {
    pub out: Seq<char>,
    pub err: Seq<char>,
    pub code: int,
}

/// How the client ends: what it prints on standard output and standard error,
/// and its exit code.
pub struct Exit {
    pub out: String,
    pub err: String,
    pub code: i32,
}

impl View for Exit {
    type V = ExitModel;

    open spec fn view(&self) -> ExitModel {
        ExitModel { out: self.out@, err: self.err@, code: self.code as int }
    }
}

/// An end with a line on standard output.
pub open spec fn prints(line: Seq<char>, code: int) -> ExitModel {
    ExitModel { out: line + "\n"@, err: ""@, code }
}

/// An end with a line on standard error.
pub open spec fn complains(line: Seq<char>, code: int) -> ExitModel {
    ExitModel { out: ""@, err: line + "\n"@, code }
}

pub fn print(line: String, code: i32) -> (r: Exit)
    ensures
        r@ == prints(line@, code as int),
        one_line(line@) ==> is_line(r.out@),
{
    let ghost text = line@;
    let mut out = line;
    out.append("\n");
    proof {
        reveal_strlit("\n");
    }
    assert(out@.drop_last() =~= text);
    Exit { out, err: owned(""), code }
}

pub fn complain(line: String, code: i32) -> (r: Exit)
    ensures
        r@ == complains(line@, code as int),
{
    let mut err = line;
    err.append("\n");
    Exit { out: owned(""), err, code }
}

/// A failure in the active mode: one JSON line on standard output, or text on
/// standard error. With `debug` the code of the JSON line follows its status;
/// `launch` and `trace` end in 2.
pub open spec fn failing(verb: Verb, json: bool, status: Seq<char>, msg: Seq<char>) -> ExitModel {
    if json {
        let v = error_doc(status, msg);
        prints(
            json_text(v),
            if verb == Verb::Debug {
                exit_code(v)
            } else {
                2
            },
        )
    } else {
        complains("error: "@ + msg, 2)
    }
}

fn fail(verb: Verb, json: bool, status: &str, msg: &str) -> (r: Exit)
    ensures
        r@ == failing(verb, json, status@, msg@),
        json ==> is_line(r.out@),
{
    if json {
        let v = err_value(status, msg);
        let code: i32 = if verb == Verb::Debug {
            code_of(&v)
        } else {
            2
        };
        print(v.render(), code)
    } else {
        let mut t = String::from_str("error: ");
        t.append(msg);
        complain(t, 2)
    }
}

// ---------------------------------------------------------------------------
// The program and its breakpoints
// ---------------------------------------------------------------------------

/// What is said of a `--bin-path` that does not exist.
pub open spec fn missing_binary(path: Seq<char>) -> Seq<char> {
    "--bin-path "@ + debug_text(path)
        + " does not exist — build it first, or use --cargo <dir> to build and debug in one step"@
}

/// The program and its arguments; or the outcome and the error.
pub open spec fn program_need(p: PlanModel, answers: Seq<AnswerModel>, at: int) -> Need<
    Result<(Seq<char>, Seq<Seq<char>>), (Seq<char>, Seq<char>)>,
> {
    match p.cargo {
        Some(dir) => match target_need(dir, p.bin, p.test, p.lib, p.args, answers, at) {
            Need::Want(w) => Need::Want(w),
            Need::Done(Ok((exe, args)), n) => Need::Done(Ok((exe, args)), n),
            Need::Done(Err(e), n) => Need::Done(Err((build_status(e), e)), n),
        },
        None => {
            let path = match p.bin_path {
                Some(b) => b,
                None => ""@,
            };
            match obtain(WantModel::Resolve { path }, answers, at) {
                Need::Want(w) => Need::Want(w),
                Need::Done(a, n) => match text_in(a) {
                    Some(exe) => Need::Done(Ok((exe, p.args)), n),
                    None => Need::Done(Err(("user_error"@, missing_binary(path))), n),
                },
            }
        },
    }
}

/// A line breakpoint of a launch.
pub open spec fn place_doc(file: Seq<char>, line: int) -> Doc {
    no_keys().with("file"@, Doc::Str(file)).with("line"@, Doc::Int(line))
}

/// The line breakpoints of the specs from `i` on, behind those that are done;
/// or the error of the first spec that is none.
pub open spec fn breaks_need(
    specs: Seq<Seq<char>>,
    i: int,
    done: Seq<Doc>,
    cwd: Seq<char>,
    answers: Seq<AnswerModel>,
    at: int,
) -> Need<Result<Seq<Doc>, Seq<char>>>
    decreases specs.len() - i,
{
    if i < 0 || i >= specs.len() {
        Need::Done(Ok(done), at)
    } else {
        match location_need(specs[i], cwd, answers, at) {
            Need::Want(w) => Need::Want(w),
            Need::Done(Err(e), n) => Need::Done(Err(e), n),
            Need::Done(Ok((f, l)), n) => breaks_need(
                specs,
                i + 1,
                done.push(place_doc(f, l)),
                cwd,
                answers,
                n,
            ),
        }
    }
}

/// The request that launches a program.
pub open spec fn launch_doc(
    program: Seq<char>,
    parent: Option<Seq<char>>,
    args: Seq<Doc>,
    bps: Seq<Doc>,
    fn_breaks: Seq<Doc>,
    panic: bool,
) -> Doc {
    command("launch"@).with("program"@, Doc::Str(program)).with("cwd"@, opt_text_doc(parent)).with(
        "args"@,
        Doc::Arr(args),
    ).with("breakpoints"@, Doc::Arr(bps)).with("fn_breaks"@, Doc::Arr(fn_breaks)).with(
        "panic"@,
        Doc::Bool(panic),
    )
}

/// The request that runs a program to its panic.
pub open spec fn triage_doc(
    program: Seq<char>,
    parent: Option<Seq<char>>,
    args: Seq<Doc>,
) -> Doc {
    command("panic_triage"@).with("program"@, Doc::Str(program)).with(
        "cwd"@,
        opt_text_doc(parent),
    ).with("args"@, Doc::Arr(args))
}

/// The request that runs through every hit.
pub open spec fn trace_doc(captures: Seq<Seq<char>>, max: int) -> Doc {
    command("trace"@).with("captures"@, Doc::Arr(str_docs(captures))).with("max"@, Doc::Int(max))
}

/// The request that launches a program, given the directory that holds it.
pub fn launch_payload(
    program: &str,
    parent: &Option<String>,
    args: Vec<Json>,
    bps: Vec<Json>,
    fn_breaks: Vec<Json>,
    panic: bool,
) -> (r: Json)
    ensures
        r@ == launch_doc(
            program@,
            opt_text(*parent),
            docs(args@),
            docs(bps@),
            docs(fn_breaks@),
            panic,
        ),
{
    cmd_of("launch").with("program", Json::text(program)).with("cwd", opt_string(parent)).with(
        "args",
        Json::list(args),
    ).with("breakpoints", Json::list(bps)).with("fn_breaks", Json::list(fn_breaks)).with(
        "panic",
        Json::boolean(panic),
    )
}

/// The request that runs a program to its panic, given the directory that
/// holds it.
pub fn triage_payload(program: &str, parent: &Option<String>, args: Vec<Json>) -> (r: Json)
    ensures
        r@ == triage_doc(program@, opt_text(*parent), docs(args@)),
{
    cmd_of("panic_triage").with("program", Json::text(program)).with(
        "cwd",
        opt_string(parent),
    ).with("args", Json::list(args))
}

pub fn trace_payload(captures: &Vec<String>, max: i64) -> (r: Json)
    ensures
        r@ == trace_doc(views(captures@), max as int),
{
    cmd_of("trace").with("captures", Json::strings(captures)).with("max", Json::number(max))
}

fn find_program(p: &Plan, answers: &Vec<Answer>, at: usize) -> (r: Pending<
    Result<(String, Vec<String>), (String, String)>,
>)
    requires
        at <= answers.len(),
    ensures
        match r {
            Pending::Want(q) => program_need(p@, answers_in(answers@), at as int) == Need::<
                Result<(Seq<char>, Seq<Seq<char>>), (Seq<char>, Seq<char>)>,
            >::Want(q@),
            Pending::Done(Ok((exe, args)), n) => program_need(
                p@,
                answers_in(answers@),
                at as int,
            ) == Need::<
                Result<(Seq<char>, Seq<Seq<char>>), (Seq<char>, Seq<char>)>,
            >::Done(Ok((exe@, views(args@))), n as int) && at <= n <= answers.len(),
            Pending::Done(Err((status, e)), n) => program_need(
                p@,
                answers_in(answers@),
                at as int,
            ) == Need::<
                Result<(Seq<char>, Seq<Seq<char>>), (Seq<char>, Seq<char>)>,
            >::Done(Err((status@, e@)), n as int) && at <= n <= answers.len(),
        },
{
    match &p.cargo {
        Some(dir) => {
            let bin = str_of(&p.bin);
            let test = str_of(&p.test);
            match build_target(dir.as_str(), bin, test, p.lib, &p.args, answers, at) {
                Pending::Want(q) => Pending::Want(q),
                Pending::Done(Ok((exe, args)), n) => Pending::Done(Ok((exe, args)), n),
                // a missing/unknown cargo target vs. a compile failure
                Pending::Done(Err(e), n) => {
                    let status = owned(classify_build_error(e.as_str()));
                    Pending::Done(Err((status, e)), n)
                },
            }
        },
        None => {
            let path = match &p.bin_path {
                Some(b) => b.as_str(),
                None => "",
            };
            match want(Want::Resolve { path: owned(path) }, answers, at) {
                Pending::Want(q) => Pending::Want(q),
                Pending::Done(a, n) => match a.text() {
                    Some(exe) => {
                        let args = copy_from(&p.args, 0);
                        assert(views(args@) =~= p@.args);
                        Pending::Done(Ok((owned(exe), args)), n)
                    },
                    None => {
                        let mut e = String::from_str("--bin-path ");
                        let d = show_debug(path);
                        e.append(d.as_str());
                        e.append(
                            " does not exist — build it first, or use --cargo <dir> to build and debug in one step",
                        );
                        Pending::Done(Err((owned("user_error"), e)), n)
                    },
                },
            }
        },
    }
}

fn str_of(s: &Option<String>) -> (r: Option<&str>)
    ensures
        opt_str(r) == opt_text(*s),
{
    match s {
        Some(t) => Some(t.as_str()),
        None => None,
    }
}

/// The line breakpoints that `file.rs:line` specs name.
pub fn place_breaks(specs: &Vec<String>, cwd: &str, answers: &Vec<Answer>, at: usize) -> (r:
    Pending<Result<Vec<Json>, String>>)
    requires
        at <= answers.len(),
    ensures
        match r {
            Pending::Want(q) => breaks_need(
                views(specs@),
                0,
                Seq::empty(),
                cwd@,
                answers_in(answers@),
                at as int,
            ) == Need::<Result<Seq<Doc>, Seq<char>>>::Want(q@),
            Pending::Done(Ok(bps), n) => breaks_need(
                views(specs@),
                0,
                Seq::empty(),
                cwd@,
                answers_in(answers@),
                at as int,
            ) == Need::<Result<Seq<Doc>, Seq<char>>>::Done(Ok(docs(bps@)), n as int) && at <= n
                <= answers.len(),
            Pending::Done(Err(e), n) => breaks_need(
                views(specs@),
                0,
                Seq::empty(),
                cwd@,
                answers_in(answers@),
                at as int,
            ) == Need::<Result<Seq<Doc>, Seq<char>>>::Done(Err(e@), n as int) && at <= n
                <= answers.len(),
        },
{
    let ghost all = views(specs@);
    let ghost model = answers_in(answers@);
    let ghost whole = breaks_need(all, 0, Seq::empty(), cwd@, model, at as int);
    let mut bps: Vec<Json> = Vec::new();
    let mut n: usize = at;
    let mut i: usize = 0;
    assert(docs(bps@) =~= Seq::empty());
    while i < specs.len()
        invariant
            i <= specs.len(),
            at <= n <= answers.len(),
            all == views(specs@),
            model == answers_in(answers@),
            whole == breaks_need(all, 0, Seq::empty(), cwd@, model, at as int),
            whole == breaks_need(all, i as int, docs(bps@), cwd@, model, n as int),
        decreases specs.len() - i,
    {
        assert(all[i as int] == specs@[i as int]@);
        match parse_bp_soft(specs[i].as_str(), cwd, answers, n) {
            Pending::Want(q) => return Pending::Want(q),
            Pending::Done(Err(e), k) => return Pending::Done(Err(e), k),
            Pending::Done(Ok((f, l)), k) => {
                let ghost before = docs(bps@);
                let b = Json::obj().with("file", Json::text(f.as_str())).with(
                    "line",
                    Json::number(l),
                );
                let ghost doc = b@;
                bps.push(b);
                assert(docs(bps@) =~= before.push(doc));
                n = k;
            },
        }
        i += 1;
    }
    Pending::Done(Ok(bps), n)
}

// ---------------------------------------------------------------------------
// Results
// ---------------------------------------------------------------------------

/// A panic as text: its message, the user's frame, the locals there and the
/// backtrace.
pub open spec fn triage_text(v: Doc) -> Seq<char> {
    if v.at("panicked"@).bool_or(false) {
        v.at("message"@).text_or("(no panic message captured)"@) + "\n>>> PANIC "@ + v.at(
            "frame"@,
        ).text_or("?"@) + "\n"@ + v.at("source"@).text_or(""@) + "\nlocals:\n"@ + v.at(
            "vars"@,
        ).text_or(""@) + "\nbacktrace:\n"@ + v.at("bt"@).text_or(""@)
    } else {
        let code = match v.at("exit_code"@).int64() {
            Some(n) => int_text(n),
            None => "?"@,
        };
        "no panic — program exited (code "@ + code + ")"@ + output_note(v)
    }
}

/// A panic as text.
pub fn show_triage(v: &Json) -> (t: String)
    ensures
        t@ == triage_text(v@),
{
    if v.at("panicked").bool_or(false) {
        let mut t = v.at("message").str_or("(no panic message captured)");
        t.append("\n>>> PANIC ");
        let frame = v.at("frame").str_or("?");
        t.append(frame.as_str());
        t.append("\n");
        let source = v.at("source").str_or("");
        t.append(source.as_str());
        t.append("\nlocals:\n");
        let vars = v.at("vars").str_or("");
        t.append(vars.as_str());
        t.append("\nbacktrace:\n");
        let bt = v.at("bt").str_or("");
        t.append(bt.as_str());
        t
    } else {
        let mut t = String::from_str("no panic — program exited (code ");
        let code = match v.at("exit_code").as_i64() {
            Some(n) => show_int(n),
            None => owned("?"),
        };
        t.append(code.as_str());
        t.append(")");
        let mut shown = String::from_str("");
        if let Some(o) = v.at("output").as_str() {
            if !o.is_empty() {
                shown = String::from_str("\n--- program output ---\n");
                let rest = trim_back(o);
                shown.append(rest.as_str());
            }
        }
        t.append(shown.as_str());
        t
    }
}

/// A trace as text.
pub open spec fn trace_text(v: Doc) -> Seq<char> {
    "trace: "@ + int_text(v.at("hits"@).int_or(0)) + " hit(s)\n"@ + v.at("trace"@).text_or(""@)
        + match v.at("output"@).text() {
        Some(o) => if o.len() > 0 {
            "\n--- output ---\n"@ + trimmed_end(o)
        } else {
            ""@
        },
        None => ""@,
    }
}

fn show_trace(v: &Json) -> (t: String)
    ensures
        t@ == trace_text(v@),
{
    let mut t = String::from_str("trace: ");
    let n: i64 = v.at("hits").int_or(0);
    let hits = show_int(n);
    t.append(hits.as_str());
    t.append(" hit(s)\n");
    let table = v.at("trace").str_or("");
    t.append(table.as_str());
    let mut shown = String::from_str("");
    if let Some(o) = v.at("output").as_str() {
        if !o.is_empty() {
            shown = String::from_str("\n--- output ---\n");
            let rest = trim_back(o);
            shown.append(rest.as_str());
        }
    }
    t.append(shown.as_str());
    t
}

/// How a definite response ends the client: as its JSON line, or as text,
/// or with what failed.
pub open spec fn response_exit(json: bool, v: Doc, text: Seq<char>, what: Seq<char>) -> ExitModel {
    let code = if is_ok(v) {
        0
    } else {
        1
    };
    if json {
        prints(json_text(v), code)
    } else if is_ok(v) {
        prints(text, 0)
    } else {
        complains(what + v.at("error"@).text_or("unknown"@), 1)
    }
}

fn end_with(json: bool, v: &Json, text: String, what: &str) -> (r: Exit)
    ensures
        r@ == response_exit(json, v@, text@, what@),
        json ==> is_line(r.out@),
{
    if json {
        let code: i32 = if ok(v) {
            0
        } else {
            1
        };
        print(v.render(), code)
    } else if ok(v) {
        print(text, 0)
    } else {
        let mut t = owned(what);
        let e = v.at("error").str_or("unknown");
        t.append(e.as_str());
        complain(t, 1)
    }
}

/// The end of a launch, given its response.
pub open spec fn launch_exit(json: bool, v: Doc) -> ExitModel {
    response_exit(json, v, stop_text(v.at("stop"@)), "launch failed: "@)
}

/// The end of a trace, given its response.
pub open spec fn trace_exit(json: bool, v: Doc) -> ExitModel {
    response_exit(json, v, trace_text(v), "trace failed: "@)
}

/// The end of a panic triage, given its response: the code of its JSON line
/// follows the status.
pub open spec fn triage_exit(json: bool, v: Doc) -> ExitModel {
    if json {
        prints(json_text(v), exit_code(v))
    } else {
        response_exit(false, v, triage_text(v), "debug failed: "@)
    }
}

/// What runs once the program and its breakpoints are known.
pub open spec fn started_need(
    verb: Verb,
    p: PlanModel,
    json: bool,
    program: Seq<char>,
    args: Seq<Seq<char>>,
    bps: Seq<Doc>,
    answers: Seq<AnswerModel>,
    at: int,
) -> Need<ExitModel> {
    let parent = parent_path(program);
    let payload = if verb == Verb::Debug {
        triage_doc(program, parent, str_docs(args))
    } else {
        launch_doc(program, parent, str_docs(args), bps, str_docs(p.fn_breaks), p.panic)
    };
    match sent(payload, PATIENCE as int, answers, at) {
        Need::Want(w) => Need::Want(w),
        Need::Done(r, n) => {
            let v = definite(r);
            if verb == Verb::Debug {
                Need::Done(triage_exit(json, v), n)
            } else if verb == Verb::Launch || !is_ok(v) {
                Need::Done(launch_exit(json, v), n)
            } else {
                match sent(trace_doc(p.captures, p.max), PATIENCE as int, answers, n) {
                    Need::Want(w) => Need::Want(w),
                    Need::Done(t, k) => Need::Done(trace_exit(json, definite(t)), k),
                }
            }
        },
    }
}

/// The note that names the program.
pub open spec fn debugging_note(program: Seq<char>) -> Seq<char> {
    "debugging "@ + match file_name_of(program) {
        Some(f) => f,
        None => ""@,
    }
}

/// What runs once the program is known.
pub open spec fn prepared_need(
    verb: Verb,
    p: PlanModel,
    json: bool,
    cwd: Seq<char>,
    program: Seq<char>,
    args: Seq<Seq<char>>,
    answers: Seq<AnswerModel>,
    at: int,
) -> Need<ExitModel> {
    match breaks_need(p.breaks, 0, Seq::empty(), cwd, answers, at) {
        Need::Want(w) => Need::Want(w),
        Need::Done(Err(e), n) => Need::Done(failing(verb, json, "user_error"@, e), n),
        Need::Done(Ok(bps), n) => match noted(debugging_note(program), answers, n) {
            Need::Want(w) => Need::Want(w),
            Need::Done(_, k) => started_need(verb, p, json, program, args, bps, answers, k),
        },
    }
}

/// `launch`, `trace` or `debug`. That cargo has no such target is reported
/// first, then that nothing would stop the program, then that it did not build.
pub open spec fn launch_need(
    verb: Verb,
    rest: Seq<Seq<char>>,
    json: bool,
    cwd: Seq<char>,
    answers: Seq<AnswerModel>,
    at: int,
) -> Need<ExitModel> {
    match plan_of(verb, rest) {
        Err(e) => Need::Done(failing(verb, json, "user_error"@, e), at),
        Ok(p) => match program_need(p, answers, at) {
            Need::Want(w) => Need::Want(w),
            Need::Done(r, n) => match r {
                Err((status, e)) => if nothing_stops(verb, p) && status != "target_error"@ {
                    Need::Done(failing(verb, json, "user_error"@, no_stop_error(verb)), n)
                } else {
                    Need::Done(failing(verb, json, status, e), n)
                },
                Ok((program, args)) => if nothing_stops(verb, p) {
                    Need::Done(failing(verb, json, "user_error"@, no_stop_error(verb)), n)
                } else {
                    prepared_need(verb, p, json, cwd, program, args, answers, n)
                },
            },
        },
    }
}

fn run_started(
    verb: Verb,
    p: &Plan,
    json: bool,
    program: &str,
    args: &Vec<String>,
    bps: Vec<Json>,
    answers: &Vec<Answer>,
    at: usize,
) -> (r: Pending<Exit>)
    requires
        at <= answers.len(),
    ensures
        match r {
            Pending::Want(q) => started_need(
                verb,
                p@,
                json,
                program@,
                views(args@),
                docs(bps@),
                answers_in(answers@),
                at as int,
            ) == Need::<ExitModel>::Want(q@),
            Pending::Done(x, n) => started_need(
                verb,
                p@,
                json,
                program@,
                views(args@),
                docs(bps@),
                answers_in(answers@),
                at as int,
            ) == Need::Done(x@, n as int) && at <= n <= answers.len() && (json ==> is_line(x.out@)),
        },
{
    let parent = parent_of(program);
    let payload = if verb == Verb::Debug {
        triage_payload(program, &parent, text_list(args))
    } else {
        launch_payload(program, &parent, text_list(args), bps, text_list(&p.fn_breaks), p.panic)
    };
    let (v, n): (Json, usize) = match send(payload, PATIENCE, answers, at) {
        Pending::Want(q) => return Pending::Want(q),
        Pending::Done(resp, n) => (jresp(resp), n),
    };
    if verb == Verb::Debug {
        if json {
            let code = code_of(&v);
            return Pending::Done(print(v.render(), code), n);
        }
        let text = show_triage(&v);
        return Pending::Done(end_with(false, &v, text, "debug failed: "), n);
    }
    if verb == Verb::Launch || !ok(&v) {
        let text = fmt_stop(v.at("stop"));
        return Pending::Done(end_with(json, &v, text, "launch failed: "), n);
    }
    // run through all hits and return the compact trace in one call
    match send(trace_payload(&p.captures, p.max), PATIENCE, answers, n) {
        Pending::Want(q) => Pending::Want(q),
        Pending::Done(resp, k) => {
            let tv = jresp(resp);
            let text = show_trace(&tv);
            Pending::Done(end_with(json, &tv, text, "trace failed: "), k)
        },
    }
}

/// Build (or take) a program, set its breakpoints, run it to its first stop —
/// through every hit with `trace`, to its panic with `debug` — and show what
/// came of it.
pub fn do_launch(
    verb: Verb,
    rest: &Vec<String>,
    json: bool,
    cwd: &str,
    answers: &Vec<Answer>,
    at: usize,
) -> (r: Pending<Exit>)
    requires
        at <= answers.len(),
    ensures
        match r {
            Pending::Want(q) => launch_need(
                verb,
                views(rest@),
                json,
                cwd@,
                answers_in(answers@),
                at as int,
            ) == Need::<ExitModel>::Want(q@),
            Pending::Done(x, n) => launch_need(
                verb,
                views(rest@),
                json,
                cwd@,
                answers_in(answers@),
                at as int,
            ) == Need::Done(x@, n as int) && at <= n <= answers.len() && (json ==> is_line(x.out@)),
        },
{
    let p = match checked_plan(verb, rest) {
        Ok(p) => p,
        Err(e) => return Pending::Done(fail(verb, json, "user_error", e.as_str()), at),
    };
    let (program, args, n): (String, Vec<String>, usize) = match find_program(&p, answers, at) {
        Pending::Want(q) => return Pending::Want(q),
        Pending::Done(Err((status, e)), n) => {
            if unstopped(verb, &p) && !same(status.as_str(), "target_error") {
                let why = show_no_stop(verb);
                return Pending::Done(fail(verb, json, "user_error", why.as_str()), n);
            }
            return Pending::Done(fail(verb, json, status.as_str(), e.as_str()), n);
        },
        Pending::Done(Ok((program, args)), n) => (program, args, n),
    };
    if unstopped(verb, &p) {
        let e = show_no_stop(verb);
        return Pending::Done(fail(verb, json, "user_error", e.as_str()), n);
    }
    let (bps, k): (Vec<Json>, usize) = match place_breaks(&p.breaks, cwd, answers, n) {
        Pending::Want(q) => return Pending::Want(q),
        Pending::Done(Err(e), k) => {
            return Pending::Done(fail(verb, json, "user_error", e.as_str()), k);
        },
        Pending::Done(Ok(bps), k) => (bps, k),
    };
    let mut text = String::from_str("debugging ");
    let name = match file_name(program.as_str()) {
        Some(f) => f,
        None => owned(""),
    };
    text.append(name.as_str());
    let j: usize = match note(text, answers, k) {
        Pending::Want(q) => return Pending::Want(q),
        Pending::Done(_, j) => j,
    };
    run_started(verb, &p, json, program.as_str(), &args, bps, answers, j)
}

// ---------------------------------------------------------------------------
// Laws
// ---------------------------------------------------------------------------

/// What tells the options apart.
proof fn lemma_options()
    ensures
        "--cargo"@.len() == 7,
        "--cargo"@[2] == 'c',
        "--panic"@.len() == 7,
        "--panic"@[2] == 'p',
        "--break"@.len() == 7,
        "--break"@[2] == 'b',
        "--bin-path"@.len() == 10,
        "--bin-path"@[3] == 'i',
        "--break-fn"@.len() == 10,
        "--break-fn"@[3] == 'r',
        "--bin"@.len() == 5,
        "--bin"@[2] == 'b',
        "--lib"@.len() == 5,
        "--lib"@[2] == 'l',
        "--max"@.len() == 5,
        "--max"@[2] == 'm',
        "--test"@.len() == 6,
        "--capture"@.len() == 9,
        "--"@.len() == 2,
{
    reveal_strlit("--cargo");
    reveal_strlit("--panic");
    reveal_strlit("--break");
    reveal_strlit("--bin-path");
    reveal_strlit("--break-fn");
    reveal_strlit("--bin");
    reveal_strlit("--lib");
    reveal_strlit("--max");
    reveal_strlit("--test");
    reveal_strlit("--capture");
    reveal_strlit("--");
}

/// Arguments say the same wherever they stand.
proof fn lemma_plan_shift(
    verb: Verb,
    pre: Seq<Seq<char>>,
    rest: Seq<Seq<char>>,
    i: int,
    j: int,
    p: PlanModel,
)
    requires
        0 <= i,
        j == pre.len() + i,
    ensures
        plan_from(verb, pre + rest, j, p) == plan_from(verb, rest, i, p),
    decreases rest.len() + 1 - i,
{
    let all = pre + rest;
    if i < rest.len() {
        let a = rest[i];
        let x = nth(rest, i + 1);
        assert(all[j] == a);
        assert(nth(all, j + 1) == x);
        assert(all.skip(j + 1) =~= rest.skip(i + 1));
        if a == "--cargo"@ {
            lemma_plan_shift(verb, pre, rest, i + 2, j + 2, PlanModel { cargo: x, ..p });
        } else if a == "--bin-path"@ {
            lemma_plan_shift(verb, pre, rest, i + 2, j + 2, PlanModel { bin_path: x, ..p });
        } else if a == "--bin"@ {
            lemma_plan_shift(verb, pre, rest, i + 2, j + 2, PlanModel { bin: x, ..p });
        } else if a == "--test"@ {
            lemma_plan_shift(verb, pre, rest, i + 2, j + 2, PlanModel { test: x, ..p });
        } else if a == "--lib"@ {
            lemma_plan_shift(verb, pre, rest, i + 1, j + 1, PlanModel { lib: true, ..p });
        } else if a == "--panic"@ {
            lemma_plan_shift(verb, pre, rest, i + 1, j + 1, PlanModel { panic: true, ..p });
        } else if a == "--"@ {
        } else if a == "--break"@ {
            lemma_plan_shift(
                verb,
                pre,
                rest,
                i + 2,
                j + 2,
                PlanModel { breaks: with_next(p.breaks, x), ..p },
            );
        } else if a == "--break-fn"@ {
            lemma_plan_shift(
                verb,
                pre,
                rest,
                i + 2,
                j + 2,
                PlanModel { fn_breaks: with_next(p.fn_breaks, x), ..p },
            );
        } else if a == "--capture"@ {
            lemma_plan_shift(
                verb,
                pre,
                rest,
                i + 2,
                j + 2,
                PlanModel { captures: p.captures + capture_list(x), ..p },
            );
        } else if a == "--max"@ {
            lemma_plan_shift(verb, pre, rest, i + 2, j + 2, PlanModel { max: max_of(x), ..p });
        }
    }
}

/// Each option of the program says what it names of the plan and leaves the
/// rest to the arguments behind it; all behind `--` is handed to the program.
pub proof fn options_name_the_program(verb: Verb, x: Seq<char>, rest: Seq<Seq<char>>, p: PlanModel)
    ensures
        plan_from(verb, seq!["--cargo"@, x] + rest, 0, p) == plan_from(
            verb,
            rest,
            0,
            PlanModel { cargo: Some(x), ..p },
        ),
        plan_from(verb, seq!["--bin-path"@, x] + rest, 0, p) == plan_from(
            verb,
            rest,
            0,
            PlanModel { bin_path: Some(x), ..p },
        ),
        plan_from(verb, seq!["--bin"@, x] + rest, 0, p) == plan_from(
            verb,
            rest,
            0,
            PlanModel { bin: Some(x), ..p },
        ),
        plan_from(verb, seq!["--test"@, x] + rest, 0, p) == plan_from(
            verb,
            rest,
            0,
            PlanModel { test: Some(x), ..p },
        ),
        plan_from(verb, seq!["--lib"@] + rest, 0, p) == plan_from(
            verb,
            rest,
            0,
            PlanModel { lib: true, ..p },
        ),
        plan_from(verb, seq!["--panic"@] + rest, 0, p) == plan_from(
            verb,
            rest,
            0,
            PlanModel { panic: true, ..p },
        ),
        plan_from(verb, seq!["--"@] + rest, 0, p) == Ok::<PlanModel, Seq<char>>(
            PlanModel { args: rest, ..p },
        ),
        plan_from(verb, Seq::empty(), 0, p) == Ok::<PlanModel, Seq<char>>(p),
{
    lemma_options();
    let a = seq!["--cargo"@, x];
    lemma_plan_shift(verb, a, rest, 0, 2, PlanModel { cargo: Some(x), ..p });
    assert(nth(a + rest, 1) == Some(x) && (a + rest)[0] == "--cargo"@);
    let b = seq!["--bin-path"@, x];
    lemma_plan_shift(verb, b, rest, 0, 2, PlanModel { bin_path: Some(x), ..p });
    assert(nth(b + rest, 1) == Some(x) && (b + rest)[0] == "--bin-path"@);
    let c = seq!["--bin"@, x];
    lemma_plan_shift(verb, c, rest, 0, 2, PlanModel { bin: Some(x), ..p });
    assert(nth(c + rest, 1) == Some(x) && (c + rest)[0] == "--bin"@);
    let d = seq!["--test"@, x];
    lemma_plan_shift(verb, d, rest, 0, 2, PlanModel { test: Some(x), ..p });
    assert(nth(d + rest, 1) == Some(x) && (d + rest)[0] == "--test"@);
    let e = seq!["--lib"@];
    lemma_plan_shift(verb, e, rest, 0, 1, PlanModel { lib: true, ..p });
    assert((e + rest)[0] == "--lib"@);
    let f = seq!["--panic"@];
    lemma_plan_shift(verb, f, rest, 0, 1, PlanModel { panic: true, ..p });
    assert((f + rest)[0] == "--panic"@);
    let g = seq!["--"@];
    assert((g + rest)[0] == "--"@);
    assert((g + rest).skip(1) =~= rest);
}

/// Every place to stop at is kept, in order, and every path to capture, which
/// stand with commas between them; `debug` takes none of these, and what is no
/// option is refused by its name.
pub proof fn options_name_the_stops(
    verb: Verb,
    x: Seq<char>,
    y: Seq<char>,
    n: int,
    rest: Seq<Seq<char>>,
    p: PlanModel,
)
    requires
        !x.contains(','),
        !y.contains(','),
        i64::MIN <= n <= i64::MAX,
    ensures
        verb != Verb::Debug ==> {
            &&& plan_from(verb, seq!["--break"@, x] + rest, 0, p) == plan_from(
                verb,
                rest,
                0,
                PlanModel { breaks: p.breaks.push(x), ..p },
            )
            &&& plan_from(verb, seq!["--break-fn"@, x] + rest, 0, p) == plan_from(
                verb,
                rest,
                0,
                PlanModel { fn_breaks: p.fn_breaks.push(x), ..p },
            )
            &&& plan_from(verb, seq!["--capture"@, x + seq![','] + y] + rest, 0, p) == plan_from(
                verb,
                rest,
                0,
                PlanModel { captures: p.captures.push(trimmed(x)).push(trimmed(y)), ..p },
            )
            &&& plan_from(verb, seq!["--max"@, int_text(n)] + rest, 0, p) == plan_from(
                verb,
                rest,
                0,
                PlanModel { max: n, ..p },
            )
        },
        verb == Verb::Debug ==> {
            &&& plan_from(verb, seq!["--break"@, x] + rest, 0, p) == Err::<PlanModel, Seq<char>>(
                "--break"@,
            )
            &&& plan_from(verb, seq!["--max"@, x] + rest, 0, p) == Err::<PlanModel, Seq<char>>(
                "--max"@,
            )
        },
        x.len() > 0 && x[0] != '-' ==> plan_from(verb, seq![x] + rest, 0, p) == Err::<
            PlanModel,
            Seq<char>,
        >(x),
{
    lemma_options();
    reveal_strlit("--cargo");
    reveal_strlit("--panic");
    reveal_strlit("--break");
    reveal_strlit("--bin-path");
    reveal_strlit("--break-fn");
    reveal_strlit("--bin");
    reveal_strlit("--lib");
    reveal_strlit("--max");
    reveal_strlit("--test");
    reveal_strlit("--capture");
    reveal_strlit("--");
    let a = seq!["--break"@, x];
    lemma_plan_shift(verb, a, rest, 0, 2, PlanModel { breaks: p.breaks.push(x), ..p });
    assert(nth(a + rest, 1) == Some(x) && (a + rest)[0] == "--break"@);
    let b = seq!["--break-fn"@, x];
    lemma_plan_shift(verb, b, rest, 0, 2, PlanModel { fn_breaks: p.fn_breaks.push(x), ..p });
    assert(nth(b + rest, 1) == Some(x) && (b + rest)[0] == "--break-fn"@);
    let l = x + seq![','] + y;
    let c = seq!["--capture"@, l];
    lemma_plan_shift(
        verb,
        c,
        rest,
        0,
        2,
        PlanModel { captures: p.captures.push(trimmed(x)).push(trimmed(y)), ..p },
    );
    assert(nth(c + rest, 1) == Some(l) && (c + rest)[0] == "--capture"@);
    let both = seq![x].push(y);
    lemma_join_push(seq![x], seq![','], y);
    joined_parts_split_again(both, ',');
    assert(capture_list(Some(l)) =~= seq![trimmed(x), trimmed(y)]);
    assert(p.captures + capture_list(Some(l)) =~= p.captures.push(trimmed(x)).push(trimmed(y)));
    let d = seq!["--max"@, int_text(n)];
    lemma_plan_shift(verb, d, rest, 0, 2, PlanModel { max: n, ..p });
    assert(nth(d + rest, 1) == Some(int_text(n)) && (d + rest)[0] == "--max"@);
    int_text_reads_back(n);
    let e = seq!["--max"@, x];
    assert((e + rest)[0] == "--max"@);
    assert((seq![x] + rest)[0] == x);
}

/// What is asked for must name one target and something to stop at, and a
/// program: without one of these the user is told so, with two, and nothing is
/// built or run.
pub proof fn a_plan_names_one_target_and_a_stop(
    verb: Verb,
    rest: Seq<Seq<char>>,
    json: bool,
    cwd: Seq<char>,
    answers: Seq<AnswerModel>,
    at: int,
    p: PlanModel,
)
    requires
        plan_from(verb, rest, 0, no_plan()) == Ok::<PlanModel, Seq<char>>(p),
    ensures
        ({
            let end = launch_need(verb, rest, json, cwd, answers, at);
            let refused = end matches Need::Done(x, n) && n == at && (!json ==> x.code == 2
                && x.out == ""@ && x.err.len() > 0);
            &&& p.bin is Some && p.test is Some ==> refused
            &&& p.bin is Some && p.lib ==> refused
            &&& p.test is Some && p.lib ==> refused
            &&& p.cargo is None && p.bin_path is None ==> refused
            &&& p.cargo is None && verb == Verb::Debug && !p.panic ==> refused
            &&& p.cargo is None && p.breaks.len() == 0 && p.fn_breaks.len() == 0 && !p.panic
                ==> refused
        }),
{
    reveal_strlit("\n");
    assert("\n"@.len() == 1);
}

/// A program that is there is run where something stops it, with its own
/// arguments: the daemon is told of the program, of the directory that holds
/// it and of every place to stop at; `debug` asks for the panic alone.
pub proof fn the_daemon_is_told_what_to_run(
    verb: Verb,
    p: PlanModel,
    json: bool,
    program: Seq<char>,
    args: Seq<Seq<char>>,
    bps: Seq<Doc>,
)
    ensures
        started_need(verb, p, json, program, args, bps, Seq::empty(), 0) matches Need::Want(
            WantModel::Send { payload, secs },
        ) && payload.at("program"@) == Doc::Str(program) && payload.at("args"@) == Doc::Arr(
            str_docs(args),
        ) && (match parent_path(program) {
            Some(dir) => payload.at("cwd"@) == Doc::Str(dir),
            None => payload.at("cwd"@) is Null,
        }) && (verb == Verb::Debug ==> payload.at("cmd"@) == Doc::Str("panic_triage"@)) && (verb
            != Verb::Debug ==> payload.at("cmd"@) == Doc::Str("launch"@) && payload.at(
            "breakpoints"@,
        ) == Doc::Arr(bps) && payload.at("fn_breaks"@) == Doc::Arr(str_docs(p.fn_breaks))
            && payload.at("panic"@) == Doc::Bool(p.panic)),
        forall|i: int|
            0 <= i < args.len() ==> str_docs(args).len() == args.len() && #[trigger] str_docs(
                args,
            )[i] == Doc::Str(args[i]),
{
    reveal_strlit("cmd");
    reveal_strlit("program");
    reveal_strlit("cwd");
    reveal_strlit("args");
    reveal_strlit("breakpoints");
    reveal_strlit("fn_breaks");
    reveal_strlit("panic");
    assert("cmd"@.len() == 3 && "program"@.len() == 7 && "cwd"@.len() == 3 && "args"@.len() == 4
        && "breakpoints"@.len() == 11 && "fn_breaks"@.len() == 9 && "panic"@.len() == 5);
    assert("cmd"@[1] == 'm' && "cwd"@[1] == 'w');
}

/// What the daemon answers is shown: a launch by its stop, a trace, which is
/// asked for once the launch has succeeded, by its hits, and a panic by its
/// report; and where it failed, what failed.
pub proof fn what_came_of_a_launch_is_shown(
    p: PlanModel,
    program: Seq<char>,
    args: Seq<Seq<char>>,
    bps: Seq<Doc>,
    v: Doc,
    t: Doc,
    e: Seq<char>,
)
    requires
        v is Obj,
        v.has("status"@),
        t is Obj,
        t.has("status"@),
    ensures
        ({
            let one = seq![AnswerModel::Reply(Some(v))];
            let two = one.push(AnswerModel::Reply(Some(t)));
            let fine = v.at("ok"@) == Doc::Bool(true);
            let failed = v.at("ok"@) == Doc::Bool(false) && v.at("error"@) == Doc::Str(e);
            let launched = started_need(Verb::Launch, p, false, program, args, bps, one, 0);
            let traced = started_need(Verb::Trace, p, false, program, args, bps, one, 0);
            let hits = started_need(Verb::Trace, p, false, program, args, bps, two, 0);
            let debugged = started_need(Verb::Debug, p, false, program, args, bps, one, 0);
            &&& fine ==> (launched matches Need::Done(x, n) && x.out == stop_text(v.at("stop"@))
                + "\n"@ && x.code == 0)
            &&& failed ==> (launched matches Need::Done(x, n) && x.err == "launch failed: "@ + e
                + "\n"@ && x.out == ""@ && x.code == 1)
            &&& failed ==> (traced matches Need::Done(x, n) && x.err == "launch failed: "@ + e
                + "\n"@ && x.code == 1)
            &&& fine ==> (traced matches Need::Want(WantModel::Send { payload, secs })
                && payload.at("cmd"@) == Doc::Str("trace"@) && payload.at("captures"@) == Doc::Arr(
                str_docs(p.captures),
            ) && payload.at("max"@) == Doc::Int(p.max))
            &&& fine && t.at("ok"@) == Doc::Bool(true) ==> (hits matches Need::Done(x, n) && x.out
                == trace_text(t) + "\n"@ && x.code == 0)
            &&& fine && t.at("ok"@) == Doc::Bool(false) && t.at("error"@) == Doc::Str(e) ==> (
            hits matches Need::Done(x, n) && x.err == "trace failed: "@ + e + "\n"@ && x.code == 1)
            &&& fine ==> (debugged matches Need::Done(x, n) && x.out == triage_text(v) + "\n"@
                && x.code == 0)
            &&& failed ==> (debugged matches Need::Done(x, n) && x.err == "debug failed: "@ + e
                + "\n"@ && x.code == 1)
        }),
{
    reveal_strlit("cmd");
    reveal_strlit("captures");
    reveal_strlit("max");
    assert("cmd"@.len() == 3 && "captures"@.len() == 8 && "max"@.len() == 3);
    assert("cmd"@[0] == 'c' && "max"@[0] == 'm');
    let one = seq![AnswerModel::Reply(Some(v))];
    let two = one.push(AnswerModel::Reply(Some(t)));
    assert(one[0] == AnswerModel::Reply(Some(v)) && two[0] == one[0] && two[1]
        == AnswerModel::Reply(Some(t)));
    assert(definite(Some(v)) == v);
    assert(definite(Some(t)) == t);
}

/// As JSON the response itself is the line that is printed, and the code tells
/// a success from a failure.
pub proof fn what_came_of_a_launch_is_printed_as_json(v: Doc)
    ensures
        launch_exit(true, v).out == json_text(v) + "\n"@,
        trace_exit(true, v).out == json_text(v) + "\n"@,
        triage_exit(true, v).out == json_text(v) + "\n"@,
        v.at("ok"@) == Doc::Bool(true) ==> launch_exit(true, v).code == 0 && trace_exit(
            true,
            v,
        ).code == 0,
        v.at("ok"@) == Doc::Bool(false) ==> launch_exit(true, v).code == 1 && trace_exit(
            true,
            v,
        ).code == 1,
{
}

/// A panic is shown by its message, the frame of the user's, the source and
/// the locals there and the calls that led to it; a program that did not panic
/// by its exit code.
pub proof fn a_panic_is_shown_whole(
    v: Doc,
    message: Seq<char>,
    frame: Seq<char>,
    source: Seq<char>,
    vars: Seq<char>,
    bt: Seq<char>,
    n: int,
)
    ensures
        v.at("panicked"@) == Doc::Bool(true) && v.at("message"@) == Doc::Str(message) && v.at(
            "frame"@,
        ) == Doc::Str(frame) && v.at("source"@) == Doc::Str(source) && v.at("vars"@) == Doc::Str(
            vars,
        ) && v.at("bt"@) == Doc::Str(bt) ==> triage_text(v) == message + "\n>>> PANIC "@ + frame
            + "\n"@ + source + "\nlocals:\n"@ + vars + "\nbacktrace:\n"@ + bt,
        v.at("panicked"@) == Doc::Bool(false) && v.at("exit_code"@) == Doc::Int(n) && i64::MIN <= n
            <= i64::MAX ==> triage_text(v) == "no panic — program exited (code "@ + int_text(n)
            + ")"@ + output_note(v),
{
}

/// A trace is shown by the number of its hits, a row for each, and what the
/// program wrote.
pub proof fn a_trace_is_shown_whole(v: Doc, n: int, rows: Seq<char>, out: Seq<char>)
    requires
        i64::MIN <= n <= i64::MAX,
        v.at("hits"@) == Doc::Int(n),
        v.at("trace"@) == Doc::Str(rows),
    ensures
        v.at("output"@) == Doc::Str(out) && out.len() > 0 ==> trace_text(v) == "trace: "@
            + int_text(n) + " hit(s)\n"@ + rows + ("\n--- output ---\n"@ + trimmed_end(out)),
        v.at("output"@) is Null ==> trace_text(v) == "trace: "@ + int_text(n) + " hit(s)\n"@ + rows,
{
    reveal_strlit("");
    assert(""@ =~= Seq::<char>::empty());
    assert("trace: "@ + int_text(n) + " hit(s)\n"@ + rows + ""@ =~= "trace: "@ + int_text(n)
        + " hit(s)\n"@ + rows);
}

/// A binary that is named by its path is run from its canonical form; where it
/// does not exist, nothing runs, and the user is told.
pub proof fn a_named_binary_must_exist(
    p: PlanModel,
    path: Seq<char>,
    exe: Seq<char>,
    rest: Seq<AnswerModel>,
)
    requires
        p.cargo is None,
        p.bin_path == Some(path),
    ensures
        program_need(p, Seq::empty(), 0) == Need::<
            Result<(Seq<char>, Seq<Seq<char>>), (Seq<char>, Seq<char>)>,
        >::Want(WantModel::Resolve { path }),
        program_need(p, seq![AnswerModel::Text(Some(exe))] + rest, 0) == Need::Done(
            Ok::<(Seq<char>, Seq<Seq<char>>), (Seq<char>, Seq<char>)>((exe, p.args)),
            1,
        ),
        program_need(p, seq![AnswerModel::Text(None)] + rest, 0) matches Need::Done(Err((s, e)), n)
            && s == "user_error"@ && n == 1,
{
    assert((seq![AnswerModel::Text(Some(exe))] + rest)[0] == AnswerModel::Text(Some(exe)));
    assert((seq![AnswerModel::Text(None)] + rest)[0] == AnswerModel::Text(None));
}

/// Every spec of a line is looked up in its turn: each becomes a breakpoint at
/// its own file and line, in order, and one that is none is the error.
pub proof fn every_spec_becomes_a_breakpoint(
    specs: Seq<Seq<char>>,
    done: Seq<Doc>,
    i: int,
    cwd: Seq<char>,
    answers: Seq<AnswerModel>,
    at: int,
    file: Seq<char>,
    n: int,
    k: int,
)
    requires
        0 <= i < specs.len(),
    ensures
        location_need(specs[i], cwd, answers, at) == Need::Done(
            Ok::<(Seq<char>, int), Seq<char>>((file, n)),
            k,
        ) ==> breaks_need(specs, i, done, cwd, answers, at) == breaks_need(
            specs,
            i + 1,
            done.push(place_doc(file, n)),
            cwd,
            answers,
            k,
        ),
        location_need(specs[i], cwd, answers, at) matches Need::Done(Err(e), j) ==> breaks_need(
            specs,
            i,
            done,
            cwd,
            answers,
            at,
        ) == Need::Done(Err::<Seq<Doc>, Seq<char>>(e), j),
        breaks_need(specs, specs.len() as int, done, cwd, answers, at) == Need::Done(
            Ok::<Seq<Doc>, Seq<char>>(done),
            at,
        ),
        place_doc(file, n).at("file"@) == Doc::Str(file),
        place_doc(file, n).at("line"@) == Doc::Int(n),
{
    reveal_strlit("file");
    reveal_strlit("line");
    assert("file"@[0] == 'f' && "line"@[0] == 'l');
}

/// A launch that fails before it runs says so as its mode asks: as JSON in one
/// line with its status and its error, or as text on standard error; and the
/// code is two, but for the JSON of `debug`, whose code follows the status.
pub proof fn a_failed_launch_is_told(verb: Verb, status: Seq<char>, msg: Seq<char>)
    ensures
        failing(verb, true, status, msg).out == json_text(error_doc(status, msg)) + "\n"@,
        failing(verb, true, status, msg).err == ""@,
        failing(verb, false, status, msg).err == "error: "@ + msg + "\n"@,
        failing(verb, false, status, msg).out == ""@,
        failing(verb, false, status, msg).code == 2,
        verb != Verb::Debug ==> failing(verb, true, status, msg).code == 2,
        verb == Verb::Debug ==> failing(verb, true, status, msg).code == exit_code(
            error_doc(status, msg),
        ),
{
}

/// That there is no such target is told first, then that nothing would stop the
/// program, then that it did not build; and what builds and has something to
/// stop it goes on to its breakpoints.
pub proof fn errors_of_a_launch_are_told_in_order(
    verb: Verb,
    rest: Seq<Seq<char>>,
    json: bool,
    cwd: Seq<char>,
    answers: Seq<AnswerModel>,
    at: int,
    p: PlanModel,
    status: Seq<char>,
    e: Seq<char>,
    exe: Seq<char>,
    args: Seq<Seq<char>>,
    n: int,
)
    requires
        plan_of(verb, rest) == Ok::<PlanModel, Seq<char>>(p),
    ensures
        ({
            let end = launch_need(verb, rest, json, cwd, answers, at);
            let failed = program_need(p, answers, at) == Need::Done(
                Err::<(Seq<char>, Seq<Seq<char>>), (Seq<char>, Seq<char>)>((status, e)),
                n,
            );
            let built = program_need(p, answers, at) == Need::Done(
                Ok::<(Seq<char>, Seq<Seq<char>>), (Seq<char>, Seq<char>)>((exe, args)),
                n,
            );
            let stops = p.panic || (verb != Verb::Debug && (p.breaks.len() > 0 || p.fn_breaks.len()
                > 0));
            &&& failed && status == "target_error"@ ==> end == Need::Done(
                failing(verb, json, "target_error"@, e),
                n,
            )
            &&& failed && stops ==> end == Need::Done(failing(verb, json, status, e), n)
            &&& failed && !stops && status != "target_error"@ ==> (end matches Need::Done(x, k)
                && x == failing(verb, json, "user_error"@, no_stop_error(verb)))
            &&& built && !stops ==> (end matches Need::Done(x, k) && x == failing(
                verb,
                json,
                "user_error"@,
                no_stop_error(verb),
            ))
            &&& built && stops ==> end == prepared_need(verb, p, json, cwd, exe, args, answers, n)
        }),
{
}

} // verus!
