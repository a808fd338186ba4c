//! Building a target with cargo, and finding the executable to debug.

use vstd::prelude::*;
use crate::json::{docs, parsed, Doc, Json};
use crate::session::opt_text;
use crate::text::{
    contains, copy_all, ends, has, has_text, lemma_end_of, lemma_strip_end, lines, lines_of,
    occurs_at, opt_str, owned, same, text_result, trim_back, trimmed_end, views, whites,
};
use crate::util::build_status;
use crate::wants::{
    answers_in, built_in, note, noted, obtain, text_in, want, Answer, AnswerModel, Built,
    BuiltModel, Need, Pending, Want, WantModel,
};

verus! {

// ---------------------------------------------------------------------------
// The command line
// ---------------------------------------------------------------------------

/// The arguments that build a target: a `--bin` target, a `tests/<name>.rs`
/// integration test, or the library's own unit tests.
pub open spec fn build_args(
    bin: Option<Seq<char>>,
    test: Option<Seq<char>>,
    lib: bool,
) -> Seq<Seq<char>> {
    let verb = if lib || test is Some {
        seq!["test"@, "--no-run"@]
    } else {
        seq!["build"@]
    };
    let target = if lib {
        seq!["--lib"@]
    } else {
        match test {
            Some(t) => seq!["--test"@, t],
            None => Seq::empty(),
        }
    };
    let binary = match bin {
        Some(b) => seq!["--bin"@, b],
        None => Seq::empty(),
    };
    verb.push("--message-format=json"@) + target + binary
}

fn cargo_args(bin: Option<&str>, test: Option<&str>, lib: bool) -> (r: Vec<String>)
    ensures
        views(r@) == build_args(opt_str(bin), opt_str(test), lib),
{
    let mut v: Vec<String> = Vec::new();
    let tested = match test {
        Some(_) => true,
        None => false,
    };
    if lib || tested {
        v.push(owned("test"));
        v.push(owned("--no-run"));
    } else {
        v.push(owned("build"));
    }
    v.push(owned("--message-format=json"));
    if lib {
        v.push(owned("--lib"));
    } else if let Some(t) = test {
        v.push(owned("--test"));
        v.push(owned(t));
    }
    if let Some(b) = bin {
        v.push(owned("--bin"));
        v.push(owned(b));
    }
    assert(views(v@) =~= build_args(opt_str(bin), opt_str(test), lib));
    v
}

// ---------------------------------------------------------------------------
// What cargo says
// ---------------------------------------------------------------------------

/// The diagnostic on a line of cargo's JSON output.
pub open spec fn rendered_on(line: Seq<char>) -> Seq<char> {
    match parsed(line) {
        Some(m) => if m.at("reason"@).text() == Some("compiler-message"@) {
            m.at("message"@).at("rendered"@).text_or(""@)
        } else {
            ""@
        },
        None => ""@,
    }
}

/// The diagnostics on the first lines of cargo's JSON output.
pub open spec fn diagnostics(ls: Seq<Seq<char>>) -> Seq<char>
    decreases ls.len(),
{
    if ls.len() == 0 {
        Seq::empty()
    } else {
        diagnostics(ls.drop_last()) + rendered_on(ls.last())
    }
}

/// An executable that cargo built.
pub ghost struct Artifact {
    pub exe: Seq<char>,
    pub name: Seq<char>,
    pub lib_test: bool,
}

/// A target of a build script.
pub open spec fn is_build_script(kinds: Seq<Doc>) -> bool {
    exists|i: int| 0 <= i < kinds.len() && #[trigger] kinds[i] == Doc::Str("custom-build"@)
}

/// A target of a library.
pub open spec fn is_library(kinds: Seq<Doc>) -> bool {
    exists|i: int|
        0 <= i < kinds.len() && (#[trigger] kinds[i]).text() is Some && "lib"@.is_suffix_of(
            kinds[i].text()->0,
        )
}

/// The executable on a line of cargo's JSON output; that of a build script is
/// none.
pub open spec fn artifact_on(line: Seq<char>) -> Option<Artifact> {
    match parsed(line) {
        Some(m) => {
            let kinds = m.at("target"@).at("kind"@).items();
            match m.at("executable"@).text() {
                Some(exe) => if m.at("reason"@).text() == Some("compiler-artifact"@)
                    && !is_build_script(kinds) {
                    Some(
                        Artifact {
                            exe,
                            name: m.at("target"@).at("name"@).text_or(""@),
                            lib_test: m.at("profile"@).at("test"@).bool_or(false) && is_library(
                                kinds,
                            ),
                        },
                    )
                } else {
                    None
                },
                None => None,
            }
        },
        None => None,
    }
}

/// The executable is the one that was asked for.
pub open spec fn is_wanted(
    a: Artifact,
    bin: Option<Seq<char>>,
    test: Option<Seq<char>>,
    lib: bool,
) -> bool {
    if lib {
        a.lib_test
    } else {
        bin == Some(a.name) || test == Some(a.name)
    }
}

/// The last executable that was asked for on the first lines.
pub open spec fn last_wanted(
    ls: Seq<Seq<char>>,
    bin: Option<Seq<char>>,
    test: Option<Seq<char>>,
    lib: bool,
) -> Option<Seq<char>>
    decreases ls.len(),
{
    if ls.len() == 0 {
        None
    } else {
        match artifact_on(ls.last()) {
            Some(a) => if is_wanted(a, bin, test, lib) {
                Some(a.exe)
            } else {
                last_wanted(ls.drop_last(), bin, test, lib)
            },
            None => last_wanted(ls.drop_last(), bin, test, lib),
        }
    }
}

/// The last executable on the first lines.
pub open spec fn last_built(ls: Seq<Seq<char>>) -> Option<Seq<char>>
    decreases ls.len(),
{
    if ls.len() == 0 {
        None
    } else {
        match artifact_on(ls.last()) {
            Some(a) => Some(a.exe),
            None => last_built(ls.drop_last()),
        }
    }
}

/// The executable picked: the one that was asked for, or else the last.
pub open spec fn picked(
    ls: Seq<Seq<char>>,
    bin: Option<Seq<char>>,
    test: Option<Seq<char>>,
    lib: bool,
) -> Option<Seq<char>> {
    match last_wanted(ls, bin, test, lib) {
        Some(exe) => Some(exe),
        None => last_built(ls),
    }
}

fn any_kind(kinds: &Vec<Json>, library: bool) -> (r: bool)
    ensures
        r == if library {
            is_library(docs(kinds@))
        } else {
            is_build_script(docs(kinds@))
        },
{
    let mut i: usize = 0;
    while i < kinds.len()
        invariant
            i <= kinds.len(),
            forall|k: int|
                0 <= k < i ==> if library {
                    !((#[trigger] docs(kinds@)[k]).text() is Some && "lib"@.is_suffix_of(
                        docs(kinds@)[k].text()->0,
                    ))
                } else {
                    docs(kinds@)[k] != Doc::Str("custom-build"@)
                },
        decreases kinds.len() - i,
    {
        assert(docs(kinds@)[i as int] == kinds@[i as int]@);
        if let Some(k) = kinds[i].as_str() {
            if library {
                if ends(k, "lib") {
                    return true;
                }
            } else if same(k, "custom-build") {
                return true;
            }
        }
        i += 1;
    }
    false
}

fn kinds_have(m: &Json, library: bool) -> (r: bool)
    ensures
        r == if library {
            is_library(m@.at("target"@).at("kind"@).items())
        } else {
            is_build_script(m@.at("target"@).at("kind"@).items())
        },
{
    match m.at("target").at("kind").as_array() {
        Some(a) => any_kind(a, library),
        None => false,
    }
}

fn same_opt(a: Option<&str>, name: &str) -> (r: bool)
    ensures
        r == (opt_str(a) == Some(name@)),
{
    match a {
        Some(s) => same(s, name),
        None => false,
    }
}

/// Pick the executable out of cargo's `--message-format=json` output: the named
/// `--bin`/`--test` target, the library's unit-test binary in lib mode, or the
/// last executable produced. Build scripts are never candidates.
pub fn pick_artifact(json_lines: &str, bin: Option<&str>, test: Option<&str>, lib: bool) -> (r:
    Option<String>)
    ensures
        opt_text(r) == picked(lines_of(json_lines@), opt_str(bin), opt_str(test), lib),
{
    let ls = lines(json_lines);
    let ghost all = views(ls@);
    let mut exe: Option<String> = None;
    let mut last: Option<String> = None;
    let mut i: usize = 0;
    assert(all.take(0) =~= Seq::empty());
    while i < ls.len()
        invariant
            i <= ls.len(),
            all == views(ls@),
            opt_text(exe) == last_wanted(all.take(i as int), opt_str(bin), opt_str(test), lib),
            opt_text(last) == last_built(all.take(i as int)),
        decreases ls.len() - i,
    {
        assert(all.take(i + 1).drop_last() =~= all.take(i as int));
        assert(all.take(i + 1).last() == ls@[i as int]@);
        if let Some(m) = Json::parse(ls[i].as_str()) {
            let artifact = match m.at("reason").as_str() {
                Some(s) => same(s, "compiler-artifact"),
                None => false,
            };
            if let Some(e) = m.at("executable").as_str() {
                if artifact && !kinds_have(&m, false) {
                    let name = m.at("target").at("name").str_or("");
                    let lib_test = m.at("profile").at("test").bool_or(false) && kinds_have(
                        &m,
                        true,
                    );
                    let wanted = if lib {
                        lib_test
                    } else {
                        same_opt(bin, name.as_str()) || same_opt(test, name.as_str())
                    };
                    if wanted {
                        exe = Some(owned(e));
                    }
                    last = Some(owned(e));
                }
            }
        }
        i += 1;
    }
    assert(all.take(all.len() as int) =~= all);
    match exe {
        Some(e) => Some(e),
        None => last,
    }
}

fn compile_errors(out: &str) -> (r: String)
    ensures
        r@ == diagnostics(lines_of(out@)),
{
    let ls = lines(out);
    let ghost all = views(ls@);
    let mut msg = String::new();
    let mut i: usize = 0;
    assert(all.take(0) =~= Seq::empty());
    while i < ls.len()
        invariant
            i <= ls.len(),
            all == views(ls@),
            msg@ == diagnostics(all.take(i as int)),
        decreases ls.len() - i,
    {
        assert(all.take(i + 1).drop_last() =~= all.take(i as int));
        assert(all.take(i + 1).last() == ls@[i as int]@);
        let mut text = String::from_str("");
        if let Some(m) = Json::parse(ls[i].as_str()) {
            let message = match m.at("reason").as_str() {
                Some(s) => same(s, "compiler-message"),
                None => false,
            };
            if message {
                text = m.at("message").at("rendered").str_or("");
            }
        }
        msg.append(text.as_str());
        i += 1;
    }
    assert(all.take(all.len() as int) =~= all);
    msg
}

/// What a build came to: an executable, or what is said of it.
pub open spec fn build_result(
    dir: Seq<char>,
    bin: Option<Seq<char>>,
    test: Option<Seq<char>>,
    lib: bool,
    built: BuiltModel,
) -> Result<Seq<char>, Seq<char>> {
    match built {
        BuiltModel::Failed(e) => Err("could not run cargo in "@ + dir + ": "@ + e),
        BuiltModel::Ran { ok, out, err } => if ok {
            match picked(lines_of(out), bin, test, lib) {
                Some(exe) => Ok(exe),
                None => Err(
                    "cargo built nothing debuggable in "@ + dir
                        + " — pick a target: --bin <name>, --test <name> (tests/<name>.rs), or --lib (the library's #[cfg(test)] unit tests)"@,
                ),
            }
        } else {
            Err(diagnostics(lines_of(out)) + trimmed_end(err))
        },
    }
}

/// What a build came to.
pub fn read_build(
    dir: &str,
    bin: Option<&str>,
    test: Option<&str>,
    lib: bool,
    built: &Built,
) -> (r: Result<String, String>)
    ensures
        text_result(r) == build_result(dir@, opt_str(bin), opt_str(test), lib, built@),
{
    match built {
        Built::Failed(e) => {
            let mut t = String::from_str("could not run cargo in ");
            t.append(dir);
            t.append(": ");
            t.append(e.as_str());
            Err(t)
        },
        Built::Ran { ok, out, err } => {
            if !*ok {
                // surface the rendered compiler diagnostics (JSON message format sends
                // them to stdout), then cargo's own stderr (target-selection errors etc.)
                let mut msg = compile_errors(out.as_str());
                let rest = trim_back(err.as_str());
                msg.append(rest.as_str());
                return Err(msg);
            }
            match pick_artifact(out.as_str(), bin, test, lib) {
                Some(exe) => Ok(exe),
                None => {
                    let mut t = String::from_str("cargo built nothing debuggable in ");
                    t.append(dir);
                    t.append(
                        " — pick a target: --bin <name>, --test <name> (tests/<name>.rs), or --lib (the library's #[cfg(test)] unit tests)",
                    );
                    Err(t)
                },
            }
        },
    }
}

// ---------------------------------------------------------------------------
// Building
// ---------------------------------------------------------------------------

/// One target built.
pub open spec fn build_need(
    dir: Seq<char>,
    bin: Option<Seq<char>>,
    test: Option<Seq<char>>,
    lib: bool,
    answers: Seq<AnswerModel>,
    at: int,
) -> Need<Result<Seq<char>, Seq<char>>> {
    match noted("building …"@, answers, at) {
        Need::Want(w) => Need::Want(w),
        Need::Done(_, n) => match obtain(
            WantModel::Cargo { dir, args: build_args(bin, test, lib) },
            answers,
            n,
        ) {
            Need::Want(w) => Need::Want(w),
            Need::Done(a, k) => Need::Done(build_result(dir, bin, test, lib, built_in(a)), k),
        },
    }
}

/// Build one cargo target and return its executable. `bin` → a `--bin` target,
/// `test` → a `tests/<name>.rs` integration test, `lib` → the library's own
/// unit-test binary (inline `#[cfg(test)] mod tests`). Returns an error string
/// instead of exiting — the MCP server calls this too.
pub fn cargo_build(
    dir: &str,
    bin: Option<&str>,
    test: Option<&str>,
    lib: bool,
    answers: &Vec<Answer>,
    at: usize,
) -> (r: Pending<Result<String, String>>)
    requires
        at <= answers.len(),
    ensures
        match r {
            Pending::Want(q) => build_need(
                dir@,
                opt_str(bin),
                opt_str(test),
                lib,
                answers_in(answers@),
                at as int,
            ) == Need::<Result<Seq<char>, Seq<char>>>::Want(q@),
            Pending::Done(x, n) => build_need(
                dir@,
                opt_str(bin),
                opt_str(test),
                lib,
                answers_in(answers@),
                at as int,
            ) == Need::Done(text_result(x), n as int) && at <= n <= answers.len(),
        },
{
    let n: usize = match note(owned("building …"), answers, at) {
        Pending::Want(q) => return Pending::Want(q),
        Pending::Done(_, n) => n,
    };
    let args = cargo_args(bin, test, lib);
    match want(Want::Cargo { dir: owned(dir), args }, answers, n) {
        Pending::Want(q) => Pending::Want(q),
        Pending::Done(a, k) => match a {
            Answer::Built(b) => Pending::Done(read_build(dir, bin, test, lib, b), k),
            _ => {
                let none = Built::Failed(String::new());
                Pending::Done(read_build(dir, bin, test, lib, &none), k)
            },
        },
    }
}

/// A test is listed.
pub open spec fn lists_a_test(out: Option<Seq<char>>) -> bool {
    match out {
        Some(t) => exists|i: int|
            0 <= i < lines_of(t).len() && ": test"@.is_suffix_of(
                trimmed_end(#[trigger] lines_of(t)[i]),
            ),
        None => false,
    }
}

/// Does this libtest binary have a test matching the filter? (`<bin> <filter>
/// --list` prints `path::to::test: test` lines without running anything.)
pub fn lists_test(out: Option<&str>) -> (r: bool)
    ensures
        r == lists_a_test(opt_str(out)),
{
    let text = match out {
        Some(t) => t,
        None => return false,
    };
    let ls = lines(text);
    let mut i: usize = 0;
    while i < ls.len()
        invariant
            i <= ls.len(),
            views(ls@) == lines_of(text@),
            out == Some(text),
            forall|k: int|
                0 <= k < i ==> !(": test"@.is_suffix_of(
                    trimmed_end(#[trigger] lines_of(text@)[k]),
                )),
        decreases ls.len() - i,
    {
        assert(lines_of(text@)[i as int] == ls@[i as int]@);
        let t = trim_back(ls[i].as_str());
        if ends(t.as_str(), ": test") {
            assert(i < lines_of(text@).len());
            assert(": test"@.is_suffix_of(trimmed_end(lines_of(text@)[i as int])));
            assert(lists_a_test(Some(text@)));
            return true;
        }
        i += 1;
    }
    false
}

/// What is said of a `--test` that names no test target.
pub open spec fn no_test_target(t: Seq<char>, has_library: bool) -> Seq<char> {
    let detail = if has_library {
        "and the library's unit tests have no #[test] matching '"@ + t + "'"@
    } else {
        "and the package has no library unit-test binary"@
    };
    "no integration test target '"@ + t + "' — tests/"@ + t + ".rs does not exist, "@ + detail
        + ".\n--test <name> targets integration tests (tests/<name>.rs). For a #[test] function\ninside the library, use --lib with the test name after --:\n  rdbg launch --cargo <dir> --lib --break <file>:<line> -- "@
        + t + "\n(MCP debug_launch/debug_trace: pass lib:true and the test name in args)"@
}

/// The note on a `--test` that is taken as a filter of the unit tests.
pub open spec fn filter_note(t: Seq<char>) -> Seq<char> {
    "note: '"@ + t + "' is not an integration test target (no tests/"@ + t
        + ".rs); treating it as a --lib unit-test filter"@
}

/// The arguments with the filter among them, in front where it is missing.
pub open spec fn with_filter(args: Seq<Seq<char>>, t: Seq<char>) -> Seq<Seq<char>> {
    if args.contains(t) {
        args
    } else {
        seq![t] + args
    }
}

/// The fallback of a `--test` that names no test target: the library's unit
/// tests, where one of them matches.
pub open spec fn fallback_need(
    dir: Seq<char>,
    t: Seq<char>,
    args: Seq<Seq<char>>,
    answers: Seq<AnswerModel>,
    at: int,
) -> Need<Result<(Seq<char>, Seq<Seq<char>>), Seq<char>>> {
    match build_need(dir, None, None, true, answers, at) {
        Need::Want(w) => Need::Want(w),
        Need::Done(Err(_), n) => Need::Done(Err(no_test_target(t, false)), n),
        Need::Done(Ok(exe), n) => match obtain(
            WantModel::ListTests { exe, filter: t },
            answers,
            n,
        ) {
            Need::Want(w) => Need::Want(w),
            Need::Done(a, k) => if lists_a_test(text_in(a)) {
                match noted(filter_note(t), answers, k) {
                    Need::Want(w) => Need::Want(w),
                    Need::Done(_, j) => Need::Done(Ok((exe, with_filter(args, t))), j),
                }
            } else {
                Need::Done(Err(no_test_target(t, true)), k)
            },
        },
    }
}

/// A target built, and the arguments to run it with.
pub open spec fn target_need(
    dir: Seq<char>,
    bin: Option<Seq<char>>,
    test: Option<Seq<char>>,
    lib: bool,
    args: Seq<Seq<char>>,
    answers: Seq<AnswerModel>,
    at: int,
) -> Need<Result<(Seq<char>, Seq<Seq<char>>), Seq<char>>> {
    let library = lib || test == Some("lib"@);
    let named = if library {
        None
    } else {
        test
    };
    match build_need(dir, bin, named, library, answers, at) {
        Need::Want(w) => Need::Want(w),
        Need::Done(Ok(exe), n) => Need::Done(Ok((exe, args)), n),
        Need::Done(Err(e), n) => match named {
            Some(t) => if contains(e, "no test target named"@) {
                fallback_need(dir, t, args, answers, n)
            } else {
                Need::Done(Err(e), n)
            },
            None => Need::Done(Err(e), n),
        },
    }
}

pub open spec fn target_result(r: Result<(String, Vec<String>), String>) -> Result<
    (Seq<char>, Seq<Seq<char>>),
    Seq<char>,
> {
    match r {
        Ok((exe, args)) => Ok((exe@, views(args@))),
        Err(e) => Err(e@),
    }
}

fn no_test(t: &str, has_library: bool) -> (r: String)
    ensures
        r@ == no_test_target(t@, has_library),
{
    let detail = if has_library {
        let mut d = String::from_str("and the library's unit tests have no #[test] matching '");
        d.append(t);
        d.append("'");
        d
    } else {
        owned("and the package has no library unit-test binary")
    };
    let mut r = String::from_str("no integration test target '");
    r.append(t);
    r.append("' — tests/");
    r.append(t);
    r.append(".rs does not exist, ");
    r.append(detail.as_str());
    r.append(
        ".\n--test <name> targets integration tests (tests/<name>.rs). For a #[test] function\ninside the library, use --lib with the test name after --:\n  rdbg launch --cargo <dir> --lib --break <file>:<line> -- ",
    );
    r.append(t);
    r.append("\n(MCP debug_launch/debug_trace: pass lib:true and the test name in args)");
    r
}

fn add_filter(args: &Vec<String>, t: &str) -> (r: Vec<String>)
    ensures
        views(r@) == with_filter(views(args@), t@),
{
    let mut v = copy_all(args);
    let found = has(args, t);
    if !found {
        v.insert(0, owned(t));
        assert(views(v@) =~= seq![t@] + views(args@));
    }
    v
}

fn fall_back(dir: &str, t: &str, args: &Vec<String>, answers: &Vec<Answer>, at: usize) -> (r:
    Pending<Result<(String, Vec<String>), String>>)
    requires
        at <= answers.len(),
    ensures
        match r {
            Pending::Want(q) => fallback_need(
                dir@,
                t@,
                views(args@),
                answers_in(answers@),
                at as int,
            ) == Need::<Result<(Seq<char>, Seq<Seq<char>>), Seq<char>>>::Want(q@),
            Pending::Done(x, n) => fallback_need(
                dir@,
                t@,
                views(args@),
                answers_in(answers@),
                at as int,
            ) == Need::Done(target_result(x), n as int) && at <= n <= answers.len(),
        },
{
    let (exe, n): (String, usize) = match cargo_build(dir, None, None, true, answers, at) {
        Pending::Want(q) => return Pending::Want(q),
        Pending::Done(Err(_), n) => return Pending::Done(Err(no_test(t, false)), n),
        Pending::Done(Ok(exe), n) => (exe, n),
    };
    let list = Want::ListTests { exe: owned(exe.as_str()), filter: owned(t) };
    let (listed, k): (bool, usize) = match want(list, answers, n) {
        Pending::Want(q) => return Pending::Want(q),
        Pending::Done(a, k) => (lists_test(a.text()), k),
    };
    if !listed {
        return Pending::Done(Err(no_test(t, true)), k);
    }
    let mut text = String::from_str("note: '");
    text.append(t);
    text.append("' is not an integration test target (no tests/");
    text.append(t);
    text.append(".rs); treating it as a --lib unit-test filter");
    match note(text, answers, k) {
        Pending::Want(q) => Pending::Want(q),
        Pending::Done(_, j) => Pending::Done(Ok((exe, add_filter(args, t))), j),
    }
}

/// Resolve `--bin`/`--test`/`--lib` to a built executable, forgivingly: when
/// `--test <X>` names no integration-test target (no `tests/<X>.rs`) but the
/// library's unit-test binary has a `#[test]` matching `X` — the common inline
/// `#[cfg(test)] mod tests` case — fall back to that binary with `X` as the
/// test filter. `args` are the program's args (the test-name filter); the
/// fallback inserts `X` if it is missing. Errors say the correct invocation.
pub fn build_target(
    dir: &str,
    bin: Option<&str>,
    test: Option<&str>,
    lib: bool,
    args: &Vec<String>,
    answers: &Vec<Answer>,
    at: usize,
) -> (r: Pending<Result<(String, Vec<String>), String>>)
    requires
        at <= answers.len(),
    ensures
        match r {
            Pending::Want(q) => target_need(
                dir@,
                opt_str(bin),
                opt_str(test),
                lib,
                views(args@),
                answers_in(answers@),
                at as int,
            ) == Need::<Result<(Seq<char>, Seq<Seq<char>>), Seq<char>>>::Want(q@),
            Pending::Done(x, n) => target_need(
                dir@,
                opt_str(bin),
                opt_str(test),
                lib,
                views(args@),
                answers_in(answers@),
                at as int,
            ) == Need::Done(target_result(x), n as int) && at <= n <= answers.len(),
        },
{
    // `--test lib` has always meant the lib unit tests
    let library = lib || same_opt(test, "lib");
    let named: Option<&str> = if library {
        None
    } else {
        test
    };
    let (e, n): (String, usize) = match cargo_build(dir, bin, named, library, answers, at) {
        Pending::Want(q) => return Pending::Want(q),
        Pending::Done(Ok(exe), n) => return Pending::Done(Ok((exe, copy_all(args))), n),
        Pending::Done(Err(e), n) => (e, n),
    };
    match named {
        Some(t) => if has_text(e.as_str(), "no test target named") {
            fall_back(dir, t, args, answers, n)
        } else {
            Pending::Done(Err(e), n)
        },
        None => Pending::Done(Err(e), n),
    }
}

proof fn lemma_last_wanted(
    ls: Seq<Seq<char>>,
    bin: Option<Seq<char>>,
    test: Option<Seq<char>>,
    lib: bool,
)
    ensures
        match last_wanted(ls, bin, test, lib) {
            Some(exe) => exists|i: int|
                0 <= i < ls.len() && (#[trigger] artifact_on(ls[i])) is Some && artifact_on(
                    ls[i],
                )->0.exe == exe && is_wanted(artifact_on(ls[i])->0, bin, test, lib),
            None => forall|k: int|
                0 <= k < ls.len() && (#[trigger] artifact_on(ls[k])) is Some ==> !is_wanted(
                    artifact_on(ls[k])->0,
                    bin,
                    test,
                    lib,
                ),
        },
    decreases ls.len(),
{
    if ls.len() > 0 {
        let front = ls.drop_last();
        let n = ls.len() - 1;
        lemma_last_wanted(front, bin, test, lib);
        assert forall|k: int| 0 <= k < n implies artifact_on(front[k]) == #[trigger] artifact_on(
            ls[k],
        ) by {}
        assert(ls.last() == ls[n]);
        if artifact_on(ls[n]) is Some && is_wanted(artifact_on(ls[n])->0, bin, test, lib) {
        } else if last_wanted(front, bin, test, lib) is Some {
            let exe = last_wanted(front, bin, test, lib)->0;
            let i = choose|i: int|
                0 <= i < front.len() && (#[trigger] artifact_on(front[i])) is Some && artifact_on(
                    front[i],
                )->0.exe == exe && is_wanted(artifact_on(front[i])->0, bin, test, lib);
            assert(artifact_on(ls[i]) is Some);
        } else {
            assert forall|k: int|
                0 <= k < ls.len() && (#[trigger] artifact_on(ls[k])) is Some implies !is_wanted(
                artifact_on(ls[k])->0,
                bin,
                test,
                lib,
            ) by {
                if k < n {
                    assert(artifact_on(front[k]) is Some);
                }
            }
        }
    }
}

proof fn lemma_last_built(ls: Seq<Seq<char>>)
    ensures
        match last_built(ls) {
            Some(exe) => exists|i: int|
                0 <= i < ls.len() && (#[trigger] artifact_on(ls[i])) is Some && artifact_on(
                    ls[i],
                )->0.exe == exe,
            None => forall|k: int| 0 <= k < ls.len() ==> (#[trigger] artifact_on(ls[k])) is None,
        },
    decreases ls.len(),
{
    if ls.len() > 0 {
        let front = ls.drop_last();
        let n = ls.len() - 1;
        lemma_last_built(front);
        assert forall|k: int| 0 <= k < n implies artifact_on(front[k]) == #[trigger] artifact_on(
            ls[k],
        ) by {}
        assert(ls.last() == ls[n]);
        if artifact_on(ls[n]) is Some {
        } else if last_built(front) is Some {
            let exe = last_built(front)->0;
            let i = choose|i: int|
                0 <= i < front.len() && (#[trigger] artifact_on(front[i])) is Some && artifact_on(
                    front[i],
                )->0.exe == exe;
            assert(artifact_on(ls[i]) is Some);
        } else {
            assert forall|k: int| 0 <= k < ls.len() implies (#[trigger] artifact_on(
                ls[k],
            )) is None by {
                if k < n {
                    assert(artifact_on(front[k]) is None);
                }
            }
        }
    }
}

/// The executable picked is one that cargo built, never that of a build
/// script; it is one that was asked for, unless cargo built none such; and
/// there is one unless cargo built none at all.
pub proof fn a_wanted_executable_is_picked(
    ls: Seq<Seq<char>>,
    bin: Option<Seq<char>>,
    test: Option<Seq<char>>,
    lib: bool,
)
    ensures
        match picked(ls, bin, test, lib) {
            Some(exe) => exists|i: int|
                0 <= i < ls.len() && (#[trigger] artifact_on(ls[i])) is Some && artifact_on(
                    ls[i],
                )->0.exe == exe && (is_wanted(artifact_on(ls[i])->0, bin, test, lib) || forall|
                    k: int,
                |
                    0 <= k < ls.len() && (#[trigger] artifact_on(ls[k])) is Some ==> !is_wanted(
                        artifact_on(ls[k])->0,
                        bin,
                        test,
                        lib,
                    )),
            None => forall|k: int| 0 <= k < ls.len() ==> (#[trigger] artifact_on(ls[k])) is None,
        },
{
    lemma_last_wanted(ls, bin, test, lib);
    lemma_last_built(ls);
}

/// A `--test` that names no test of any kind is a missing target, not a failed
/// build.
pub proof fn a_missing_test_is_a_target_error(t: Seq<char>, has_library: bool)
    ensures
        build_status(no_test_target(t, has_library)) == "target_error"@,
{
    let missing = no_test_target(t, has_library);
    reveal_strlit("no integration test target '");
    reveal_strlit("no integration test target");
    assert(missing.subrange(0, "no integration test target"@.len() as int)
        =~= "no integration test target"@);
    assert(occurs_at(missing, "no integration test target"@, 0));
}

/// A build that leaves nothing to debug is a missing target, not a failed
/// build.
pub proof fn nothing_to_debug_is_a_target_error(
    dir: Seq<char>,
    bin: Option<Seq<char>>,
    test: Option<Seq<char>>,
    lib: bool,
    out: Seq<char>,
    err: Seq<char>,
)
    requires
        picked(lines_of(out), bin, test, lib) is None,
    ensures
        build_result(dir, bin, test, lib, BuiltModel::Ran { ok: true, out, err }) matches Err(e)
            && build_status(e) == "target_error"@,
{
    reveal_strlit("cargo built nothing debuggable in ");
    reveal_strlit("built nothing debuggable");
    if let Err(e) = build_result(dir, bin, test, lib, BuiltModel::Ran { ok: true, out, err }) {
        assert(e.subrange(6, 6 + "built nothing debuggable"@.len() as int)
            =~= "built nothing debuggable"@);
        assert(occurs_at(e, "built nothing debuggable"@, 6));
    }
}

/// A `--test` that is taken as a filter of the unit tests runs with that
/// filter: it is among the arguments, and no other argument is lost.
pub proof fn a_fallback_runs_with_its_filter(
    dir: Seq<char>,
    t: Seq<char>,
    args: Seq<Seq<char>>,
    answers: Seq<AnswerModel>,
    at: int,
)
    ensures
        fallback_need(dir, t, args, answers, at) matches Need::Done(Ok((_, with)), _)
            ==> with.contains(t) && args.is_suffix_of(with),
{
    let with = with_filter(args, t);
    if !args.contains(t) {
        assert(with[0] == t);
        assert(with.subrange(1, with.len() as int) =~= args);
    }
}

/// Each kind of target is built by its own arguments: a binary by `cargo
/// build`, an integration test and the unit tests by `cargo test` that runs
/// nothing; cargo always reports as JSON.
pub proof fn each_target_is_built_by_its_name(name: Seq<char>)
    ensures
        build_args(None, None, false) == seq!["build"@, "--message-format=json"@],
        build_args(Some(name), None, false) == seq![
            "build"@,
            "--message-format=json"@,
            "--bin"@,
            name,
        ],
        build_args(None, Some(name), false) == seq![
            "test"@,
            "--no-run"@,
            "--message-format=json"@,
            "--test"@,
            name,
        ],
        build_args(None, None, true) == seq![
            "test"@,
            "--no-run"@,
            "--message-format=json"@,
            "--lib"@,
        ],
{
}

/// A line of cargo's output names an executable that was built by its path,
/// its target and whether it holds the unit tests of a library; that of a build
/// script, and a line of another kind, name none.
pub proof fn artifacts_are_read(line: Seq<char>, m: Doc, exe: Seq<char>, name: Seq<char>, kind: Seq<char>)
    requires
        parsed(line) == Some(m),
        m.at("executable"@) == Doc::Str(exe),
        m.at("target"@).at("name"@) == Doc::Str(name),
        m.at("target"@).at("kind"@) == Doc::Arr(seq![Doc::Str(kind)]),
    ensures
        ({
            let built = m.at("reason"@) == Doc::Str("compiler-artifact"@);
            let tests = m.at("profile"@).at("test"@) == Doc::Bool(true);
            &&& built && kind != "custom-build"@ ==> (artifact_on(line) matches Some(a) && a.exe
                == exe && a.name == name)
            &&& built && tests && (kind == "lib"@ || kind == "rlib"@ || kind == "cdylib"@) ==> (
            artifact_on(line) matches Some(a) && a.lib_test)
            &&& built && (kind == "bin"@ || kind == "test"@) ==> (artifact_on(line) matches Some(a)
                && !a.lib_test)
            &&& built && m.at("profile"@).at("test"@) == Doc::Bool(false) && kind
                != "custom-build"@ ==> (artifact_on(line) matches Some(a) && !a.lib_test)
            &&& built && kind == "custom-build"@ ==> artifact_on(line) is None
            &&& !built ==> artifact_on(line) is None
        }),
{
    reveal_strlit("lib");
    reveal_strlit("rlib");
    reveal_strlit("cdylib");
    reveal_strlit("bin");
    reveal_strlit("test");
    reveal_strlit("custom-build");
    let kinds = seq![Doc::Str(kind)];
    assert(kinds[0] == Doc::Str(kind));
    assert("custom-build"@.len() == 12 && "lib"@.len() == 3 && "rlib"@.len() == 4 && "cdylib"@.len()
        == 6 && "bin"@.len() == 3 && "test"@.len() == 4);
    if kind == "rlib"@ {
        assert(kind.subrange(1, 4) =~= "lib"@);
    }
    if kind == "cdylib"@ {
        assert(kind.subrange(3, 6) =~= "lib"@);
    }
    if kind == "lib"@ {
        assert(kind.subrange(0, 3) =~= "lib"@);
    }
    assert("bin"@[0] == 'b' && "lib"@[0] == 'l' && "test"@[1] == 'e');
    if kind == "bin"@ && "lib"@.is_suffix_of(kind) {
        assert(kind.subrange(0, 3)[0] == 'l');
    }
    if kind == "test"@ && "lib"@.is_suffix_of(kind) {
        assert(kind.subrange(1, 4)[0] == 'l');
    }
}

/// Of the executables that were asked for by name, or of the unit tests, the
/// last one built is taken; where there is none such, the last one of all.
pub proof fn the_last_executable_is_taken(
    ls: Seq<Seq<char>>,
    i: int,
    a: Artifact,
    bin: Option<Seq<char>>,
    test: Option<Seq<char>>,
    lib: bool,
)
    requires
        0 <= i < ls.len(),
        artifact_on(ls[i]) == Some(a),
    ensures
        !lib && (bin == Some(a.name) || test == Some(a.name)) && (forall|k: int|
            i < k < ls.len() && (#[trigger] artifact_on(ls[k])) is Some ==> bin != Some(
                artifact_on(ls[k])->0.name,
            ) && test != Some(artifact_on(ls[k])->0.name)) ==> picked(ls, bin, test, lib) == Some(
            a.exe,
        ),
        lib && a.lib_test && (forall|k: int|
            i < k < ls.len() && (#[trigger] artifact_on(ls[k])) is Some ==> !artifact_on(
                ls[k],
            )->0.lib_test) ==> picked(ls, bin, test, lib) == Some(a.exe),
        bin is None && test is None && !lib && (forall|k: int|
            i < k < ls.len() ==> (#[trigger] artifact_on(ls[k])) is None) ==> picked(
            ls,
            bin,
            test,
            lib,
        ) == Some(a.exe),
    decreases ls.len(),
{
    let n = ls.len() - 1;
    let before = ls.drop_last();
    if i < n {
        assert(before[i] == ls[i]);
        the_last_executable_is_taken(before, i, a, bin, test, lib);
        assert(artifact_on(ls[n]) is Some || artifact_on(ls[n]) is None);
        assert forall|k: int| i < k < before.len() implies before[k] == ls[k] by {}
        if bin is None && test is None && !lib {
            lemma_none_wanted(ls);
            lemma_none_wanted(before);
        } else {
            lemma_last_wanted(before, bin, test, lib);
        }
    } else if bin is None && test is None && !lib {
        lemma_none_wanted(ls);
    }
}

proof fn lemma_none_wanted(ls: Seq<Seq<char>>)
    ensures
        last_wanted(ls, None, None, false) is None,
    decreases ls.len(),
{
    if ls.len() > 0 {
        lemma_none_wanted(ls.drop_last());
    }
}

/// A build that fails shows every diagnostic of cargo's, in order and whole,
/// and behind them what cargo said besides.
pub proof fn a_failed_build_shows_every_diagnostic(
    dir: Seq<char>,
    out: Seq<char>,
    err: Seq<char>,
    before: Seq<Seq<char>>,
    line: Seq<char>,
    after: Seq<Seq<char>>,
    m: Doc,
    text: Seq<char>,
)
    requires
        lines_of(out) == before.push(line) + after,
        parsed(line) == Some(m),
        m.at("reason"@) == Doc::Str("compiler-message"@),
        m.at("message"@).at("rendered"@) == Doc::Str(text),
    ensures
        build_result(dir, None, None, false, BuiltModel::Ran { ok: false, out, err }) == Err::<
            Seq<char>,
            Seq<char>,
        >(diagnostics(before) + text + diagnostics(after) + trimmed_end(err)),
        diagnostics(Seq::empty()).len() == 0,
{
    lemma_diagnostics(before.push(line), after);
    assert(before.push(line).drop_last() =~= before);
}

proof fn lemma_diagnostics(a: Seq<Seq<char>>, b: Seq<Seq<char>>)
    ensures
        diagnostics(a + b) == diagnostics(a) + diagnostics(b),
    decreases b.len(),
{
    if b.len() == 0 {
        assert(a + b =~= a);
        assert(diagnostics(a) + diagnostics(b) =~= diagnostics(a));
    } else {
        lemma_diagnostics(a, b.drop_last());
        assert((a + b).drop_last() =~= a + b.drop_last());
        assert(diagnostics(a + b) =~= diagnostics(a) + diagnostics(b));
    }
}

/// A line that is no diagnostic shows nothing.
pub proof fn other_lines_show_nothing(line: Seq<char>)
    requires
        parsed(line) matches Some(m) ==> m.at("reason"@) != Doc::Str("compiler-message"@),
    ensures
        diagnostics(seq![line]).len() == 0,
{
    reveal_strlit("");
    reveal_with_fuel(diagnostics, 2);
    assert(seq![line].drop_last() =~= Seq::<Seq<char>>::empty());
    assert(""@.len() == 0);
}

/// A binary has a test that matches where it lists one.
pub proof fn listed_tests_are_found(out: Seq<char>, name: Seq<char>, i: int)
    ensures
        0 <= i < lines_of(out).len() && lines_of(out)[i] == name + ": test"@ ==> lists_a_test(
            Some(out),
        ),
        lists_a_test(Some(out)) ==> exists|k: int|
            0 <= k < lines_of(out).len() && contains(#[trigger] lines_of(out)[k], ": test"@),
        !lists_a_test(None),
{
    reveal_strlit(": test");
    assert(": test"@.len() == 6 && ": test"@[5] == 't');
    if 0 <= i < lines_of(out).len() && lines_of(out)[i] == name + ": test"@ {
        let l = lines_of(out)[i];
        assert(l.last() == 't');
        lemma_strip_end(l, whites(), l.len() as int);
        assert(l.take(l.len() as int) =~= l);
        assert(l.subrange(l.len() - 6, l.len() as int) =~= ": test"@);
    }
    if lists_a_test(Some(out)) {
        let k = choose|k: int|
            0 <= k < lines_of(out).len() && ": test"@.is_suffix_of(
                trimmed_end(#[trigger] lines_of(out)[k]),
            );
        let l = lines_of(out)[k];
        let t = trimmed_end(l);
        let b = lemma_end_of(l, whites());
        assert(l.subrange(t.len() - 6, t.len() as int) =~= ": test"@);
        assert(occurs_at(l, ": test"@, t.len() - 6));
    }
}

/// `--test lib` and `--lib` are the same, and a target that is built runs with
/// the arguments that were given.
pub proof fn a_built_target_runs_with_its_arguments(
    dir: Seq<char>,
    bin: Option<Seq<char>>,
    test: Option<Seq<char>>,
    lib: bool,
    args: Seq<Seq<char>>,
    answers: Seq<AnswerModel>,
    at: int,
)
    ensures
        target_need(dir, bin, Some("lib"@), false, args, answers, at) == target_need(
            dir,
            bin,
            None,
            true,
            args,
            answers,
            at,
        ),
        build_need(dir, bin, test, lib, answers, at) matches Need::Done(Ok(exe), n) ==> (test
            != Some("lib"@) && !(lib && test is Some) ==> target_need(
            dir,
            bin,
            test,
            lib,
            args,
            answers,
            at,
        ) == Need::Done(Ok::<(Seq<char>, Seq<Seq<char>>), Seq<char>>((exe, args)), n)),
        build_need(dir, bin, None, lib, answers, at) matches Need::Done(Err(e), n)
            ==> target_need(dir, bin, None, lib, args, answers, at) == Need::Done(
            Err::<(Seq<char>, Seq<Seq<char>>), Seq<char>>(e),
            n,
        ),
{
}

/// A `--test` that names no test target is looked for among the unit tests of
/// the library: these are built, and asked whether one of them matches.
pub proof fn a_fallback_looks_among_the_unit_tests(
    dir: Seq<char>,
    t: Seq<char>,
    args: Seq<Seq<char>>,
    exe: Seq<char>,
    out: Option<Seq<char>>,
    first: AnswerModel,
    built: AnswerModel,
    last: AnswerModel,
)
    requires
        build_result(dir, None, None, true, built_in(built)) == Ok::<Seq<char>, Seq<char>>(exe),
    ensures
        fallback_need(dir, t, args, seq![first], 0) == Need::<
            Result<(Seq<char>, Seq<Seq<char>>), Seq<char>>,
        >::Want(
            WantModel::Cargo {
                dir,
                args: seq!["test"@, "--no-run"@, "--message-format=json"@, "--lib"@],
            },
        ),
        fallback_need(dir, t, args, seq![first, built], 0) == Need::<
            Result<(Seq<char>, Seq<Seq<char>>), Seq<char>>,
        >::Want(WantModel::ListTests { exe, filter: t }),
        lists_a_test(out) ==> (fallback_need(
            dir,
            t,
            args,
            seq![first, built, AnswerModel::Text(out), last],
            0,
        ) matches Need::Done(Ok((e, _)), _) && e == exe),
        !lists_a_test(out) ==> (fallback_need(
            dir,
            t,
            args,
            seq![first, built, AnswerModel::Text(out)],
            0,
        ) matches Need::Done(Err(e), _) && build_status(e) == "target_error"@),
{
    each_target_is_built_by_its_name(t);
    a_missing_test_is_a_target_error(t, true);
    let two = seq![first, built];
    assert(two[1] == built);
    let three = seq![first, built, AnswerModel::Text(out)];
    assert(three[1] == built && three[2] == AnswerModel::Text(out));
    let four = seq![first, built, AnswerModel::Text(out), last];
    assert(four[1] == built && four[2] == AnswerModel::Text(out));
}

} // verus!
