//! The tools that the MCP server offers.

use vstd::prelude::*;
use crate::json::{docs, no_keys, str_docs, Doc, Json};
use crate::text::{owned, views};

verus! {

/// A value of a type.
pub open spec fn typed(t: Seq<char>) -> Doc {
    no_keys().with("type"@, Doc::Str(t))
}

/// A list of strings.
pub open spec fn strings_type() -> Doc {
    typed("array"@).with("items"@, typed("string"@))
}

/// One of some strings.
pub open spec fn one_of(values: Seq<Seq<char>>) -> Doc {
    typed("string"@).with("enum"@, Doc::Arr(str_docs(values)))
}

/// A tool with its name, what it does and its arguments.
pub open spec fn tool_doc(name: Seq<char>, description: Seq<char>, properties: Doc) -> Doc {
    no_keys().with("name"@, Doc::Str(name)).with("description"@, Doc::Str(description)).with(
        "inputSchema"@,
        typed("object"@).with("properties"@, properties),
    )
}

fn kind(t: &str) -> (r: Json)
    ensures
        r@ == typed(t@),
{
    Json::obj().with("type", Json::text(t))
}

fn kind_strings() -> (r: Json)
    ensures
        r@ == strings_type(),
{
    kind("array").with("items", kind("string"))
}

fn kind_of(values: Vec<String>) -> (r: Json)
    ensures
        r@ == one_of(views(values@)),
{
    kind("string").with("enum", Json::strings(&values))
}

fn tool(name: &str, description: &str, properties: Json) -> (r: Json)
    ensures
        r@ == tool_doc(name@, description@, properties@),
{
    Json::obj().with("name", Json::text(name)).with("description", Json::text(description)).with(
        "inputSchema",
        kind("object").with("properties", properties),
    )
}

/// The tools that start a program or run a script.
pub open spec fn launch_tools() -> Seq<Doc> {
    seq![
        tool_doc(
            "debug_launch"@,
            "Build (or take) a Rust debug binary and run it to the first breakpoint. Provide `cargo` (project dir, with optional `bin`/`test` target, or `lib:true` for the library's own unit tests with the test name in `args`) or `bin_path`. `breakpoints` are 'file.rs:line' strings; `panic:true` also breaks where any panic is raised."@,
            no_keys().with("cargo"@, typed("string"@)).with("bin"@, typed("string"@)).with("test"@, typed("string"@)).with("lib"@, typed("boolean"@)).with("bin_path"@, typed("string"@)).with("breakpoints"@, strings_type()).with("fn_breaks"@, strings_type()).with("args"@, strings_type()).with("panic"@, typed("boolean"@)),
        ),
        tool_doc(
            "debug_add_breakpoint"@,
            "Add a breakpoint while paused or before running. `file`+`line`, or `fn` for a function breakpoint, `panic:true` for a Rust panic breakpoint, or `watch` to break when a local changes. Line breakpoints accept `condition`, `hit`, `log`."@,
            no_keys().with("file"@, typed("string"@)).with("line"@, typed("integer"@)).with("fn"@, typed("string"@)).with("panic"@, typed("boolean"@)).with("watch"@, typed("string"@)).with("condition"@, typed("string"@)).with("hit"@, typed("integer"@)).with("log"@, typed("string"@)),
        ),
        tool_doc(
            "debug_trace"@,
            "Run through breakpoint hits without stopping and return a compact table — one call instead of break/inspect/continue for every hit. Provide `cargo`(+`bin`/`test`/`lib:true`) or `bin_path`, `breakpoints` ('file.rs:line'), and `capture` (variable paths evaluated at each hit; brief locals if omitted). `max` caps the hit count."@,
            no_keys().with("cargo"@, typed("string"@)).with("bin"@, typed("string"@)).with("test"@, typed("string"@)).with("lib"@, typed("boolean"@)).with("bin_path"@, typed("string"@)).with("breakpoints"@, strings_type()).with("capture"@, strings_type()).with("max"@, typed("integer"@)).with("args"@, strings_type()),
        ),
        tool_doc(
            "debug_panic"@,
            "One-shot panic triage: build (or take) a Rust program, run it to its panic and return one bundle — the panic message, the first user frame with its arguments and locals, and a short backtrace. Provide `cargo`(+`bin`/`test`/`lib:true`) or `bin_path`, and `args`."@,
            no_keys().with("cargo"@, typed("string"@)).with("bin"@, typed("string"@)).with("test"@, typed("string"@)).with("lib"@, typed("boolean"@)).with("bin_path"@, typed("string"@)).with("args"@, strings_type()),
        ),
        tool_doc(
            "debug_do"@,
            "Run several rdbg subcommands in one call, separated by ';' (e.g. 'break src/main.rs:10; continue; vars; eval sum; bt'). Each is labeled with its command; stops at the first error or program exit. One tool call instead of a fixed break/inspect/continue recipe."@,
            no_keys().with("commands"@, typed("string"@)),
        ),
    ]
}

/// The tools that list breakpoints and run the program.
pub open spec fn run_tools() -> Seq<Doc> {
    seq![
        tool_doc(
            "debug_breakpoints"@,
            "List all breakpoints with ids."@,
            no_keys(),
        ),
        tool_doc(
            "debug_remove_breakpoint"@,
            "Remove a breakpoint by id (or 'panic')."@,
            no_keys().with("id"@, typed("string"@)),
        ),
        tool_doc(
            "debug_continue"@,
            "Resume until the next stop; with `until` ('<path> <op> <value>'), keep resuming past breakpoint stops until the condition holds."@,
            no_keys().with("until"@, typed("string"@)),
        ),
        tool_doc(
            "debug_step"@,
            "Step the current thread: over | in | out | insn."@,
            no_keys().with("kind"@, one_of(seq!["over"@, "in"@, "out"@, "insn"@])),
        ),
        tool_doc(
            "debug_run_to"@,
            "Run to a line ('file.rs:line')."@,
            no_keys().with("location"@, typed("string"@)),
        ),
        tool_doc(
            "debug_pause"@,
            "Interrupt a running program."@,
            no_keys(),
        ),
        tool_doc(
            "debug_restart"@,
            "Relaunch with the same line/function/panic breakpoints."@,
            no_keys(),
        ),
    ]
}

/// The tools that inspect and change the program.
pub open spec fn inspect_tools() -> Seq<Doc> {
    seq![
        tool_doc(
            "debug_locals"@,
            "Local variables at the current frame, with real Rust values. `full:true` forces a deep dump (otherwise a stop already shows what changed)."@,
            no_keys().with("depth"@, typed("integer"@)).with("full"@, typed("boolean"@)),
        ),
        tool_doc(
            "debug_eval"@,
            "Evaluate a variable path (e.g. items[0].qty) at the current frame."@,
            no_keys().with("path"@, typed("string"@)),
        ),
        tool_doc(
            "debug_set"@,
            "Change a variable's value."@,
            no_keys().with("path"@, typed("string"@)).with("value"@, typed("string"@)),
        ),
        tool_doc(
            "debug_backtrace"@,
            "Backtrace of the current thread."@,
            no_keys(),
        ),
        tool_doc(
            "debug_source"@,
            "Source lines around the current stop."@,
            no_keys().with("radius"@, typed("integer"@)),
        ),
        tool_doc(
            "debug_state"@,
            "The current stop, locals, and watches in one call."@,
            no_keys(),
        ),
        tool_doc(
            "debug_status"@,
            "Whether a session is running and where it stands, and the debug adapter in use."@,
            no_keys(),
        ),
        tool_doc(
            "debug_threads"@,
            "List threads."@,
            no_keys(),
        ),
    ]
}

/// The tools that select, watch, navigate and stop.
pub open spec fn place_tools() -> Seq<Doc> {
    seq![
        tool_doc(
            "debug_select_thread"@,
            "Switch the current thread by id."@,
            no_keys().with("id"@, typed("integer"@)),
        ),
        tool_doc(
            "debug_select_frame"@,
            "Select a stack frame by index (0 = innermost)."@,
            no_keys().with("index"@, typed("integer"@)),
        ),
        tool_doc(
            "debug_watch_expr"@,
            "Add or remove a watch expression (shown at every stop)."@,
            no_keys().with("action"@, one_of(seq!["add"@, "rm"@, "list"@])).with("expr"@, typed("string"@)),
        ),
        tool_doc(
            "debug_where"@,
            "Find a function/type/const across the workspace (rust-analyzer)."@,
            no_keys().with("query"@, typed("string"@)),
        ),
        tool_doc(
            "debug_definition"@,
            "Go to definition at file:line:col (1-based)."@,
            no_keys().with("file"@, typed("string"@)).with("line"@, typed("integer"@)).with("col"@, typed("integer"@)),
        ),
        tool_doc(
            "debug_hover"@,
            "Type/signature/docs at file:line:col."@,
            no_keys().with("file"@, typed("string"@)).with("line"@, typed("integer"@)).with("col"@, typed("integer"@)),
        ),
        tool_doc(
            "debug_references"@,
            "Find references at file:line:col."@,
            no_keys().with("file"@, typed("string"@)).with("line"@, typed("integer"@)).with("col"@, typed("integer"@)),
        ),
        tool_doc(
            "debug_stop"@,
            "End the debug session (keeps the daemon warm)."@,
            no_keys(),
        ),
    ]
}

/// The tools that the server offers.
pub open spec fn tool_docs() -> Seq<Doc> {
    launch_tools() + run_tools() + inspect_tools() + place_tools()
}

fn push_launch_tools(v: &mut Vec<Json>)
    ensures
        docs(final(v)@) == docs(old(v)@) + launch_tools(),
{
    let ghost before = docs(v@);
    let t0 = tool(
        "debug_launch",
        "Build (or take) a Rust debug binary and run it to the first breakpoint. Provide `cargo` (project dir, with optional `bin`/`test` target, or `lib:true` for the library's own unit tests with the test name in `args`) or `bin_path`. `breakpoints` are 'file.rs:line' strings; `panic:true` also breaks where any panic is raised.",
        Json::obj().with("cargo", kind("string")).with("bin", kind("string")).with("test", kind("string")).with("lib", kind("boolean")).with("bin_path", kind("string")).with("breakpoints", kind_strings()).with("fn_breaks", kind_strings()).with("args", kind_strings()).with("panic", kind("boolean")),
    );
    let t1 = tool(
        "debug_add_breakpoint",
        "Add a breakpoint while paused or before running. `file`+`line`, or `fn` for a function breakpoint, `panic:true` for a Rust panic breakpoint, or `watch` to break when a local changes. Line breakpoints accept `condition`, `hit`, `log`.",
        Json::obj().with("file", kind("string")).with("line", kind("integer")).with("fn", kind("string")).with("panic", kind("boolean")).with("watch", kind("string")).with("condition", kind("string")).with("hit", kind("integer")).with("log", kind("string")),
    );
    let t2 = tool(
        "debug_trace",
        "Run through breakpoint hits without stopping and return a compact table — one call instead of break/inspect/continue for every hit. Provide `cargo`(+`bin`/`test`/`lib:true`) or `bin_path`, `breakpoints` ('file.rs:line'), and `capture` (variable paths evaluated at each hit; brief locals if omitted). `max` caps the hit count.",
        Json::obj().with("cargo", kind("string")).with("bin", kind("string")).with("test", kind("string")).with("lib", kind("boolean")).with("bin_path", kind("string")).with("breakpoints", kind_strings()).with("capture", kind_strings()).with("max", kind("integer")).with("args", kind_strings()),
    );
    let t3 = tool(
        "debug_panic",
        "One-shot panic triage: build (or take) a Rust program, run it to its panic and return one bundle — the panic message, the first user frame with its arguments and locals, and a short backtrace. Provide `cargo`(+`bin`/`test`/`lib:true`) or `bin_path`, and `args`.",
        Json::obj().with("cargo", kind("string")).with("bin", kind("string")).with("test", kind("string")).with("lib", kind("boolean")).with("bin_path", kind("string")).with("args", kind_strings()),
    );
    let t4 = tool(
        "debug_do",
        "Run several rdbg subcommands in one call, separated by ';' (e.g. 'break src/main.rs:10; continue; vars; eval sum; bt'). Each is labeled with its command; stops at the first error or program exit. One tool call instead of a fixed break/inspect/continue recipe.",
        Json::obj().with("commands", kind("string")),
    );
    let ghost added = seq![t0@, t1@, t2@, t3@, t4@];
    assert(added == launch_tools());
    v.push(t0);
    v.push(t1);
    v.push(t2);
    v.push(t3);
    v.push(t4);
    assert(docs(v@) =~= before + added);
}

fn push_run_tools(v: &mut Vec<Json>)
    ensures
        docs(final(v)@) == docs(old(v)@) + run_tools(),
{
    let ghost before = docs(v@);
    let t0 = tool(
        "debug_breakpoints",
        "List all breakpoints with ids.",
        Json::obj(),
    );
    let t1 = tool(
        "debug_remove_breakpoint",
        "Remove a breakpoint by id (or 'panic').",
        Json::obj().with("id", kind("string")),
    );
    let t2 = tool(
        "debug_continue",
        "Resume until the next stop; with `until` ('<path> <op> <value>'), keep resuming past breakpoint stops until the condition holds.",
        Json::obj().with("until", kind("string")),
    );
    let kinds = vec![owned("over"), owned("in"), owned("out"), owned("insn")];
    assert(views(kinds@) =~= seq!["over"@, "in"@, "out"@, "insn"@]);
    let t3 = tool(
        "debug_step",
        "Step the current thread: over | in | out | insn.",
        Json::obj().with("kind", kind_of(kinds)),
    );
    let t4 = tool(
        "debug_run_to",
        "Run to a line ('file.rs:line').",
        Json::obj().with("location", kind("string")),
    );
    let t5 = tool(
        "debug_pause",
        "Interrupt a running program.",
        Json::obj(),
    );
    let t6 = tool(
        "debug_restart",
        "Relaunch with the same line/function/panic breakpoints.",
        Json::obj(),
    );
    let ghost added = seq![t0@, t1@, t2@, t3@, t4@, t5@, t6@];
    assert(added == run_tools());
    v.push(t0);
    v.push(t1);
    v.push(t2);
    v.push(t3);
    v.push(t4);
    v.push(t5);
    v.push(t6);
    assert(docs(v@) =~= before + added);
}

fn push_inspect_tools(v: &mut Vec<Json>)
    ensures
        docs(final(v)@) == docs(old(v)@) + inspect_tools(),
{
    let ghost before = docs(v@);
    let t0 = tool(
        "debug_locals",
        "Local variables at the current frame, with real Rust values. `full:true` forces a deep dump (otherwise a stop already shows what changed).",
        Json::obj().with("depth", kind("integer")).with("full", kind("boolean")),
    );
    let t1 = tool(
        "debug_eval",
        "Evaluate a variable path (e.g. items[0].qty) at the current frame.",
        Json::obj().with("path", kind("string")),
    );
    let t2 = tool(
        "debug_set",
        "Change a variable's value.",
        Json::obj().with("path", kind("string")).with("value", kind("string")),
    );
    let t3 = tool(
        "debug_backtrace",
        "Backtrace of the current thread.",
        Json::obj(),
    );
    let t4 = tool(
        "debug_source",
        "Source lines around the current stop.",
        Json::obj().with("radius", kind("integer")),
    );
    let t5 = tool(
        "debug_state",
        "The current stop, locals, and watches in one call.",
        Json::obj(),
    );
    let t6 = tool(
        "debug_status",
        "Whether a session is running and where it stands, and the debug adapter in use.",
        Json::obj(),
    );
    let t7 = tool(
        "debug_threads",
        "List threads.",
        Json::obj(),
    );
    let ghost added = seq![t0@, t1@, t2@, t3@, t4@, t5@, t6@, t7@];
    assert(added == inspect_tools());
    v.push(t0);
    v.push(t1);
    v.push(t2);
    v.push(t3);
    v.push(t4);
    v.push(t5);
    v.push(t6);
    v.push(t7);
    assert(docs(v@) =~= before + added);
}

fn push_place_tools(v: &mut Vec<Json>)
    ensures
        docs(final(v)@) == docs(old(v)@) + place_tools(),
{
    let ghost before = docs(v@);
    let t0 = tool(
        "debug_select_thread",
        "Switch the current thread by id.",
        Json::obj().with("id", kind("integer")),
    );
    let t1 = tool(
        "debug_select_frame",
        "Select a stack frame by index (0 = innermost).",
        Json::obj().with("index", kind("integer")),
    );
    let kinds = vec![owned("add"), owned("rm"), owned("list")];
    assert(views(kinds@) =~= seq!["add"@, "rm"@, "list"@]);
    let t2 = tool(
        "debug_watch_expr",
        "Add or remove a watch expression (shown at every stop).",
        Json::obj().with("action", kind_of(kinds)).with("expr", kind("string")),
    );
    let t3 = tool(
        "debug_where",
        "Find a function/type/const across the workspace (rust-analyzer).",
        Json::obj().with("query", kind("string")),
    );
    let t4 = tool(
        "debug_definition",
        "Go to definition at file:line:col (1-based).",
        Json::obj().with("file", kind("string")).with("line", kind("integer")).with("col", kind("integer")),
    );
    let t5 = tool(
        "debug_hover",
        "Type/signature/docs at file:line:col.",
        Json::obj().with("file", kind("string")).with("line", kind("integer")).with("col", kind("integer")),
    );
    let t6 = tool(
        "debug_references",
        "Find references at file:line:col.",
        Json::obj().with("file", kind("string")).with("line", kind("integer")).with("col", kind("integer")),
    );
    let t7 = tool(
        "debug_stop",
        "End the debug session (keeps the daemon warm).",
        Json::obj(),
    );
    let ghost added = seq![t0@, t1@, t2@, t3@, t4@, t5@, t6@, t7@];
    assert(added == place_tools());
    v.push(t0);
    v.push(t1);
    v.push(t2);
    v.push(t3);
    v.push(t4);
    v.push(t5);
    v.push(t6);
    v.push(t7);
    assert(docs(v@) =~= before + added);
}

/// The tools that the server offers.
pub fn tools() -> (r: Vec<Json>)
    ensures
        docs(r@) == tool_docs(),
{
    let mut v: Vec<Json> = Vec::new();
    assert(docs(v@) =~= Seq::empty());
    push_launch_tools(&mut v);
    push_run_tools(&mut v);
    push_inspect_tools(&mut v);
    push_place_tools(&mut v);
    assert(Seq::<Doc>::empty() + launch_tools() =~= launch_tools());
    v
}

} // verus!
