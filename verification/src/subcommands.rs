//! What each subcommand of the client comes to: the request that it sends,
//! what the daemon does for that, and what is shown of the response.

use vstd::prelude::*;
use crate::client::{
    argument_error, command_need, eval_paths, eval_payload, eval_replies, eval_row, eval_shown,
    line_break_text, listed, location, option_value, option_words, payload_of, place_row,
    place_rows, plain_run, reply_text, set_body, set_parts, symbol_row, symbol_rows, Shown,
};
use crate::daemon::dispatch_way;
use crate::json::{json_text, Doc};
use crate::num::{int_text, int_text_reads_back, lemma_int_text};
use crate::ops::{OpModel, StepKind, Way};
use crate::report::{definite, stop_text};
use crate::requests::lemma_commands;
use crate::text::{
    digit, first_index, join, lemma_first_index, lemma_first_index_at, lemma_found_from,
    lemma_join_push, lemma_rfound_upto, lemma_trim_around, occurs_at, rfind_upto, white,
};
use crate::util::joined;
use crate::wants::{reply_in, AnswerModel, Need, WantModel};

verus! {

// ---------------------------------------------------------------------------
// Names
// ---------------------------------------------------------------------------

/// What tells the subcommands apart.
proof fn lemma_subcommands()
    ensures
        "break"@.len() == 5,
        "break"@[3] == 'a',
        "watch"@.len() == 5,
        "watch"@[3] == 'c',
        "breaks"@.len() == 6,
        "breaks"@[0] == 'b',
        "break-rm"@.len() == 8,
        "break-rm"@[6] == 'r',
        "break-on"@.len() == 8,
        "break-on"@[6] == 'o',
        "break-off"@.len() == 9,
        "run"@.len() == 3,
        "run"@[0] == 'r',
        "continue"@.len() == 8,
        "continue"@[6] == 'u',
        "step"@.len() == 4,
        "step"@[2] == 'e',
        "pause"@.len() == 5,
        "pause"@[3] == 's',
        "restart"@.len() == 7,
        "restart"@[0] == 'r',
        "thread"@.len() == 6,
        "thread"@[0] == 't',
        "status"@.len() == 6,
        "status"@[0] == 's',
        "threads"@.len() == 7,
        "threads"@[0] == 't',
        "bt"@.len() == 2,
        "bt"@[0] == 'b',
        "state"@.len() == 5,
        "state"@[3] == 't',
        "stop"@.len() == 4,
        "stop"@[2] == 'o',
        "up"@.len() == 2,
        "up"@[0] == 'u',
        "down"@.len() == 4,
        "down"@[2] == 'w',
        "frame"@.len() == 5,
        "frame"@[3] == 'm',
        "vars"@.len() == 4,
        "vars"@[2] == 'r',
        "watch-expr"@.len() == 10,
        "list"@.len() == 4,
        "list"@[2] == 's',
        "where"@.len() == 5,
        "where"@[3] == 'r',
        "def"@.len() == 3,
        "def"@[0] == 'd',
        "refs"@.len() == 4,
        "refs"@[2] == 'f',
        "hover"@.len() == 5,
        "hover"@[3] == 'e',
        "until"@.len() == 5,
        "until"@[3] == 'i',
        "eval"@.len() == 4,
        "eval"@[2] == 'a',
        "set"@.len() == 3,
        "set"@[0] == 's',
{
    reveal_strlit("break");
    reveal_strlit("watch");
    reveal_strlit("breaks");
    reveal_strlit("break-rm");
    reveal_strlit("break-on");
    reveal_strlit("break-off");
    reveal_strlit("run");
    reveal_strlit("continue");
    reveal_strlit("step");
    reveal_strlit("pause");
    reveal_strlit("restart");
    reveal_strlit("thread");
    reveal_strlit("status");
    reveal_strlit("threads");
    reveal_strlit("bt");
    reveal_strlit("state");
    reveal_strlit("stop");
    reveal_strlit("up");
    reveal_strlit("down");
    reveal_strlit("frame");
    reveal_strlit("vars");
    reveal_strlit("watch-expr");
    reveal_strlit("list");
    reveal_strlit("where");
    reveal_strlit("def");
    reveal_strlit("refs");
    reveal_strlit("hover");
    reveal_strlit("until");
    reveal_strlit("eval");
    reveal_strlit("set");
}

/// What tells the keys of a request apart.
proof fn lemma_keys()
    ensures
        "cmd"@.len() == 3,
        "cmd"@[0] == 'c',
        "cmd"@[1] == 'm',
        "name"@.len() == 4,
        "name"@[0] == 'n',
        "name"@[1] == 'a',
        "var"@.len() == 3,
        "var"@[0] == 'v',
        "var"@[1] == 'a',
        "id"@.len() == 2,
        "id"@[0] == 'i',
        "enabled"@.len() == 7,
        "enabled"@[0] == 'e',
        "until"@.len() == 5,
        "until"@[0] == 'u',
        "kind"@.len() == 4,
        "kind"@[0] == 'k',
        "kind"@[1] == 'i',
        "dir"@.len() == 3,
        "dir"@[0] == 'd',
        "dir"@[1] == 'i',
        "index"@.len() == 5,
        "index"@[0] == 'i',
        "full"@.len() == 4,
        "full"@[0] == 'f',
        "full"@[1] == 'u',
        "depth"@.len() == 5,
        "depth"@[0] == 'd',
        "action"@.len() == 6,
        "action"@[0] == 'a',
        "expr"@.len() == 4,
        "expr"@[0] == 'e',
        "expr"@[1] == 'x',
        "radius"@.len() == 6,
        "radius"@[0] == 'r',
        "query"@.len() == 5,
        "query"@[0] == 'q',
        "file"@.len() == 4,
        "file"@[0] == 'f',
        "file"@[1] == 'i',
        "line"@.len() == 4,
        "line"@[0] == 'l',
        "line"@[1] == 'i',
        "col"@.len() == 3,
        "col"@[0] == 'c',
        "col"@[1] == 'o',
        "condition"@.len() == 9,
        "hit"@.len() == 3,
        "hit"@[0] == 'h',
        "hit"@[1] == 'i',
        "log"@.len() == 3,
        "log"@[0] == 'l',
        "log"@[1] == 'o',
        "path"@.len() == 4,
        "path"@[0] == 'p',
        "path"@[1] == 'a',
        "value"@.len() == 5,
        "value"@[0] == 'v',
        "ok"@.len() == 2,
        "ok"@[0] == 'o',
        "error"@.len() == 5,
        "error"@[0] == 'e',
        "status"@.len() == 6,
        "status"@[0] == 's',
        "results"@.len() == 7,
        "results"@[0] == 'r',
        "then"@.len() == 4,
        "then"@[0] == 't',
        "then"@[1] == 'h',
{
    reveal_strlit("cmd");
    reveal_strlit("name");
    reveal_strlit("var");
    reveal_strlit("id");
    reveal_strlit("enabled");
    reveal_strlit("until");
    reveal_strlit("kind");
    reveal_strlit("dir");
    reveal_strlit("index");
    reveal_strlit("full");
    reveal_strlit("depth");
    reveal_strlit("action");
    reveal_strlit("expr");
    reveal_strlit("radius");
    reveal_strlit("query");
    reveal_strlit("file");
    reveal_strlit("line");
    reveal_strlit("col");
    reveal_strlit("condition");
    reveal_strlit("hit");
    reveal_strlit("log");
    reveal_strlit("path");
    reveal_strlit("value");
    reveal_strlit("ok");
    reveal_strlit("error");
    reveal_strlit("status");
    reveal_strlit("results");
    reveal_strlit("then");
}

/// What tells the words of a subcommand apart.
proof fn lemma_flags()
    ensures
        "--fn"@.len() == 4,
        "--fn"@[0] == '-',
        "--fn"@[2] == 'f',
        "--panic"@.len() == 7,
        "--panic"@[2] == 'p',
        "--until"@.len() == 7,
        "--until"@[2] == 'u',
        "--full"@.len() == 6,
        "--full"@[2] == 'f',
        "--depth"@.len() == 7,
        "--depth"@[2] == 'd',
        "--radius"@.len() == 8,
        "--if"@.len() == 4,
        "--if"@[0] == '-',
        "--if"@[2] == 'i',
        "--hit"@.len() == 5,
        "--hit"@[2] == 'h',
        "--log"@.len() == 5,
        "--log"@[2] == 'l',
        "--then"@.len() == 6,
        "--then"@[2] == 't',
        "add"@.len() == 3,
        "add"@[0] == 'a',
        "rm"@.len() == 2,
        "rm"@[0] == 'r',
        "list"@.len() == 4,
        "list"@[0] == 'l',
        "list"@[2] == 's',
        "over"@.len() == 4,
        "over"@[0] == 'o',
        "over"@[2] == 'e',
        "in"@.len() == 2,
        "in"@[0] == 'i',
        "out"@.len() == 3,
        "out"@[0] == 'o',
        "insn"@.len() == 4,
        "insn"@[0] == 'i',
        "insn"@[2] == 's',
{
    reveal_strlit("--fn");
    reveal_strlit("--panic");
    reveal_strlit("--until");
    reveal_strlit("--full");
    reveal_strlit("--depth");
    reveal_strlit("--radius");
    reveal_strlit("--if");
    reveal_strlit("--hit");
    reveal_strlit("--log");
    reveal_strlit("--then");
    reveal_strlit("add");
    reveal_strlit("rm");
    reveal_strlit("list");
    reveal_strlit("over");
    reveal_strlit("in");
    reveal_strlit("out");
    reveal_strlit("insn");
}

// ---------------------------------------------------------------------------
// What is asked
// ---------------------------------------------------------------------------

/// A subcommand sends one request, for which the daemon performs an operation.
pub open spec fn calls_for(cmd: Seq<char>, rest: Seq<Seq<char>>, cwd: Seq<char>, op: OpModel) -> bool {
    command_need(cmd, rest, cwd, Seq::empty(), 0) matches Need::Want(WantModel::Send { payload, secs })
        && secs == 300 && dispatch_way(payload, true, Seq::empty(), 0) == Way::<(Doc, bool)>::Do(op)
}

proof fn lemma_not_there(v: Seq<Seq<char>>, s: Seq<char>)
    requires
        !v.contains(s),
    ensures
        first_index(v, s, 0) is None,
{
    lemma_first_index(v, s, 0);
    if let Some(i) = first_index(v, s, 0) {
        assert(v.contains(v[i]));
    }
}

/// The subcommands that run the program do so: on to the next stop, to a pause,
/// from the start; those for the end, the threads, the backtrace, the state,
/// the breakpoints and the frames around call for these.
pub proof fn run_subcommands_run_the_program(rest: Seq<Seq<char>>, cwd: Seq<char>)
    requires
        !rest.contains("--until"@),
    ensures
        calls_for("run"@, rest, cwd, OpModel::Continue),
        calls_for("continue"@, rest, cwd, OpModel::Continue),
        calls_for("pause"@, rest, cwd, OpModel::Pause),
        calls_for("restart"@, rest, cwd, OpModel::Restart),
        calls_for("stop"@, rest, cwd, OpModel::End),
        calls_for("threads"@, rest, cwd, OpModel::Threads),
        calls_for("bt"@, rest, cwd, OpModel::Backtrace),
        calls_for("state"@, rest, cwd, OpModel::LastStop),
        calls_for("breaks"@, rest, cwd, OpModel::Breakpoints),
        calls_for("up"@, rest, cwd, OpModel::ShiftFrame { up: true }),
        calls_for("down"@, rest, cwd, OpModel::ShiftFrame { up: false }),
{
    lemma_subcommands();
    lemma_commands();
    lemma_keys();
    lemma_flags();
    lemma_not_there(rest, "--until"@);
    assert(calls_for("run"@, rest, cwd, OpModel::Continue));
    assert(calls_for("continue"@, rest, cwd, OpModel::Continue));
    assert(calls_for("pause"@, rest, cwd, OpModel::Pause));
    assert(calls_for("restart"@, rest, cwd, OpModel::Restart));
    assert(calls_for("stop"@, rest, cwd, OpModel::End));
    assert(calls_for("threads"@, rest, cwd, OpModel::Threads));
    assert(calls_for("bt"@, rest, cwd, OpModel::Backtrace));
    assert(calls_for("state"@, rest, cwd, OpModel::LastStop));
    assert(calls_for("breaks"@, rest, cwd, OpModel::Breakpoints));
    assert(calls_for("up"@, rest, cwd, OpModel::ShiftFrame { up: true }));
    assert(calls_for("down"@, rest, cwd, OpModel::ShiftFrame { up: false }));
}

/// A step goes in, out, by one instruction or over, as its word says; without
/// a word it goes over.
pub proof fn steps_go_as_far_as_they_say(cwd: Seq<char>)
    ensures
        calls_for("step"@, seq!["in"@], cwd, OpModel::Step { kind: StepKind::In }),
        calls_for("step"@, seq!["out"@], cwd, OpModel::Step { kind: StepKind::Out }),
        calls_for("step"@, seq!["insn"@], cwd, OpModel::Step { kind: StepKind::Insn }),
        calls_for("step"@, seq!["over"@], cwd, OpModel::Step { kind: StepKind::Over }),
        calls_for("step"@, Seq::empty(), cwd, OpModel::Step { kind: StepKind::Over }),
{
    lemma_subcommands();
    lemma_commands();
    lemma_keys();
    lemma_flags();
    assert(calls_for("step"@, seq!["in"@], cwd, OpModel::Step { kind: StepKind::In }));
    assert(calls_for("step"@, seq!["out"@], cwd, OpModel::Step { kind: StepKind::Out }));
    assert(calls_for("step"@, seq!["insn"@], cwd, OpModel::Step { kind: StepKind::Insn }));
    assert(calls_for("step"@, seq!["over"@], cwd, OpModel::Step { kind: StepKind::Over }));
    assert(calls_for("step"@, Seq::empty(), cwd, OpModel::Step { kind: StepKind::Over }));
}

/// A breakpoint is removed, switched on or switched off by the id that is
/// given, and one is set on the function or the variable that is named.
pub proof fn breakpoints_are_named_by_their_id(id: Seq<char>, cwd: Seq<char>)
    ensures
        calls_for("break-rm"@, seq![id], cwd, OpModel::Remove { id }),
        calls_for("break-on"@, seq![id], cwd, OpModel::Enable { id, on: true }),
        calls_for("break-off"@, seq![id], cwd, OpModel::Enable { id, on: false }),
        calls_for("watch"@, seq![id], cwd, OpModel::Watch { var: id }),
        calls_for("break"@, seq!["--fn"@, id], cwd, OpModel::AddFn { name: id }),
        calls_for("break"@, seq!["--panic"@], cwd, OpModel::AddPanic),
{
    lemma_subcommands();
    lemma_commands();
    lemma_keys();
    lemma_flags();
    assert(calls_for("break-rm"@, seq![id], cwd, OpModel::Remove { id }));
    assert(calls_for("break-on"@, seq![id], cwd, OpModel::Enable { id, on: true }));
    assert(calls_for("break-off"@, seq![id], cwd, OpModel::Enable { id, on: false }));
    assert(calls_for("watch"@, seq![id], cwd, OpModel::Watch { var: id }));
    let named = seq!["--fn"@, id];
    assert(named[0] == "--fn"@);
    assert(named.contains("--fn"@));
    lemma_first_index_at(named, "--fn"@, 0, 0);
    assert(calls_for("break"@, seq!["--fn"@, id], cwd, OpModel::AddFn { name: id }));
    let panics = seq!["--panic"@];
    assert(panics[0] == "--panic"@);
    assert(panics.contains("--panic"@));
    assert(!panics.contains("--fn"@));
    assert(calls_for("break"@, seq!["--panic"@], cwd, OpModel::AddPanic));
}

/// A frame and a thread are selected by their number; the depth of the local
/// variables and the lines of source around are the numbers that are given,
/// and three and six where none are.
pub proof fn numbers_select_what_they_name(n: int, cwd: Seq<char>)
    requires
        0 <= n <= i32::MAX,
    ensures
        calls_for("frame"@, seq![int_text(n)], cwd, OpModel::SelectFrame { index: n }),
        calls_for("thread"@, seq![int_text(n)], cwd, OpModel::SelectThread { id: n }),
        calls_for("vars"@, seq!["--depth"@, int_text(n)], cwd, OpModel::Locals { depth: n, cap: 12 }),
        calls_for("vars"@, Seq::empty(), cwd, OpModel::Locals { depth: 3, cap: 12 }),
        calls_for("vars"@, seq!["--full"@], cwd, OpModel::Locals { depth: 10, cap: 64 }),
        calls_for("list"@, seq!["--radius"@, int_text(n)], cwd, OpModel::Source { radius: n }),
        calls_for("list"@, Seq::empty(), cwd, OpModel::Source { radius: 6 }),
{
    lemma_subcommands();
    lemma_commands();
    lemma_keys();
    lemma_flags();
    int_text_reads_back(n);
    assert(usize::MAX >= i32::MAX);
    assert(calls_for("frame"@, seq![int_text(n)], cwd, OpModel::SelectFrame { index: n }));
    assert(calls_for("thread"@, seq![int_text(n)], cwd, OpModel::SelectThread { id: n }));
    let deep = seq!["--depth"@, int_text(n)];
    lemma_first_index_at(deep, "--depth"@, 0, 0);
    lemma_no_flag(n, "--full"@);
    assert(!deep.contains("--full"@));
    assert(calls_for("vars"@, seq!["--depth"@, int_text(n)], cwd, OpModel::Locals { depth: n, cap: 12 }));
    let none = Seq::<Seq<char>>::empty();
    lemma_not_there(none, "--depth"@);
    assert(calls_for("vars"@, Seq::empty(), cwd, OpModel::Locals { depth: 3, cap: 12 }));
    let full = seq!["--full"@];
    assert(full[0] == "--full"@);
    assert(full.contains("--full"@));
    assert(!full.contains("--depth"@));
    lemma_not_there(full, "--depth"@);
    assert(calls_for("vars"@, seq!["--full"@], cwd, OpModel::Locals { depth: 10, cap: 64 }));
    let wide = seq!["--radius"@, int_text(n)];
    lemma_first_index_at(wide, "--radius"@, 0, 0);
    assert(calls_for("list"@, seq!["--radius"@, int_text(n)], cwd, OpModel::Source { radius: n }));
    lemma_not_there(none, "--radius"@);
    assert(calls_for("list"@, Seq::empty(), cwd, OpModel::Source { radius: 6 }));
}

/// The text of a number is no flag.
proof fn lemma_no_flag(n: int, flag: Seq<char>)
    requires
        flag.len() > 2,
        flag[2] != '-',
        !digit(flag[2]),
    ensures
        int_text(n) != flag,
{
    lemma_int_text(n);
    if int_text(n) == flag {
        assert(digit(int_text(n)[2]) || int_text(n)[2] == '-');
    }
}

/// A watch expression is the words behind `add` or `rm`; any other word only
/// lists them.
pub proof fn watches_are_named_by_their_words(e: Seq<char>, cwd: Seq<char>)
    ensures
        calls_for("watch-expr"@, seq!["add"@, e], cwd, OpModel::WatchExpr { action: "add"@, expr: Some(e) }),
        calls_for("watch-expr"@, seq!["rm"@, e], cwd, OpModel::WatchExpr { action: "rm"@, expr: Some(e) }),
        calls_for("watch-expr"@, Seq::empty(), cwd, OpModel::WatchExpr { action: "list"@, expr: None }),
{
    lemma_subcommands();
    lemma_commands();
    lemma_keys();
    lemma_flags();
    reveal_strlit("");
    let a = seq!["add"@, e];
    let b = seq!["rm"@, e];
    assert(a.skip(1) =~= seq![e]);
    assert(b.skip(1) =~= seq![e]);
    assert(join(seq![e], " "@) == e);
    assert(calls_for("watch-expr"@, a, cwd, OpModel::WatchExpr { action: "add"@, expr: Some(e) }));
    assert(calls_for("watch-expr"@, b, cwd, OpModel::WatchExpr { action: "rm"@, expr: Some(e) }));
    assert(calls_for(
        "watch-expr"@,
        Seq::empty(),
        cwd,
        OpModel::WatchExpr { action: "list"@, expr: None },
    ));
}

proof fn lemma_plain_run(args: Seq<Seq<char>>, i: int, k: int)
    requires
        0 <= i <= k <= args.len(),
        forall|j: int| i <= j < k ==> !"--"@.is_prefix_of(#[trigger] args[j]),
        k < args.len() ==> "--"@.is_prefix_of(args[k]),
    ensures
        plain_run(args, i) == args.subrange(i, k),
    decreases k - i,
{
    if i < k {
        lemma_plain_run(args, i + 1, k);
        assert(seq![args[i]] + args.subrange(i + 1, k) =~= args.subrange(i, k));
    } else {
        assert(args.subrange(i, k) =~= Seq::<Seq<char>>::empty());
    }
}

/// The words of an option are those behind its flag, up to the next flag, with
/// a blank between them; and its value is the word right behind it.
pub proof fn options_are_the_words_behind_their_flag(
    before: Seq<Seq<char>>,
    flag: Seq<char>,
    toks: Seq<Seq<char>>,
    after: Seq<Seq<char>>,
)
    requires
        !before.contains(flag),
        toks.len() > 0,
        forall|j: int| 0 <= j < toks.len() ==> !"--"@.is_prefix_of(#[trigger] toks[j]),
        after.len() > 0 ==> "--"@.is_prefix_of(after[0]),
    ensures
        option_words(before + seq![flag] + toks + after, flag) == Some(join(toks, " "@)),
        option_value(before + seq![flag] + toks + after, flag) == Some(toks[0]),
        option_words(before, flag) is None,
        option_value(before, flag) is None,
        option_words(before + seq![flag] + after, flag) is None,
{
    let n = before.len() as int;
    let args = before + seq![flag] + toks + after;
    assert forall|j: int| 0 <= j < n implies #[trigger] args[j] != flag by {
        assert(before.contains(before[j]));
    }
    lemma_first_index_at(args, flag, 0, n);
    assert forall|j: int| n + 1 <= j < n + 1 + toks.len() implies !"--"@.is_prefix_of(
        #[trigger] args[j],
    ) by {
        assert(args[j] == toks[j - n - 1]);
    }
    if after.len() > 0 {
        assert(args[n + 1 + toks.len()] == after[0]);
    }
    lemma_plain_run(args, n + 1, n + 1 + toks.len());
    assert(args.subrange(n + 1, n + 1 + toks.len()) =~= toks);
    assert(args[n + 1] == toks[0]);
    lemma_not_there(before, flag);
    let bare = before + seq![flag] + after;
    assert forall|j: int| 0 <= j < n implies #[trigger] bare[j] != flag by {
        assert(before.contains(before[j]));
    }
    lemma_first_index_at(bare, flag, 0, n);
    if after.len() > 0 {
        assert(bare[n + 1] == after[0]);
    }
    lemma_plain_run(bare, n + 1, n + 1);
}

/// To go on until a condition is to ask for that with the condition's words.
pub proof fn a_condition_is_the_words_behind_until(toks: Seq<Seq<char>>, cwd: Seq<char>)
    requires
        toks.len() > 0,
        forall|j: int| 0 <= j < toks.len() ==> !"--"@.is_prefix_of(#[trigger] toks[j]),
    ensures
        command_need("continue"@, seq!["--until"@] + toks, cwd, Seq::empty(), 0) matches Need::Want(
            WantModel::Send { payload, secs },
        ) && payload.at("cmd"@) == Doc::Str("continue_until"@) && payload.at("until"@) == Doc::Str(
            join(toks, " "@),
        ),
{
    lemma_subcommands();
    lemma_keys();
    let none = Seq::<Seq<char>>::empty();
    options_are_the_words_behind_their_flag(none, "--until"@, toks, none);
    assert(none + seq!["--until"@] + toks + none =~= seq!["--until"@] + toks);
}

proof fn lemma_last_colon(f: Seq<char>, n: int)
    ensures
        rfind_upto(f + ":"@ + int_text(n), ":"@, (f + ":"@ + int_text(n)).len() as int) == Some(
            f.len() as int,
        ),
{
    reveal_strlit(":");
    lemma_int_text(n);
    let s = f + ":"@ + int_text(n);
    let k = f.len() as int;
    assert(s.subrange(k, k + 1) =~= ":"@);
    assert(occurs_at(s, ":"@, k));
    assert forall|j: int| k < j <= s.len() implies !#[trigger] occurs_at(s, ":"@, j) by {
        if occurs_at(s, ":"@, j) {
            assert(s.subrange(j, j + 1)[0] == s[j]);
            assert(s[j] == int_text(n)[j - k - 1]);
        }
    }
    lemma_rfound_upto(s, ":"@, s.len() as int, k);
}

/// A place is a file and a line with a colon between them, the last one; the
/// file is seen from the directory. Without a colon it is no place.
pub proof fn places_are_a_file_and_a_line(f: Seq<char>, n: int, base: Seq<char>, spec: Seq<char>)
    requires
        i64::MIN <= n <= i64::MAX,
        !spec.contains(':'),
    ensures
        location(f + ":"@ + int_text(n), base) == Ok::<(Seq<char>, int), Seq<char>>(
            (joined(base, f), n),
        ),
        location(spec, base) is Err,
{
    reveal_strlit(":");
    lemma_last_colon(f, n);
    int_text_reads_back(n);
    let s = f + ":"@ + int_text(n);
    assert(s.take(f.len() as int) =~= f);
    assert(s.skip(f.len() as int + 1) =~= int_text(n));
    crate::text::lemma_rfind_upto(spec, ":"@, spec.len() as int);
    if let Some(k) = rfind_upto(spec, ":"@, spec.len() as int) {
        assert(spec.subrange(k, k + 1)[0] == spec[k]);
        assert(spec.contains(spec[k]));
    }
}

/// A breakpoint on a line is set at the canonical path of the file that is
/// named, at its line, with what narrows it down; running to a line likewise.
pub proof fn a_line_is_set_where_it_is_named(
    f: Seq<char>,
    n: int,
    cwd: Seq<char>,
    path: Seq<char>,
    cond: Seq<char>,
)
    requires
        i64::MIN <= n <= i64::MAX,
        !"--"@.is_prefix_of(cond),
        f.len() == 0 || f[0] != '-',
    ensures
        ({
            let spec = f + ":"@ + int_text(n);
            let found = seq![AnswerModel::Text(Some(path))];
            let lost = seq![AnswerModel::Text(None)];
            &&& command_need("break"@, seq![spec], cwd, Seq::empty(), 0) == Need::<Shown>::Want(
                WantModel::Resolve { path: joined(cwd, f) },
            )
            &&& asks_for_line(
                command_need("break"@, seq![spec], cwd, found, 0),
                path,
                n,
                Doc::Null,
            )
            &&& asks_for_line(
                command_need("break"@, seq![spec], cwd, lost, 0),
                joined(cwd, f),
                n,
                Doc::Null,
            )
            &&& asks_for_line(
                command_need("break"@, seq![spec, "--if"@, cond], cwd, found, 0),
                path,
                n,
                Doc::Str(cond),
            )
            &&& command_need("until"@, seq![spec], cwd, found, 0) matches Need::Want(
                WantModel::Send { payload, secs },
            ) && payload.at("cmd"@) == Doc::Str("until"@) && payload.at("file"@) == Doc::Str(path)
                && payload.at("line"@) == Doc::Int(n)
        }),
{
    lemma_subcommands();
    lemma_keys();
    lemma_flags();
    reveal_strlit(":");
    reveal_strlit("--");
    let spec = f + ":"@ + int_text(n);
    places_are_a_file_and_a_line(f, n, cwd, Seq::empty());
    assert(spec[0] != '-');
    let one = seq![spec];
    assert(one[0] == spec);
    assert("--fn"@[0] == '-' && "--panic"@[0] == '-' && "--if"@[0] == '-' && "--hit"@[0] == '-'
        && "--log"@[0] == '-') by {
        reveal_strlit("--fn");
        reveal_strlit("--panic");
        reveal_strlit("--if");
        reveal_strlit("--hit");
        reveal_strlit("--log");
    }
    assert(!one.contains("--fn"@) && !one.contains("--panic"@));
    assert(!one.contains("--if"@) && !one.contains("--hit"@) && !one.contains("--log"@));
    lemma_not_there(one, "--if"@);
    lemma_not_there(one, "--hit"@);
    lemma_not_there(one, "--log"@);
    let more = seq![spec, "--if"@, cond];
    assert(more[0] == spec && more[1] == "--if"@ && more[2] == cond);
    assert(cond != "--fn"@ && cond != "--panic"@ && cond != "--hit"@ && cond != "--log"@) by {
        lemma_flag_begins("--fn"@);
        lemma_flag_begins("--panic"@);
        lemma_flag_begins("--hit"@);
        lemma_flag_begins("--log"@);
    }
    assert(!more.contains("--fn"@) && !more.contains("--panic"@));
    assert(!more.contains("--hit"@) && !more.contains("--log"@));
    lemma_not_there(more, "--hit"@);
    lemma_not_there(more, "--log"@);
    options_are_the_words_behind_their_flag(one, "--if"@, seq![cond], Seq::empty());
    assert(one + seq!["--if"@] + seq![cond] + Seq::<Seq<char>>::empty() =~= more);
    assert(join(seq![cond], " "@) == cond);
}

proof fn lemma_flag_begins(flag: Seq<char>)
    requires
        flag == "--fn"@ || flag == "--panic"@ || flag == "--hit"@ || flag == "--log"@,
    ensures
        "--"@.is_prefix_of(flag),
{
    reveal_strlit("--");
    reveal_strlit("--fn");
    reveal_strlit("--panic");
    reveal_strlit("--hit");
    reveal_strlit("--log");
    assert(flag.take(2) =~= "--"@);
}

/// The client asks for a breakpoint on a line of a file, under a condition.
pub open spec fn asks_for_line(need: Need<Shown>, path: Seq<char>, line: int, cond: Doc) -> bool {
    need matches Need::Want(WantModel::Send { payload, secs }) && payload.at("cmd"@) == Doc::Str(
        "bp_add"@,
    ) && payload.at("file"@) == Doc::Str(path) && payload.at("line"@) == Doc::Int(line)
        && payload.at("condition"@) == cond && payload.at("hit"@) is Null && payload.at("log"@) is Null
}

// ---------------------------------------------------------------------------
// Evaluating and setting
// ---------------------------------------------------------------------------

/// The paths to evaluate are the words that are no flags, in their order.
pub proof fn flags_are_not_evaluated(rest: Seq<Seq<char>>)
    ensures
        eval_paths(rest) == rest.filter(|t: Seq<char>| !"--"@.is_prefix_of(t)),
    decreases rest.len(),
{
    reveal(Seq::filter);
    if rest.len() > 0 {
        flags_are_not_evaluated(rest.drop_last());
    }
}

proof fn lemma_eval_replies(paths: Seq<Seq<char>>, i: int, answers: Seq<AnswerModel>, at: int)
    requires
        0 <= i <= paths.len(),
        0 <= at <= answers.len(),
    ensures
        at + i <= answers.len() ==> (eval_replies(paths, i, answers, at) matches Need::Done(rs, n)
            && n == at + i && rs.len() == i && forall|k: int|
            0 <= k < i ==> #[trigger] rs[k] == reply_in(answers[at + k])),
        at + i > answers.len() ==> eval_replies(paths, i, answers, at) == Need::<
            Seq<Option<Doc>>,
        >::Want(WantModel::Send { payload: eval_payload(paths[answers.len() - at]), secs: 300 }),
    decreases i,
{
    if i > 0 {
        lemma_eval_replies(paths, i - 1, answers, at);
    }
}

/// Every path is evaluated by a request of its own, in their order; what is
/// shown is one row for each, of the path and the value in its own response.
pub proof fn every_path_is_evaluated_and_shown(
    rest: Seq<Seq<char>>,
    cwd: Seq<char>,
    answers: Seq<AnswerModel>,
    k: int,
)
    requires
        rest.filter(|t: Seq<char>| !"--"@.is_prefix_of(t)).len() > 0,
    ensures
        ({
            let paths = rest.filter(|t: Seq<char>| !"--"@.is_prefix_of(t));
            let need = command_need("eval"@, rest, cwd, answers, 0);
            &&& answers.len() < paths.len() ==> (need matches Need::Want(
                WantModel::Send { payload, secs },
            ) && payload.at("cmd"@) == Doc::Str("eval"@) && payload.at("expr"@) == Doc::Str(
                paths[answers.len() as int],
            ))
            &&& answers.len() >= paths.len() ==> (need matches Need::Done(shown, n) && n
                == paths.len() && shown.value.at("results"@).items().len() == paths.len() && exists|
                rows: Seq<Seq<char>>,
            |
                {
                    &&& shown.text == #[trigger] join(rows, "\n"@)
                    &&& rows.len() == paths.len()
                    &&& 0 <= k < paths.len() ==> (reply_in(answers[k]) matches Some(d) ==> (d.at(
                        "ok"@,
                    ) == Doc::Bool(true) && d.at("value"@) is Str ==> rows[k] == paths[k] + " = "@
                        + d.at("value"@).text_or(""@)))
                    &&& 0 <= k < paths.len() && reply_in(answers[k]) is None ==> rows[k] == paths[k]
                        + " = "@ + "error"@
                })
        }),
{
    flags_are_not_evaluated(rest);
    lemma_subcommands();
    lemma_keys();
    let paths = eval_paths(rest);
    lemma_eval_replies(paths, paths.len() as int, answers, 0);
    if answers.len() >= paths.len() {
        let rs = match eval_replies(paths, paths.len() as int, answers, 0) {
            Need::Done(rs, _) => rs,
            Need::Want(_) => Seq::empty(),
        };
        let rows = crate::client::eval_rows(paths, rs);
        assert(eval_shown(paths, rs).text == join(rows, "\n"@));
        if 0 <= k < paths.len() {
            assert(rs[k] == reply_in(answers[0 + k]));
            assert(rows[k] == eval_row(paths[k], rs[k]));
        }
    }
}

proof fn lemma_set_parts(path: Seq<char>, value: Seq<char>)
    requires
        path.len() > 0,
        !white(path[0]),
        !white(path.last()),
        !path.contains('='),
        value.len() > 0,
        !white(value[0]),
        !white(value.last()),
    ensures
        set_parts(seq![path, "="@, value]) == (path, value),
{
    reveal_strlit("=");
    reveal_strlit(" ");
    let body = seq![path, "="@, value];
    lemma_join_push(seq![path], " "@, "="@);
    assert(seq![path].push("="@) =~= seq![path, "="@]);
    lemma_join_push(seq![path, "="@], " "@, value);
    assert(seq![path, "="@].push(value) =~= body);
    let s = join(body, " "@);
    assert(s == path + " "@ + "="@ + " "@ + value);
    let k = path.len() as int + 1;
    assert(s.subrange(k, k + 1) =~= "="@);
    assert(occurs_at(s, "="@, k));
    assert forall|j: int| 0 <= j < k implies !#[trigger] occurs_at(s, "="@, j) by {
        if occurs_at(s, "="@, j) {
            assert(s.subrange(j, j + 1)[0] == s[j]);
            if j < path.len() {
                assert(s[j] == path[j]);
                assert(path.contains(path[j]));
            }
        }
    }
    lemma_found_from(s, "="@, 0, k);
    let none = Seq::<char>::empty();
    assert(s.take(k) =~= none + path + " "@);
    lemma_trim_around(none, path, " "@);
    assert(s.skip(k + 1) =~= " "@ + value + none);
    lemma_trim_around(" "@, value, none);
}

proof fn lemma_set_body(path: Seq<char>, value: Seq<char>)
    requires
        path != "--then"@,
        value != "--then"@,
    ensures
        set_body(seq![path, "="@, value]) == seq![path, "="@, value],
        set_body(seq![path, "="@, value, "--then"@, "step"@]) == seq![path, "="@, value],
{
    reveal_strlit("=");
    reveal_strlit("--then");
    let body = seq![path, "="@, value];
    assert("="@.len() == 1 && "--then"@.len() == 6);
    assert(!body.contains("--then"@)) by {
        assert(body[0] == path && body[1] == "="@ && body[2] == value);
    }
    lemma_not_there(body, "--then"@);
    let long = seq![path, "="@, value, "--then"@, "step"@];
    assert(long[0] == path && long[1] == "="@ && long[2] == value && long[3] == "--then"@);
    lemma_first_index_at(long, "--then"@, 0, 3);
    assert(long.take(3) =~= body);
}

/// A path and a value with an equal sign between them, the first one, are what
/// is set.
pub proof fn a_value_is_set_at_its_path(path: Seq<char>, value: Seq<char>, cwd: Seq<char>)
    requires
        path.len() > 0,
        !white(path[0]),
        !white(path.last()),
        !path.contains('='),
        value.len() > 0,
        !white(value[0]),
        !white(value.last()),
        path != "--then"@,
        value != "--then"@,
    ensures
        set_parts(seq![path, "="@, value]) == (path, value),
        calls_for("set"@, seq![path, "="@, value], cwd, OpModel::Assign { path, value }),
        set_body(seq![path, "="@, value, "--then"@, "step"@]) == seq![path, "="@, value],
{
    lemma_set_parts(path, value);
    lemma_set_body(path, value);
    lemma_subcommands();
    lemma_commands();
    lemma_keys();
    assert(calls_for("set"@, seq![path, "="@, value], cwd, OpModel::Assign { path, value }));
}

// ---------------------------------------------------------------------------
// What is shown
// ---------------------------------------------------------------------------

/// A subcommand that asks for a text shows that text, and one that runs the
/// program shows the stop that it came to; the value is the response.
pub proof fn answers_are_shown(v: Doc, text: Seq<char>, rest: Seq<Seq<char>>, cwd: Seq<char>)
    requires
        v.at("ok"@) == Doc::Bool(true),
    ensures
        ({
            let got = seq![AnswerModel::Reply(Some(v))];
            &&& v.at("breakpoints"@) == Doc::Str(text) ==> command_need("breaks"@, rest, cwd, got, 0)
                == Need::Done(Shown { text, value: definite(Some(v)) }, 1)
            &&& v.at("threads"@) == Doc::Str(text) ==> command_need("threads"@, rest, cwd, got, 0)
                == Need::Done(Shown { text, value: definite(Some(v)) }, 1)
            &&& v.at("vars"@) == Doc::Str(text) ==> command_need("vars"@, rest, cwd, got, 0)
                == Need::Done(Shown { text, value: definite(Some(v)) }, 1)
            &&& v.at("bt"@) == Doc::Str(text) ==> command_need("bt"@, rest, cwd, got, 0)
                == Need::Done(Shown { text, value: definite(Some(v)) }, 1)
            &&& v.at("source"@) == Doc::Str(text) ==> command_need("list"@, rest, cwd, got, 0)
                == Need::Done(Shown { text, value: definite(Some(v)) }, 1)
            &&& v.at("watches"@) == Doc::Str(text) ==> command_need("watch-expr"@, rest, cwd, got, 0)
                == Need::Done(Shown { text, value: definite(Some(v)) }, 1)
            &&& command_need("run"@, rest, cwd, got, 0) == Need::Done(
                Shown { text: stop_text(v.at("stop"@)), value: definite(Some(v)) },
                1,
            )
            &&& command_need("continue"@, rest, cwd, got, 0) == Need::Done(
                Shown { text: stop_text(v.at("stop"@)), value: definite(Some(v)) },
                1,
            )
            &&& command_need("step"@, rest, cwd, got, 0) == Need::Done(
                Shown { text: stop_text(v.at("stop"@)), value: definite(Some(v)) },
                1,
            )
            &&& command_need("pause"@, rest, cwd, got, 0) == Need::Done(
                Shown { text: stop_text(v.at("stop"@)), value: definite(Some(v)) },
                1,
            )
            &&& command_need("restart"@, rest, cwd, got, 0) == Need::Done(
                Shown { text: stop_text(v.at("stop"@)), value: definite(Some(v)) },
                1,
            )
            &&& command_need("thread"@, rest, cwd, got, 0) == Need::Done(
                Shown { text: stop_text(v.at("stop"@)), value: definite(Some(v)) },
                1,
            )
        }),
{
    lemma_subcommands();
    let got = seq![AnswerModel::Reply(Some(v))];
    assert(payload_of("breaks"@, rest) is Some);
    assert(argument_error("breaks"@, rest) is None);
    assert(payload_of("threads"@, rest) is Some);
    assert(argument_error("threads"@, rest) is None);
    assert(payload_of("vars"@, rest) is Some);
    assert(argument_error("vars"@, rest) is None);
    assert(payload_of("bt"@, rest) is Some);
    assert(argument_error("bt"@, rest) is None);
    assert(payload_of("list"@, rest) is Some);
    assert(argument_error("list"@, rest) is None);
    assert(payload_of("watch-expr"@, rest) is Some);
    assert(argument_error("watch-expr"@, rest) is None);
    assert(payload_of("run"@, rest) is Some);
    assert(payload_of("continue"@, rest) is Some);
    assert(payload_of("step"@, rest) is Some);
    assert(payload_of("pause"@, rest) is Some);
    assert(payload_of("restart"@, rest) is Some);
    assert(payload_of("thread"@, rest) is Some);
}

/// A subcommand that lacks what it needs sends nothing: that is said, as an
/// error of the user's.
pub proof fn missing_arguments_are_errors(
    cmd: Seq<char>,
    cwd: Seq<char>,
    answers: Seq<AnswerModel>,
)
    requires
        cmd == "break"@ || cmd == "watch"@ || cmd == "until"@ || cmd == "eval"@ || cmd == "set"@
            || cmd == "def"@ || cmd == "refs"@ || cmd == "hover"@,
    ensures
        command_need(cmd, Seq::empty(), cwd, answers, 0) matches Need::Done(shown, n) && n == 0
            && shown.value.at("status"@) == Doc::Str("user_error"@) && shown.value.at("ok"@)
            == Doc::Bool(false) && "error: "@.is_prefix_of(shown.text),
{
    lemma_subcommands();
    lemma_keys();
    let none = Seq::<Seq<char>>::empty();
    lemma_not_there(none, "--then"@);
    assert(eval_paths(none).len() == 0);
    assert(set_body(none) == none);
    let e = argument_error(cmd, none)->0;
    assert(("error: "@ + e).take("error: "@.len() as int) =~= "error: "@);
}

/// A frame is shown by its source and its variables, and the state by its stop,
/// its variables and the watches where there are any.
pub proof fn frames_and_states_are_shown(
    v: Doc,
    rest: Seq<Seq<char>>,
    source: Seq<char>,
    vars: Seq<char>,
    watches: Seq<char>,
)
    requires
        v.at("source"@) == Doc::Str(source),
        v.at("vars"@) == Doc::Str(vars),
    ensures
        ({
            let fine = v.at("ok"@) == Doc::Bool(true);
            let framed = source + "\n"@ + "locals:"@ + "\n"@ + vars;
            let stopped = stop_text(v.at("stop"@)) + "\n"@ + "locals:"@ + "\n"@ + vars;
            &&& fine ==> reply_text("frame"@, rest, Some(v)) == framed
            &&& fine ==> reply_text("up"@, rest, Some(v)) == framed
            &&& fine ==> reply_text("down"@, rest, Some(v)) == framed
            &&& v.at("ok"@) == Doc::Bool(false) ==> reply_text("frame"@, rest, Some(v))
                == "no such frame"@ && reply_text("up"@, rest, Some(v)) == "no such frame"@
            &&& fine && v.at("watches"@) is Null ==> reply_text("state"@, rest, Some(v)) == stopped
            &&& fine && v.at("watches"@) == Doc::Str(watches) && watches.len() > 0 ==> reply_text(
                "state"@,
                rest,
                Some(v),
            ) == stopped + "\n"@ + ("watches:\n"@ + watches)
        }),
{
    lemma_subcommands();
    let nl = "\n"@;
    let one = seq![source];
    lemma_join_push(one, nl, "locals:"@);
    lemma_join_push(one.push("locals:"@), nl, vars);
    assert(listed(v, "source"@).push("locals:"@) + listed(v, "vars"@) =~= one.push(
        "locals:"@,
    ).push(vars));
    let top = seq![stop_text(v.at("stop"@))];
    lemma_join_push(top, nl, "locals:"@);
    lemma_join_push(top.push("locals:"@), nl, vars);
    let three = top.push("locals:"@).push(vars);
    lemma_join_push(three, nl, "watches:\n"@ + watches);
    let head = seq![stop_text(v.at("stop"@)), "locals:"@];
    assert(head + listed(v, "vars"@) =~= three);
    assert(three + Seq::<Seq<char>>::empty() =~= three);
    assert(three + seq!["watches:\n"@ + watches] =~= three.push("watches:\n"@ + watches));
}

/// A breakpoint that was set is shown by its number, and by what it is on; one
/// on a line that did not bind says so.
pub proof fn breakpoints_are_shown_by_their_number(v: Doc, spec: Seq<char>, n: int)
    requires
        v.at("ok"@) == Doc::Bool(true),
        v.at("id"@) == Doc::Int(n),
    ensures
        ({
            let id = json_text(Doc::Int(n));
            let set = "breakpoint ["@ + id + "] "@ + spec;
            &&& v.at("verified"@) == Doc::Bool(true) ==> line_break_text(spec, Some(v)) == set + ""@
            &&& v.at("verified"@) is Null ==> line_break_text(spec, Some(v)) == set + ""@
            &&& v.at("verified"@) == Doc::Bool(false) ==> line_break_text(spec, Some(v)) == set
                + "  (UNVERIFIED — no code at that line?)"@
            &&& reply_text("watch"@, seq![spec], Some(v)) == "watchpoint ["@ + id + "] on "@ + spec
                + " (breaks when it changes)"@
            &&& reply_text("break"@, seq!["--fn"@, spec], Some(v)) == "fn breakpoint ["@ + id + "]"@
            &&& line_break_text(spec, None) == "error setting breakpoint"@
        }),
{
    lemma_subcommands();
    assert(seq!["--fn"@, spec][0] == "--fn"@);
    assert(seq!["--fn"@, spec].contains("--fn"@));
}

/// What was found is shown row by row: a symbol with its name, its container,
/// its file and its line, a place with its file, its line and its column.
pub proof fn what_was_found_is_shown(
    v: Doc,
    rest: Seq<Seq<char>>,
    found: Seq<Doc>,
    i: int,
    name: Seq<char>,
    container: Seq<char>,
    file: Seq<char>,
    text: Seq<char>,
)
    requires
        v.at("ok"@) == Doc::Bool(true),
        0 <= i < found.len(),
        found[i].at("name"@) == Doc::Str(name),
        found[i].at("file"@) == Doc::Str(file),
    ensures
        v.at("symbols"@) == Doc::Arr(found) && found[i].at("container"@) == Doc::Str(container)
            ==> exists|rows: Seq<Seq<char>>|
            reply_text("where"@, rest, Some(v)) == #[trigger] join(rows, "\n"@) && rows.len()
                == found.len() && rows[i] == "  "@ + name + (" ("@ + container + ")"@) + "  "@ + file
                + ":"@ + json_text(found[i].at("line"@)),
        v.at("locations"@) == Doc::Arr(found) ==> exists|rows: Seq<Seq<char>>|
            reply_text("refs"@, rest, Some(v)) == #[trigger] join(rows, "\n"@) && reply_text(
                "def"@,
                rest,
                Some(v),
            ) == join(rows, "\n"@) && rows.len() == found.len() && rows[i] == "  "@ + file + ":"@
                + json_text(found[i].at("line"@)) + ":"@ + json_text(found[i].at("col"@)),
        v.at("locations"@) == Doc::Arr(Seq::empty()) ==> reply_text("refs"@, rest, Some(v))
            == "(none)"@,
        v.at("hover"@) == Doc::Str(text) && text.len() > 0 ==> reply_text("hover"@, rest, Some(v))
            == text,
{
    lemma_subcommands();
    if v.at("symbols"@) == Doc::Arr(found) && found[i].at("container"@) == Doc::Str(container) {
        let rows = symbol_rows(found);
        assert(rows[i] == symbol_row(found[i]));
        assert(reply_text("where"@, rest, Some(v)) == join(rows, "\n"@));
    }
    if v.at("locations"@) == Doc::Arr(found) {
        let rows = place_rows(found);
        assert(rows[i] == place_row(found[i]));
        assert(reply_text("refs"@, rest, Some(v)) == join(rows, "\n"@));
    }
}

} // verus!
