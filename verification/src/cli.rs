//! The command line as a whole: which role a run of `rdbg` plays, what it
//! prints and how it exits.

use vstd::prelude::*;
use crate::batch::{run_batch_full, script_need};
use crate::client::{cmd_of, command, command_need, run_command_full, USAGE};
use crate::json::{is_line, json_text, no_keys, opt_view, parsed, reads_back, Doc, Json};
use crate::launch::{do_launch, launch_need, print, prints, Exit, ExitModel, Verb};
use crate::report::{code_of, definite, exit_code, jresp};
use crate::session::opt_text;
use crate::text::{
    copy_from, has, join, join_all, owned, same, trim, trimmed, views,
};
use crate::wants::{
    answers_in, obtain, send, sent, want, Answer, AnswerModel, Need, Pending, Want, WantModel,
};

verus! {

pub const VERSION: &'static str = "0.3.0";

/// The role that a run plays.
pub enum Role {
    /// The daemon of a workspace.
    Daemon(String),
    /// The MCP server.
    Mcp,
    /// The command-line client.
    Client,
}

pub ghost enum RoleModel {
    Daemon(Seq<char>),
    Mcp,
    Client,
}

impl View for Role {
    type V = RoleModel;

    open spec fn view(&self) -> RoleModel {
        match self {
            Role::Daemon(ws) => RoleModel::Daemon(ws@),
            Role::Mcp => RoleModel::Mcp,
            Role::Client => RoleModel::Client,
        }
    }
}

pub open spec fn role_of(args: Seq<Seq<char>>) -> RoleModel {
    if args.len() > 0 && args[0] == "__daemon"@ {
        RoleModel::Daemon(
            if args.len() > 1 {
                args[1]
            } else {
                "."@
            },
        )
    } else if args.len() > 0 && args[0] == "mcp"@ {
        RoleModel::Mcp
    } else {
        RoleModel::Client
    }
}

/// One binary, three roles: the `rdbg` CLI (default), the per-project daemon
/// (`__daemon`, internal), and the MCP server (`mcp`).
pub fn role(args: &Vec<String>) -> (r: Role)
    ensures
        r@ == role_of(views(args@)),
{
    if args.len() == 0 {
        return Role::Client;
    }
    assert(views(args@)[0] == args@[0]@);
    if same(args[0].as_str(), "__daemon") {
        if args.len() > 1 {
            assert(views(args@)[1] == args@[1]@);
            Role::Daemon(owned(args[1].as_str()))
        } else {
            Role::Daemon(owned("."))
        }
    } else if same(args[0].as_str(), "mcp") {
        Role::Mcp
    } else {
        Role::Client
    }
}

/// The arguments but for those that are `s`.
pub open spec fn others(args: Seq<Seq<char>>, s: Seq<char>) -> Seq<Seq<char>>
    decreases args.len(),
{
    if args.len() == 0 {
        Seq::empty()
    } else if args.last() == s {
        others(args.drop_last(), s)
    } else {
        others(args.drop_last(), s).push(args.last())
    }
}

fn without(args: &Vec<String>, s: &str) -> (r: Vec<String>)
    ensures
        views(r@) == others(views(args@), s@),
{
    let ghost all = views(args@);
    let mut r: Vec<String> = Vec::new();
    let mut i: usize = 0;
    assert(all.take(0) =~= Seq::empty());
    assert(views(r@) =~= Seq::empty());
    while i < args.len()
        invariant
            i <= args.len(),
            all == views(args@),
            views(r@) == others(all.take(i as int), s@),
        decreases args.len() - i,
    {
        assert(all.take(i + 1).drop_last() =~= all.take(i as int));
        assert(all.take(i + 1).last() == args@[i as int]@);
        if !same(args[i].as_str(), s) {
            let ghost before = views(r@);
            r.push(owned(args[i].as_str()));
            assert(views(r@) =~= before.push(args@[i as int]@));
        }
        i += 1;
    }
    assert(all.take(all.len() as int) =~= all);
    r
}

/// A success of the client's own.
pub open spec fn plain_ok() -> Doc {
    no_keys().with("ok"@, Doc::Bool(true)).with("status"@, Doc::Str("ok"@))
}

fn make_ok() -> (r: Json)
    ensures
        r@ == plain_ok(),
{
    Json::obj().with("ok", Json::boolean(true)).with("status", Json::text("ok"))
}

pub open spec fn is_help(cmd: Seq<char>) -> bool {
    cmd == "--help"@ || cmd == "-h"@ || cmd == "help"@
}

pub open spec fn is_version(cmd: Seq<char>) -> bool {
    cmd == "--version"@ || cmd == "-V"@
}

pub open spec fn usage_exit(json: bool) -> ExitModel {
    if json {
        prints(json_text(plain_ok().with("usage"@, Doc::Str(USAGE@))), 0)
    } else {
        prints(USAGE@, 0)
    }
}

pub open spec fn version_exit(json: bool) -> ExitModel {
    if json {
        prints(json_text(plain_ok().with("version"@, Doc::Str(VERSION@))), 0)
    } else {
        prints("rdbg "@ + VERSION@, 0)
    }
}

/// The end of `down`: no daemon running is still a stopped daemon.
pub open spec fn down_exit(json: bool, r: Option<Doc>) -> ExitModel {
    if json {
        prints(
            json_text(
                match r {
                    Some(v) => definite(Some(v)),
                    None => plain_ok(),
                },
            ),
            0,
        )
    } else {
        prints("rdbg: daemon stopped"@, 0)
    }
}

/// `do`.
pub open spec fn do_need(
    rest: Seq<Seq<char>>,
    json: bool,
    cwd: Seq<char>,
    answers: Seq<AnswerModel>,
    at: int,
) -> Need<ExitModel> {
    match script_need(join(rest, " "@), cwd, answers, at) {
        Need::Want(w) => Need::Want(w),
        Need::Done(b, n) => Need::Done(
            if json {
                prints(json_text(b.value), exit_code(b.value))
            } else {
                ExitModel {
                    out: b.text,
                    err: ""@,
                    code: if b.errored {
                        1
                    } else {
                        0
                    },
                }
            },
            n,
        ),
    }
}

/// Any other subcommand.
pub open spec fn other_need(
    cmd: Seq<char>,
    rest: Seq<Seq<char>>,
    json: bool,
    cwd: Seq<char>,
    answers: Seq<AnswerModel>,
    at: int,
) -> Need<ExitModel> {
    match command_need(cmd, rest, cwd, answers, at) {
        Need::Want(w) => Need::Want(w),
        Need::Done(s, n) => Need::Done(
            if json {
                prints(json_text(s.value), exit_code(s.value))
            } else {
                prints(
                    s.text,
                    if s.text == USAGE@ {
                        2
                    } else {
                        0
                    },
                )
            },
            n,
        ),
    }
}

/// A subcommand, once the daemon is up.
pub open spec fn subcommand_need(
    cmd: Seq<char>,
    rest: Seq<Seq<char>>,
    json: bool,
    cwd: Seq<char>,
    answers: Seq<AnswerModel>,
    at: int,
) -> Need<ExitModel> {
    if cmd == "launch"@ {
        launch_need(Verb::Launch, rest, json, cwd, answers, at)
    } else if cmd == "trace"@ {
        launch_need(Verb::Trace, rest, json, cwd, answers, at)
    } else if cmd == "debug"@ {
        launch_need(Verb::Debug, rest, json, cwd, answers, at)
    } else if cmd == "do"@ {
        do_need(rest, json, cwd, answers, at)
    } else {
        other_need(cmd, rest, json, cwd, answers, at)
    }
}

/// The client.
pub open spec fn main_need(
    all: Seq<Seq<char>>,
    cwd: Seq<char>,
    answers: Seq<AnswerModel>,
) -> Need<ExitModel> {
    let json = all.contains("--json"@);
    let args = others(all, "--json"@);
    if args.len() == 0 || is_help(args[0]) {
        Need::Done(usage_exit(json), 0)
    } else if is_version(args[0]) {
        Need::Done(version_exit(json), 0)
    } else if args[0] == "down"@ {
        match sent(command("shutdown"@), 5, answers, 0) {
            Need::Want(w) => Need::Want(w),
            Need::Done(r, n) => Need::Done(down_exit(json, r), n),
        }
    } else {
        match obtain(WantModel::EnsureDaemon, answers, 0) {
            Need::Want(w) => Need::Want(w),
            Need::Done(_, n) => subcommand_need(args[0], args.skip(1), json, cwd, answers, n),
        }
    }
}

fn run_do(rest: &Vec<String>, json: bool, cwd: &str, answers: &Vec<Answer>, at: usize) -> (r:
    Pending<Exit>)
    requires
        at <= answers.len(),
    ensures
        match r {
            Pending::Want(q) => do_need(views(rest@), json, cwd@, answers_in(answers@), at as int)
                == Need::<ExitModel>::Want(q@),
            Pending::Done(x, n) => do_need(
                views(rest@),
                json,
                cwd@,
                answers_in(answers@),
                at as int,
            ) == Need::Done(x@, n as int) && at <= n <= answers.len() && (json ==> is_line(x.out@)),
        },
{
    // run several subcommands in one call: `rdbg do 'break f:L; continue; vars'`
    let script = join_all(rest, " ");
    match run_batch_full(script.as_str(), cwd, answers, at) {
        Pending::Want(q) => Pending::Want(q),
        Pending::Done(b, n) => {
            if json {
                let code = code_of(&b.value);
                Pending::Done(print(b.value.render(), code), n)
            } else {
                let code: i32 = if b.errored {
                    1
                } else {
                    0
                };
                Pending::Done(Exit { out: b.text, err: owned(""), code }, n)
            }
        },
    }
}

fn run_other(
    cmd: &str,
    rest: &Vec<String>,
    json: bool,
    cwd: &str,
    answers: &Vec<Answer>,
    at: usize,
) -> (r: Pending<Exit>)
    requires
        at <= answers.len(),
    ensures
        match r {
            Pending::Want(q) => other_need(
                cmd@,
                views(rest@),
                json,
                cwd@,
                answers_in(answers@),
                at as int,
            ) == Need::<ExitModel>::Want(q@),
            Pending::Done(x, n) => other_need(
                cmd@,
                views(rest@),
                json,
                cwd@,
                answers_in(answers@),
                at as int,
            ) == Need::Done(x@, n as int) && at <= n <= answers.len() && (json ==> is_line(x.out@)),
        },
{
    match run_command_full(cmd, rest, cwd, answers, at) {
        Pending::Want(q) => Pending::Want(q),
        Pending::Done(s, n) => {
            if json {
                let code = code_of(&s.value);
                Pending::Done(print(s.value.render(), code), n)
            } else {
                let code: i32 = if same(s.text.as_str(), USAGE) {
                    2
                } else {
                    0
                };
                Pending::Done(print(s.text, code), n)
            }
        },
    }
}

/// The client: what it prints and how it exits, or what it needs next. With
/// `--json` anywhere in the arguments each result is one compact JSON line with
/// a `status` outcome field instead of the human rendering: exactly one line,
/// whatever comes of it.
pub fn main(all: &Vec<String>, cwd: &str, answers: &Vec<Answer>) -> (r: Pending<Exit>)
    ensures
        match r {
            Pending::Want(q) => main_need(views(all@), cwd@, answers_in(answers@)) == Need::<
                ExitModel,
            >::Want(q@),
            Pending::Done(x, n) => main_need(views(all@), cwd@, answers_in(answers@))
                == Need::Done(x@, n as int) && n <= answers.len() && (views(all@).contains("--json"@)
                ==> is_line(x.out@)),
        },
{
    let json = has(all, "--json");
    let args = without(all, "--json");
    if args.len() == 0 {
        return Pending::Done(show_usage(json), 0);
    }
    assert(views(args@)[0] == args@[0]@);
    let cmd = args[0].as_str();
    if same(cmd, "--help") || same(cmd, "-h") || same(cmd, "help") {
        return Pending::Done(show_usage(json), 0);
    }
    if same(cmd, "--version") || same(cmd, "-V") {
        let line = if json {
            make_ok().with("version", Json::text(VERSION)).render()
        } else {
            let mut t = String::from_str("rdbg ");
            t.append(VERSION);
            t
        };
        return Pending::Done(print(line, 0), 0);
    }
    if same(cmd, "down") {
        return match send(cmd_of("shutdown"), 5, answers, 0) {
            Pending::Want(q) => Pending::Want(q),
            Pending::Done(resp, n) => {
                let line = if json {
                    match resp {
                        // no daemon running is still a stopped daemon
                        Some(v) => jresp(Some(v)).render(),
                        None => make_ok().render(),
                    }
                } else {
                    owned("rdbg: daemon stopped")
                };
                Pending::Done(print(line, 0), n)
            },
        };
    }
    let n: usize = match want(Want::EnsureDaemon, answers, 0) {
        Pending::Want(q) => return Pending::Want(q),
        Pending::Done(_, n) => n,
    };
    let rest = copy_from(&args, 1);
    assert(views(rest@) =~= views(args@).skip(1));
    if same(cmd, "launch") {
        do_launch(Verb::Launch, &rest, json, cwd, answers, n)
    } else if same(cmd, "trace") {
        do_launch(Verb::Trace, &rest, json, cwd, answers, n)
    } else if same(cmd, "debug") {
        do_launch(Verb::Debug, &rest, json, cwd, answers, n)
    } else if same(cmd, "do") {
        run_do(&rest, json, cwd, answers, n)
    } else {
        run_other(cmd, &rest, json, cwd, answers, n)
    }
}

fn show_usage(json: bool) -> (r: Exit)
    ensures
        r@ == usage_exit(json),
        json ==> is_line(r.out@),
{
    if json {
        print(make_ok().with("usage", Json::text(USAGE)).render(), 0)
    } else {
        print(owned(USAGE), 0)
    }
}

// ---------------------------------------------------------------------------
// Talking to the daemon
// ---------------------------------------------------------------------------

/// The socket that a daemon's address file names.
pub open spec fn named_socket(meta: Seq<char>) -> Option<Seq<char>> {
    match parsed(meta) {
        Some(d) => d.at("socket"@).text(),
        None => None,
    }
}

/// The socket that the text of a daemon's address file names.
pub fn socket_in(meta: &str) -> (r: Option<String>)
    ensures
        opt_text(r) == named_socket(meta@),
{
    match Json::parse(meta) {
        Some(d) => match d.at("socket").as_str() {
            Some(s) => Some(owned(s)),
            None => None,
        },
        None => None,
    }
}

/// A request as the line that is sent to the daemon.
pub fn request_line(payload: &Json) -> (r: String)
    ensures
        r@ == json_text(payload@) + "\n"@,
        is_line(r@),
{
    payload.render_line()
}

/// The response on a line from the daemon.
pub fn read_reply(line: &str) -> (r: Option<Json>)
    ensures
        opt_view(r) == parsed(trimmed(line@)),
        reads_back(trimmed(line@), opt_view(r)),
{
    let t = trim(line);
    Json::parse(t.as_str())
}

// ---------------------------------------------------------------------------
// Laws
// ---------------------------------------------------------------------------

/// With `--json` the exit code says the outcome: it is 0 exactly where the
/// outcome is `ok`, and 2 exactly where it is `user_error`.
pub proof fn exit_codes_follow_the_status(v: Doc)
    ensures
        exit_code(v) == 0 <==> v.at("status"@) == Doc::Str("ok"@),
        exit_code(v) == 2 <==> v.at("status"@) == Doc::Str("user_error"@),
        0 <= exit_code(v) <= 2,
{
    reveal_strlit("ok");
    reveal_strlit("user_error");
    assert("ok"@.len() == 2 && "user_error"@.len() == 10);
}

/// It makes no difference where among the arguments `--json` stands.
pub proof fn json_may_stand_anywhere(
    before: Seq<Seq<char>>,
    after: Seq<Seq<char>>,
    cwd: Seq<char>,
    answers: Seq<AnswerModel>,
)
    ensures
        main_need(before + seq!["--json"@] + after, cwd, answers) == main_need(
            seq!["--json"@] + before + after,
            cwd,
            answers,
        ),
{
    let j = "--json"@;
    let a = before + seq![j] + after;
    let b = seq![j] + before + after;
    assert(a[before.len() as int] == j);
    assert(b[0] == j);
    assert(a.contains(j) && b.contains(j));
    lemma_others_concat(before + seq![j], after, j);
    lemma_others_concat(before, seq![j], j);
    lemma_others_concat(seq![j] + before, after, j);
    lemma_others_concat(seq![j], before, j);
    reveal_with_fuel(others, 2);
    assert(seq![j].drop_last() =~= Seq::<Seq<char>>::empty());
    assert(others(seq![j], j) =~= Seq::<Seq<char>>::empty());
    assert(others(before, j) + Seq::<Seq<char>>::empty() =~= Seq::<Seq<char>>::empty() + others(
        before,
        j,
    ));
}

proof fn lemma_others_concat(x: Seq<Seq<char>>, y: Seq<Seq<char>>, s: Seq<char>)
    ensures
        others(x + y, s) == others(x, s) + others(y, s),
    decreases y.len(),
{
    if y.len() == 0 {
        assert(x + y =~= x);
        assert(others(x, s) + Seq::<Seq<char>>::empty() =~= others(x, s));
    } else {
        assert((x + y).drop_last() =~= x + y.drop_last());
        assert((x + y).last() == y.last());
        lemma_others_concat(x, y.drop_last(), s);
        assert(others(x, s) + others(y.drop_last(), s).push(y.last()) =~= (others(x, s) + others(
            y.drop_last(),
            s,
        )).push(y.last()));
    }
}

/// What a run of the program is: the daemon of the workspace that is named,
/// the server of the tools, or a client, by its first argument.
pub proof fn the_first_argument_tells_the_role(ws: Seq<char>, args: Seq<Seq<char>>)
    ensures
        role_of(seq!["__daemon"@, ws]) == RoleModel::Daemon(ws),
        role_of(seq!["mcp"@]) == RoleModel::Mcp,
        role_of(Seq::empty()) == RoleModel::Client,
        args.len() > 0 && args[0] != "__daemon"@ && args[0] != "mcp"@ ==> role_of(args)
            == RoleModel::Client,
{
    reveal_strlit("__daemon");
    reveal_strlit("mcp");
    assert("__daemon"@.len() == 8 && "mcp"@.len() == 3);
}

/// The daemon is brought up for every subcommand but the one that takes it
/// down; help and the version need none.
pub proof fn the_daemon_is_up_for_every_subcommand(
    cmd: Seq<char>,
    rest: Seq<Seq<char>>,
    cwd: Seq<char>,
)
    requires
        cmd != "--json"@,
        !rest.contains("--json"@),
    ensures
        ({
            let args = seq![cmd] + rest;
            let need = main_need(args, cwd, Seq::empty());
            &&& cmd == "down"@ ==> (need matches Need::Want(WantModel::Send { payload, secs })
                && payload.at("cmd"@) == Doc::Str("shutdown"@))
            &&& cmd == "--help"@ || cmd == "-h"@ || cmd == "help"@ ==> (need matches Need::Done(x, n)
                && n == 0 && x.out == USAGE@ + "\n"@ && x.code == 0)
            &&& cmd == "--version"@ || cmd == "-V"@ ==> (need matches Need::Done(x, n) && n == 0
                && x.out == "rdbg "@ + VERSION@ + "\n"@ && x.code == 0)
            &&& cmd != "down"@ && cmd != "--help"@ && cmd != "-h"@ && cmd != "help"@ && cmd
                != "--version"@ && cmd != "-V"@ ==> need == Need::<ExitModel>::Want(
                WantModel::EnsureDaemon,
            )
        }),
{
    reveal_strlit("down");
    reveal_strlit("--help");
    reveal_strlit("-h");
    reveal_strlit("help");
    reveal_strlit("--version");
    reveal_strlit("-V");
    assert("down"@.len() == 4 && "--help"@.len() == 6 && "-h"@.len() == 2 && "help"@.len() == 4
        && "--version"@.len() == 9 && "-V"@.len() == 2);
    assert("down"@[0] == 'd' && "help"@[0] == 'h' && "-h"@[1] == 'h' && "-V"@[1] == 'V');
    let args = seq![cmd] + rest;
    lemma_others_none(args, "--json"@);
    assert(!args.contains("--json"@)) by {
        if args.contains("--json"@) {
            let i = choose|i: int| 0 <= i < args.len() && args[i] == "--json"@;
            if i > 0 {
                assert(rest.contains(rest[i - 1]));
            }
        }
    }
    assert(args[0] == cmd);
}

proof fn lemma_others_none(args: Seq<Seq<char>>, s: Seq<char>)
    ensures
        !args.contains(s) ==> others(args, s) == args,
    decreases args.len(),
{
    if !args.contains(s) && args.len() > 0 {
        assert(args.contains(args.last()));
        assert(!args.drop_last().contains(s)) by {
            if args.drop_last().contains(s) {
                let i = choose|i: int| 0 <= i < args.drop_last().len() && args.drop_last()[i] == s;
                assert(args.contains(args[i]));
            }
        }
        lemma_others_none(args.drop_last(), s);
        assert(args.drop_last().push(args.last()) =~= args);
    }
}

/// A subcommand prints its text, or as JSON its value on one line; as JSON the
/// exit code follows the outcome, and else it is zero but for one that is
/// unknown. A batch prints the text of its steps, and exits with one where a
/// step failed.
pub proof fn what_is_shown_is_printed(
    cmd: Seq<char>,
    rest: Seq<Seq<char>>,
    cwd: Seq<char>,
    answers: Seq<AnswerModel>,
    at: int,
)
    ensures
        command_need(cmd, rest, cwd, answers, at) matches Need::Done(s, n) ==> {
            &&& other_need(cmd, rest, true, cwd, answers, at) matches Need::Done(x, k) && k == n
                && x.out == json_text(s.value) + "\n"@ && x.code == exit_code(s.value)
            &&& other_need(cmd, rest, false, cwd, answers, at) matches Need::Done(x, k) && k == n
                && x.out == s.text + "\n"@ && (s.text != USAGE@ ==> x.code == 0) && (s.text == USAGE@
                ==> x.code == 2)
        },
        script_need(join(rest, " "@), cwd, answers, at) matches Need::Done(b, n) ==> {
            &&& do_need(rest, true, cwd, answers, at) matches Need::Done(x, k) && k == n && x.out
                == json_text(b.value) + "\n"@ && x.code == exit_code(b.value)
            &&& do_need(rest, false, cwd, answers, at) matches Need::Done(x, k) && k == n && x.out
                == b.text && (b.errored ==> x.code == 1) && (!b.errored ==> x.code == 0)
        },
{
}

/// The version and the end of the daemon are told, as JSON in a response that
/// succeeded; and no daemon that runs is a stopped one too.
pub proof fn the_version_and_the_end_are_told(v: Doc)
    ensures
        version_exit(false).out == "rdbg "@ + VERSION@ + "\n"@,
        version_exit(true).out == json_text(
            no_keys().with("ok"@, Doc::Bool(true)).with("status"@, Doc::Str("ok"@)).with(
                "version"@,
                Doc::Str(VERSION@),
            ),
        ) + "\n"@,
        down_exit(false, Some(v)).out == "rdbg: daemon stopped"@ + "\n"@,
        down_exit(false, None) == down_exit(false, Some(v)),
        v is Obj && v.has("status"@) ==> down_exit(true, Some(v)).out == json_text(v) + "\n"@,
        version_exit(true).code == 0 && version_exit(false).code == 0,
        down_exit(true, Some(v)).code == 0 && down_exit(false, None).code == 0,
{
}

} // verus!
