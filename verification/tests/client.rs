use rdbg::batch::run_batch_full;
use rdbg::cli::{main, read_reply, request_line, role, socket_in, Role};
use rdbg::client::{eval_all, opt, opt_multi, parse_bp_soft, run_command_full, USAGE};
use rdbg::json::Json;
use rdbg::report::{err_value, fmt_stop, jresp};
use rdbg::wants::{Answer, Built, Pending, Want};

fn j(text: &str) -> Json {
    Json::parse(text).unwrap()
}

fn strings(args: &[&str]) -> Vec<String> {
    args.iter().map(|s| s.to_string()).collect()
}

/// Drives the client; gives its result and what was asked of the surroundings.
fn drive<T>(
    answer: impl Fn(&Want) -> Answer,
    next: impl Fn(&Vec<Answer>) -> Pending<T>,
) -> (T, Vec<String>) {
    let mut answers = vec![];
    let mut log = vec![];
    loop {
        match next(&answers) {
            Pending::Want(w) => {
                log.push(match &w {
                    Want::EnsureDaemon => "daemon".to_string(),
                    Want::Send { payload, .. } => payload.render(),
                    Want::Resolve { path } => format!("resolve {path}"),
                    Want::Note { text } => format!("note {text}"),
                    Want::Cargo { dir, args } => format!("cargo {dir} {args:?}"),
                    Want::ListTests { exe, filter } => format!("list {exe} {filter}"),
                });
                answers.push(answer(&w));
            }
            Pending::Done(t, n) => {
                assert_eq!(n, answers.len());
                return (t, log);
            }
        }
    }
}

fn replying(text: &'static str) -> impl Fn(&Want) -> Answer {
    move |w| match w {
        Want::Send { .. } => Answer::Reply(Json::parse(text)),
        Want::Resolve { path } => Answer::Text(Some(format!("/real{path}"))),
        _ => Answer::Done,
    }
}

fn run(line: &str, reply: &'static str) -> (String, Json, Vec<String>) {
    let words: Vec<String> = line.split_whitespace().map(String::from).collect();
    let rest = words[1..].to_vec();
    let (r, log) = drive(replying(reply), |a| run_command_full(&words[0], &rest, "/w", a, 0));
    (r.text, r.value, log)
}

#[test]
fn options_are_read_by_their_flag() {
    let args = strings(&["f.rs:3", "--if", "i", ">", "2", "--hit", "4", "--log"]);
    assert_eq!(opt(&args, "--hit"), Some("4"));
    assert_eq!(opt(&args, "--log"), None);
    assert_eq!(opt_multi(&args, "--if"), Some("i > 2".to_string()));
    assert_eq!(opt_multi(&args, "--log"), None);
    assert_eq!(opt_multi(&args, "--x"), None);
}

#[test]
fn breakpoint_specs_name_a_file_and_a_line() {
    let none = |_: &Want| Answer::Text(None);
    let (r, log) = drive(none, |a| parse_bp_soft("src/a.rs:12", "/w", a, 0));
    assert_eq!(r, Ok(("/w/src/a.rs".to_string(), 12)));
    assert_eq!(log, ["resolve /w/src/a.rs"]);
    let (r, _) = drive(replying(""), |a| parse_bp_soft("/a.rs:1", "/w", a, 0));
    assert_eq!(r, Ok(("/real/a.rs".to_string(), 1)));
    let (r, _) = drive(none, |a| parse_bp_soft("a.rs", "/w", a, 0));
    assert_eq!(r, Err("bad breakpoint \"a.rs\" (want file.rs:line)".to_string()));
    let (r, _) = drive(none, |a| parse_bp_soft("a.rs:x", "/w", a, 0));
    assert_eq!(r, Err("bad line in \"a.rs:x\"".to_string()));
}

#[test]
fn subcommands_become_requests() {
    for (line, payload) in [
        ("status", r#"{"cmd":"status"}"#),
        ("break --fn app::f", r#"{"cmd":"bp_fn","name":"app::f"}"#),
        ("break --panic", r#"{"cmd":"bp_panic"}"#),
        ("watch sum", r#"{"cmd":"bp_watch","var":"sum"}"#),
        ("breaks", r#"{"cmd":"bp_list"}"#),
        ("break-rm 3", r#"{"cmd":"bp_rm","id":"3"}"#),
        ("break-on 3", r#"{"cmd":"bp_enable","enabled":true,"id":"3"}"#),
        ("break-off panic", r#"{"cmd":"bp_enable","enabled":false,"id":"panic"}"#),
        ("run", r#"{"cmd":"continue"}"#),
        ("continue --until sum >= 3", r#"{"cmd":"continue_until","until":"sum >= 3"}"#),
        ("step", r#"{"cmd":"step","kind":"over"}"#),
        ("step in", r#"{"cmd":"step","kind":"in"}"#),
        ("pause", r#"{"cmd":"pause"}"#),
        ("restart", r#"{"cmd":"restart"}"#),
        ("threads", r#"{"cmd":"threads"}"#),
        ("thread 4", r#"{"cmd":"thread","id":4}"#),
        ("thread x", r#"{"cmd":"thread","id":0}"#),
        ("frame 2", r#"{"cmd":"frame","index":2}"#),
        ("up", r#"{"cmd":"frame","dir":"up"}"#),
        ("down", r#"{"cmd":"frame","dir":"down"}"#),
        ("vars", r#"{"cmd":"vars","full":false}"#),
        ("vars --depth 5 --full", r#"{"cmd":"vars","depth":5,"full":true}"#),
        ("watch-expr add a . b", r#"{"action":"add","cmd":"watch_expr","expr":"a . b"}"#),
        ("watch-expr", r#"{"action":"list","cmd":"watch_expr","expr":null}"#),
        ("bt", r#"{"cmd":"bt"}"#),
        ("list", r#"{"cmd":"list","radius":6}"#),
        ("list --radius 2", r#"{"cmd":"list","radius":2}"#),
        ("state", r#"{"cmd":"state"}"#),
        ("stop", r#"{"cmd":"stop"}"#),
        ("where Foo", r#"{"cmd":"where","query":"Foo"}"#),
        ("def a.rs 3 x", r#"{"cmd":"def","col":0,"file":"a.rs","line":3}"#),
    ] {
        let (_, value, log) = run(line, r#"{"ok":true,"status":"ok"}"#);
        assert_eq!(log, [payload], "{line}");
        assert_eq!(value.at("status").as_str(), Some("ok"), "{line}");
    }
}

#[test]
fn line_breakpoints_carry_their_options() {
    let (text, _, log) = run(
        "break a.rs:3 --if i > 2 --hit 4 --log hi there",
        r#"{"ok":true,"id":7,"verified":false}"#,
    );
    assert_eq!(
        log,
        [
            "resolve /w/a.rs",
            r#"{"cmd":"bp_add","condition":"i > 2","file":"/real/w/a.rs","hit":4,"line":3,"log":"hi there"}"#,
        ]
    );
    assert_eq!(text, "breakpoint [7] a.rs:3  (UNVERIFIED — no code at that line?)");
    let (text, value, _) = run("break a.rs:3", r#"{"ok":false,"error":"no debug session"}"#);
    assert_eq!(text, "error setting breakpoint");
    assert_eq!(value.at("status").as_str(), Some("no_session"));
}

#[test]
fn argument_errors_stay_with_the_client() {
    for (line, error) in [
        ("break", "break needs file.rs:line"),
        ("break a.rs", "bad breakpoint \"a.rs\" (want file.rs:line)"),
        ("watch", "watch needs a variable"),
        ("until", "until needs file.rs:line"),
        ("eval --x", "eval needs at least one variable path"),
        ("set --then step", "set needs <path> = <value>"),
        ("hover", "needs <file> <line> <col>"),
    ] {
        let (text, value, log) = run(line, "{}");
        assert_eq!(text, format!("error: {error}"), "{line}");
        assert_eq!(value.render(), err_value("user_error", error).render(), "{line}");
        assert!(log.is_empty(), "{line}");
    }
    let (text, value, _) = run("bogus", "{}");
    assert_eq!(text, USAGE);
    assert_eq!(value.at("error").as_str(), Some("unknown subcommand \"bogus\""));
}

#[test]
fn several_paths_are_evaluated() {
    let (text, value, log) = run("eval a b.c", r#"{"ok":true,"status":"ok","value":"u32 = 1"}"#);
    assert_eq!(text, "a = u32 = 1\nb.c = u32 = 1");
    assert_eq!(log.len(), 2);
    assert_eq!(value.at("ok").as_bool(), Some(true));
    assert_eq!(value.at("results").as_array().unwrap()[1].at("expr").as_str(), Some("b.c"));
    let replies = vec![Some(j(r#"{"ok":true,"value":"1"}"#)), None, Some(j(r#"{"ok":false,"error":"x"}"#))];
    let r = eval_all(&strings(&["a", "b", "c"]), &replies);
    assert_eq!(r.text, "a = 1\nb = error\nc = error");
    assert_eq!(r.value.at("ok").as_bool(), Some(false));
    assert_eq!(r.value.at("status").as_str(), Some("timeout"));
    assert_eq!(r.value.at("error").as_str(), Some("the rdbg daemon did not respond"));
}

#[test]
fn a_value_is_set_and_the_program_resumed() {
    let (text, value, log) = run("set a.b = 5 --then step", r#"{"ok":true,"status":"ok","value":"a.b = 5","stop":null}"#);
    assert_eq!(
        log,
        [r#"{"cmd":"set","path":"a.b","value":"5"}"#, r#"{"cmd":"step","kind":"over"}"#]
    );
    assert_eq!(text, "a.b = 5\n(no stop — not paused)");
    assert!(value.at("then").is_object());
    let (_, _, log) = run("set a 5 6", r#"{"ok":true}"#);
    assert_eq!(log, [r#"{"cmd":"set","path":"a","value":"5 6"}"#]);
    let resume_fails = |w: &Want| match w {
        Want::Send { payload, .. } if payload.at("cmd").as_str() == Some("set") => {
            Answer::Reply(Json::parse(r#"{"ok":true,"status":"ok","value":"a = 1"}"#))
        }
        _ => Answer::Reply(None),
    };
    let (r, _) = drive(resume_fails, |a| {
        run_command_full("set", &strings(&["a", "=", "1", "--then"]), "/w", a, 0)
    });
    assert_eq!(r.value.at("ok").as_bool(), Some(false));
    assert_eq!(r.value.at("status").as_str(), Some("timeout"));
    assert_eq!(r.value.at("error").as_str(), Some("the rdbg daemon did not respond"));
}

#[test]
fn navigation_is_shown_as_rows() {
    let (text, _, _) = run("where F", r#"{"ok":true,"symbols":[{"name":"F","container":"m","file":"a.rs","line":3},{"name":"G","container":null,"file":"b.rs","line":4}]}"#);
    assert_eq!(text, "  F (m)  a.rs:3\n  G  b.rs:4");
    let (text, _, _) = run("refs a.rs 1 2", r#"{"ok":true,"locations":[{"file":"a.rs","line":3,"col":5}]}"#);
    assert_eq!(text, "  a.rs:3:5");
    let (text, _, _) = run("def a.rs 1 2", r#"{"ok":true,"locations":[]}"#);
    assert_eq!(text, "(none)");
    let (text, _, _) = run("hover a.rs 1 2", r#"{"ok":true,"hover":""}"#);
    assert_eq!(text, "(no hover)");
    let (text, _, _) = run("hover a.rs 1 2", r#"{"ok":false,"error":"e"}"#);
    assert_eq!(text, "error: e");
}

#[test]
fn stops_are_shown() {
    let stop = j(r#"{"exited":false,"reason":"breakpoint","frame":"f  a.rs:3","thread":1,"source":"  src","delta":"  + x","watches":""}"#);
    assert_eq!(fmt_stop(&stop), ">>> STOP [breakpoint] f  a.rs:3  (thread 1)\n  src\nchanged:\n  + x");
    assert_eq!(fmt_stop(&Json::Null), "(no stop — not paused)");
    let over = j(r#"{"exited":true,"exit_code":0,"output":"bye\n","breakpoints":[{"loc":"a.rs:3","verified":true,"hits":0},{"loc":"fn g","verified":false,"hits":0},{"loc":"b.rs:1","verified":true,"hits":2}]}"#);
    assert_eq!(
        fmt_stop(&over),
        ">>> program exited (code 0)\nbreakpoints that did not fire:\n  a.rs:3  — bound, 0 hits (never reached on this input)\n  fn g  — NOT BOUND (name/path unresolved; check spelling, or the symbol may not exist / be inlined)\n(bound-but-0-hits = the code didn't run that line/fn on this input; the value may be produced by a different path — try another break location.)\n--- program output ---\nbye"
    );
    let until = j(r#"{"exited":false,"reason":"breakpoint","frame":"f","thread":1,"until":{"outcome":"held","cond":"x == 1","stops":4,"observed":"u32 = 1"}}"#);
    assert!(fmt_stop(&until).starts_with(">>> UNTIL: condition `x == 1` held after 4 stop(s) — observed u32 = 1\n>>> STOP"));
}

#[test]
fn responses_are_definite() {
    assert_eq!(
        jresp(None).render(),
        r#"{"error":"the rdbg daemon did not respond","ok":false,"status":"timeout"}"#
    );
    assert_eq!(jresp(Some(j(r#"{"ok":true}"#))).render(), r#"{"ok":true,"status":"ok"}"#);
}

#[test]
fn a_batch_labels_its_subcommands() {
    let (b, log) = drive(replying(r#"{"ok":true,"status":"ok","bt":" >#0 f"}"#), |a| {
        run_batch_full(" bt ;; break-rm 1; ", "/w", a, 0)
    });
    assert_eq!(b.text, "$ bt\n >#0 f\n\n$ break-rm 1\nok\n\n");
    assert!(!b.errored);
    assert_eq!(log.len(), 2);
    assert_eq!(b.value.at("status").as_str(), Some("ok"));
    assert_eq!(b.value.at("steps").as_array().unwrap()[0].at("cmd").as_str(), Some("bt"));
}

#[test]
fn a_batch_stops_at_the_first_error_or_exit() {
    let (b, log) = drive(replying(r#"{"ok":false,"error":"breakpoint not found"}"#), |a| {
        run_batch_full("break-rm 9; bt", "/w", a, 0)
    });
    assert!(b.errored);
    assert_eq!(log.len(), 1);
    assert_eq!(b.value.at("status").as_str(), Some("user_error"));
    assert_eq!(b.value.at("error").as_str(), Some("breakpoint not found"));
    let (b, log) = drive(replying(r#"{"ok":true,"stop":{"exited":true,"exit_code":0}}"#), |a| {
        run_batch_full("continue; bt", "/w", a, 0)
    });
    assert!(!b.errored);
    assert_eq!(log.len(), 1);
    assert_eq!(b.text, "$ continue\n>>> program exited (code 0)\n\n");
    let (b, _) = drive(replying("{}"), |a| run_batch_full("nope x; bt", "/w", a, 0));
    assert_eq!(b.text, "$ nope x\nerror: unknown subcommand \"nope\" (not usable inside `do`)\n\n");
    assert!(b.errored);
}

fn cli(args: &[&str], reply: &'static str) -> (String, String, i32, Vec<String>) {
    let args = strings(args);
    let (e, log) = drive(replying(reply), |a| main(&args, "/w", a));
    (e.out, e.err, e.code, log)
}

#[test]
fn help_and_version_need_no_daemon() {
    let (out, _, code, log) = cli(&[], "{}");
    assert_eq!((out, code), (format!("{USAGE}\n"), 0));
    assert!(log.is_empty());
    assert_eq!(cli(&["--version"], "{}").0, "rdbg 0.3.0\n");
    assert_eq!(cli(&["-V", "--json"], "{}").0, "{\"ok\":true,\"status\":\"ok\",\"version\":\"0.3.0\"}\n");
    assert!(cli(&["--json", "help"], "{}").0.starts_with("{\"ok\":true,\"status\":\"ok\",\"usage\":"));
}

#[test]
fn json_may_stand_anywhere_in_the_arguments() {
    let reply = r#"{"ok":true,"status":"ok","bt":"x"}"#;
    for args in [["--json", "bt"], ["bt", "--json"]] {
        let (out, _, code, log) = cli(&args, reply);
        assert_eq!(out, "{\"bt\":\"x\",\"ok\":true,\"status\":\"ok\"}\n");
        assert_eq!(code, 0);
        assert_eq!(log, ["daemon", "{\"cmd\":\"bt\"}"]);
    }
}

#[test]
fn exit_codes_follow_the_outcome() {
    assert_eq!(cli(&["--json", "bt"], r#"{"ok":false,"error":"x"}"#).2, 2);
    assert_eq!(cli(&["--json", "bt"], r#"{"ok":false,"error":"timed out"}"#).2, 1);
    assert_eq!(cli(&["bt"], r#"{"ok":false,"error":"x"}"#).2, 0);
    assert_eq!(cli(&["nope"], "{}").2, 2);
    assert_eq!(cli(&["--json", "nope"], "{}").2, 2);
    assert_eq!(cli(&["do", "nope"], "{}").2, 1);
    assert_eq!(cli(&["--json", "do", "nope"], "{}").2, 2);
    assert_eq!(cli(&["do", "bt;", "bt"], r#"{"ok":true,"bt":"x"}"#).0, "$ bt\nx\n\n$ bt\nx\n\n");
}

#[test]
fn down_stops_the_daemon() {
    let (out, _, code, log) = cli(&["down"], "{}");
    assert_eq!((out.as_str(), code), ("rdbg: daemon stopped\n", 0));
    assert_eq!(log, ["{\"cmd\":\"shutdown\"}"]);
    let args = strings(&["down", "--json"]);
    let (e, _) = drive(|_| Answer::Reply(None), |a| main(&args, "/w", a));
    assert_eq!(e.out, "{\"ok\":true,\"status\":\"ok\"}\n");
}

fn building(w: &Want) -> Answer {
    match w {
        Want::Cargo { .. } => Answer::Built(Built::Ran {
            ok: true,
            out: r#"{"reason":"compiler-artifact","target":{"name":"app","kind":["bin"]},"profile":{"test":false},"executable":"/t/debug/app"}"#.to_string(),
            err: String::new(),
        }),
        Want::Resolve { path } => Answer::Text(Some(path.clone())),
        Want::Send { payload, .. } => Answer::Reply(Json::parse(match payload.at("cmd").as_str() {
            Some("trace") => r#"{"ok":true,"status":"ok","hits":2,"trace":"T","output":"o\n"}"#,
            Some("panic_triage") => r#"{"ok":true,"status":"ok","panicked":true,"message":"M","frame":"F","source":"S","vars":"V","bt":"B"}"#,
            _ => r#"{"ok":true,"status":"ok","stop":null}"#,
        })),
        _ => Answer::Done,
    }
}

#[test]
fn a_launch_builds_and_runs() {
    let args = strings(&["launch", "--cargo", ".", "--bin", "app", "--break", "a.rs:3", "--break-fn", "f", "--panic", "--", "x", "--json"]);
    let (e, log) = drive(building, |a| main(&args, "/w", a));
    assert_eq!(
        log,
        [
            "daemon",
            "note building …",
            "cargo . [\"build\", \"--message-format=json\", \"--bin\", \"app\"]",
            "resolve /w/a.rs",
            "note debugging app",
            "{\"args\":[\"x\"],\"breakpoints\":[{\"file\":\"/w/a.rs\",\"line\":3}],\"cmd\":\"launch\",\"cwd\":\"/t/debug\",\"fn_breaks\":[\"f\"],\"panic\":true,\"program\":\"/t/debug/app\"}",
        ]
    );
    assert_eq!(e.out, "{\"ok\":true,\"status\":\"ok\",\"stop\":null}\n");
    assert_eq!(e.code, 0);
}

#[test]
fn a_trace_runs_through_every_hit() {
    let args = strings(&["trace", "--bin-path", "/t/app", "--break", "a.rs:3", "--capture", "i, sum", "--max", "7"]);
    let (e, log) = drive(building, |a| main(&args, "/w", a));
    assert_eq!(log[1], "resolve /t/app");
    assert_eq!(log.last().unwrap(), "{\"captures\":[\"i\",\"sum\"],\"cmd\":\"trace\",\"max\":7}");
    assert_eq!(e.out, "trace: 2 hit(s)\nT\n--- output ---\no\n");
    assert_eq!(e.code, 0);
}

#[test]
fn a_panic_is_triaged_in_one_call() {
    let args = strings(&["debug", "--cargo", ".", "--panic", "--", "my_test"]);
    let (e, log) = drive(building, |a| main(&args, "/w", a));
    assert_eq!(
        log.last().unwrap(),
        "{\"args\":[\"my_test\"],\"cmd\":\"panic_triage\",\"cwd\":\"/t/debug\",\"program\":\"/t/debug/app\"}"
    );
    assert_eq!(e.out, "M\n>>> PANIC F\nS\nlocals:\nV\nbacktrace:\nB\n");
    let quiet = |w: &Want| match w {
        Want::Send { .. } => Answer::Reply(Json::parse(r#"{"ok":true,"panicked":false,"exit_code":0,"output":"hi\n"}"#)),
        w => building(w),
    };
    let (e, _) = drive(quiet, |a| main(&args, "/w", a));
    assert_eq!(e.out, "no panic — program exited (code 0)\n--- program output ---\nhi\n");
}

#[test]
fn launch_errors_say_the_right_invocation() {
    for (args, start) in [
        (vec!["launch", "--bogus"], "error: unknown launch arg \"--bogus\"\nusage: rdbg launch --cargo <dir>"),
        (vec!["launch", "--bin", "a", "--lib"], "error: pick one target — --bin <name>"),
        (vec!["launch", "--cargo", "."], "error: launch needs at least one --break <file.rs:line>, --break-fn <name>, or --panic\n  e.g.  rdbg launch"),
        (vec!["trace", "--panic"], "error: trace needs --cargo <dir> (build then debug) or --bin-path <path>"),
        (vec!["debug", "--cargo", "."], "error: debug needs --panic"),
        (vec!["debug", "--break", "a.rs:1"], "error: unknown debug arg \"--break\""),
        (vec!["launch", "--bin-path", "/t/app", "--break", "a.rs"], "error: bad breakpoint \"a.rs\""),
    ] {
        let args = strings(&args);
        let (e, _) = drive(building, |a| main(&args, "/w", a));
        assert!(e.err.starts_with(start), "{args:?}: {}", e.err);
        assert_eq!(e.code, 2);
        assert_eq!(e.out, "");
    }
    let args = strings(&["--json", "launch", "--bin-path", "/gone", "--panic"]);
    let (e, _) = drive(|_| Answer::Text(None), |a| main(&args, "/w", a));
    assert_eq!(e.code, 2);
    assert!(e.out.contains("\"status\":\"user_error\"") && e.out.contains("does not exist — build it first"));
    let args = strings(&["--json", "launch", "--cargo", ".", "--panic"]);
    let (e, _) = drive(|_| Answer::Built(Built::Failed("x".into())), |a| main(&args, "/w", a));
    assert!(e.out.contains("\"status\":\"build_error\""));
    let args = strings(&["launch", "--bin-path", "/t/app", "--panic"]);
    let refused = |w: &Want| match w {
        Want::Send { .. } => Answer::Reply(Json::parse(r#"{"ok":false,"error":"e"}"#)),
        w => building(w),
    };
    let (e, _) = drive(refused, |a| main(&args, "/w", a));
    assert_eq!((e.err.as_str(), e.code), ("launch failed: e\n", 1));
}

#[test]
fn a_target_that_is_missing_is_reported_first() {
    let args = strings(&["--json", "launch", "--cargo", ".", "--test", "nope", "--", "x"]);
    let untested = |w: &Want| match w {
        Want::Cargo { args, .. } if args.iter().any(|a| a == "--lib") => {
            Answer::Built(Built::Ran { ok: false, out: String::new(), err: "error: no library targets found".into() })
        }
        Want::Cargo { .. } => {
            Answer::Built(Built::Ran { ok: false, out: String::new(), err: "error: no test target named `nope`".into() })
        }
        w => building(w),
    };
    let (e, _) = drive(untested, |a| main(&args, "/w", a));
    let v = Json::parse(&e.out).unwrap();
    assert_eq!(v.at("ok").as_bool(), Some(false));
    assert_eq!(v.at("status").as_str(), Some("target_error"));
    assert!(v.at("error").as_str().unwrap().starts_with("no integration test target 'nope'"));
    assert_eq!((e.code, e.err.as_str()), (2, ""));
    assert_eq!(e.out.lines().count(), 1);
    // a program that is there, and nothing to stop it
    let args = strings(&["--json", "launch", "--cargo", ".", "--bin", "app"]);
    let (e, log) = drive(building, |a| main(&args, "/w", a));
    assert!(e.out.contains("\"status\":\"user_error\"") && e.out.contains("launch needs at least one --break"));
    assert!(log.iter().any(|l| l.starts_with("cargo")), "{log:?}");
    // no program and nothing to stop it
    let args = strings(&["launch"]);
    let (e, _) = drive(building, |a| main(&args, "/w", a));
    assert!(e.err.starts_with("error: launch needs at least one --break"));
    // a program that is not there, which is not looked for
    let args = strings(&["--json", "launch", "--bin-path", "/x"]);
    let (e, log) = drive(|_| Answer::Text(None), |a| main(&args, "/w", a));
    assert!(e.out.contains("launch needs at least one --break"));
    assert_eq!((log.len(), e.code), (1, 2));
    // a program that does not compile
    let args = strings(&["--json", "trace", "--cargo", "."]);
    let (e, _) = drive(|_| Answer::Built(Built::Failed("x".into())), |a| main(&args, "/w", a));
    assert!(e.out.contains("\"status\":\"user_error\"") && e.out.contains("trace needs at least one --break"));
}

#[test]
fn debug_exits_by_its_status() {
    let code = |args: &[&str], answer: &dyn Fn(&Want) -> Answer| {
        let args = strings(args);
        drive(|w| answer(w), |a| main(&args, "/w", a)).0.code
    };
    let build = ["--json", "debug", "--cargo", ".", "--panic"];
    let ready = ["--json", "debug", "--bin-path", "/t/app", "--panic"];
    assert_eq!(code(&build, &|_| Answer::Built(Built::Failed("x".into()))), 1);
    assert_eq!(code(&["--json", "debug", "--cargo", "."], &|w| building(w)), 2);
    assert_eq!(code(&["--json", "debug", "--bogus"], &|w| building(w)), 2);
    assert_eq!(code(&ready, &|w| building(w)), 0);
    for (error, want) in [("odd request", 2), ("no lldb-dap adapter found", 1), ("no stop/exit event", 1)] {
        let reply = format!(r#"{{"ok":false,"error":"{error}"}}"#);
        let refused = |w: &Want| match w {
            Want::Send { .. } => Answer::Reply(Json::parse(&reply)),
            w => building(w),
        };
        assert_eq!(code(&ready, &refused), want, "{error}");
        // without --json a refusal is a failure
        assert_eq!(code(&ready[1..], &refused), 1);
    }
    // launch keeps its own codes
    assert_eq!(code(&["--json", "launch", "--cargo", ".", "--panic"], &|_| Answer::Built(Built::Failed("x".into()))), 2);
    assert_eq!(code(&build[1..], &|_| Answer::Built(Built::Failed("x".into()))), 2);
}

#[test]
fn one_binary_has_three_roles() {
    assert!(matches!(role(&strings(&["__daemon", "/w"])), Role::Daemon(ws) if ws == "/w"));
    assert!(matches!(role(&strings(&["__daemon"])), Role::Daemon(ws) if ws == "."));
    assert!(matches!(role(&strings(&["mcp"])), Role::Mcp));
    assert!(matches!(role(&strings(&["bt"])), Role::Client));
    assert!(matches!(role(&vec![]), Role::Client));
}

#[test]
fn the_daemon_is_spoken_to_in_lines() {
    assert_eq!(socket_in(r#"{"socket":"/tmp/s","pid":3}"#), Some("/tmp/s".to_string()));
    assert_eq!(socket_in("{}"), None);
    assert_eq!(socket_in("nope"), None);
    assert_eq!(request_line(&j(r#"{"cmd":"ping"}"#)), "{\"cmd\":\"ping\"}\n");
    assert_eq!(read_reply(" {\"ok\":true}\n").unwrap().render(), r#"{"ok":true}"#);
    assert!(read_reply("").is_none());
}

#[test]
fn every_json_result_is_one_line() {
    for args in [
        vec!["--json"],
        vec!["help", "--json"],
        vec!["down", "--json"],
        vec!["vars", "--json"],
        vec!["nope", "--json"],
        vec!["do", "vars; nope", "--json"],
        vec!["launch", "--bogus", "--json"],
        vec!["debug", "--bin-path", "/t/app", "--panic", "--json"],
    ] {
        let (out, _, _, _) = cli(&args, "{\"ok\":true,\"status\":\"ok\",\"vars\":\"a\\nb\"}");
        assert_eq!(out.matches('\n').count(), 1, "{args:?}");
        assert!(out.ends_with('\n') && Json::parse(&out).unwrap().is_object(), "{args:?}");
    }
}
