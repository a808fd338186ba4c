use rdbg::daemon::{
    address, dispatch, format_trace, read_request, stamp, standing, write_response,
};
use rdbg::json::Json;
use rdbg::loops::{TraceHit, UntilOutcome};
use rdbg::ops::{Op, Outcome, Progress, StepKind, UntilEnd};
use rdbg::session::Session;
use rdbg::stack::{Frame, Stop};

fn j(text: &str) -> Json {
    Json::parse(text).unwrap()
}

fn stop() -> Stop {
    Stop {
        reason: "breakpoint".into(),
        thread_id: 1,
        frames: vec![Frame {
            id: 1,
            name: "app::f".into(),
            file: "a.rs".into(),
            line: 3,
            path: "/w/a.rs".into(),
        }],
        exited: false,
        exit_code: None,
    }
}

/// Answers a request; each operation is answered by `perform`.
fn answer(req: &str, has_session: bool, perform: impl Fn(&Op) -> Outcome) -> (Json, bool, usize) {
    let req = j(req);
    let mut outs = vec![];
    loop {
        match dispatch(&req, has_session, &outs) {
            Progress::Do(op) => outs.push(perform(&op)),
            Progress::Done((resp, end), n) => {
                assert_eq!(n, outs.len());
                return (resp, end, n);
            }
        }
    }
}

fn nothing(_: &Op) -> Outcome {
    Outcome::Done
}

#[test]
fn pings_and_shutdowns_are_answered() {
    let (r, end, n) = answer(r#"{"cmd":"ping"}"#, false, nothing);
    assert_eq!(r.render(), r#"{"ok":true,"status":"ok"}"#);
    assert!(!end && n == 0);
    let (_, end, _) = answer(r#"{"cmd":"shutdown"}"#, true, nothing);
    assert!(end);
}

#[test]
fn without_a_session_commands_are_refused() {
    for cmd in ["continue", "vars", "bp_add", "bogus", "stop"] {
        let (r, end, n) = answer(&format!(r#"{{"cmd":"{cmd}"}}"#), false, nothing);
        assert_eq!(r.at("error").as_str(), Some("no debug session (run `rdbg launch` first)"));
        assert_eq!(r.at("status").as_str(), Some("no_session"));
        assert!(!end && n == 0);
    }
}

#[test]
fn an_unknown_command_is_an_error_of_the_user() {
    let (r, _, _) = answer(r#"{"cmd":"bogus"}"#, true, nothing);
    assert_eq!(r.at("error").as_str(), Some("unknown command \"bogus\""));
    assert_eq!(r.at("status").as_str(), Some("user_error"));
}

fn at_a_stop(op: &Op) -> Outcome {
    match op {
        Op::Continue | Op::Run | Op::Step { .. } | Op::Until { .. } | Op::Pause | Op::Restart => {
            Outcome::Stopped(Ok(stop()))
        }
        Op::Delta => Outcome::Text("  + x: u32 = 1".to_string()),
        Op::Source { .. } => Outcome::Text("  src".to_string()),
        Op::HasWatches => Outcome::Flag(false),
        Op::Start { .. } | Op::Launch => Outcome::Error(None),
        Op::AddLine { .. } => Outcome::Added((1, true)),
        Op::AddFn { .. } => Outcome::Id(2),
        Op::LastStop => Outcome::Last(Some(stop())),
        Op::Locals { .. } => Outcome::Text("  x: u32 = 1".to_string()),
        Op::SelectThread { id } => Outcome::Flag(*id == 1),
        Op::SelectFrame { index } => Outcome::Flag(*index == 0),
        Op::ShiftFrame { .. } => Outcome::Flag(false),
        Op::Remove { id } => Outcome::Flag(id == "1"),
        Op::Enable { id, .. } => Outcome::Flag(id == "1"),
        Op::Watch { var } => Outcome::Watched(if var == "x" { Ok(3) } else { Err("no".to_string()) }),
        Op::Evaluate { expr } => Outcome::Text(format!("v({expr})")),
        Op::ActiveCount => Outcome::Count(1),
        _ => Outcome::Done,
    }
}

#[test]
fn a_resume_gives_a_fresh_stop() {
    for cmd in [r#""continue""#, r#""step""#, r#""pause""#, r#""restart""#, r#""until","file":"a.rs","line":3"#] {
        let (r, _, _) = answer(&format!("{{\"cmd\":{cmd}}}"), true, at_a_stop);
        assert_eq!(
            r.render(),
            r#"{"ok":true,"status":"ok","stop":{"delta":"  + x: u32 = 1","exited":false,"frame":"app::f  a.rs:3","reason":"breakpoint","source":"  src","thread":1,"watches":""}}"#
        );
    }
    let (r, _, _) = answer(r#"{"cmd":"continue"}"#, true, |_| Outcome::Stopped(Err("timed out waiting for continue".into())));
    assert_eq!(r.at("status").as_str(), Some("timeout"));
}

#[test]
fn steps_have_kinds() {
    for (kind, name) in [("in", "In"), ("out", "Out"), ("insn", "Insn"), ("over", "Over"), ("x", "Over")] {
        match dispatch(&j(&format!(r#"{{"cmd":"step","kind":"{kind}"}}"#)), true, &vec![]) {
            Progress::Do(Op::Step { kind }) => assert_eq!(format!("{kind:?}"), name),
            _ => panic!("no step"),
        }
    }
    let _ = StepKind::Over;
}

#[test]
fn an_exit_drops_the_session_and_tells_of_breakpoints() {
    let dropped = std::cell::Cell::new(false);
    let (r, _, _) = answer(r#"{"cmd":"continue"}"#, true, |op| match op {
        Op::Continue => Outcome::Stopped(Ok(Stop::exited(Some(0)))),
        Op::Output => Outcome::Text("x".repeat(3000)),
        Op::BpSummary => Outcome::Values(vec![j(r#"{"loc":"a.rs:3","hits":0}"#)]),
        Op::Drop => {
            dropped.set(true);
            Outcome::Done
        }
        _ => Outcome::Done,
    });
    assert!(dropped.get());
    assert_eq!(r.at("stop").at("output").as_str().unwrap().len(), 2000);
    assert_eq!(r.at("stop").at("exit_code").as_i64(), Some(0));
    assert_eq!(r.at("stop").at("breakpoints").render(), r#"[{"hits":0,"loc":"a.rs:3"}]"#);
}

#[test]
fn a_launch_sets_breakpoints_and_runs() {
    let names = std::cell::RefCell::new(vec![]);
    let req = r#"{"cmd":"launch","program":"/w/app","cwd":"/w","args":["a",1,"b"],"breakpoints":[{"file":"a.rs","line":3,"condition":"i>1"}],"fn_breaks":["f",2],"panic":true}"#;
    let (r, _, _) = answer(req, true, |op| {
        names.borrow_mut().push(match op {
            Op::End => "end".to_string(),
            Op::Start { program, cwd, args } => format!("start {program} {cwd:?} {args:?}"),
            Op::AddLine { file, line, condition, .. } => format!("line {file}:{line} {condition:?}"),
            Op::AddFn { name } => format!("fn {name}"),
            Op::AddPanic => "panic".to_string(),
            Op::Launch => "launch".to_string(),
            Op::Run => "run".to_string(),
            _ => "-".to_string(),
        });
        at_a_stop(op)
    });
    assert_eq!(r.at("ok").as_bool(), Some(true));
    assert_eq!(
        names.borrow()[..7],
        [
            "end",
            "start /w/app Some(\"/w\") [\"a\", \"b\"]",
            "line a.rs:3 Some(\"i>1\")",
            "fn f",
            "panic",
            "launch",
            "run",
        ]
    );
}

#[test]
fn a_launch_that_fails_says_why() {
    let (r, _, _) = answer(r#"{"cmd":"launch","program":"p"}"#, false, |op| match op {
        Op::Start { .. } => Outcome::Error(Some("no lldb-dap adapter found (x)".to_string())),
        _ => Outcome::Done,
    });
    assert_eq!(r.at("status").as_str(), Some("debug_adapter_error"));
    assert_eq!(r.at("error").as_str(), Some("no lldb-dap adapter found (x)"));
}

#[test]
fn every_failure_carries_an_error() {
    for (req, error) in [
        (r#"{"cmd":"thread","id":9}"#, "no such thread"),
        (r#"{"cmd":"frame","index":7}"#, "no such frame"),
        (r#"{"cmd":"frame","dir":"up"}"#, "no such frame"),
        (r#"{"cmd":"bp_rm","id":"9"}"#, "breakpoint not found"),
        (r#"{"cmd":"bp_enable","id":"9"}"#, "breakpoint not found"),
        (r#"{"cmd":"bp_watch","var":"y"}"#, "no"),
        (r#"{"cmd":"continue_until","until":"x"}"#, "cannot parse condition \"x\" — want `<path> <op> <value>` with op one of == != < <= > >=, e.g. `sum >= 100`"),
    ] {
        let (r, _, _) = answer(req, true, at_a_stop);
        assert_eq!(r.at("ok").as_bool(), Some(false), "{req}");
        assert_eq!(r.at("error").as_str(), Some(error), "{req}");
        assert_eq!(r.at("status").as_str(), Some("user_error"), "{req}");
    }
}

#[test]
fn commands_that_change_nothing_but_the_session() {
    for (req, rendered) in [
        (r#"{"cmd":"bp_add","file":"a.rs","line":3}"#, r#"{"id":1,"ok":true,"status":"ok","verified":true}"#),
        (r#"{"cmd":"bp_fn","name":"f"}"#, r#"{"id":2,"ok":true,"status":"ok"}"#),
        (r#"{"cmd":"bp_panic"}"#, r#"{"id":"panic","ok":true,"status":"ok"}"#),
        (r#"{"cmd":"bp_watch","var":"x"}"#, r#"{"id":3,"ok":true,"status":"ok"}"#),
        (r#"{"cmd":"eval","expr":"a.b"}"#, r#"{"ok":true,"status":"ok","value":"v(a.b)"}"#),
        (r#"{"cmd":"vars"}"#, r#"{"ok":true,"status":"ok","vars":"  x: u32 = 1"}"#),
        (r#"{"cmd":"list","radius":2}"#, r#"{"ok":true,"source":"  src","status":"ok"}"#),
        (r#"{"cmd":"frame","index":0}"#, r#"{"ok":true,"source":"  src","status":"ok","vars":"  x: u32 = 1"}"#),
        (r#"{"cmd":"stop"}"#, r#"{"ok":true,"status":"ok","stopped_session":true}"#),
    ] {
        let (r, _, _) = answer(req, true, at_a_stop);
        assert_eq!(r.render(), rendered, "{req}");
    }
}

#[test]
fn a_run_until_a_condition_tells_how_it_ended() {
    let (r, _, _) = answer(r#"{"cmd":"continue_until","until":"sum>=3"}"#, true, |op| match op {
        Op::ContUntil { path, op, rhs, max } => {
            assert_eq!((path.as_str(), *op, rhs.as_str(), *max), ("sum", ">=", "3", 10000));
            Outcome::Ended(Ok(UntilEnd {
                stop: stop(),
                outcome: UntilOutcome::Held("u32 = 4".to_string()),
                stops: 7,
            }))
        }
        op => at_a_stop(op),
    });
    assert_eq!(
        r.at("stop").at("until").render(),
        r#"{"cond":"sum >= 3","observed":"u32 = 4","outcome":"held","stops":7}"#
    );
    let (r, _, _) = answer(r#"{"cmd":"continue_until","until":"sum>=3"}"#, true, |op| match op {
        Op::ActiveCount => Outcome::Count(0),
        op => at_a_stop(op),
    });
    assert_eq!(r.at("ok").as_bool(), Some(false));
}

#[test]
fn a_trace_is_a_table() {
    let hits = vec![
        TraceHit {
            func: "app::f".into(),
            loc: "a.rs:3".into(),
            values: vec![("i".into(), "u32 = 1".into()), ("s".into(), "u32 = 2".into())],
        },
        TraceHit { func: "app::g".into(), loc: "b.rs:9".into(), values: vec![] },
    ];
    assert_eq!(
        format_trace(&hits),
        " #1   app::f  a.rs:3   i=u32 = 1  s=u32 = 2\n #2   app::g  b.rs:9   "
    );
    assert_eq!(format_trace(&vec![]), "(no breakpoint hits)");
    let (r, _, _) = answer(r#"{"cmd":"trace","captures":["i",3],"max":0}"#, true, |op| match op {
        Op::Trace { captures, max } => {
            assert_eq!(captures[..], ["i"]);
            assert_eq!(*max, 1);
            Outcome::Hits(vec![])
        }
        Op::Output => Outcome::Text(String::new()),
        _ => Outcome::Done,
    });
    assert_eq!(r.render(), r#"{"hits":0,"ok":true,"output":null,"status":"ok","trace":"(no breakpoint hits)"}"#);
}

fn panicking(op: &Op, at_rust_panic: bool, output: &str) -> Outcome {
    let mut s = stop();
    if at_rust_panic {
        s.frames.insert(0, Frame { id: 9, name: "rust_panic".into(), file: "p.rs".into(), line: 1, path: "/rustc/x/library/std/src/panicking.rs".into() });
    }
    match op {
        Op::Start { .. } | Op::Launch => Outcome::Error(None),
        Op::Run | Op::Continue => Outcome::Stopped(Ok(s)),
        Op::LastStop => Outcome::Last(Some(s)),
        Op::Output => Outcome::Text(output.to_string()),
        Op::SelectFrame { .. } => Outcome::Flag(true),
        Op::WaitOutput { .. } => Outcome::Flag(false),
        Op::Source { .. } => Outcome::Text("  src".into()),
        Op::Backtrace => Outcome::Text(" >#0 x".into()),
        Op::Locals { .. } => Outcome::Text("  x: u32 = 1".into()),
        _ => Outcome::Done,
    }
}

#[test]
fn a_panic_is_bundled() {
    let out = "thread 'main' panicked at src/main.rs:2:5:\nboom\n";
    let (r, _, _) = answer(r#"{"cmd":"panic_triage","program":"/w/app"}"#, false, |op| panicking(op, true, out));
    assert_eq!(r.at("panicked").as_bool(), Some(true));
    assert_eq!(r.at("message").as_str(), Some("thread 'main' panicked at src/main.rs:2:5:\nboom"));
    assert_eq!(r.at("frame").as_str(), Some("app::f  a.rs:3"));
    assert_eq!(r.at("frame_index").as_i64(), Some(1));
    assert_eq!(r.at("vars").as_str(), Some("  x: u32 = 1"));
    assert_eq!(r.at("exited").as_bool(), Some(false));
}

#[test]
fn a_triage_never_runs_past_rust_panic() {
    let (r, _, _) = answer(r#"{"cmd":"panic_triage","program":"/w/app"}"#, false, |op| {
        assert!(!matches!(op, Op::Continue));
        panicking(op, true, "")
    });
    assert!(r.at("message").is_null());
}

#[test]
fn a_program_that_does_not_panic_says_so() {
    let (r, _, _) = answer(r#"{"cmd":"panic_triage","program":"/w/app"}"#, false, |op| match op {
        Op::Run => Outcome::Stopped(Ok(Stop::exited(Some(0)))),
        op => panicking(op, false, "done\n"),
    });
    assert_eq!(r.render(), r#"{"exit_code":0,"ok":true,"output":"done\n","panicked":false,"status":"ok"}"#);
}

#[test]
fn navigation_needs_no_session() {
    let (r, _, _) = answer(r#"{"cmd":"where","query":"Foo"}"#, false, |op| match op {
        Op::StartLsp => Outcome::Error(None),
        Op::Symbols { query } => Outcome::Values(vec![Json::obj().with("name", Json::text(query))]),
        _ => Outcome::Done,
    });
    assert_eq!(r.render(), r#"{"ok":true,"status":"ok","symbols":[{"name":"Foo"}]}"#);
    let (r, _, _) = answer(r#"{"cmd":"hover","file":"a.rs","line":1,"col":2}"#, false, |_| Outcome::Error(Some("gone".into())));
    assert_eq!(r.at("error").as_str(), Some("rust-analyzer unavailable: gone"));
}

#[test]
fn the_status_names_the_adapter() {
    let s = Session::new("/w/app", None, vec![], "/opt/lldb-dap", "/w");
    let (r, _, _) = answer(r#"{"cmd":"status"}"#, true, |_| Outcome::Standing(standing(Some(&s), true, None)));
    assert_eq!(
        r.render(),
        r#"{"adapter":"/opt/lldb-dap","breakpoints":0,"cur_thread":null,"lsp_ready":true,"ok":true,"session":true,"status":"ok","stopped":false,"threads":0}"#
    );
    let (r, _, _) = answer(r#"{"cmd":"status"}"#, false, |_| Outcome::Standing(standing(None, false, Some("/x".into()))));
    assert_eq!(r.at("adapter").as_str(), Some("/x"));
    assert_eq!(r.at("session").as_bool(), Some(false));
}

#[test]
fn requests_come_on_lines() {
    assert!(read_request("  \n").is_none());
    assert!(read_request("{bad\n").unwrap().is_null());
    assert_eq!(read_request(" {\"cmd\":\"ping\"}\n").unwrap().at("cmd").as_str(), Some("ping"));
    assert_eq!(write_response(&j("{\"ok\":true}")), "{\"ok\":true}\n");
    assert_eq!(address("/tmp/s", 7), r#"{"pid":7,"socket":"/tmp/s"}"#);
}

#[test]
fn responses_are_stamped() {
    assert_eq!(stamp(j(r#"{"ok":true}"#)).at("status").as_str(), Some("ok"));
    assert_eq!(stamp(j(r#"{"ok":false,"error":"timed out"}"#)).at("status").as_str(), Some("timeout"));
    assert_eq!(stamp(j(r#"{"ok":false,"status":"x"}"#)).at("status").as_str(), Some("x"));
}
