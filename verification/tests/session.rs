use rdbg::answer::{answer, consult, plan};
use rdbg::breaks::Sync;
use rdbg::dap::{request, request_soft, route, send, wait_event, Request, Route, Step};
use rdbg::json::Json;
use rdbg::ops::{Op, Outcome, StepKind};
use rdbg::run::Act;
use rdbg::session::Session;
use rdbg::stack::{frames, Frame, Stop};
use rdbg::state::Source;

fn session() -> Session {
    Session::new("target/app", None, vec!["x".to_string()], "/opt/lldb-dap", "/w")
}

fn frame(id: i64, name: &str, line: i64) -> Frame {
    Frame { id, name: name.into(), file: "a.rs".into(), line, path: "/w/src/a.rs".into() }
}

fn stopped(names: &[&str]) -> Session {
    let mut s = session();
    s.cur_thread = Some(1);
    s.last_stop = Some(Stop {
        reason: "breakpoint".into(),
        thread_id: 1,
        frames: names.iter().enumerate().map(|(i, n)| frame(i as i64 + 10, n, 3)).collect(),
        exited: false,
        exit_code: None,
    });
    s
}

fn converse<T>(replies: &[&str], next: impl Fn(&Vec<Json>) -> Step<T>) -> (T, Vec<Request>) {
    let mut heard: Vec<Json> = vec![];
    let mut asked = vec![];
    loop {
        match next(&heard) {
            Step::Ask(r) => {
                heard.push(Json::parse(replies[asked.len()]).unwrap());
                asked.push(r);
            }
            Step::Done(t, n) => {
                assert_eq!(n, heard.len());
                return (t, asked);
            }
        }
    }
}

#[test]
fn a_session_starts_with_absolute_paths() {
    let s = session();
    assert_eq!(s.program, "/w/target/app");
    assert_eq!(s.cwd, "/w/target");
    assert_eq!(s.adapter(), "/opt/lldb-dap");
    assert_eq!(s.breakpoint_count(), 0);
    let t = Session::new("/bin/app", Some("sub"), vec![], "a", "/w");
    assert_eq!(t.program, "/bin/app");
    assert_eq!(t.cwd, "/w/sub");
}

#[test]
fn requests_carry_their_number() {
    assert_eq!(
        send(3, "next", Json::obj().with("threadId", Json::number(1))).render(),
        r#"{"arguments":{"threadId":1},"command":"next","seq":3,"type":"request"}"#
    );
    assert_eq!(
        send(4, "threads", Json::Null).render(),
        r#"{"command":"threads","seq":4,"type":"request"}"#
    );
}

#[test]
fn messages_are_routed() {
    let to = |t: &str| route(&Json::parse(t).unwrap());
    assert!(matches!(to(r#"{"type":"response","request_seq":7}"#), Route::Reply(7)));
    assert!(matches!(to(r#"{"type":"response"}"#), Route::Nowhere));
    assert!(matches!(to(r#"{"type":"event","event":"stopped"}"#), Route::Event));
    assert!(matches!(to(r#"{"type":"request"}"#), Route::Nowhere));
    let ev = Json::parse(r#"{"type":"event","event":"stopped"}"#).unwrap();
    assert!(wait_event(&ev, "stopped"));
    assert!(!wait_event(&ev, "exited"));
}

#[test]
fn replies_fail_by_time_or_by_word() {
    assert_eq!(request("next", None).err(), Some("timed out waiting for next".to_string()));
    let no = Json::parse(r#"{"success":false,"message":"nope"}"#);
    assert_eq!(request("next", no).err(), Some("nope".to_string()));
    let bare = Json::parse(r#"{"success":false}"#);
    assert_eq!(request("next", bare).err(), Some("request failed".to_string()));
    assert!(request("next", Json::parse(r#"{"success":true}"#)).is_ok());
    assert_eq!(request_soft(None).render(), r#"{"message":"no response","success":false}"#);
}

#[test]
fn breakpoints_have_numbers_of_their_own() {
    let mut s = session();
    assert_eq!(s.add_line_bp("/w/a.rs", 3, None, None, None), 1);
    assert_eq!(s.add_fn_bp("app::f"), 2);
    assert_eq!(s.add_line_bp("/w/a.rs", 9, Some("i > 2".into()), Some(4), Some("hi".into())), 3);
    assert_eq!(s.add_data_bp("sum", "0xff"), 4);
    s.add_panic_bp();
    assert_eq!(s.breakpoint_count(), 5);
    assert_eq!(
        s.breakpoints_text(),
        "  [1] a.rs:3\n  [2] fn app::f\n  [3] a.rs:9 if i > 2 hit=4 log=hi\n  [4] watch sum\n  [panic] rust panic"
    );
    assert_eq!(
        s.sync_line("/w/a.rs").args.render(),
        r#"{"breakpoints":[{"line":3},{"condition":"i > 2","hitCondition":"4","line":9,"logMessage":"hi"}],"source":{"path":"/w/a.rs"}}"#
    );
    assert_eq!(
        s.sync_fn().args.render(),
        r#"{"breakpoints":[{"name":"app::f"},{"name":"rust_panic"},{"name":"core::panicking::panic_fmt"},{"name":"core::panicking::panic"}]}"#
    );
    assert_eq!(s.sync_data().args.render(), r#"{"breakpoints":[{"dataId":"0xff"}]}"#);
}

#[test]
fn a_removed_breakpoint_is_gone_and_others_stay() {
    let mut s = session();
    s.add_line_bp("/w/a.rs", 3, None, None, None);
    s.add_fn_bp("f");
    s.add_data_bp("d", "1");
    s.add_panic_bp();
    assert!(s.remove_bp("9").is_none());
    assert!(s.remove_bp("x").is_none());
    assert!(matches!(s.remove_bp("2"), Some(Sync::Fns)));
    assert!(s.remove_bp("2").is_none());
    assert!(matches!(s.remove_bp("1"), Some(Sync::Line(p)) if p == "/w/a.rs"));
    assert!(matches!(s.remove_bp("3"), Some(Sync::Data)));
    assert!(matches!(s.remove_bp("panic"), Some(Sync::Fns)));
    assert_eq!(s.breakpoint_count(), 0);
    assert_eq!(s.breakpoints_text(), "  (no breakpoints)");
    // a number is not given out twice
    assert_eq!(s.add_fn_bp("g"), 4);
}

#[test]
fn removing_takes_one_breakpoint_and_keeps_the_order() {
    let mut s = session();
    s.add_line_bp("/w/a.rs", 3, None, None, None);
    s.add_line_bp("/w/a.rs", 4, None, None, None);
    s.add_line_bp("/w/a.rs", 5, None, None, None);
    s.add_fn_bp("f");
    s.set_enabled("3", false);
    assert!(s.remove_bp("2").is_some());
    assert_eq!(s.breakpoint_count(), 3);
    assert_eq!(s.breakpoints_text(), "  [1] a.rs:3\n  [3] a.rs:5 [disabled]\n  [4] fn f");
    assert!(s.remove_bp("2").is_none());
    assert_eq!(s.breakpoint_count(), 3);
}

#[test]
fn a_session_runs_where_its_program_lies() {
    for (program, dir) in [("/w/target/app", "/w/target"), ("/app", "/"), ("/", ""), ("../x/app", "/w/../x")] {
        assert_eq!(Session::new(program, None, vec![], "a", "/w").cwd, dir);
    }
}

#[test]
fn a_session_answers_by_itself_what_needs_no_adapter() {
    let mut s = stopped(&["app::f", "app::main"]);
    s.add_fn_bp("f");
    s.output.push("out".into());
    assert!(matches!(answer(&mut s, Op::Output), Ok(Outcome::Text(t)) if t == "out"));
    assert!(matches!(answer(&mut s, Op::BpSummary), Ok(Outcome::Values(v)) if v.len() == 1));
    assert!(matches!(answer(&mut s, Op::HasWatches), Ok(Outcome::Flag(false))));
    let add = Op::WatchExpr { action: "add".into(), expr: Some("x".into()) };
    assert!(matches!(answer(&mut s, add), Ok(Outcome::Done)));
    assert!(matches!(answer(&mut s, Op::HasWatches), Ok(Outcome::Flag(true))));
    let bt = s.backtrace_text();
    assert!(matches!(answer(&mut s, Op::Backtrace), Ok(Outcome::Text(t)) if t == bt));
    let list = s.breakpoints_text();
    assert!(matches!(answer(&mut s, Op::Breakpoints), Ok(Outcome::Text(t)) if t == list));
    assert!(matches!(answer(&mut s, Op::ShiftFrame { up: true }), Ok(Outcome::Flag(true))));
    assert!(matches!(answer(&mut s, Op::SelectFrame { index: 2 }), Ok(Outcome::Flag(false))));
    assert_eq!(s.cur_frame, 1);
    assert!(matches!(answer(&mut s, Op::LastStop), Ok(Outcome::Last(Some(x))) if x.frames.len() == 2));
    assert!(matches!(answer(&mut s, Op::ActiveCount), Ok(Outcome::Count(1))));
    assert!(matches!(answer(&mut s, Op::Pause), Err(Op::Pause)));
}

#[test]
fn a_session_answers_the_rest_by_talk_or_by_running() {
    let s = stopped(&["app::f"]);
    let ask = |op: &Op| match consult(&s, op, &vec![]) {
        Some(Step::Ask(r)) => r.command,
        Some(Step::Done(t, _)) => t,
        None => "none".to_string(),
    };
    assert_eq!(ask(&Op::Watches), "  (no watch expressions)");
    assert_eq!(ask(&Op::Threads), "(no threads)");
    assert_eq!(ask(&Op::Locals { depth: 3, cap: 12 }), "scopes");
    assert_eq!(ask(&Op::Evaluate { expr: "x".into() }), "scopes");
    assert_eq!(ask(&Op::Assign { path: "x".into(), value: "1".into() }), "scopes");
    assert_eq!(ask(&Op::Backtrace), "none");
    for (kind, command) in [
        (StepKind::Over, "next"),
        (StepKind::In, "stepIn"),
        (StepKind::Out, "stepOut"),
        (StepKind::Insn, "next"),
    ] {
        let mut s = stopped(&["app::f"]);
        let mut t = plan(&s, &Op::Step { kind }, "/w").unwrap();
        t.feed(&mut s, rdbg::run::Input::Done);
        t.feed(&mut s, rdbg::run::Input::Done);
        match t.action(&s) {
            Act::Ask(r) => {
                assert_eq!(r.command, command);
                assert_eq!(r.args.at("granularity").as_str().is_some(), matches!(kind, StepKind::Insn));
            }
            _ => panic!("no request"),
        }
    }
    let mut s = stopped(&["app::f"]);
    let mut t = plan(&s, &Op::Until { file: "src/a.rs".into(), line: 9 }, "/w").unwrap();
    t.feed(&mut s, rdbg::run::Input::Done);
    assert_eq!((s.temp[0].path.as_str(), s.temp[0].lines.len()), ("/w/src/a.rs", 1));
    for op in [Op::Run, Op::Continue, Op::Pause] {
        assert!(plan(&s, &op, "/w").is_some());
    }
    assert!(plan(&s, &Op::Restart, "/w").is_none());
}

#[test]
fn each_breakpoint_has_one_line() {
    let mut s = session();
    s.add_line_bp("/w/a.rs", 3, None, None, None);
    s.add_fn_bp("f");
    s.add_line_bp("/w/b.rs", 5, Some("i == 1".into()), Some(2), None);
    s.add_line_bp("/w/a.rs", 4, None, None, Some("{i}".into()));
    s.add_data_bp("x", "d");
    s.add_panic_bp();
    s.set_enabled("3", false);
    let text = s.breakpoints_text();
    let rows: Vec<&str> = text.split('\n').collect();
    assert_eq!(rows.len(), s.breakpoint_count());
    assert_eq!(
        rows,
        [
            "  [1] a.rs:3",
            "  [2] fn f",
            "  [3] b.rs:5 if i == 1 hit=2 [disabled]",
            "  [4] a.rs:4 log={i}",
            "  [5] watch x",
            "  [panic] rust panic",
        ]
    );
}

#[test]
fn each_file_is_listed_once() {
    let mut s = session();
    s.add_line_bp("/w/a.rs", 3, None, None, None);
    s.add_line_bp("/w/b.rs", 3, None, None, None);
    s.add_line_bp("/w/a.rs", 4, None, None, None);
    s.remove_bp("1");
    s.set_enabled("3", false);
    let paths: Vec<&str> = s.line_bps.iter().map(|f| f.path.as_str()).collect();
    assert_eq!(paths, ["/w/a.rs", "/w/b.rs"]);
    for (path, line) in [("/w/a.rs", 9), ("/w/b.rs", 2), ("/w/a.rs", 1), ("/w/a.rs", 9), ("/w/a.rs", 5)] {
        s.add_temp(path, line);
    }
    s.remove_temp("/w/a.rs", 5);
    let temps: Vec<(&str, &Vec<i64>)> = s.temp.iter().map(|f| (f.path.as_str(), &f.lines)).collect();
    assert_eq!(temps, [("/w/a.rs", &vec![1, 9]), ("/w/b.rs", &vec![2])]);
}

#[test]
fn breakpoints_are_switched_off_and_on() {
    let mut s = session();
    s.add_line_bp("/w/a.rs", 3, None, None, None);
    s.add_fn_bp("f");
    assert!(matches!(s.set_enabled("1", false), Some(Sync::Line(_))));
    assert!(matches!(s.set_enabled("2", false), Some(Sync::Fns)));
    assert!(s.set_enabled("5", false).is_none());
    assert_eq!(s.active_breakpoint_count(), 0);
    assert_eq!(s.breakpoint_count(), 2);
    assert_eq!(s.breakpoints_text(), "  [1] a.rs:3 [disabled]\n  [2] fn f [disabled]");
    assert_eq!(s.sync(&Sync::Fns).args.render(), r#"{"breakpoints":[]}"#);
    s.set_enabled("1", true);
    assert_eq!(s.active_breakpoint_count(), 1);
    assert!(matches!(s.set_enabled("panic", true), Some(Sync::Fns)));
    assert_eq!(s.active_breakpoint_count(), 2);
}

#[test]
fn what_bound_is_noted() {
    let mut s = session();
    assert!(s.telling(Sync::Fns).is_none());
    s.configured = true;
    assert!(matches!(s.telling(Sync::Fns), Some(Sync::Fns)));
    s.add_line_bp("/w/a.rs", 3, None, None, None);
    let id = s.add_line_bp("/w/a.rs", 99, None, None, None);
    let reply = Json::parse(r#"{"body":{"breakpoints":[{"verified":true},{"verified":false}]}}"#).unwrap();
    assert!(!s.bind_line("/w/a.rs", id, Some(&reply)));
    assert!(s.bind_line("/w/a.rs", 1, Some(&reply)));
    assert!(s.bind_line("/w/a.rs", id, None));
    s.add_fn_bp("f");
    s.synced(&Sync::Fns, &Json::parse(r#"{"body":{"breakpoints":[{"verified":true}]}}"#).unwrap());
    let rows: Vec<String> = s.bp_summary().iter().map(|j| j.render()).collect();
    assert_eq!(
        rows,
        [
            r#"{"hits":0,"loc":"fn f","verified":true}"#,
            r#"{"hits":0,"loc":"a.rs:3","verified":true}"#,
            r#"{"hits":0,"loc":"a.rs:99","verified":false}"#,
        ]
    );
}

#[test]
fn hits_are_credited_by_the_stopped_frame() {
    let mut s = session();
    s.add_line_bp("/w/src/a.rs", 3, None, None, None);
    s.add_line_bp("/w/src/b.rs", 3, None, None, None);
    s.add_fn_bp("app::f");
    let stop = Stop {
        reason: "breakpoint".into(),
        thread_id: 1,
        frames: vec![frame(1, "app::f", 3)],
        exited: false,
        exit_code: None,
    };
    s.count_hit(&stop);
    assert_eq!(s.line_bps[0].bps[0].hits, 1);
    assert_eq!(s.line_bps[1].bps[0].hits, 0);
    assert_eq!(s.fn_bps[0].hits, 1);
}

#[test]
fn a_line_to_run_to_leaves_no_trace() {
    let mut s = session();
    s.add_line_bp("/w/a.rs", 3, None, None, None);
    let before = s.sync_line("/w/a.rs").args.render();
    s.add_temp("/w/a.rs", 7);
    assert_eq!(
        s.sync_line("/w/a.rs").args.render(),
        r#"{"breakpoints":[{"line":3},{"line":7}],"source":{"path":"/w/a.rs"}}"#
    );
    s.remove_temp("/w/a.rs", 7);
    assert_eq!(s.sync_line("/w/a.rs").args.render(), before);
}

#[test]
fn frames_are_read_from_a_reply() {
    let reply = Json::parse(r#"{"body":{"stackFrames":[{"id":4,"name":"demo::total::h71bcff9653903dac","line":12,"source":{"name":"a.rs","path":"/w/a.rs"}},{"name":"x"}]}}"#).unwrap();
    let fs = frames(&reply);
    assert_eq!(fs.len(), 2);
    assert_eq!((fs[0].id, fs[0].name.as_str(), fs[0].line), (4, "demo::total", 12));
    assert_eq!((fs[1].file.as_str(), fs[1].path.as_str(), fs[1].line), ("?", "", 0));
    assert!(frames(&Json::Null).is_empty());
}

#[test]
fn frames_are_selected() {
    let mut s = stopped(&["app::g", "app::f", "app::main"]);
    assert_eq!(s.frame().unwrap().name, "app::g");
    assert!(s.frame_shift(true));
    assert_eq!(s.frame().unwrap().name, "app::f");
    assert!(s.select_frame(2));
    assert!(!s.frame_shift(true));
    assert!(s.frame_shift(false));
    assert!(!s.select_frame(3));
    assert_eq!(s.cur_frame, 1);
    assert_eq!(
        s.backtrace_text(),
        "  #0 app::g  a.rs:3\n >#1 app::f  a.rs:3\n  #2 app::main  a.rs:3"
    );
    assert_eq!(session().backtrace_text(), "(not stopped)");
    assert!(session().frame().is_none());
}

#[test]
fn a_backtrace_ends_at_main() {
    let s = stopped(&["app::main", "std::rt::lang_start"]);
    assert_eq!(s.backtrace_text(), " >#0 app::main  a.rs:3");
}

#[test]
fn source_is_shown_around_the_frame() {
    let s = stopped(&["app::f"]);
    assert_eq!(s.source_path(), Some("/w/src/a.rs".to_string()));
    let text = Source::Text("one\ntwo\nthree\nfour\nfive\n".to_string());
    assert_eq!(
        s.source_around(1, &text),
        "  a.rs:3  (frame #0 app::f)\n         2 | two\n  ->     3 | three\n         4 | four"
    );
    assert_eq!(s.source_around(1, &Source::Missing), "  (a.rs:3 — source not available)");
    assert_eq!(s.source_around(1, &Source::Unreadable), "  (a.rs:3)");
    assert_eq!(session().source_around(1, &text), "(not stopped)");
}

#[test]
fn watch_expressions_are_added_and_removed() {
    let mut s = session();
    s.watch_expr("add", Some("a".to_string()));
    s.watch_expr("add", Some("b".to_string()));
    s.watch_expr("list", Some("c".to_string()));
    s.watch_expr("rm", Some("a".to_string()));
    s.watch_expr("add", None);
    assert_eq!(s.watches, ["b"]);
}

#[test]
fn output_is_collected_and_searched() {
    let mut s = session();
    s.note_output(&Json::parse(r#"{"event":"output","body":{"output":"thread pan"}}"#).unwrap());
    s.note_output(&Json::parse(r#"{"event":"stopped","body":{"output":"no"}}"#).unwrap());
    s.note_output(&Json::parse(r#"{"event":"output","body":{"output":"icked at x"}}"#).unwrap());
    assert_eq!(s.output_text(), "thread panicked at x");
    assert!(s.wait_output_contains("panicked at"));
    assert!(!s.wait_output_contains("boom"));
}

const SCOPES: &str = r#"{"body":{"scopes":[{"name":"Globals","variablesReference":5},{"name":"Locals","variablesReference":7}]}}"#;

#[test]
fn paths_are_walked_through_the_variables() {
    let s = stopped(&["app::f"]);
    let vars = r#"{"body":{"variables":[{"name":"items","variablesReference":8}]}}"#;
    let (r, asked) = converse(&[SCOPES, vars], |h| s.resolve_var_ref("items[0]", h, 0));
    assert_eq!(r, Some((8, "[0]".to_string())));
    assert_eq!(asked[0].command, "scopes");
    assert_eq!(asked[0].args.render(), r#"{"frameId":10}"#);
    assert_eq!(asked[1].args.render(), r#"{"variablesReference":7}"#);
    let (none, _) = converse(&[SCOPES, r#"{"body":{}}"#], |h| s.resolve_var_ref("a.b", h, 0));
    assert!(none.is_none());
}

#[test]
fn locals_are_shown_as_a_tree() {
    let s = stopped(&["app::f"]);
    let top = r#"{"body":{"variables":[{"name":"n","value":"3","type":"u32"},{"name":"it","value":"{..}","type":"demo::Item","variablesReference":9}]}}"#;
    let inner = r#"{"body":{"variables":[{"name":"qty","value":"1","type":"i32"}]}}"#;
    let (t, _) = converse(&[SCOPES, top, inner], |h| s.locals_text(3, h, 0));
    assert_eq!(t, "  n: u32 = 3\n  it: Item\n    qty: i32 = 1");
    let (t, _) = converse(&[SCOPES, top], |h| s.locals_text_capped(1, 1, h, 0));
    assert_eq!(t, "  n: u32 = 3\n  ... (1 more)");
    let (t, _) = converse(&[r#"{"body":{}}"#], |h| s.locals_text(3, h, 0));
    assert_eq!(t, "  (no locals)");
}

#[test]
fn only_changed_locals_are_shown() {
    let mut s = stopped(&["app::f"]);
    let pair = |k: &str, v: &str| (k.to_string(), v.to_string());
    assert_eq!(s.locals_delta(vec![]), "  (no locals)");
    assert_eq!(
        s.locals_delta(vec![pair("sum", "u32 = 3"), pair("i", "u32 = 1")]),
        "  + sum: u32 = 3\n  + i: u32 = 1"
    );
    assert_eq!(
        s.locals_delta(vec![pair("sum", "u32 = 6"), pair("i", "u32 = 1")]),
        "  ~ sum: u32 = 6 (was 3)\n  (+1 unchanged)"
    );
    assert_eq!(
        s.locals_delta(vec![pair("sum", "u32 = 6"), pair("i", "u32 = 1")]),
        "  (no change; 2 unchanged)"
    );
    s.locals_delta(vec![pair("t", "String = \"a = b\"")]);
    assert_eq!(
        s.locals_delta(vec![pair("t", "String = \"c\"")]),
        "  ~ t: String = \"c\" (was \"a = b\")"
    );
}

#[test]
fn expressions_are_read_from_the_variables_first() {
    let s = stopped(&["app::f"]);
    let vars = r#"{"body":{"variables":[{"name":"sum","value":"6","type":"u32"},{"name":"v","type":"alloc::vec::Vec<u32>","value":"size=2","variablesReference":4,"indexedVariables":2}]}}"#;
    let (t, asked) = converse(&[SCOPES, vars], |h| s.evaluate(" sum ", h, 0));
    assert_eq!(t, "u32 = 6");
    assert_eq!(asked.len(), 2);
    let (t, _) = converse(&[SCOPES, vars], |h| s.evaluate("v.len()", h, 0));
    assert_eq!(t, "usize = 2");
    let (t, _) = converse(&[SCOPES, vars], |h| s.evaluate("v.is_empty()", h, 0));
    assert_eq!(t, "bool = false");
    let yes = r#"{"success":true,"body":{"result":"true","type":"bool"}}"#;
    let (t, asked) = converse(&[SCOPES, vars, yes], |h| s.evaluate("a==b", h, 0));
    assert_eq!(t, "bool = true");
    assert_eq!(asked[2].args.render(), r#"{"context":"hover","expression":"a==b","frameId":10}"#);
    let (t, _) = converse(&[SCOPES, vars, r#"{"success":false}"#], |h| s.evaluate("a==b", h, 0));
    assert!(t.starts_with("(cannot evaluate \"a==b\": eval takes a variable PATH"));
}

#[test]
fn a_failed_evaluation_tells_of_the_adapter() {
    let mut s = stopped(&["app::f"]);
    let none = r#"{"body":{"variables":[]}}"#;
    let no = r#"{"success":false}"#;
    let (t, _) = converse(&[SCOPES, none, no], |h| s.evaluate("x", h, 0));
    assert!(t.contains("not a resolvable path in this frame"));
    s.adapter = "/opt/codelldb".to_string();
    let (t, _) = converse(&[SCOPES, none, no], |h| s.evaluate("x", h, 0));
    assert!(t.contains("not evaluable in this frame"));
    let (t, _) = converse(&[SCOPES, none, no], |h| s.evaluate("f(x)", h, 0));
    assert!(t.contains("can't call an arbitrary Rust method"));
}

#[test]
fn variables_are_set() {
    let s = stopped(&["app::f"]);
    let done = r#"{"success":true,"body":{"value":"5"}}"#;
    let (t, asked) = converse(&[SCOPES, done], |h| s.set_variable("sum", "5", h, 0));
    assert_eq!(t, "sum = 5");
    assert_eq!(asked[1].args.render(), r#"{"name":"sum","value":"5","variablesReference":7}"#);
    let (t, _) = converse(&[SCOPES, r#"{"success":false,"message":"ro"}"#], |h| s.set_variable("sum", "5", h, 0));
    assert_eq!(t, "(cannot set \"sum\": ro)");
    let (t, _) = converse(&[], |h| s.set_variable("", "5", h, 0));
    assert_eq!(t, "(variable \"\" not found)");
}

#[test]
fn watchpoints_need_data() {
    let s = stopped(&["app::f"]);
    let info = r#"{"body":{"dataId":"0x10/4"}}"#;
    let (r, _) = converse(&[SCOPES, info], |h| s.add_watchpoint("sum", h, 0));
    assert_eq!(r, Ok("0x10/4".to_string()));
    let (r, _) = converse(&[SCOPES, r#"{"body":{"dataId":null,"description":"too big"}}"#], |h| s.add_watchpoint("sum", h, 0));
    assert_eq!(r, Err("cannot watch \"sum\": too big".to_string()));
    let (r, _) = converse(&[SCOPES, r#"{"body":{}}"#], |h| s.add_watchpoint("a.b", h, 0));
    assert_eq!(r, Err("variable \"a.b\" not found in the current frame".to_string()));
}

#[test]
fn threads_are_listed_with_where_they_are() {
    let mut s = stopped(&["app::f"]);
    let (t, _) = converse(&[], |h| session().threads_text(h, 0));
    assert_eq!(t, "(no threads)");
    s.threads = vec![
        Json::parse(r#"{"id":1,"name":"main"}"#).unwrap(),
        Json::parse(r#"{"id":2,"name":"w"}"#).unwrap(),
    ];
    let st = r#"{"body":{"stackFrames":[{"name":"app::f","line":3,"source":{"name":"a.rs"}}]}}"#;
    let (t, asked) = converse(&[st, "{}"], |h| s.threads_text(h, 0));
    assert_eq!(t, " * thread 1 [main]  app::f a.rs:3\n   thread 2 [w]  ?");
    assert_eq!(asked[1].args.render(), r#"{"levels":40,"threadId":2}"#);
    assert!(s.ask_thread(3).is_none());
    assert_eq!(s.ask_thread(2).unwrap().command, "stackTrace");
    s.select_thread(2, &Json::parse(st).unwrap());
    assert_eq!(s.cur_thread, Some(2));
    assert_eq!(s.last_stop.as_ref().unwrap().reason, "switch");
}
