use rdbg::json::Json;
use rdbg::loops::{UntilOutcome, UntilPhase};
use rdbg::predicate::parse_predicate;
use rdbg::run::{disconnect, Act, Input, Task};
use rdbg::session::Session;
use rdbg::stack::Stop;

fn session() -> Session {
    Session::new("/w/app", None, vec![], "/opt/lldb-dap", "/w")
}

fn ok() -> Option<Json> {
    Json::parse(r#"{"success":true}"#)
}

fn ev(text: &str) -> Input {
    Input::Event(Json::parse(text))
}

const STOPPED: &str = r#"{"event":"stopped","body":{"reason":"breakpoint","threadId":4}}"#;
const THREADS: &str = r#"{"body":{"threads":[{"id":4,"name":"main"}]}}"#;
const FRAMES: &str = r#"{"body":{"stackFrames":[{"id":1,"name":"app::f","line":7,"source":{"name":"a.rs","path":"/w/a.rs"}}]}}"#;

/// Carries a plan out; what it asks for is answered by name. Gives what it did.
fn carry_out(s: &mut Session, mut t: Task, events: &mut Vec<Input>, fail: &str) -> (Result<Option<Stop>, String>, Vec<String>) {
    let mut did = vec![];
    loop {
        let input = match t.action(s) {
            Act::Go => Input::Done,
            Act::Flush => {
                did.push("flush".to_string());
                Input::Done
            }
            Act::Ask(r) => {
                did.push(r.command.clone());
                if r.command == fail {
                    Input::Reply(Json::parse(r#"{"success":false,"message":"refused"}"#))
                } else {
                    Input::Reply(match r.command.as_str() {
                        "threads" => Json::parse(THREADS),
                        "stackTrace" => Json::parse(FRAMES),
                        _ => ok(),
                    })
                }
            }
            Act::Poll(_) => {
                did.push("poll".to_string());
                events.remove(0)
            }
            Act::Send(r) => {
                did.push(format!("send {}", r.command));
                Input::Done
            }
            Act::WaitEvent(name, _) => {
                did.push(format!("wait {name}"));
                Input::Found(fail != name)
            }
            Act::AwaitSent(_) => {
                did.push("sent".to_string());
                Input::Reply(ok())
            }
            Act::Close => {
                did.push("close".to_string());
                Input::Done
            }
            Act::Spawn => {
                did.push("spawn".to_string());
                Input::Spawned(if fail == "spawn" { Some("gone".to_string()) } else { None })
            }
            Act::Finish => return (t.outcome(), did),
        };
        t.feed(s, input);
    }
}

#[test]
fn a_launch_tells_of_every_breakpoint() {
    let mut s = session();
    s.add_line_bp("/w/a.rs", 3, None, None, None);
    s.add_line_bp("/w/b.rs", 3, None, None, None);
    let t = s.launch(false, &vec!["command source x".to_string()]);
    let (r, did) = carry_out(&mut s, t, &mut vec![], "");
    assert!(matches!(r, Ok(None)));
    assert!(s.configured);
    assert_eq!(
        did,
        [
            "initialize", "send launch", "wait initialized", "setBreakpoints", "setBreakpoints",
            "setFunctionBreakpoints", "configurationDone", "sent",
        ]
    );
}

#[test]
fn a_launch_fails_where_the_adapter_does() {
    let mut s = session();
    let t = s.launch(false, &vec![]);
    let (r, did) = carry_out(&mut s, t, &mut vec![], "initialized");
    assert_eq!(r.err(), Some("adapter never sent `initialized`".to_string()));
    assert_eq!(did, ["initialize", "send launch", "wait initialized"]);
    let t = s.launch(false, &vec![]);
    let (r, _) = carry_out(&mut s, t, &mut vec![], "initialize");
    assert_eq!(r.err(), Some("refused".to_string()));
    assert!(!s.configured);
}

#[test]
fn a_run_arrives_at_a_stop() {
    let mut s = session();
    s.add_line_bp("/w/a.rs", 7, None, None, None);
    let t = s.run();
    let mut events = vec![
        ev(r#"{"event":"output","body":{"output":"hello\n"}}"#),
        ev(r#"{"event":"thread"}"#),
        ev(STOPPED),
    ];
    let (r, did) = carry_out(&mut s, t, &mut events, "");
    let stop = r.unwrap().unwrap();
    assert_eq!((stop.reason.as_str(), stop.thread_id, stop.frames[0].line), ("breakpoint", 4, 7));
    assert_eq!(did, ["poll", "poll", "poll", "threads", "stackTrace"]);
    assert_eq!(s.output_text(), "hello\n");
    assert_eq!(s.cur_thread, Some(4));
    assert_eq!(s.line_bps[0].bps[0].hits, 1);
}

#[test]
fn a_program_may_end() {
    let mut s = session();
    let t = s.run();
    let (r, _) = carry_out(&mut s, t, &mut vec![ev(r#"{"event":"exited","body":{"exitCode":101}}"#)], "");
    let stop = r.unwrap().unwrap();
    assert!(stop.exited);
    assert_eq!(stop.exit_code, Some(101));
    let t = s.run();
    let (r, _) = carry_out(&mut s, t, &mut vec![ev(r#"{"event":"terminated"}"#)], "");
    assert_eq!(r.unwrap().unwrap().exit_code, None);
    let t = s.run();
    let (r, _) = carry_out(&mut s, t, &mut vec![Input::Event(None)], "");
    assert_eq!(
        r.err(),
        Some("no stop/exit event (program may still be running — try `pause`)".to_string())
    );
}

#[test]
fn resuming_needs_a_stop() {
    let mut s = session();
    let t = s.cont();
    let (r, did) = carry_out(&mut s, t, &mut vec![], "");
    assert_eq!(r.err(), Some("not stopped".to_string()));
    assert!(did.is_empty());
    s.cur_thread = Some(4);
    for (t, command) in [
        (s.cont(), "continue"),
        (s.step_over(false), "next"),
        (s.step_in(), "stepIn"),
        (s.step_out(), "stepOut"),
    ] {
        let mut copy = session();
        copy.cur_thread = Some(4);
        let (r, did) = carry_out(&mut copy, t, &mut vec![ev(STOPPED)], "");
        assert!(r.is_ok());
        assert_eq!(did, ["flush", command, "poll", "threads", "stackTrace"]);
    }
}

#[test]
fn an_instruction_step_says_so() {
    let mut s = session();
    s.cur_thread = Some(4);
    let mut t = s.step_over(true);
    loop {
        match t.action(&s) {
            Act::Ask(r) => {
                assert_eq!(r.args.render(), r#"{"granularity":"instruction","threadId":4}"#);
                return;
            }
            Act::Go | Act::Flush => t.feed(&mut s, Input::Done),
            _ => panic!("no request"),
        }
    }
}

#[test]
fn a_run_to_a_line_takes_the_line_back() {
    for (fail, ended) in [("", true), ("continue", false)] {
        let mut s = session();
        s.cur_thread = Some(4);
        let before = s.sync_line("/w/a.rs").args.render();
        let t = s.until("/w/a.rs", 9);
        let (r, did) = carry_out(&mut s, t, &mut vec![ev(STOPPED)], fail);
        assert_eq!(r.is_ok(), ended);
        assert_eq!(did.first().unwrap(), "setBreakpoints");
        assert_eq!(did.last().unwrap(), "setBreakpoints");
        assert_eq!(s.sync_line("/w/a.rs").args.render(), before);
    }
}

#[test]
fn a_pause_interrupts() {
    let mut s = session();
    let t = s.pause();
    let (r, did) = carry_out(&mut s, t, &mut vec![ev(STOPPED)], "");
    assert!(r.is_ok());
    assert_eq!(did, ["flush", "pause", "poll", "threads", "stackTrace"]);
}

#[test]
fn a_restart_keeps_the_breakpoints_but_for_data() {
    let mut s = session();
    s.add_line_bp("/w/a.rs", 3, None, None, None);
    s.add_fn_bp("f");
    s.add_data_bp("d", "1");
    s.add_panic_bp();
    let t = s.restart(&vec![]);
    let (r, did) = carry_out(&mut s, t, &mut vec![ev(STOPPED)], "");
    assert!(r.is_ok());
    assert_eq!(&did[..4], ["disconnect", "close", "spawn", "initialize"]);
    assert_eq!(s.breakpoints_text(), "  [1] a.rs:3\n  [2] fn f\n  [panic] rust panic");
    let t = s.restart(&vec![]);
    let (r, _) = carry_out(&mut s, t, &mut vec![], "spawn");
    assert_eq!(r.err(), Some("relaunch failed: gone".to_string()));
}

#[test]
fn a_disconnect_ends_the_program() {
    let r = disconnect();
    assert_eq!(r.command, "disconnect");
    assert_eq!(r.args.render(), r#"{"terminateDebuggee":true}"#);
}

fn at_stop() -> Stop {
    Stop { reason: "breakpoint".into(), thread_id: 1, frames: vec![], exited: false, exit_code: None }
}

#[test]
fn a_run_until_a_condition_ends_where_it_holds() {
    let s = session();
    let mut l = s.cont_until(parse_predicate("sum >= 3").unwrap(), 5);
    l.stopped(Ok(at_stop()));
    l = l.observed("u32 = 1".to_string());
    assert!(matches!(l.phase, UntilPhase::Running));
    l.stopped(Ok(at_stop()));
    l = l.observed("u32 = 3".to_string());
    assert_eq!(l.stops, 2);
    assert!(matches!(l.phase, UntilPhase::Ended(_, UntilOutcome::Held(v)) if v == "u32 = 3"));
}

#[test]
fn a_run_until_a_condition_gives_up() {
    let s = session();
    let mut l = s.cont_until(parse_predicate("x == 1").unwrap(), 2);
    for _ in 0..2 {
        l.stopped(Ok(at_stop()));
        l = l.observed("(not stopped)".to_string());
    }
    assert_eq!(l.stops, 2);
    assert!(matches!(l.phase, UntilPhase::Ended(_, UntilOutcome::Cap)));
    let mut l = s.cont_until(parse_predicate("x == 1").unwrap(), 2);
    l.stopped(Ok(Stop::exited(Some(0))));
    assert!(matches!(l.phase, UntilPhase::Ended(_, UntilOutcome::Exited)));
    let mut l = s.cont_until(parse_predicate("x == 1").unwrap(), 2);
    l.stopped(Err("gone".to_string()));
    assert!(matches!(l.phase, UntilPhase::Failed(e) if e == "gone"));
}

#[test]
fn a_trace_takes_so_many_hits() {
    let mut s = session();
    s.last_stop = Some(at_stop());
    let mut t = s.trace(vec![], 2);
    for _ in 0..2 {
        assert!(t.wants(&s).is_some());
        let hit = rdbg::loops::TraceHit { func: "f".into(), loc: "a:1".into(), values: vec![] };
        t.add(hit, &Ok(at_stop()));
    }
    assert!(t.wants(&s).is_none());
    assert_eq!(t.hits.len(), 2);
    let mut t = s.trace(vec![], 9);
    let hit = rdbg::loops::TraceHit { func: "f".into(), loc: "a:1".into(), values: vec![] };
    t.add(hit, &Err("gone".to_string()));
    assert!(t.wants(&s).is_none());
}

#[test]
fn a_run_without_resumes_stays_where_it_is() {
    let mut s = session();
    let l = s.cont_until(parse_predicate("x == 1").unwrap(), 0);
    assert!(matches!(l.phase, UntilPhase::Failed(e) if e == "not stopped"));
    s.last_stop = Some(at_stop());
    let l = s.cont_until(parse_predicate("x == 1").unwrap(), 0);
    assert_eq!(l.stops, 0);
    assert!(matches!(l.phase, UntilPhase::Ended(stop, UntilOutcome::Cap) if stop.thread_id == 1));
}
