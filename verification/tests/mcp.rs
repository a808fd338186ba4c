use rdbg::json::Json;
use rdbg::mcp::{call_result, format_resp, format_tool, handle_line, Call};
use rdbg::tools::tools;
use rdbg::wants::{Answer, Built, Pending, Want};

fn j(text: &str) -> Json {
    Json::parse(text).unwrap()
}

fn serve(line: &str, answer: impl Fn(&Want) -> Answer) -> (Option<Json>, Vec<String>) {
    let mut answers = vec![];
    let mut sent = vec![];
    loop {
        match handle_line(line, "/w", &answers) {
            Pending::Want(w) => {
                if let Want::Send { payload, .. } = &w {
                    sent.push(payload.render());
                }
                answers.push(answer(&w));
            }
            Pending::Done(r, n) => {
                assert_eq!(n, answers.len());
                return (r, sent);
            }
        }
    }
}

fn replying(text: &'static str) -> impl Fn(&Want) -> Answer {
    move |w| match w {
        Want::Send { .. } => Answer::Reply(Json::parse(text)),
        Want::Resolve { path } => Answer::Text(Some(path.clone())),
        Want::Cargo { .. } => Answer::Built(Built::Ran {
            ok: false,
            out: String::new(),
            err: "error: no bin target named `x`".to_string(),
        }),
        _ => Answer::Done,
    }
}

fn tool(name: &str, arguments: &str, reply: &'static str) -> (Json, Vec<String>) {
    let line = format!(r#"{{"jsonrpc":"2.0","id":1,"method":"tools/call","params":{{"name":"{name}","arguments":{arguments}}}}}"#);
    let (r, sent) = serve(&line, replying(reply));
    (r.unwrap().at("result").copy(), sent)
}

fn text(r: &Json) -> String {
    r.at("content").as_array().unwrap()[0].at("text").str_or("")
}

#[test]
fn the_protocol_is_spoken() {
    let (r, _) = serve(r#"{"id":1,"method":"initialize","params":{}}"#, replying("{}"));
    assert_eq!(
        r.unwrap().render(),
        r#"{"id":1,"jsonrpc":"2.0","result":{"capabilities":{"tools":{}},"protocolVersion":"2024-11-05","serverInfo":{"name":"rust-debugger-skill","version":"0.3.0"}}}"#
    );
    let (r, _) = serve(r#"{"id":"a","method":"ping"}"#, replying("{}"));
    assert_eq!(r.unwrap().render(), r#"{"id":"a","jsonrpc":"2.0","result":{}}"#);
    assert!(serve(r#"{"method":"notifications/initialized"}"#, replying("{}")).0.is_none());
    assert!(serve(r#"{"method":"whatever"}"#, replying("{}")).0.is_none());
    assert!(serve("", replying("{}")).0.is_none());
    assert!(serve("{bad", replying("{}")).0.is_none());
    let (r, _) = serve(r#"{"id":2,"method":"nope"}"#, replying("{}"));
    assert_eq!(
        r.unwrap().render(),
        r#"{"error":{"code":-32601,"message":"method \"nope\" not found"},"id":2,"jsonrpc":"2.0"}"#
    );
}

#[test]
fn every_listed_tool_is_served() {
    let (r, _) = serve(r#"{"id":1,"method":"tools/list"}"#, replying("{}"));
    let listed = r.unwrap().at("result").at("tools").as_array().unwrap().len();
    assert_eq!(listed, tools().len());
    for t in tools() {
        let name = t.at("name").str_or("");
        assert!(t.at("inputSchema").at("properties").is_object());
        let (r, _) = tool(&name, r#"{"bin_path":"/t/app"}"#, r#"{"ok":true,"status":"ok"}"#);
        assert!(!text(&r).starts_with("unknown tool"), "{name}");
    }
    let (r, sent) = tool("nope", "{}", "{}");
    assert_eq!(text(&r), "unknown tool \"nope\"");
    assert_eq!(r.at("_meta").at("rdbg/status").as_str(), Some("user_error"));
    assert!(sent.is_empty());
}

#[test]
fn tools_become_requests() {
    for (name, args, payload) in [
        ("debug_continue", "{}", r#"{"cmd":"continue"}"#),
        ("debug_continue", r#"{"until":"x == 1"}"#, r#"{"cmd":"continue_until","until":"x == 1"}"#),
        ("debug_step", r#"{"kind":"out"}"#, r#"{"cmd":"step","kind":"out"}"#),
        ("debug_locals", "{}", r#"{"cmd":"vars","depth":3,"full":false}"#),
        ("debug_locals", r#"{"full":true}"#, r#"{"cmd":"vars","depth":10,"full":true}"#),
        ("debug_add_breakpoint", r#"{"fn":"f"}"#, r#"{"cmd":"bp_fn","name":"f"}"#),
        ("debug_add_breakpoint", r#"{"panic":true}"#, r#"{"cmd":"bp_panic"}"#),
        ("debug_add_breakpoint", r#"{"watch":"x"}"#, r#"{"cmd":"bp_watch","var":"x"}"#),
        ("debug_add_breakpoint", r#"{"file":"a.rs","line":3,"hit":2}"#, r#"{"cmd":"bp_add","condition":null,"file":"/w/a.rs","hit":2,"line":3,"log":null}"#),
        ("debug_run_to", r#"{"location":"a.rs:9"}"#, r#"{"cmd":"until","file":"/w/a.rs","line":9}"#),
        ("debug_run_to", r#"{"location":"a.rs"}"#, r#"{"cmd":"until","file":"/w/a.rs","line":0}"#),
        ("debug_select_thread", r#"{"id":4}"#, r#"{"cmd":"thread","id":4}"#),
        ("debug_watch_expr", r#"{"action":"add","expr":"x"}"#, r#"{"action":"add","cmd":"watch_expr","expr":"x"}"#),
        ("debug_references", r#"{"file":"a.rs","line":1,"col":2}"#, r#"{"cmd":"refs","col":2,"file":"a.rs","line":1}"#),
        ("debug_launch", r#"{"bin_path":"/t/d/app","args":["x",1,null],"fn_breaks":["f",{"a":[2]}]}"#, r#"{"args":["x",1,null],"breakpoints":[],"cmd":"launch","cwd":"/t/d","fn_breaks":["f",{"a":[2]}],"panic":false,"program":"/t/d/app"}"#),
        ("debug_launch", r#"{"bin_path":"/t/d/app","breakpoints":["a.rs:3"],"args":["x"],"fn_breaks":["f"]}"#, r#"{"args":["x"],"breakpoints":[{"file":"/w/a.rs","line":3}],"cmd":"launch","cwd":"/t/d","fn_breaks":["f"],"panic":false,"program":"/t/d/app"}"#),
        ("debug_panic", r#"{"bin_path":"/t/d/app"}"#, r#"{"args":[],"cmd":"panic_triage","cwd":"/t/d","program":"/t/d/app"}"#),
    ] {
        let (r, sent) = tool(name, args, r#"{"ok":true,"status":"ok"}"#);
        assert_eq!(sent, [payload], "{name} {args}");
        assert_eq!(r.at("isError").as_bool(), Some(false), "{name}");
    }
}

#[test]
fn failures_carry_their_outcome() {
    let (r, _) = tool("debug_eval", r#"{"path":"x"}"#, r#"{"ok":false,"error":"no debug session (x)"}"#);
    assert_eq!(text(&r), "error: no debug session (x)");
    assert_eq!(r.at("isError").as_bool(), Some(true));
    assert_eq!(r.at("_meta").at("rdbg/status").as_str(), Some("no_session"));
    let (r, _) = tool("debug_launch", "{}", "{}");
    assert_eq!(text(&r), "provide either `cargo` (project dir) or `bin_path`");
    let (r, sent) = tool("debug_launch", r#"{"cargo":".","bin":"x"}"#, "{}");
    assert_eq!(text(&r), "error: no bin target named `x`");
    assert_eq!(r.at("_meta").at("rdbg/status").as_str(), Some("target_error"));
    assert!(sent.is_empty());
    let line = r#"{"id":1,"method":"tools/call","params":{"name":"debug_pause"}}"#;
    let (r, _) = serve(line, |w| match w {
        Want::Send { .. } => Answer::Reply(None),
        _ => Answer::Done,
    });
    let r = r.unwrap().at("result").copy();
    assert_eq!(text(&r), "the rdbg daemon did not respond (call debug_launch first?)");
    assert_eq!(r.at("_meta").at("rdbg/status").as_str(), Some("timeout"));
}

#[test]
fn responses_are_formatted() {
    let shown = |t: &str| format_resp(&j(t)).text;
    assert_eq!(shown(r#"{"ok":true,"vars":"V","bt":"B"}"#), "V");
    assert_eq!(shown(r#"{"ok":true,"stop":{"a":1}}"#), "{\n  \"a\": 1\n}");
    assert_eq!(shown(r#"{"ok":true,"symbols":[{"name":"F","file":"a.rs","line":3}]}"#), "F  a.rs:3");
    assert_eq!(shown(r#"{"ok":true,"symbols":[]}"#), "(no matches)");
    assert_eq!(shown(r#"{"ok":true,"locations":[]}"#), "(no results)");
    assert_eq!(shown(r#"{"ok":true,"locations":[{"file":"a.rs","line":3,"col":1}]}"#), "a.rs:3:1");
    assert_eq!(shown(r#"{"ok":true}"#), "ok");
    let status = format_tool("debug_status", &j(r#"{"ok":true,"adapter":"/x"}"#));
    assert!(status.text.contains("\"adapter\": \"/x\""));
    let panic = format_tool("debug_panic", &j(r#"{"ok":true,"panicked":false,"exit_code":3}"#));
    assert_eq!(panic.text, "no panic — program exited (code 3)");
    let c = Call { text: "t".into(), error: false, status: "ok".into() };
    assert_eq!(
        call_result(&c).render(),
        r#"{"_meta":{"rdbg/status":"ok"},"content":[{"text":"t","type":"text"}],"isError":false}"#
    );
}

#[test]
fn a_trace_is_one_call() {
    let line = r#"{"id":1,"method":"tools/call","params":{"name":"debug_trace","arguments":{"bin_path":"/t/app","breakpoints":["a.rs:3"],"capture":["i"],"max":4}}}"#;
    let (r, sent) = serve(line, |w| match w {
        Want::Send { payload, .. } => Answer::Reply(Json::parse(match payload.at("cmd").as_str() {
            Some("trace") => r#"{"ok":true,"status":"ok","hits":2,"trace":"T"}"#,
            _ => r#"{"ok":true,"status":"ok"}"#,
        })),
        w => replying("{}")(w),
    });
    assert_eq!(sent[1], r#"{"captures":["i"],"cmd":"trace","max":4}"#);
    assert_eq!(text(r.unwrap().at("result")), "trace: 2 hit(s)\nT");
    let (r, _) = tool("debug_trace", r#"{"bin_path":"/t/app"}"#, r#"{"ok":false,"error":"e"}"#);
    assert_eq!(text(&r), "launch failed: e");
}

#[test]
fn a_script_is_one_call() {
    let (r, sent) = tool("debug_do", r#"{"commands":"bt; vars"}"#, r#"{"ok":true,"status":"ok","bt":"B","vars":"V"}"#);
    assert_eq!(text(&r), "$ bt\nB\n\n$ vars\nV\n\n");
    assert_eq!(sent.len(), 2);
    assert_eq!(r.at("_meta").at("rdbg/status").as_str(), Some("ok"));
}
