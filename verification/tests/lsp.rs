use rdbg::json::Json;
use rdbg::lsp::{
    definition, heard, hover, initialize_params, notify, open_params, pos, references,
    references_params, request, symbols, symbols_params, Heard,
};
use rdbg::places::{
    analyzer_error, bundled_adapter, find_lldb_dap, find_rust_analyzer, formatter_files,
    printed_path, rust_formatter_commands, start_error, ws_root, Place, Search,
};

fn j(text: &str) -> Json {
    Json::parse(text).unwrap()
}

#[test]
fn the_server_is_asked() {
    assert_eq!(
        request(3, "workspace/symbol", symbols_params("Foo")).render(),
        r#"{"id":3,"jsonrpc":"2.0","method":"workspace/symbol","params":{"query":"Foo"}}"#
    );
    assert_eq!(
        notify("initialized", Json::obj()).render(),
        r#"{"jsonrpc":"2.0","method":"initialized","params":{}}"#
    );
    let p = pos("/w/a.rs", 3, 1, "/c");
    assert_eq!(
        p.render(),
        r#"{"position":{"character":0,"line":2},"textDocument":{"uri":"file:///w/a.rs"}}"#
    );
    assert_eq!(pos("a.rs", 0, -5, "/c").at("position").render(), r#"{"character":0,"line":0}"#);
    assert_eq!(
        references_params(p).at("context").render(),
        r#"{"includeDeclaration":false}"#
    );
    assert_eq!(
        open_params("/w/a.rs", "fn f() {}", "/c").render(),
        r#"{"textDocument":{"languageId":"rust","text":"fn f() {}","uri":"file:///w/a.rs","version":1}}"#
    );
    let init = initialize_params(9, "/w", "/c");
    assert_eq!(init.at("rootUri").as_str(), Some("file:///w"));
    assert_eq!(init.at("processId").as_i64(), Some(9));
    assert_eq!(
        init.at("initializationOptions").render(),
        r#"{"cargo":{"buildScripts":{"enable":true}},"checkOnSave":false,"procMacro":{"enable":true}}"#
    );
    assert_eq!(
        init.at("capabilities").at("textDocument").at("hover").render(),
        r#"{"contentFormat":["plaintext"]}"#
    );
}

#[test]
fn the_server_is_heard() {
    assert!(matches!(heard(&j(r#"{"id":4,"result":null}"#)), Heard::Reply(4)));
    assert!(matches!(heard(&j(r#"{"id":4,"error":{}}"#)), Heard::Reply(4)));
    assert!(matches!(heard(&j(r#"{"id":"x","result":null}"#)), Heard::Nothing));
    assert!(matches!(heard(&j(r#"{"method":"$/progress","params":{"value":{"kind":"end"}}}"#)), Heard::Ready));
    assert!(matches!(heard(&j(r#"{"method":"$/progress","params":{"value":{"kind":"begin"}}}"#)), Heard::Nothing));
    match heard(&j(r#"{"id":7,"method":"workspace/configuration","params":{"items":[{},{}]}}"#)) {
        Heard::Answer(a) => assert_eq!(a.render(), r#"{"id":7,"jsonrpc":"2.0","result":[null,null]}"#),
        _ => panic!("not answered"),
    }
    match heard(&j(r#"{"id":8,"method":"client/registerCapability"}"#)) {
        Heard::Answer(a) => assert_eq!(a.render(), r#"{"id":8,"jsonrpc":"2.0","result":null}"#),
        _ => panic!("not answered"),
    }
    assert!(matches!(heard(&j(r#"{"method":"window/logMessage"}"#)), Heard::Nothing));
}

#[test]
fn places_are_shown_from_one() {
    let at = r#"{"uri":"file:///w/src/a.rs","range":{"start":{"line":2,"character":4}}}"#;
    let shown = r#"{"col":5,"file":"src/a.rs","line":3}"#;
    let one = Some(j(&format!(r#"{{"result":{at}}}"#)));
    assert_eq!(definition(&one, "/w")[0].render(), shown);
    let link = Some(j(r#"{"result":[{"targetUri":"file:///w/src/a.rs","targetSelectionRange":{"start":{"line":2,"character":4}}}]}"#));
    assert_eq!(definition(&link, "/w")[0].render(), shown);
    assert!(definition(&None, "/w").is_empty());
    assert!(definition(&Some(j(r#"{"result":null}"#)), "/w").is_empty());
    let many = Some(j(&format!(r#"{{"result":[{}]}}"#, vec![at; 40].join(","))));
    assert_eq!(references(&many, "/w").len(), 30);
    assert_eq!(definition(&many, "/w").len(), 40);
    assert!(references(&None, "/w").is_empty());
}

#[test]
fn hovers_come_in_shapes() {
    assert_eq!(hover(&Some(j(r#"{"result":{"contents":{"value":"fn f()"}}}"#))), "fn f()");
    assert_eq!(hover(&Some(j(r#"{"result":{"contents":"fn f()"}}"#))), "fn f()");
    assert_eq!(hover(&Some(j(r#"{"result":{"contents":[{"value":"a"},{"value":"b"}]}}"#))), "a\nb");
    assert_eq!(hover(&Some(j(r#"{"result":null}"#))), "");
    assert_eq!(hover(&None), "");
}

#[test]
fn symbols_name_their_container() {
    let reply = j(r#"{"result":[{"name":"F","containerName":"m","location":{"uri":"file:///w/a.rs","range":{"start":{"line":0,"character":0}}}},{"name":"G","location":{}}]}"#);
    let s = symbols(&reply, "/w");
    assert_eq!(s[0].render(), r#"{"col":1,"container":"m","file":"a.rs","line":1,"name":"F"}"#);
    assert!(s[1].at("container").is_null());
    assert!(symbols(&Json::Null, "/w").is_empty());
}

#[test]
fn adapters_are_looked_for_in_order() {
    let mut finds = vec![];
    let mut places = vec![];
    loop {
        match find_lldb_dap(&finds) {
            Search::Look(p) => {
                places.push(match p {
                    Place::Override => "override".to_string(),
                    Place::Bundled => "bundled".to_string(),
                    Place::OnPath(n) => n.to_string(),
                    Place::Suffixed => "suffixed".to_string(),
                    Place::Xcrun => "xcrun".to_string(),
                    Place::Rustup => "rustup".to_string(),
                });
                finds.push(None);
            }
            Search::Found(f) => {
                assert!(f.is_none());
                break;
            }
        }
    }
    assert_eq!(places, ["override", "bundled", "codelldb", "lldb-dap", "lldb-vscode", "suffixed", "xcrun"]);
    let found = vec![None, Some("/x".to_string())];
    assert!(matches!(find_lldb_dap(&found), Search::Found(Some(p)) if p == "/x"));
    assert!(matches!(find_rust_analyzer(&vec![]), Search::Look(Place::Rustup)));
    assert!(matches!(find_rust_analyzer(&vec![None]), Search::Look(Place::OnPath("rust-analyzer"))));
    assert!(matches!(find_rust_analyzer(&vec![None, None]), Search::Found(None)));
}

#[test]
fn tools_that_are_missing_are_named() {
    assert_eq!(start_error(Some("/x"), None), None);
    assert_eq!(start_error(Some("/x"), Some("gone")), Some("failed to launch /x: gone".to_string()));
    assert!(start_error(None, None).unwrap().starts_with("no lldb-dap adapter found"));
    assert_eq!(analyzer_error(true, None), None);
    assert_eq!(analyzer_error(true, Some("e")), Some("failed to launch rust-analyzer: e".to_string()));
    assert!(analyzer_error(false, None).unwrap().starts_with("rust-analyzer not found"));
    assert_eq!(bundled_adapter("/h"), "/h/.local/share/rdbg/codelldb/extension/adapter/codelldb");
    assert_eq!(printed_path(Some(" /x\n")), Some("/x".to_string()));
    assert_eq!(printed_path(Some("\n")), None);
    assert_eq!(ws_root(Some("/repo\n"), "/c"), "/repo");
    assert_eq!(ws_root(None, "/c"), "/c");
}

#[test]
fn formatters_are_imported_and_sourced() {
    let (lookup, commands) = formatter_files("/root");
    assert_eq!(lookup, "/root/lib/rustlib/etc/lldb_lookup.py");
    assert_eq!(
        rust_formatter_commands(&lookup, &commands, true),
        [
            "command script import /root/lib/rustlib/etc/lldb_lookup.py",
            "command source -s 0 /root/lib/rustlib/etc/lldb_commands",
        ]
    );
    assert!(rust_formatter_commands(&lookup, &commands, false).is_empty());
}
