use rdbg::util::{
    abs, adapter_version, classify_build_error, classify_error, extract_panic_message, file_name,
    newest_adapter, rel_from_uri, show_below, socket_path, state_dir, tail, uri, work_dir,
};

#[test]
fn extracts_the_panic_report_from_program_output() {
    // modern (1.72+) two-line format, with the note trimmed off
    let out = "running 1 test\nthread 'tests::boom' panicked at src/lib.rs:6:23:\n\
               index out of bounds: the len is 3 but the index is 7\n\
               note: run with `RUST_BACKTRACE=1` environment variable to display a backtrace\n";
    assert_eq!(extract_panic_message(out).unwrap(),
        "thread 'tests::boom' panicked at src/lib.rs:6:23:\nindex out of bounds: the len is 3 but the index is 7");
    // multi-line assert_eq! report is kept whole
    let out = "thread 'main' panicked at src/main.rs:2:5:\nassertion `left == right` failed\n  left: 1\n right: 2\n\ntail";
    assert_eq!(extract_panic_message(out).unwrap(),
        "thread 'main' panicked at src/main.rs:2:5:\nassertion `left == right` failed\n  left: 1\n right: 2");
    // pre-1.72 single-line format still comes through
    let out = "thread 'main' panicked at 'boom', src/main.rs:2:5\nnote: run with `RUST_BACKTRACE=1`...\n";
    assert_eq!(extract_panic_message(out).unwrap(), "thread 'main' panicked at 'boom', src/main.rs:2:5");
    // no panic yet
    assert_eq!(extract_panic_message("running 1 test\n"), None);
}

#[test]
fn a_long_panic_report_is_kept_whole() {
    let out = "panicked at a:\n1\n2\n3\n4\n5\n6\n7\n8\n9\n10\n11\n12\n13";
    assert_eq!(extract_panic_message(out).unwrap(), out);
    let ended = format!("x\n{out}\nstack backtrace:\n  0: f\n");
    assert_eq!(extract_panic_message(&ended).unwrap(), out);
}

#[test]
fn taxonomy_covers_the_known_error_shapes() {
    assert_eq!(classify_error("no debug session (run `rdbg launch` first)"), "no_session");
    assert_eq!(classify_error("timed out waiting for continue"), "timeout");
    assert_eq!(classify_error("no stop/exit event (program may still be running — try `pause`)"), "timeout");
    assert_eq!(classify_error("rust-analyzer is still warming up — retry in a moment"), "timeout");
    assert_eq!(classify_error("no lldb-dap adapter found (install LLVM/lldb, or Xcode command line tools)"), "debug_adapter_error");
    assert_eq!(classify_error("failed to launch /usr/bin/lldb-dap: No such file"), "debug_adapter_error");
    assert_eq!(classify_error("adapter never sent `initialized`"), "debug_adapter_error");
    assert_eq!(classify_error("relaunch failed: spawn error"), "debug_adapter_error");
    assert_eq!(classify_error("unknown command \"bogus\""), "user_error");
    assert_eq!(classify_error("breakpoint not found"), "user_error");
    assert_eq!(classify_error(""), "user_error");
}

#[test]
fn build_failures_split_into_target_and_build_errors() {
    assert_eq!(classify_build_error("error: no test target named `nope`."), "target_error");
    assert_eq!(classify_build_error("no integration test target 'nope' — tests/nope.rs does not exist"), "target_error");
    assert_eq!(classify_build_error("error: no bin target named `nope`"), "target_error");
    assert_eq!(classify_build_error("no library targets found in package `app`"), "target_error");
    assert_eq!(classify_build_error("cargo built nothing debuggable in /x — pick a target"), "target_error");
    assert_eq!(classify_build_error("error[E0308]: mismatched types\nerror: could not compile `app`"), "build_error");
    assert_eq!(classify_build_error("could not run cargo in /x: No such file"), "build_error");
}

#[test]
fn a_tail_fits_and_is_an_end() {
    assert_eq!(tail("hello", 10), "hello");
    assert_eq!(tail("hello", 3), "llo");
    assert_eq!(tail("hello", 0), "");
    // a character is taken whole or not at all
    assert_eq!(tail("aé", 1), "");
    assert_eq!(tail("aé", 2), "é");
    assert_eq!(tail("a→b", 3), "b");
    assert_eq!(tail("a→b", 4), "→b");
}

#[test]
fn paths_are_seen_from_a_directory() {
    assert_eq!(abs("/a/b.rs", "/w"), "/a/b.rs");
    assert_eq!(abs("b.rs", "/w"), "/w/b.rs");
    assert_eq!(abs("b.rs", "/"), "/b.rs");
    assert_eq!(uri("src/b.rs", "/w"), "file:///w/src/b.rs");
    assert_eq!(state_dir("/w"), "/w/.rdbg");
}

#[test]
fn uris_are_shown_below_the_root() {
    assert_eq!(rel_from_uri("file:///w/src/a.rs", "/w"), "src/a.rs");
    assert_eq!(rel_from_uri("file:///elsewhere/a.rs", "/w"), "a.rs");
    assert_eq!(rel_from_uri("/w/src/a.rs", "/w"), "src/a.rs");
    assert_eq!(rel_from_uri("file:///wider/a.rs", "/w"), "a.rs");
    assert_eq!(show_below("/elsewhere/a.rs", None), "a.rs");
    assert_eq!(show_below("/", None), "/");
    assert_eq!(show_below("/w/a.rs", Some("a.rs".to_string())), "a.rs");
}

#[test]
fn uris_lead_back_below_the_root() {
    for (root, p) in [("/w", "a.rs"), ("/w/app", "src/bin/x.rs"), ("/w", "../a.rs"), ("/.w", ".hidden")] {
        assert_eq!(rel_from_uri(&uri(&format!("{root}/{p}"), "/elsewhere"), root), p);
        assert_eq!(rel_from_uri(&format!("file://{root}2/n.rs"), root), "n.rs");
    }
    assert_eq!(rel_from_uri("file:///w/a.rs", "/"), "w/a.rs");
    assert_eq!(rel_from_uri("file:///w", "/w"), "");
}

#[test]
fn file_names_end_paths() {
    for p in ["/a/b.rs", "b.rs", "/a/b/", "/a/./b/.", "..", "/a/..", "/", "", ".", "a//b", "./x"] {
        let expected = std::path::Path::new(p).file_name().map(|f| f.to_string_lossy().to_string());
        assert_eq!(file_name(p), expected, "{p:?}");
    }
}

#[test]
fn sockets_are_named_by_the_workspace() {
    let a = socket_path("/w/one");
    let b = socket_path("/w/two");
    assert!(a.starts_with("/tmp/rdbg-") && a.ends_with(".sock"));
    assert_eq!(a.len(), "/tmp/rdbg-".len() + 16 + ".sock".len());
    assert_eq!(a, socket_path("/w/one"));
    assert_ne!(a, b);
}

#[test]
fn the_newest_adapter_is_picked() {
    let names: Vec<String> = ["ls", "lldb-dap-17", "lldb-vscode-14", "lldb-dap-18.1", "lldb-dap-x"]
        .iter()
        .map(|s| s.to_string())
        .collect();
    assert_eq!(newest_adapter(&names), Some(3));
    assert_eq!(newest_adapter(&vec!["ls".to_string()]), None);
    assert_eq!(adapter_version("lldb-dap-18.1"), Some(18));
    assert_eq!(adapter_version("lldb-dap-x"), Some(0));
    assert_eq!(adapter_version("lldb-dap"), None);
}

#[test]
fn a_program_runs_in_its_own_directory_unless_told() {
    assert_eq!(work_dir(Some("sub"), Some("/bin"), "/w"), "/w/sub");
    assert_eq!(work_dir(None, Some("/bin"), "/w"), "/bin");
    assert_eq!(work_dir(None, None, "/w"), "");
}
