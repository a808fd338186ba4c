use rdbg::cargo::{build_target, cargo_build, lists_test, pick_artifact, read_build};
use rdbg::wants::{Answer, Built, Pending, Want};

fn artifact(name: &str, kind: &str, test: bool, exe: &str) -> String {
    format!(
        r#"{{"reason":"compiler-artifact","target":{{"name":"{name}","kind":["{kind}"]}},"profile":{{"test":{test}}},"executable":"{exe}"}}"#
    )
}

#[test]
fn lib_mode_picks_the_lib_unittest_binary() {
    let lines = [
        artifact("build-script-build", "custom-build", false, "/t/build/bs"),
        r#"{"reason":"compiler-artifact","target":{"name":"serde","kind":["lib"]},"profile":{"test":false},"executable":null}"#.to_string(),
        artifact("rpncalc", "lib", true, "/t/debug/deps/rpncalc-abc"),
    ].join("\n");
    assert_eq!(pick_artifact(&lines, None, None, true).unwrap(), "/t/debug/deps/rpncalc-abc");
}

#[test]
fn named_bin_and_test_targets_win_over_others() {
    let lines = [
        artifact("other", "bin", false, "/t/debug/other"),
        artifact("app", "bin", false, "/t/debug/app"),
    ].join("\n");
    assert_eq!(pick_artifact(&lines, Some("app"), None, false).unwrap(), "/t/debug/app");
    let lines = [
        artifact("app", "bin", true, "/t/debug/deps/app-1"),
        artifact("mytest", "test", true, "/t/debug/deps/mytest-1"),
    ].join("\n");
    assert_eq!(
        pick_artifact(&lines, None, Some("mytest"), false).unwrap(),
        "/t/debug/deps/mytest-1"
    );
}

#[test]
fn build_scripts_are_never_picked() {
    let lines = artifact("build-script-build", "custom-build", false, "/t/build/bs");
    assert!(pick_artifact(&lines, None, None, false).is_none());
}

#[test]
fn without_a_name_the_last_executable_is_picked() {
    let lines = [
        artifact("one", "bin", false, "/t/debug/one"),
        "not json".to_string(),
        artifact("two", "bin", false, "/t/debug/two"),
    ].join("\n");
    assert_eq!(pick_artifact(&lines, None, None, false).unwrap(), "/t/debug/two");
    // a named target wins over a later one
    assert_eq!(pick_artifact(&lines, Some("one"), None, false).unwrap(), "/t/debug/one");
    assert!(pick_artifact("", None, None, false).is_none());
}

#[test]
fn a_failed_build_gives_the_diagnostics() {
    let out = "{\"reason\":\"compiler-message\",\"message\":{\"rendered\":\"error[E0308]: mismatched types\\n\"}}\n{\"reason\":\"other\"}\n";
    let built = Built::Ran { ok: false, out: out.to_string(), err: "error: could not compile `app`\n\n".to_string() };
    assert_eq!(
        read_build("/x", None, None, false, &built),
        Err("error[E0308]: mismatched types\nerror: could not compile `app`".to_string())
    );
    assert_eq!(
        read_build("/x", None, None, false, &Built::Failed("No such file".to_string())),
        Err("could not run cargo in /x: No such file".to_string())
    );
    let none = Built::Ran { ok: true, out: String::new(), err: String::new() };
    let e = read_build("/x", None, None, false, &none).unwrap_err();
    assert!(e.starts_with("cargo built nothing debuggable in /x — pick a target: --bin <name>"));
}

#[test]
fn test_lists_are_read() {
    assert!(lists_test(Some("tests::boom: test\n\n1 test, 0 benchmarks\n")));
    assert!(lists_test(Some("a: test  \r\n")));
    assert!(!lists_test(Some("0 tests, 0 benchmarks\n")));
    assert!(!lists_test(None));
}

#[test]
fn cargo_is_asked_for_the_target() {
    let none: Vec<Answer> = vec![];
    match cargo_build("/p", Some("app"), None, false, &none, 0) {
        Pending::Want(Want::Note { text }) => assert_eq!(text, "building …"),
        _ => panic!("no note"),
    }
    let noted = vec![Answer::Done];
    match cargo_build("/p", Some("app"), None, false, &noted, 0) {
        Pending::Want(Want::Cargo { dir, args }) => {
            assert_eq!(dir, "/p");
            assert_eq!(args, ["build", "--message-format=json", "--bin", "app"]);
        }
        _ => panic!("no cargo"),
    }
    match cargo_build("/p", None, Some("t"), false, &noted, 0) {
        Pending::Want(Want::Cargo { args, .. }) => {
            assert_eq!(args, ["test", "--no-run", "--message-format=json", "--test", "t"]);
        }
        _ => panic!("no cargo"),
    }
    match cargo_build("/p", None, None, true, &noted, 0) {
        Pending::Want(Want::Cargo { args, .. }) => {
            assert_eq!(args, ["test", "--no-run", "--message-format=json", "--lib"]);
        }
        _ => panic!("no cargo"),
    }
}

fn no_target() -> Answer {
    Answer::Built(Built::Ran {
        ok: false,
        out: String::new(),
        err: "error: no test target named `boom`.".to_string(),
    })
}

#[test]
fn an_unknown_test_target_falls_back_to_the_unit_tests() {
    let lib = Answer::Built(Built::Ran {
        ok: true,
        out: artifact("app", "lib", true, "/t/app-1"),
        err: String::new(),
    });
    let mut answers = vec![Answer::Done, no_target(), Answer::Done, lib];
    match build_target("/p", None, Some("boom"), false, &vec![], &answers, 0) {
        Pending::Want(Want::ListTests { exe, filter }) => {
            assert_eq!(exe, "/t/app-1");
            assert_eq!(filter, "boom");
        }
        _ => panic!("tests not listed"),
    }
    answers.push(Answer::Text(Some("tests::boom: test\n".to_string())));
    match build_target("/p", None, Some("boom"), false, &vec![], &answers, 0) {
        Pending::Want(Want::Note { text }) => assert_eq!(
            text,
            "note: 'boom' is not an integration test target (no tests/boom.rs); treating it as a --lib unit-test filter"
        ),
        _ => panic!("no note"),
    }
    answers.push(Answer::Done);
    match build_target("/p", None, Some("boom"), false, &vec!["--nocapture".to_string()], &answers, 0) {
        Pending::Done(Ok((exe, args)), n) => {
            assert_eq!(exe, "/t/app-1");
            assert_eq!(args, ["boom", "--nocapture"]);
            assert_eq!(n, 6);
        }
        _ => panic!("not built"),
    }
}

#[test]
fn an_unknown_test_says_the_right_invocation() {
    let failed = Answer::Built(Built::Failed("gone".to_string()));
    let answers = vec![Answer::Done, no_target(), Answer::Done, failed];
    match build_target("/p", None, Some("boom"), false, &vec![], &answers, 0) {
        Pending::Done(Err(e), _) => {
            assert!(e.starts_with("no integration test target 'boom' — tests/boom.rs does not exist, and the package has no library unit-test binary.\n"));
            assert!(e.contains("rdbg launch --cargo <dir> --lib --break <file>:<line> -- boom"));
        }
        _ => panic!("built"),
    }
}
