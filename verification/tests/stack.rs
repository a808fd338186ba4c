use rdbg::stack::{first_user_frame, Frame, Stop};

fn frame(name: &str, path: &str) -> Frame {
    Frame { id: 0, name: name.into(), file: "f".into(), line: 1, path: path.into() }
}

#[test]
fn skips_the_panic_machinery_to_the_users_frame() {
    let frames = [
        frame("core::panicking::panic_bounds_check", "/rustc/abc123/library/core/src/panicking.rs"),
        frame("rpncalc::tests::boom", "/home/me/rpncalc/src/lib.rs"),
        frame("core::ops::function::FnOnce::call_once", "/rustc/abc123/library/core/src/ops/function.rs"),
    ];
    assert_eq!(first_user_frame(&frames), Some(1));
}

#[test]
fn skips_every_panic_entry_point_shape() {
    for (name, path) in [
        ("rust_panic", "/rustc/abc/library/std/src/panicking.rs"),
        ("core::panicking::panic_fmt", "/rustc/abc/library/core/src/panicking.rs"),
        ("std::panicking::begin_panic_handler", "/rustc/abc/library/std/src/panicking.rs"),
        ("core::panicking::panic", "/rustc/abc/library/core/src/panicking.rs"),
        ("core::option::Option<T>::unwrap", "/rustc/abc/library/core/src/option.rs"),
        ("__rust_try", ""),
        ("std::sys::backtrace::__rust_begin_short_backtrace", "/rustc/abc/library/std/src/sys/backtrace.rs"),
    ] {
        let frames = [frame(name, path), frame("app::main", "/home/me/app/src/main.rs")];
        assert_eq!(first_user_frame(&frames), Some(1), "should skip {name}");
    }
}

#[test]
fn prefers_the_users_crate_over_a_dependency_frame() {
    let frames = [
        frame("core::panicking::panic", "/rustc/abc/library/core/src/panicking.rs"),
        frame("serde_json::de::from_str", "/home/me/.cargo/registry/src/idx/serde_json-1.0/src/de.rs"),
        frame("app::load", "/home/me/app/src/main.rs"),
    ];
    assert_eq!(first_user_frame(&frames), Some(2));
    // ... but a dependency frame beats no user frame at all
    assert_eq!(first_user_frame(&frames[..2]), Some(1));
}

#[test]
fn all_library_frames_yields_none() {
    let frames = [
        frame("rust_panic", "/rustc/abc/library/std/src/panicking.rs"),
        frame("std::rt::lang_start", "/rustc/abc/library/std/src/rt.rs"),
    ];
    assert_eq!(first_user_frame(&frames), None);
}

#[test]
fn the_innermost_frame_is_on_top() {
    let stop = Stop {
        reason: "breakpoint".into(),
        thread_id: 1,
        frames: vec![frame("app::inner", "/a.rs"), frame("app::outer", "/a.rs")],
        exited: false,
        exit_code: None,
    };
    assert_eq!(stop.top().unwrap().name, "app::inner");
    let over = Stop::exited(Some(3));
    assert!(over.top().is_none());
    assert!(over.exited);
    assert_eq!(over.exit_code, Some(3));
    assert_eq!(over.reason, "exited");
}
