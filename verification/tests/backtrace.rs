use build_launcher::trace::{
    condense_backtrace, contains_str, join_frames, replace_first_num_exec, split_lines_exec,
};

#[test]
fn splitting_keeps_empty_lines() {
    assert_eq!(split_lines_exec("a\n\nb"), vec!["a", "", "b"]);
    assert_eq!(split_lines_exec(""), vec![""]);
    assert_eq!(split_lines_exec("x\n"), vec!["x", ""]);
}

#[test]
fn substring_search() {
    assert!(contains_str("foo __rust_end_short_backtrace bar", "__rust_end_short_backtrace"));
    assert!(!contains_str("foo", "__rust_end_short_backtrace"));
    assert!(contains_str("anything", ""));
}

#[test]
fn renumbering_replaces_the_first_frame_number_only() {
    assert_eq!(replace_first_num_exec("  12: foo at x.rs:3: y", 3), "  3: foo at x.rs:3: y");
    assert_eq!(replace_first_num_exec("no number here", 7), "no number here");
    assert_eq!(replace_first_num_exec("9:x", 1), "9:x");
}

#[test]
fn joining_frames_with_newlines() {
    let frames: Vec<String> = vec!["a".into(), "b".into(), "c".into()];
    assert_eq!(join_frames(&frames), "a\nb\nc");
    assert_eq!(join_frames(&Vec::new()), "");
}

#[test]
fn condensing_a_backtrace() {
    let raw = "   0: std::backtrace_rs::backtrace::libunwind::trace\n             at /rustc/lib.rs:93:5\n   1: core::panicking::panic_fmt\n             at panicking.rs:72:14\n   2: foo::__rust_end_short_backtrace\n             at mod.rs:1:1\n   3: skipped_a\n             at a.rs:1:1\n   4: skipped_b\n             at b.rs:2:2\n   5: my_crate::real_frame\n             at main.rs:10:5\n   6: my_crate::main\n             at main.rs:3:3\n   7: core::ops::function::FnOnce::call_once\n             at function.rs:250:5\n   8: std::sys::__rust_begin_short_backtrace\n             at backtrace.rs:1:1\n";
    let frames = condense_backtrace(raw);
    assert_eq!(
        frames,
        vec![
            "   0: my_crate::real_frame\n             at main.rs:10:5",
            "   1: my_crate::main\n             at main.rs:3:3",
            "   2: core::ops::function::FnOnce::call_once\n             at function.rs:250:5",
        ]
    );
}

#[test]
fn condensing_without_markers_yields_nothing() {
    let frames = condense_backtrace("   0: a\n             at x.rs:1:1\n");
    assert!(frames.is_empty());
}
