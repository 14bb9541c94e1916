use build_launcher::args::{parse_args, ResolvedConfig};
use build_launcher::dispatch::{display_help, plan_launch, LaunchPlan};
use build_launcher::errors::LauncherError;
use build_launcher::hash::{fnv1_hash, hash_path};
use build_launcher::paths::base_name;
use build_launcher::resolve::{get_hashed_dir, join_dir, parent_dir, resolve_build_dir};

fn strings(items: &[&str]) -> Vec<String> {
    items.iter().map(|s| s.to_string()).collect()
}

#[test]
fn hash_of_empty_is_offset_basis() {
    assert_eq!(fnv1_hash(&Vec::new()), 2166136261);
}

#[test]
fn hash_of_single_byte() {
    assert_eq!(fnv1_hash(&vec![b'a']), 3826002220);
    assert_eq!(hash_path("a"), 3826002220);
}

#[test]
fn hash_is_deterministic_and_32_bit() {
    let first = hash_path("/home/alice/foo");
    let second = hash_path("/home/alice/foo");
    assert_eq!(first, second);
    assert!(first < 1u64 << 32);
    assert_eq!(first, 1704150969);
}

#[test]
fn base_name_of_drive_letter() {
    assert_eq!(base_name("C:").unwrap(), "C");
    assert_eq!(base_name("C:\\").unwrap(), "C");
}

#[test]
fn base_name_of_ordinary_path() {
    assert_eq!(base_name("/home/alice/project").unwrap(), "project");
    assert_eq!(base_name("C:\\work\\proj").unwrap(), "proj");
}

#[test]
fn base_name_is_nonempty_for_accepted_paths() {
    for p in ["/", "x", "a/b", "./thing", "C:", "C:stuff"] {
        assert!(!base_name(p).unwrap().is_empty());
    }
}

#[test]
fn base_name_rejects_empty_path() {
    assert_eq!(base_name(""), Err(LauncherError::InvalidPath));
}

#[test]
fn base_name_rejects_trailing_parent_reference() {
    assert_eq!(base_name("/home/alice/.."), Err(LauncherError::InvalidPath));
    assert_eq!(base_name("a/b/../"), Err(LauncherError::InvalidPath));
}

#[test]
fn resolved_directories_differ_for_equal_leaf_names() {
    let alice = resolve_build_dir("/home/alice/foo", "/tmp/rust").unwrap();
    let bob = resolve_build_dir("/home/bob/foo", "/tmp/rust").unwrap();
    assert_ne!(alice, bob);
    assert_eq!(alice, "/tmp/rust/foo-1704150969");
    assert_eq!(bob, "/tmp/rust/foo-3290547678");
}

#[test]
fn resolve_drive_letter_versus_ordinary_path() {
    assert_eq!(
        resolve_build_dir("C:", "/tmp/rust").unwrap(),
        "/tmp/rust/C-2363110872"
    );
    assert_eq!(
        resolve_build_dir("/home/alice/project", "/tmp/rust").unwrap(),
        "/tmp/rust/project-1117823372"
    );
}

#[test]
fn hashed_dir_shape() {
    assert_eq!(get_hashed_dir("/tmp/work/proj").unwrap(), "proj-573509561");
}

#[test]
fn resolve_round_trips_through_parent() {
    for (p, base) in [
        ("/home/alice/project", "/tmp/rust"),
        ("C:", "/tmp/rust"),
        ("a/b/c", ""),
        ("proj", "relative/base"),
    ] {
        let resolved = resolve_build_dir(p, base).unwrap();
        assert_eq!(parent_dir(&resolved), base);
    }
}

#[test]
fn join_adds_separator_only_when_needed() {
    assert_eq!(join_dir("/tmp/rust", "x-1"), "/tmp/rust/x-1");
    assert_eq!(join_dir("/tmp/rust/", "x-1"), "/tmp/rust/x-1");
    assert_eq!(join_dir("", "x-1"), "x-1");
}

#[test]
fn join_keeps_backslash_bases() {
    assert_eq!(join_dir("C:\\rust\\", "x-1"), "C:\\rust\\x-1");
    assert_eq!(join_dir("C:\\rust", "x-1"), "C:\\rust/x-1");
}

#[test]
fn parent_of_plain_name_is_empty() {
    assert_eq!(parent_dir("foo-123"), "");
    assert_eq!(parent_dir("/tmp/rust/foo-123"), "/tmp/rust");
}

#[test]
fn dot_components_are_dropped_from_the_middle() {
    assert_eq!(base_name("/home/./alice/./proj").unwrap(), "proj");
    assert_eq!(base_name("/home/alice/proj/.").unwrap(), "proj");
}

#[test]
fn target_without_value_is_an_argument_error() {
    assert!(matches!(
        parse_args(&strings(&["--target"])),
        Err(LauncherError::Argument)
    ));
    assert!(matches!(
        parse_args(&strings(&["-t"])),
        Err(LauncherError::Argument)
    ));
    assert!(matches!(
        parse_args(&strings(&["/some/dir/first", "--target"])),
        Ok(_)
    ));
}

#[test]
fn no_positional_means_no_override_and_no_argument() {
    let cfg = parse_args(&strings(&[])).unwrap();
    assert!(cfg.project_dir.is_none());
    let plan = plan_launch(&cfg, "/tmp/rust").unwrap();
    match plan {
        LaunchPlan::Launch {
            env_override,
            open_arg,
        } => {
            assert!(env_override.is_none());
            assert!(open_arg.is_none());
        }
        LaunchPlan::ShowHelp => panic!("help was not requested"),
    }
}

#[test]
fn help_stops_processing() {
    let cfg = parse_args(&strings(&["--help", "/ignored"])).unwrap();
    assert!(cfg.show_help);
    assert!(cfg.project_dir.is_none());
    let plan = plan_launch(&cfg, "/tmp/rust").unwrap();
    assert!(matches!(plan, LaunchPlan::ShowHelp));
    let short = parse_args(&strings(&["-h"])).unwrap();
    assert!(short.show_help);
}

#[test]
fn target_and_positional_resolve_into_plan() {
    let cfg = parse_args(&strings(&["--target", "/custom/base", "/home/alice/foo"])).unwrap();
    assert_eq!(cfg.target_base_dir.as_deref(), Some("/custom/base"));
    assert_eq!(cfg.project_dir.as_deref(), Some("/home/alice/foo"));
    assert!(!cfg.suppress_open);
    let plan = plan_launch(&cfg, "/tmp/rust").unwrap();
    match plan {
        LaunchPlan::Launch {
            env_override,
            open_arg,
        } => {
            assert_eq!(env_override.as_deref(), Some("/custom/base/foo-1704150969"));
            assert_eq!(open_arg.as_deref(), Some("/home/alice/foo"));
        }
        LaunchPlan::ShowHelp => panic!("help was not requested"),
    }
}

#[test]
fn only_build_target_suppresses_the_directory_argument() {
    let cfg = parse_args(&strings(&["-o", "/home/alice/foo"])).unwrap();
    assert!(cfg.suppress_open);
    let plan = plan_launch(&cfg, "/tmp/rust").unwrap();
    match plan {
        LaunchPlan::Launch {
            env_override,
            open_arg,
        } => {
            assert_eq!(env_override.as_deref(), Some("/tmp/rust/foo-1704150969"));
            assert!(open_arg.is_none());
        }
        LaunchPlan::ShowHelp => panic!("help was not requested"),
    }
}

#[test]
fn unrecognized_options_are_ignored() {
    let cfg = parse_args(&strings(&["--verbose", "-x", "/dir"])).unwrap();
    assert_eq!(cfg.project_dir.as_deref(), Some("/dir"));
    assert!(!cfg.show_help);
}

#[test]
fn double_dash_ends_options() {
    let cfg = parse_args(&strings(&["--", "--help"])).unwrap();
    assert!(!cfg.show_help);
    assert_eq!(cfg.project_dir.as_deref(), Some("--help"));
}

#[test]
fn later_positionals_are_ignored() {
    let cfg = parse_args(&strings(&["/first", "/second", "-o"])).unwrap();
    assert_eq!(cfg.project_dir.as_deref(), Some("/first"));
    assert!(!cfg.suppress_open);
}

#[test]
fn invalid_project_path_fails_the_plan() {
    let cfg = ResolvedConfig {
        show_help: false,
        target_base_dir: None,
        suppress_open: false,
        project_dir: Some(String::from("/ends/with/..")),
    };
    assert_eq!(
        plan_launch(&cfg, "/tmp/rust"),
        Err(LauncherError::InvalidPath)
    );
}

#[test]
fn error_messages_are_fixed() {
    assert_eq!(
        LauncherError::Configuration.message(),
        "Missing the TMP env var"
    );
    assert_eq!(LauncherError::Argument.message(), "Target requires a value");
    assert_eq!(LauncherError::InvalidPath.message(), "Not a valid path");
    assert_eq!(LauncherError::Launch.message(), "Failed to launch VsCode");
}

#[test]
fn help_text_names_the_options() {
    let text = display_help();
    assert!(text.starts_with("Usage: vscode-custom-build-launcher"));
    assert!(text.contains("--only-build-target"));
    assert!(text.contains("--target"));
}
