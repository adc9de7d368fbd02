use kokona::terminal::{has_suffix, parent_dir, StartSpec, TermAction, TermPhase, TerminalBridge};

fn start_spec(a: TermAction) -> StartSpec {
    match a {
        TermAction::Start(sp) => sp,
        _ => panic!("expected a start action"),
    }
}

#[test]
fn toggle_on_starts_a_shell_in_the_file_directory() {
    let mut b = TerminalBridge::new();
    let sp = start_spec(b.toggle_panel("proj/src/main.rs"));
    assert_eq!(sp.program, "/bin/sh");
    assert!(sp.arg.is_none());
    assert_eq!(sp.cwd, "proj/src");
    assert!(b.is_panel_open());
    assert_eq!(b.phase(), TermPhase::Initializing);
}

#[test]
fn toggle_on_then_off_leaves_no_session_state() {
    // Open then immediately close, with no output produced: every session
    // reference is gone, and a fresh toggle-on starts a brand-new session.
    let mut b = TerminalBridge::new();
    let _ = b.toggle_panel("a/b.txt");
    let action = b.toggle_panel("a/b.txt");
    assert!(matches!(action, TermAction::Shutdown));
    assert!(!b.is_panel_open());
    assert_eq!(b.phase(), TermPhase::Closed);
    assert!(b.output().is_empty());
    assert!(b.input_line().is_empty());
    // Brand-new session, not a resumed one.
    let again = b.toggle_panel("a/b.txt");
    assert!(matches!(again, TermAction::Start(_)));
    assert_eq!(b.phase(), TermPhase::Initializing);
    assert!(b.output().is_empty());
}

#[test]
fn closing_a_running_session_clears_its_output() {
    let mut b = TerminalBridge::new();
    let _ = b.toggle_panel("f.txt");
    b.session_started();
    assert_eq!(b.phase(), TermPhase::Running);
    b.append_output("child says hi\n");
    assert_eq!(b.output().as_str(), "child says hi\n");
    let action = b.toggle_panel("f.txt");
    assert!(matches!(action, TermAction::Shutdown));
    assert!(b.output().is_empty());
    assert_eq!(b.phase(), TermPhase::Closed);
}

#[test]
fn second_run_request_is_silently_ignored() {
    let mut b = TerminalBridge::new();
    let first = b.request_run("proj/main.rs");
    assert!(matches!(first, TermAction::Start(_)));
    b.session_started();
    let second = b.request_run("proj/main.rs");
    assert!(matches!(second, TermAction::Idle));
    assert_eq!(b.phase(), TermPhase::Running);
}

#[test]
fn run_command_depends_on_the_extension() {
    let mut b = TerminalBridge::new();
    let sp = start_spec(b.request_run("proj/main.rs"));
    assert_eq!(sp.program, "cargo");
    assert_eq!(sp.arg.as_deref(), Some("run"));
    assert_eq!(sp.cwd, "proj");

    let mut b = TerminalBridge::new();
    let sp = start_spec(b.request_run("tools/gen.py"));
    assert_eq!(sp.program, "python");
    assert_eq!(sp.arg.as_deref(), Some("tools/gen.py"));
    assert_eq!(sp.cwd, "tools");

    let mut b = TerminalBridge::new();
    let sp = start_spec(b.request_run("README.md"));
    assert_eq!(sp.program, "/bin/sh");
    assert!(sp.arg.is_none());
    assert_eq!(sp.cwd, "");
}

#[test]
fn failed_start_returns_to_closed() {
    let mut b = TerminalBridge::new();
    let _ = b.toggle_panel("f.txt");
    b.session_failed();
    assert_eq!(b.phase(), TermPhase::Closed);
    assert!(b.is_panel_open());
    // The user may try again.
    let again = b.request_run("f.rs");
    assert!(matches!(again, TermAction::Start(_)));
}

#[test]
fn submitted_input_is_written_and_echoed() {
    let mut b = TerminalBridge::new();
    let _ = b.toggle_panel("f.txt");
    b.session_started();
    b.set_input_line("ls -l");
    let sent = b.submit_input();
    assert_eq!(sent.as_deref(), Some("ls -l\n"));
    assert_eq!(b.output().as_str(), "$ ls -l\n");
    assert!(b.input_line().is_empty());
}

#[test]
fn blank_input_is_not_submitted() {
    let mut b = TerminalBridge::new();
    let _ = b.toggle_panel("f.txt");
    b.session_started();
    b.set_input_line("   \t");
    assert!(b.submit_input().is_none());
    assert_eq!(b.output().as_str(), "");
}

#[test]
fn output_arriving_without_a_session_is_dropped() {
    let mut b = TerminalBridge::new();
    b.append_output("late chunk");
    assert!(b.output().is_empty());
    let _ = b.toggle_panel("f.txt");
    // Still initializing: not yet running.
    b.append_output("early chunk");
    assert!(b.output().is_empty());
}

#[test]
fn display_closes_output_with_prompt_line() {
    let mut b = TerminalBridge::new();
    let _ = b.toggle_panel("f.txt");
    b.session_started();
    assert_eq!(b.display_content(), "\n$ ");
    b.append_output("hi");
    b.set_input_line("ab");
    assert_eq!(b.display_content(), "hi\n$ ab");
    b.append_output("\n");
    assert_eq!(b.display_content(), "hi\n$ ab");
}

#[test]
fn parent_dir_takes_text_before_last_slash() {
    assert_eq!(parent_dir("a/b/c.rs"), "a/b");
    assert_eq!(parent_dir("c.rs"), "");
    assert_eq!(parent_dir("/c.rs"), "");
    assert_eq!(parent_dir(""), "");
}

#[test]
fn suffix_check_matches_exact_endings() {
    assert!(has_suffix("main.rs", ".rs"));
    assert!(!has_suffix("main.rsx", ".rs"));
    assert!(!has_suffix("rs", ".rs"));
    assert!(has_suffix("x.py", ".py"));
    assert!(has_suffix("", ""));
}
