use appz_wsl_mcp::services::terminal::{TerminalService, TmuxResult, WaitDecision};

#[test]
fn session_name_default() {
    assert_eq!(TerminalService::session_name(""), "wsl-mcp");
    assert_eq!(TerminalService::session_name("dev"), "dev");
}

#[test]
fn scroll_argument() {
    assert_eq!(TerminalService::scroll_arg(None), "-100");
    assert_eq!(TerminalService::scroll_arg(Some(5)), "-5");
    assert_eq!(TerminalService::scroll_arg(Some(0)), "-0");
}

#[test]
fn parse_sessions_rows() {
    let s = TerminalService::parse_sessions(true, "main:1700000000\n  work:1700000100:x \n\nsolo\n");
    assert_eq!(s.len(), 3);
    assert_eq!(s[0].name, "main");
    assert_eq!(s[0].created, "1700000000");
    assert_eq!(s[1].name, "work");
    assert_eq!(s[1].created, "1700000100:x");
    assert_eq!(s[2].name, "solo");
    assert_eq!(s[2].created, "");
    assert!(TerminalService::parse_sessions(false, "main:1").is_empty());
}

#[test]
fn wait_decisions() {
    assert_eq!(TerminalService::wait_decision(0, 3, true, "build DONE", "DONE"), WaitDecision::Found);
    assert_eq!(TerminalService::wait_decision(0, 3, false, "build DONE", "DONE"), WaitDecision::PollAgain);
    assert_eq!(TerminalService::wait_decision(2, 3, true, "nothing", "DONE"), WaitDecision::GiveUp);
    assert_eq!(TerminalService::wait_decision(2, 3, true, "DONE", "DONE"), WaitDecision::Found);
}

#[test]
fn wait_results() {
    let r = TerminalService::timeout_result("DONE", 3);
    assert!(!r.success);
    assert_eq!(r.exit_code, -1);
    assert_eq!(r.output, "Timeout: marker 'DONE' not found after 3 polls");
    assert_eq!(TerminalService::no_polls_result().output, "No polls configured");
    let r = TmuxResult::from_output(false, Some(1), "o".into(), "e".into());
    assert_eq!(r.output, "e");
    assert_eq!(r.exit_code, 1);
    assert_eq!(TmuxResult::failed("x".into()).output, "x");
}
