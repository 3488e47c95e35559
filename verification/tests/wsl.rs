use appz_wsl_mcp::services::wsl::{CommandResult, WslService};

#[test]
fn parse_distributions_reads_rows() {
    let out = "  NAME      STATE           VERSION\n*Ubuntu    Running         2\n  Debian    Stopped         1\n\n  short line\n";
    let ds = WslService::parse_distributions(out);
    assert_eq!(ds.len(), 2);
    assert_eq!(ds[0].name, "Ubuntu");
    assert!(ds[0].is_default);
    assert_eq!(ds[0].state, "Running");
    assert_eq!(ds[0].version, "2");
    assert_eq!(ds[1].name, "Debian");
    assert!(!ds[1].is_default);
    assert_eq!(ds[1].state, "Stopped");
    assert_eq!(ds[1].version, "1");
}

#[test]
fn parse_distributions_marker_as_own_word() {
    let out = "  NAME      STATE      VERSION\n* Ubuntu    Running    2\n  Debian    Stopped    2\n* Short Running\n";
    let ds = WslService::parse_distributions(out);
    assert_eq!(ds.len(), 2);
    assert_eq!(ds[0].name, "Ubuntu");
    assert!(ds[0].is_default);
    assert_eq!(ds[0].state, "Running");
    assert_eq!(ds[0].version, "2");
    assert_eq!(ds[1].name, "Debian");
    assert!(!ds[1].is_default);
    assert_eq!(ds[1].state, "Stopped");
    assert_eq!(ds[1].version, "2");
}

#[test]
fn parse_distributions_empty() {
    assert!(WslService::parse_distributions("").is_empty());
    assert!(WslService::parse_distributions("NAME STATE VERSION").is_empty());
}

#[test]
fn execute_command_arguments() {
    assert_eq!(WslService::execute_command_args("", "ls"), vec!["--exec", "ls"]);
    assert_eq!(WslService::execute_command_args("Ubuntu", "ls"), vec!["-d", "Ubuntu", "--exec", "ls"]);
}

#[test]
fn copy_to_wsl_command_text() {
    assert_eq!(
        WslService::copy_to_wsl_command("C:\\data\\f.txt", "/home/u/"),
        "cp -r 'C:/data/f.txt' '/home/u/'"
    );
}

#[test]
fn command_results() {
    let r = CommandResult::from_output(true, Some(0), "ok".into(), "warn".into());
    assert!(r.success);
    assert_eq!(r.output, "ok");
    assert_eq!(r.exit_code, 0);
    let r = CommandResult::from_output(false, None, "ok".into(), "bad".into());
    assert_eq!(r.output, "bad");
    assert_eq!(r.exit_code, -1);
    let r = CommandResult::failed("spawn".into());
    assert!(!r.success);
    assert_eq!(r.exit_code, -1);
    let r = WslService::configured("C:\\Users\\me\\.wslconfig");
    assert!(r.success);
    assert_eq!(r.exit_code, 0);
    assert_eq!(r.output, "Written to C:\\Users\\me\\.wslconfig. WSL restarted.");
}

#[test]
fn info_keeps_outputs_and_stamps_time() {
    let i = WslService::info("WSL version: 2".to_string(), "Default: Ubuntu".to_string());
    assert_eq!(i.version, "WSL version: 2");
    assert_eq!(i.status, "Default: Ubuntu");
    assert!(i.timestamp.ends_with("+00:00"));
    assert_eq!(i.timestamp.chars().nth(10), Some('T'));
}
