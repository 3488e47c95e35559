use appz_wsl_mcp::logging::ExecutionLogger;

#[test]
fn log_file_names() {
    let off = ExecutionLogger::new(".logs", false);
    assert_eq!(off.log_file_name("abc"), None);
    let on = ExecutionLogger::new(".logs", true);
    assert_eq!(on.log_file_name("abc").as_deref(), Some("abc.json"));
    assert_eq!(on.dir(), ".logs");
}

#[test]
fn log_files_recognised() {
    assert!(ExecutionLogger::is_log_file("a.json"));
    assert!(ExecutionLogger::is_log_file("x.tar.json"));
    assert!(ExecutionLogger::is_log_file("..json"));
    assert!(!ExecutionLogger::is_log_file(".json"));
    assert!(!ExecutionLogger::is_log_file("a.txt"));
    assert!(!ExecutionLogger::is_log_file("json"));
    assert!(!ExecutionLogger::is_log_file(".."));
    assert!(!ExecutionLogger::is_log_file("a.JSON"));
    assert!(!ExecutionLogger::is_log_file("a.json.bak"));
}
