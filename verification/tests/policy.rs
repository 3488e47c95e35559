use std::sync::Arc;

use appz_wsl_mcp::config::{AppConfig, CommandPolicy};
use appz_wsl_mcp::policy::{Action, PolicyEngine};
use appz_wsl_mcp::services::exec::{ExecService, ExecutionOutput, PolicyResult};

fn rule(pattern: &str, action: &str) -> CommandPolicy {
    CommandPolicy { pattern: pattern.to_string(), action: action.to_string() }
}

fn service(rules: Vec<CommandPolicy>, default_action: &str) -> ExecService {
    let mut cfg = AppConfig::default();
    cfg.execution.commands = rules;
    cfg.execution.default_action = default_action.to_string();
    ExecService::new(Arc::new(cfg))
}

#[test]
fn engine_patterns_are_regexes() {
    let e = PolicyEngine::new(vec![("^ls".to_string(), Action::Deny)], Action::Allow);
    assert_eq!(e.evaluate("ls -la"), Action::Deny);
    assert_eq!(e.evaluate("cat ls"), Action::Allow);
}

#[test]
fn engine_drops_broken_patterns() {
    let e = PolicyEngine::new(
        vec![("foo(".to_string(), Action::Deny), ("sudo".to_string(), Action::Confirm)],
        Action::Allow,
    );
    assert_eq!(e.rules.len(), 1);
    assert_eq!(e.evaluate("foo("), Action::Allow);
    assert_eq!(e.evaluate("sudo apt update"), Action::Confirm);
}

#[test]
fn engine_first_matching_rule_wins() {
    let e = PolicyEngine::new(
        vec![
            ("^git ".to_string(), Action::Allow),
            ("push".to_string(), Action::Deny),
        ],
        Action::Confirm,
    );
    assert_eq!(e.evaluate("git push"), Action::Allow);
    assert_eq!(e.evaluate("docker push"), Action::Deny);
    assert_eq!(e.evaluate("ls"), Action::Confirm);
}

#[test]
fn engine_without_rules_answers_default() {
    let e = PolicyEngine::new(vec![], Action::Deny);
    assert_eq!(e.evaluate("anything"), Action::Deny);
}

#[test]
fn check_policy_default_config() {
    let s = ExecService::new(Arc::new(AppConfig::default()));
    match s.check_policy("sudo shutdown now") {
        PolicyResult::Denied(reason) => assert_eq!(reason, "shutdown|reboot|poweroff|halt"),
        other => panic!("unexpected {other:?}"),
    }
    assert!(matches!(s.check_policy("ls -la"), PolicyResult::Allowed));
    match s.check_policy("mkfs.ext4 /dev/sdb1") {
        PolicyResult::Denied(reason) => assert_eq!(reason, "rm -rf /|mkfs|dd if="),
        other => panic!("unexpected {other:?}"),
    }
    assert!(matches!(s.check_policy("sudo apt update"), PolicyResult::Confirm));
}

#[test]
fn check_policy_confirm_and_skipped_rules() {
    let s = service(vec![rule("^ls", "allow"), rule("sudo", "confirm"), rule("ls", "deny")], "allow");
    assert!(matches!(s.check_policy("sudo ls"), PolicyResult::Confirm));
    match s.check_policy("ls /") {
        PolicyResult::Denied(reason) => assert_eq!(reason, "ls"),
        other => panic!("unexpected {other:?}"),
    }
}

#[test]
fn check_policy_broken_pattern_is_ignored() {
    let s = service(vec![rule("rm(", "deny")], "allow");
    assert!(matches!(s.check_policy("rm("), PolicyResult::Allowed));
}

#[test]
fn check_policy_default_actions() {
    match service(vec![], "deny").check_policy("ls") {
        PolicyResult::Denied(reason) => assert_eq!(reason, "default deny"),
        other => panic!("unexpected {other:?}"),
    }
    assert!(matches!(service(vec![], "confirm").check_policy("ls"), PolicyResult::Confirm));
    assert!(matches!(service(vec![], "whatever").check_policy("ls"), PolicyResult::Allowed));
}

#[test]
fn timeout_is_capped() {
    let s = ExecService::new(Arc::new(AppConfig::default()));
    assert_eq!(s.timeout_for(None), 30000);
    assert_eq!(s.timeout_for(Some(1000)), 1000);
    assert_eq!(s.timeout_for(Some(999999)), 300000);
}

#[test]
fn apply_path_mappings_uses_config() {
    let s = ExecService::new(Arc::new(AppConfig::default()));
    assert_eq!(s.apply_path_mappings("C:\\Users\\me"), "/mnt/c/Users/me");
    assert_eq!(s.apply_path_mappings("/mnt/c/Users/me"), "C:\\Users\\me");
    assert_eq!(s.apply_path_mappings("D:\\data"), "/mnt/d/data");
    assert_eq!(s.apply_path_mappings("/mnt/d/data"), "D:\\data");
}

#[test]
fn execution_output_reports() {
    let o = ExecutionOutput::completed("id1".into(), true, Some(0), "out".into(), "".into());
    assert_eq!(o.output, "out");
    assert_eq!(o.exit_code, 0);
    let o = ExecutionOutput::completed("id2".into(), false, None, "out".into(), "err".into());
    assert_eq!(o.output, "out\nerr");
    assert_eq!(o.exit_code, -1);
    assert!(!o.success);
    let o = ExecutionOutput::failed("id3".into(), "no such file".into());
    assert_eq!(o.output, "no such file");
    assert_eq!(o.exit_code, -1);
    let o = ExecutionOutput::timed_out("id4".into(), 1500);
    assert_eq!(o.output, "Timed out after 1500ms");
    assert_eq!(o.execution_id, "id4");
}

#[test]
fn prepare_execution_names_run_with_v4_uuid() {
    let s = ExecService::new(Arc::new(AppConfig::default()));
    let (id, timeout) = s.prepare_execution(Some(999999));
    assert_eq!(timeout, 300000);
    let c: Vec<char> = id.chars().collect();
    assert_eq!(c.len(), 36);
    for (i, ch) in c.iter().enumerate() {
        if [8, 13, 18, 23].contains(&i) {
            assert_eq!(*ch, '-');
        } else {
            assert!(ch.is_ascii_digit() || ('a'..='f').contains(ch));
        }
    }
    assert_eq!(c[14], '4');
    assert!(['8', '9', 'a', 'b'].contains(&c[19]));
    let (other, _) = s.prepare_execution(None);
    assert_ne!(id, other);
}
