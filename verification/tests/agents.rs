use std::sync::Arc;

use appz_wsl_mcp::agents::intelligence::IntelligenceService;
use appz_wsl_mcp::agents::planner::TaskPlanner;
use appz_wsl_mcp::services::wsl::WslService;

#[test]
fn plan_by_task_kind() {
    let p = TaskPlanner::new(Arc::new(WslService::new()));
    assert_eq!(
        p.plan("INSTALL Ubuntu DISTRO", None),
        vec![
            "Check if distribution is already installed",
            "Install the requested distribution",
            "Verify installation success",
            "Start the distribution"
        ]
    );
    assert_eq!(p.plan("configure memory", None)[0], "Get current WSL configuration");
    assert_eq!(p.plan("\u{c9}XPORT distro", None)[0], "Analyze requirement: \u{c9}XPORT distro");
    assert_eq!(p.plan("EXPORT distro", None)[0], "List available distributions");
    assert_eq!(p.plan("Backup my distro", None)[2], "Export to tar file");
    assert_eq!(p.plan("optimize things", None)[3], "Validate improvements");
    assert_eq!(
        p.plan("Say Hello", Some("ctx")),
        vec!["Analyze requirement: Say Hello", "Execute appropriate WSL commands", "Verify results"]
    );
}

#[test]
fn execute_task_reports_steps() {
    let p = TaskPlanner::new(Arc::new(WslService::new()));
    let r = p.execute_task("Say Hello", None);
    assert!(r.success);
    assert_eq!(r.task, "Say Hello");
    assert_eq!(r.steps.len(), 3);
    assert_eq!(r.results[1], "Completed: Execute appropriate WSL commands");
    assert_eq!(r.summary, "Completed 3 steps");
    assert_eq!(p.run_step("x"), "Completed: x");
}

#[test]
fn predictions_by_workload() {
    let s = IntelligenceService::new(Arc::new(WslService::new()));
    let p = s.predict_resources("Ubuntu", "Docker containers");
    assert_eq!(p.workload, "Docker containers");
    assert_eq!(p.distribution_name, "Ubuntu");
    assert_eq!((p.recommended_memory_gb, p.recommended_cpu_cores, p.recommended_disk_gb, p.confidence_percent), (16, 6, 100, 90));
    assert_eq!(p.reasoning, "Container workloads require substantial resources");
    let p = s.predict_resources("d", "BUILD farm");
    assert_eq!((p.recommended_memory_gb, p.confidence_percent), (8, 85));
    let p = s.predict_resources("d", "ML training");
    assert_eq!((p.recommended_memory_gb, p.recommended_disk_gb), (32, 200));
    let p = s.predict_resources("d", "Web server");
    assert_eq!((p.recommended_memory_gb, p.recommended_disk_gb, p.confidence_percent), (4, 20, 80));
    let p = s.predict_resources("d", "general");
    assert_eq!((p.recommended_disk_gb, p.confidence_percent), (30, 60));
    assert_eq!(p.reasoning, "General purpose workload estimation");
}

#[test]
fn recommendations_and_analysis() {
    let r = IntelligenceService::recommendations_at(None, "T0".to_string());
    assert_eq!(r.timestamp, "T0");
    assert_eq!(r.distribution_name, "All");
    assert_eq!(r.score, 75);
    assert_eq!(r.items.len(), 2);
    assert_eq!(r.items[0].title, "High Memory Usage Detected");
    assert_eq!(r.items[1].action, "Add 'dnsTunneling=true' to .wslconfig");
    let a = IntelligenceService::analysis_at(Some("Ubuntu"), "T1".to_string());
    assert_eq!(a.distribution_name, "Ubuntu");
    assert_eq!(a.overall_score, 75);
    assert_eq!(a.insights.len(), 3);
    assert_eq!(a.bottlenecks, vec!["Memory"]);
    assert_eq!(a.prediction, "Health score: 75/100");
    let s = IntelligenceService::new(Arc::new(WslService::new()));
    let live = s.get_recommendations(Some("Debian"));
    assert_eq!(live.distribution_name, "Debian");
    assert!(!live.timestamp.is_empty());
    assert!(!s.analyze_performance(None).timestamp.is_empty());
}

#[test]
fn plan_ignores_ascii_case_of_planned_work() {
    let p = TaskPlanner::new(Arc::new(WslService::new()));
    assert_eq!(p.plan("Backup my distro", None), p.plan("BACKUP MY DISTRO", None));
    assert_eq!(p.plan("setup networking", Some("a")), p.plan("SETUP NETWORKING", Some("b")));
}

#[test]
fn plan_ignores_case_of_non_ascii_task() {
    let p = TaskPlanner::new(Arc::new(WslService::new()));
    assert_eq!(p.plan("sauvegarde backup \u{e9}t\u{e9}", None), p.plan("SAUVEGARDE BACKUP \u{e9}T\u{e9}", None));
}

#[test]
fn reports_are_stamped_in_utc() {
    let s = IntelligenceService::new(Arc::new(WslService::new()));
    let r = s.get_recommendations(None);
    assert!(r.timestamp.ends_with("+00:00"));
    assert_eq!(r.timestamp.chars().nth(10), Some('T'));
    let a = s.analyze_performance(Some("Ubuntu"));
    assert!(a.timestamp.ends_with("+00:00"));
}
