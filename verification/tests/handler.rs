use appz_wsl_mcp::server::handler::{
    disk_usage_path, health, method_not_found, policy_gate, response_member, route_method,
    route_tool, tools_list, unknown_tool, Method, ResponseMember, Tool,
};
use appz_wsl_mcp::services::exec::PolicyResult;

#[test]
fn methods_routed() {
    assert_eq!(route_method("tools/list"), Method::ToolsList);
    assert_eq!(route_method("tools/call"), Method::ToolsCall);
    assert_eq!(route_method("initialize"), Method::Initialize);
    assert_eq!(route_method("ping"), Method::Ping);
    assert_eq!(route_method("Ping"), Method::Unknown);
}

#[test]
fn every_listed_tool_is_routed() {
    let list = tools_list();
    assert_eq!(list.len(), 22);
    for (i, d) in list.iter().enumerate() {
        assert_ne!(route_tool(&d.name), Tool::Unknown, "tool {i}");
        for e in &list[i + 1..] {
            assert_ne!(route_tool(&d.name), route_tool(&e.name));
        }
    }
    assert_eq!(route_tool("wsl_execute_command"), Tool::ExecuteCommand);
    assert_eq!(route_tool("read:get_env"), Tool::GetEnv);
    assert_eq!(route_tool("nope"), Tool::Unknown);
}

#[test]
fn tool_schemas() {
    let list = tools_list();
    assert_eq!(list[0].name, "wsl_list_distros");
    assert!(list[0].params.is_none());
    let cfg = list.iter().find(|d| d.name == "wsl_configure").unwrap();
    assert_eq!(cfg.params.as_ref().unwrap(), &vec![("settings".to_string(), "object".to_string())]);
    let imp = list.iter().find(|d| d.name == "wsl_import_distro").unwrap();
    assert_eq!(imp.params.as_ref().unwrap().len(), 3);
}

#[test]
fn errors() {
    let e = method_not_found("foo");
    assert_eq!(e.code, -32601);
    assert_eq!(e.message, "Method not found: foo");
    let e = unknown_tool("bar");
    assert_eq!(e.code, -32601);
    assert_eq!(e.message, "Unknown tool: bar");
    let e = policy_gate(&PolicyResult::Denied("rm".to_string())).unwrap();
    assert_eq!(e.code, -32000);
    assert_eq!(e.message, "Command denied by policy: rm");
    assert!(policy_gate(&PolicyResult::Allowed).is_none());
    assert!(policy_gate(&PolicyResult::Confirm).is_none());
}

#[test]
fn disk_usage_default_path() {
    assert_eq!(disk_usage_path(""), "/");
    assert_eq!(disk_usage_path("/home"), "/home");
}

fn utc_stamp_shape(s: &str) {
    let c: Vec<char> = s.chars().collect();
    assert!(s.ends_with("+00:00"), "{s}");
    assert_eq!(c[4], '-');
    assert_eq!(c[7], '-');
    assert_eq!(c[10], 'T');
    assert_eq!(c[13], ':');
    assert_eq!(c[16], ':');
}

#[test]
fn health_reports_ok_and_time() {
    let h = health();
    assert_eq!(h.status, "ok");
    utc_stamp_shape(&h.uptime);
}

#[test]
fn response_member_by_outcome() {
    let ok: Result<u32, _> = Ok(1);
    assert_eq!(response_member(&ok), ResponseMember::Result);
    let err: Result<u32, _> = Err(method_not_found("x"));
    assert_eq!(response_member(&err), ResponseMember::Error);
}
