//! MCP JSON-RPC 2.0 dispatch: which method and which tool a request names,
//! the tools on offer, the errors answered, the member of the response that
//! carries an outcome, and the health report.
use vstd::prelude::*;

use crate::clock::{now_rfc3339, rfc3339_utc};
use crate::services::exec::{PolicyResult, PolicyVerdict};
use crate::text::{append_str, chars_eq_str, chars_of, string_from};

verus! {

broadcast use vstd::string::group_string_axioms;

/// The JSON-RPC methods the server answers.
#[derive(Debug, Clone, Copy, PartialEq, Eq, Structural)]
pub enum Method {
    ToolsList,
    ToolsCall,
    Initialize,
    Ping,
    Unknown,
}

/// The tools the server offers.
#[derive(Debug, Clone, Copy, PartialEq, Eq, Structural)]
pub enum Tool {
    ListDistros,
    GetInfo,
    InstallDistro,
    StartDistro,
    StopDistro,
    ExecuteCommand,
    Configure,
    ExportDistro,
    ImportDistro,
    CopyFromWsl,
    CopyToWsl,
    AgentTask,
    SystemInfo,
    OsRelease,
    ListProcs,
    DiskUsage,
    PackageManagers,
    DefaultShell,
    GetEnv,
    Recommendations,
    AnalyzePerformance,
    PredictResources,
    Unknown,
}

/// A tool as `tools/list` describes it: its name, its description, and the
/// names and JSON types of its arguments when it declares an input schema.
#[derive(Debug, Clone)]
pub struct ToolDescriptor {
    pub name: String,
    pub description: String,
    pub params: Option<Vec<(String, String)>>,
}

/// What the health endpoint reports.
#[derive(Debug, Clone)]
pub struct HealthReport {
    pub status: String,
    pub uptime: String,
}

/// The health report: status `ok`, stamped with the current time.
pub fn health() -> (h: HealthReport)
    ensures
        h.status@ == "ok"@,
        rfc3339_utc(h.uptime@),
{
    HealthReport { status: String::from_str("ok"), uptime: now_rfc3339() }
}

/// The member of a JSON-RPC 2.0 response that carries an outcome.
#[derive(Debug, Clone, Copy, PartialEq, Eq, Structural)]
pub enum ResponseMember {
    Result,
    Error,
}

/// Which member carries an outcome: `result` for a success, `error` for an
/// error of the server.
pub fn response_member<T>(outcome: &Result<T, RpcError>) -> (m: ResponseMember)
    ensures
        m == (match outcome {
            Ok(_) => ResponseMember::Result,
            Err(_) => ResponseMember::Error,
        }),
{
    match outcome {
        Ok(_) => ResponseMember::Result,
        Err(_) => ResponseMember::Error,
    }
}

/// A JSON-RPC error.
#[derive(Debug, Clone)]
pub struct RpcError {
    pub code: i32,
    pub message: String,
}

/// The method a request names.
pub open spec fn method_of(m: Seq<char>) -> Method {
    if m == "tools/list"@ {
        Method::ToolsList
    } else if m == "tools/call"@ {
        Method::ToolsCall
    } else if m == "initialize"@ {
        Method::Initialize
    } else if m == "ping"@ {
        Method::Ping
    } else {
        Method::Unknown
    }
}

/// The tool a `tools/call` request names.
pub open spec fn tool_of(name: Seq<char>) -> Tool {
    if name == "wsl_list_distros"@ {
        Tool::ListDistros
    } else if name == "wsl_get_info"@ {
        Tool::GetInfo
    } else if name == "wsl_install_distro"@ {
        Tool::InstallDistro
    } else if name == "wsl_start_distro"@ {
        Tool::StartDistro
    } else if name == "wsl_stop_distro"@ {
        Tool::StopDistro
    } else if name == "wsl_execute_command"@ {
        Tool::ExecuteCommand
    } else if name == "wsl_configure"@ {
        Tool::Configure
    } else if name == "wsl_export_distro"@ {
        Tool::ExportDistro
    } else if name == "wsl_import_distro"@ {
        Tool::ImportDistro
    } else if name == "wsl_copy_from_wsl"@ {
        Tool::CopyFromWsl
    } else if name == "wsl_copy_to_wsl"@ {
        Tool::CopyToWsl
    } else if name == "wsl_agent_task"@ {
        Tool::AgentTask
    } else if name == "read:get_system_info"@ {
        Tool::SystemInfo
    } else if name == "read:get_os_release"@ {
        Tool::OsRelease
    } else if name == "read:list_procs"@ {
        Tool::ListProcs
    } else if name == "read:get_disk_usage"@ {
        Tool::DiskUsage
    } else if name == "read:get_package_managers"@ {
        Tool::PackageManagers
    } else if name == "read:get_default_shell"@ {
        Tool::DefaultShell
    } else if name == "read:get_env"@ {
        Tool::GetEnv
    } else if name == "wsl_get_recommendations"@ {
        Tool::Recommendations
    } else if name == "wsl_analyze_performance"@ {
        Tool::AnalyzePerformance
    } else if name == "wsl_predict_resources"@ {
        Tool::PredictResources
    } else {
        Tool::Unknown
    }
}

/// The tools on offer, in the order `tools/list` gives them.
pub open spec fn tool_list_spec() -> Seq<(Seq<char>, Seq<char>, Option<Seq<(Seq<char>, Seq<char>)>>)> {
    seq![
        ("wsl_list_distros"@, "List all installed WSL distributions with status"@, None),
        ("wsl_get_info"@, "Get WSL version and system information"@, None),
        ("wsl_install_distro"@, "Install a new WSL distribution"@, Some(seq![("distro"@, "string"@)])),
        ("wsl_start_distro"@, "Start a WSL distribution"@, Some(seq![("distro"@, "string"@)])),
        ("wsl_stop_distro"@, "Stop a WSL distribution"@, Some(seq![("distro"@, "string"@)])),
        ("wsl_execute_command"@, "Execute a command in a WSL distribution"@, Some(seq![("distro"@, "string"@), ("command"@, "string"@)])),
        ("wsl_configure"@, "Configure WSL settings (.wslconfig)"@, Some(seq![("settings"@, "object"@)])),
        ("wsl_export_distro"@, "Export a WSL distribution to tar"@, Some(seq![("distro"@, "string"@), ("output_path"@, "string"@)])),
        ("wsl_import_distro"@, "Import a WSL distribution from tar"@, Some(seq![("distro"@, "string"@), ("tar_path"@, "string"@), ("install_path"@, "string"@)])),
        ("wsl_copy_from_wsl"@, "Copy files from WSL to Windows"@, Some(seq![("distro"@, "string"@), ("wsl_path"@, "string"@), ("windows_path"@, "string"@)])),
        ("wsl_copy_to_wsl"@, "Copy files from Windows to WSL"@, Some(seq![("distro"@, "string"@), ("windows_path"@, "string"@), ("wsl_path"@, "string"@)])),
        ("wsl_agent_task"@, "Use AI agent to perform complex WSL tasks"@, Some(seq![("task"@, "string"@), ("context"@, "string"@)])),
        ("read:get_system_info"@, "Get WSL system information (uname -a)"@, None),
        ("read:get_os_release"@, "Get OS distribution info from /etc/os-release"@, None),
        ("read:list_procs"@, "List running processes"@, Some(seq![("filter"@, "string"@)])),
        ("read:get_disk_usage"@, "Get disk usage for a path"@, Some(seq![("path"@, "string"@)])),
        ("read:get_package_managers"@, "Detect available package managers"@, None),
        ("read:get_default_shell"@, "Get current user's default shell"@, None),
        ("read:get_env"@, "Get environment variables"@, Some(seq![("filter"@, "string"@)])),
        ("wsl_get_recommendations"@, "Get AI-powered optimization recommendations"@, Some(seq![("distro"@, "string"@)])),
        ("wsl_analyze_performance"@, "Analyze WSL performance with ML insights"@, Some(seq![("distro"@, "string"@)])),
        ("wsl_predict_resources"@, "Predict resource requirements for a workload"@, Some(seq![("distro"@, "string"@), ("workload"@, "string"@)]))
    ]
}

/// The tool that each entry of the list names, in the same order.
pub open spec fn listed_tools() -> Seq<Tool> {
    seq![
        Tool::ListDistros,
        Tool::GetInfo,
        Tool::InstallDistro,
        Tool::StartDistro,
        Tool::StopDistro,
        Tool::ExecuteCommand,
        Tool::Configure,
        Tool::ExportDistro,
        Tool::ImportDistro,
        Tool::CopyFromWsl,
        Tool::CopyToWsl,
        Tool::AgentTask,
        Tool::SystemInfo,
        Tool::OsRelease,
        Tool::ListProcs,
        Tool::DiskUsage,
        Tool::PackageManagers,
        Tool::DefaultShell,
        Tool::GetEnv,
        Tool::Recommendations,
        Tool::AnalyzePerformance,
        Tool::PredictResources
    ]
}

pub open spec fn params_view(p: Option<Vec<(String, String)>>) -> Option<Seq<(Seq<char>, Seq<char>)>> {
    match p {
        Some(v) => Some(v@.map_values(|e: (String, String)| (e.0@, e.1@))),
        None => None,
    }
}

pub open spec fn descriptor_view(d: ToolDescriptor) -> (Seq<char>, Seq<char>, Option<Seq<(Seq<char>, Seq<char>)>>) {
    (d.name@, d.description@, params_view(d.params))
}

/// The method a request names (see `method_of`).
pub fn route_method(method: &str) -> (m: Method)
    ensures
        m == method_of(method@),
{
    let n = chars_of(method);
    if chars_eq_str(&n, "tools/list") {
        Method::ToolsList
    } else if chars_eq_str(&n, "tools/call") {
        Method::ToolsCall
    } else if chars_eq_str(&n, "initialize") {
        Method::Initialize
    } else if chars_eq_str(&n, "ping") {
        Method::Ping
    } else {
        Method::Unknown
    }
}

/// The tool a `tools/call` request names (see `tool_of`).
pub fn route_tool(name: &str) -> (t: Tool)
    ensures
        t == tool_of(name@),
{
    let n = chars_of(name);
        if chars_eq_str(&n, "wsl_list_distros") {
            Tool::ListDistros
        } else if chars_eq_str(&n, "wsl_get_info") {
            Tool::GetInfo
        } else if chars_eq_str(&n, "wsl_install_distro") {
            Tool::InstallDistro
        } else if chars_eq_str(&n, "wsl_start_distro") {
            Tool::StartDistro
        } else if chars_eq_str(&n, "wsl_stop_distro") {
            Tool::StopDistro
        } else if chars_eq_str(&n, "wsl_execute_command") {
            Tool::ExecuteCommand
        } else if chars_eq_str(&n, "wsl_configure") {
            Tool::Configure
        } else if chars_eq_str(&n, "wsl_export_distro") {
            Tool::ExportDistro
        } else if chars_eq_str(&n, "wsl_import_distro") {
            Tool::ImportDistro
        } else if chars_eq_str(&n, "wsl_copy_from_wsl") {
            Tool::CopyFromWsl
        } else if chars_eq_str(&n, "wsl_copy_to_wsl") {
            Tool::CopyToWsl
        } else if chars_eq_str(&n, "wsl_agent_task") {
            Tool::AgentTask
        } else if chars_eq_str(&n, "read:get_system_info") {
            Tool::SystemInfo
        } else if chars_eq_str(&n, "read:get_os_release") {
            Tool::OsRelease
        } else if chars_eq_str(&n, "read:list_procs") {
            Tool::ListProcs
        } else if chars_eq_str(&n, "read:get_disk_usage") {
            Tool::DiskUsage
        } else if chars_eq_str(&n, "read:get_package_managers") {
            Tool::PackageManagers
        } else if chars_eq_str(&n, "read:get_default_shell") {
            Tool::DefaultShell
        } else if chars_eq_str(&n, "read:get_env") {
            Tool::GetEnv
        } else if chars_eq_str(&n, "wsl_get_recommendations") {
            Tool::Recommendations
        } else if chars_eq_str(&n, "wsl_analyze_performance") {
            Tool::AnalyzePerformance
        } else if chars_eq_str(&n, "wsl_predict_resources") {
            Tool::PredictResources
        } else {
            Tool::Unknown
        }
}

fn push_tool(v: &mut Vec<ToolDescriptor>, name: &str, description: &str, params: Option<Vec<(&str, &str)>>)
    ensures
        final(v)@.map_values(|d: ToolDescriptor| descriptor_view(d)) == old(v)@.map_values(
            |d: ToolDescriptor| descriptor_view(d),
        ).push(
            (
                name@,
                description@,
                match params {
                    Some(ps) => Some(ps@.map_values(|e: (&str, &str)| (e.0@, e.1@))),
                    None => None,
                },
            ),
        ),
{
    let params = match params {
        Some(ps) => {
            let mut out: Vec<(String, String)> = Vec::new();
            for i in 0..ps.len()
                invariant
                    out@.map_values(|e: (String, String)| (e.0@, e.1@)) == ps@.map_values(
                        |e: (&str, &str)| (e.0@, e.1@),
                    ).take(i as int),
            {
                let e = (String::from_str(ps[i].0), String::from_str(ps[i].1));
                let ghost before = out@;
                out.push(e);
                assert(out@.map_values(|e: (String, String)| (e.0@, e.1@)) =~= before.map_values(
                    |e: (String, String)| (e.0@, e.1@),
                ).push((ps@[i as int].0@, ps@[i as int].1@)));
                assert(ps@.map_values(|e: (&str, &str)| (e.0@, e.1@)).take(i + 1) =~= ps@.map_values(
                    |e: (&str, &str)| (e.0@, e.1@),
                ).take(i as int).push((ps@[i as int].0@, ps@[i as int].1@)));
            }
            assert(ps@.map_values(|e: (&str, &str)| (e.0@, e.1@)).take(ps.len() as int)
                =~= ps@.map_values(|e: (&str, &str)| (e.0@, e.1@)));
            Some(out)
        },
        None => None,
    };
    let d = ToolDescriptor {
        name: String::from_str(name),
        description: String::from_str(description),
        params,
    };
    let ghost before = v@;
    v.push(d);
    assert(v@.map_values(|d: ToolDescriptor| descriptor_view(d)) =~= before.map_values(
        |d: ToolDescriptor| descriptor_view(d),
    ).push(descriptor_view(d)));
}

/// The tools on offer (see `tool_list_spec`).
#[verifier::rlimit(60)]
pub fn tools_list() -> (v: Vec<ToolDescriptor>)
    ensures
        v@.map_values(|d: ToolDescriptor| descriptor_view(d)) == tool_list_spec(),
{
    let mut v: Vec<ToolDescriptor> = Vec::new();
    push_tool(&mut v, "wsl_list_distros", "List all installed WSL distributions with status", None);
    push_tool(&mut v, "wsl_get_info", "Get WSL version and system information", None);
    push_tool(&mut v, "wsl_install_distro", "Install a new WSL distribution", Some(vec![("distro", "string")]));
    push_tool(&mut v, "wsl_start_distro", "Start a WSL distribution", Some(vec![("distro", "string")]));
    push_tool(&mut v, "wsl_stop_distro", "Stop a WSL distribution", Some(vec![("distro", "string")]));
    push_tool(&mut v, "wsl_execute_command", "Execute a command in a WSL distribution", Some(vec![("distro", "string"), ("command", "string")]));
    push_tool(&mut v, "wsl_configure", "Configure WSL settings (.wslconfig)", Some(vec![("settings", "object")]));
    push_tool(&mut v, "wsl_export_distro", "Export a WSL distribution to tar", Some(vec![("distro", "string"), ("output_path", "string")]));
    push_tool(&mut v, "wsl_import_distro", "Import a WSL distribution from tar", Some(vec![("distro", "string"), ("tar_path", "string"), ("install_path", "string")]));
    push_tool(&mut v, "wsl_copy_from_wsl", "Copy files from WSL to Windows", Some(vec![("distro", "string"), ("wsl_path", "string"), ("windows_path", "string")]));
    push_tool(&mut v, "wsl_copy_to_wsl", "Copy files from Windows to WSL", Some(vec![("distro", "string"), ("windows_path", "string"), ("wsl_path", "string")]));
    push_tool(&mut v, "wsl_agent_task", "Use AI agent to perform complex WSL tasks", Some(vec![("task", "string"), ("context", "string")]));
    push_tool(&mut v, "read:get_system_info", "Get WSL system information (uname -a)", None);
    push_tool(&mut v, "read:get_os_release", "Get OS distribution info from /etc/os-release", None);
    push_tool(&mut v, "read:list_procs", "List running processes", Some(vec![("filter", "string")]));
    push_tool(&mut v, "read:get_disk_usage", "Get disk usage for a path", Some(vec![("path", "string")]));
    push_tool(&mut v, "read:get_package_managers", "Detect available package managers", None);
    push_tool(&mut v, "read:get_default_shell", "Get current user's default shell", None);
    push_tool(&mut v, "read:get_env", "Get environment variables", Some(vec![("filter", "string")]));
    push_tool(&mut v, "wsl_get_recommendations", "Get AI-powered optimization recommendations", Some(vec![("distro", "string")]));
    push_tool(&mut v, "wsl_analyze_performance", "Analyze WSL performance with ML insights", Some(vec![("distro", "string")]));
    push_tool(&mut v, "wsl_predict_resources", "Predict resource requirements for a workload", Some(vec![("distro", "string"), ("workload", "string")]));
    assert(v@.map_values(|d: ToolDescriptor| descriptor_view(d)) =~~= tool_list_spec());
    v
}

/// The error for a method the server does not know.
pub fn method_not_found(method: &str) -> (e: RpcError)
    ensures
        e.code == -32601,
        e.message@ == "Method not found: "@ + method@,
{
    let mut m = chars_of("Method not found: ");
    append_str(&mut m, method);
    RpcError { code: -32601, message: string_from(&m) }
}

/// The error for a tool the server does not offer.
pub fn unknown_tool(tool: &str) -> (e: RpcError)
    ensures
        e.code == -32601,
        e.message@ == "Unknown tool: "@ + tool@,
{
    let mut m = chars_of("Unknown tool: ");
    append_str(&mut m, tool);
    RpcError { code: -32601, message: string_from(&m) }
}

/// The error for a command that the policy refuses, if it refuses it: a
/// denied command is answered with error -32000 and the reason; an allowed
/// command, or one that needs confirmation, runs.
pub fn policy_gate(policy: &PolicyResult) -> (e: Option<RpcError>)
    ensures
        match policy@ {
            PolicyVerdict::Denied(reason) => e matches Some(err) && err.code == -32000
                && err.message@ == "Command denied by policy: "@ + reason,
            _ => e is None,
        },
{
    match policy {
        PolicyResult::Denied(reason) => {
            let mut m = chars_of("Command denied by policy: ");
            append_str(&mut m, reason.as_str());
            Some(RpcError { code: -32000, message: string_from(&m) })
        },
        _ => None,
    }
}

/// The path whose disk usage is asked for: the one given, or `/`.
pub fn disk_usage_path(path: &str) -> (p: String)
    ensures
        p@ == (if path@.len() == 0 {
            "/"@
        } else {
            path@
        }),
{
    if path.is_empty() {
        String::from_str("/")
    } else {
        String::from_str(path)
    }
}

/// Three features that tell the listed tool names apart: the length and
/// the characters at positions 4 and 9.
spec fn name_signature(s: Seq<char>) -> (nat, char, char) {
    (s.len(), s[4], s[9])
}

/// Every tool that `tools/list` offers is one that `tools/call` runs: the
/// name of the i-th listed tool is routed to the i-th tool, no listed name is
/// unknown, and no two listed names reach the same tool.
pub proof fn lemma_listed_tools_are_routed()
    ensures
        tool_list_spec().len() == listed_tools().len(),
        forall|i: int| 0 <= i < tool_list_spec().len() ==> tool_of(#[trigger] tool_list_spec()[i].0) == listed_tools()[i],
        forall|i: int| 0 <= i < listed_tools().len() ==> #[trigger] listed_tools()[i] != Tool::Unknown,
        forall|i: int, j: int| 0 <= i < j < listed_tools().len() ==> #[trigger] listed_tools()[i] != #[trigger] listed_tools()[j],
{
    reveal_strlit("wsl_list_distros");
    reveal_strlit("wsl_get_info");
    reveal_strlit("wsl_install_distro");
    reveal_strlit("wsl_start_distro");
    reveal_strlit("wsl_stop_distro");
    reveal_strlit("wsl_execute_command");
    reveal_strlit("wsl_configure");
    reveal_strlit("wsl_export_distro");
    reveal_strlit("wsl_import_distro");
    reveal_strlit("wsl_copy_from_wsl");
    reveal_strlit("wsl_copy_to_wsl");
    reveal_strlit("wsl_agent_task");
    reveal_strlit("read:get_system_info");
    reveal_strlit("read:get_os_release");
    reveal_strlit("read:list_procs");
    reveal_strlit("read:get_disk_usage");
    reveal_strlit("read:get_package_managers");
    reveal_strlit("read:get_default_shell");
    reveal_strlit("read:get_env");
    reveal_strlit("wsl_get_recommendations");
    reveal_strlit("wsl_analyze_performance");
    reveal_strlit("wsl_predict_resources");
    assert(tool_list_spec().len() == 22);
    // The listed names differ pairwise in their signatures, hence as names,
    // so the routing reaches each of them.
    assert(name_signature("wsl_list_distros"@) == (16nat, 'l', 'd'));
    assert(name_signature("wsl_get_info"@) == (12nat, 'g', 'n'));
    assert(name_signature("wsl_install_distro"@) == (18nat, 'i', 'l'));
    assert(name_signature("wsl_start_distro"@) == (16nat, 's', '_'));
    assert(name_signature("wsl_stop_distro"@) == (15nat, 's', 'd'));
    assert(name_signature("wsl_execute_command"@) == (19nat, 'e', 't'));
    assert(name_signature("wsl_configure"@) == (13nat, 'c', 'g'));
    assert(name_signature("wsl_export_distro"@) == (17nat, 'e', 't'));
    assert(name_signature("wsl_import_distro"@) == (17nat, 'i', 't'));
    assert(name_signature("wsl_copy_from_wsl"@) == (17nat, 'c', 'f'));
    assert(name_signature("wsl_copy_to_wsl"@) == (15nat, 'c', 't'));
    assert(name_signature("wsl_agent_task"@) == (14nat, 'a', '_'));
    assert(name_signature("read:get_system_info"@) == (20nat, ':', 's'));
    assert(name_signature("read:get_os_release"@) == (19nat, ':', 'o'));
    assert(name_signature("read:list_procs"@) == (15nat, ':', '_'));
    assert(name_signature("read:get_disk_usage"@) == (19nat, ':', 'd'));
    assert(name_signature("read:get_package_managers"@) == (25nat, ':', 'p'));
    assert(name_signature("read:get_default_shell"@) == (22nat, ':', 'd'));
    assert(name_signature("read:get_env"@) == (12nat, ':', 'e'));
    assert(name_signature("wsl_get_recommendations"@) == (23nat, 'g', 'e'));
    assert(name_signature("wsl_analyze_performance"@) == (23nat, 'a', 'z'));
    assert(name_signature("wsl_predict_resources"@) == (21nat, 'p', 'c'));
    assert(tool_of(tool_list_spec()[0].0) == listed_tools()[0]);
    assert(tool_of(tool_list_spec()[1].0) == listed_tools()[1]);
    assert(tool_of(tool_list_spec()[2].0) == listed_tools()[2]);
    assert(tool_of(tool_list_spec()[3].0) == listed_tools()[3]);
    assert(tool_of(tool_list_spec()[4].0) == listed_tools()[4]);
    assert(tool_of(tool_list_spec()[5].0) == listed_tools()[5]);
    assert(tool_of(tool_list_spec()[6].0) == listed_tools()[6]);
    assert(tool_of(tool_list_spec()[7].0) == listed_tools()[7]);
    assert(tool_of(tool_list_spec()[8].0) == listed_tools()[8]);
    assert(tool_of(tool_list_spec()[9].0) == listed_tools()[9]);
    assert(tool_of(tool_list_spec()[10].0) == listed_tools()[10]);
    assert(tool_of(tool_list_spec()[11].0) == listed_tools()[11]);
    assert(tool_of(tool_list_spec()[12].0) == listed_tools()[12]);
    assert(tool_of(tool_list_spec()[13].0) == listed_tools()[13]);
    assert(tool_of(tool_list_spec()[14].0) == listed_tools()[14]);
    assert(tool_of(tool_list_spec()[15].0) == listed_tools()[15]);
    assert(tool_of(tool_list_spec()[16].0) == listed_tools()[16]);
    assert(tool_of(tool_list_spec()[17].0) == listed_tools()[17]);
    assert(tool_of(tool_list_spec()[18].0) == listed_tools()[18]);
    assert(tool_of(tool_list_spec()[19].0) == listed_tools()[19]);
    assert(tool_of(tool_list_spec()[20].0) == listed_tools()[20]);
    assert(tool_of(tool_list_spec()[21].0) == listed_tools()[21]);
    assert forall|i: int| 0 <= i < tool_list_spec().len() implies tool_of(#[trigger] tool_list_spec()[i].0) == listed_tools()[i] by {
        if i == 0 {
        } else if i == 1 {
        } else if i == 2 {
        } else if i == 3 {
        } else if i == 4 {
        } else if i == 5 {
        } else if i == 6 {
        } else if i == 7 {
        } else if i == 8 {
        } else if i == 9 {
        } else if i == 10 {
        } else if i == 11 {
        } else if i == 12 {
        } else if i == 13 {
        } else if i == 14 {
        } else if i == 15 {
        } else if i == 16 {
        } else if i == 17 {
        } else if i == 18 {
        } else if i == 19 {
        } else if i == 20 {
        } else if i == 21 {
        }
    }
}

} // verus!
