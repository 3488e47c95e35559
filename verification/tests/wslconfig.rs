use appz_wsl_mcp::config::AppConfig;
use appz_wsl_mcp::services::config::WslConfigService;

#[test]
fn default_config_values() {
    let c = AppConfig::default();
    assert_eq!(c.server.address, "127.0.0.1");
    assert_eq!(c.server.port, 8787);
    assert_eq!(c.server.transport, "stdio");
    assert_eq!(c.execution.default_action, "allow");
    assert_eq!(c.execution.default_timeout_ms, 30000);
    assert_eq!(c.execution.max_timeout_ms, 300000);
    assert_eq!(c.execution.commands.len(), 3);
    assert_eq!(c.execution.commands[0].pattern, "shutdown|reboot|poweroff|halt");
    assert_eq!(c.execution.commands[0].action, "deny");
    assert_eq!(c.execution.commands[1].pattern, "rm -rf /|mkfs|dd if=");
    assert_eq!(c.execution.commands[1].action, "deny");
    assert_eq!(c.execution.commands[2].pattern, "sudo");
    assert_eq!(c.execution.commands[2].action, "confirm");
    assert_eq!(c.auth.api_key_env.as_deref(), Some("WSL_MCP_API_KEY"));
    assert_eq!(c.logging.dir, ".wsl-mcp-logs");
    assert!(!c.logging.persist);
    assert_eq!(c.path_mappings.len(), 2);
    assert_eq!(c.path_mappings[0].from_prefix, "C:\\Users\\");
    assert_eq!(c.path_mappings[0].to_prefix, "/mnt/c/Users/");
    assert_eq!(c.path_mappings[1].from_prefix, "D:\\");
    assert_eq!(c.path_mappings[1].to_prefix, "/mnt/d/");
}

#[test]
fn parse_reads_wsl2_section() {
    let text = "[wsl2]\nmemory=8GB\n processors = 4 \nswap=0\nlocalhostForwarding=TRUE\nnestedVirtualization=false\nvmIdleTimeout=60000\ndnsTunneling=true\nunknown=1\n";
    let c = WslConfigService::parse(text);
    assert_eq!(c.memory.as_deref(), Some("8GB"));
    assert_eq!(c.processors.as_deref(), Some("4"));
    assert_eq!(c.swap.as_deref(), Some("0"));
    assert_eq!(c.localhost_forwarding, Some(true));
    assert_eq!(c.nested_virtualization, Some(false));
    assert_eq!(c.vm_idle_timeout, Some(60000));
    assert_eq!(c.dns_tunneling, Some(true));
}

#[test]
fn parse_ignores_other_sections() {
    let text = "memory=1GB\n[experimental]\nmemory=2GB\n[WSL2]\r\nMEMORY=3GB\r\n[boot]\nswap=9\n";
    let c = WslConfigService::parse(text);
    assert_eq!(c.memory.as_deref(), Some("3GB"));
    assert!(c.swap.is_none());
    assert!(c.processors.is_none());
}

#[test]
fn parse_bad_number_and_empty() {
    let c = WslConfigService::parse("[wsl2]\nvmIdleTimeout=abc\n");
    assert_eq!(c.vm_idle_timeout, None);
    let c = WslConfigService::parse("[wsl2]\nvmIdleTimeout=+15\n");
    assert_eq!(c.vm_idle_timeout, Some(15));
    let c = WslConfigService::parse("[wsl2]\nvmIdleTimeout=18446744073709551616\n");
    assert_eq!(c.vm_idle_timeout, None);
    let c = WslConfigService::parse("");
    assert!(c.memory.is_none() && c.dns_tunneling.is_none());
}

#[test]
fn content_then_parse_gives_settings_back() {
    let settings = vec![
        ("memory".to_string(), "16GB".to_string()),
        ("processors".to_string(), "8".to_string()),
        ("dnsTunneling".to_string(), "true".to_string()),
    ];
    let text = WslConfigService::wslconfig_content(&settings);
    assert_eq!(text, "[wsl2]\nmemory=16GB\nprocessors=8\ndnsTunneling=true\n");
    let c = WslConfigService::parse(&text);
    assert_eq!(c.memory.as_deref(), Some("16GB"));
    assert_eq!(c.processors.as_deref(), Some("8"));
    assert_eq!(c.dns_tunneling, Some(true));
}

#[test]
fn content_of_no_settings() {
    assert_eq!(WslConfigService::wslconfig_content(&vec![]), "[wsl2]\n");
}

#[test]
fn wslconfig_path_from_profile() {
    assert_eq!(
        WslConfigService::wslconfig_path(Some("C:\\Users\\me".to_string())),
        "C:\\Users\\me\\.wslconfig"
    );
    assert_eq!(WslConfigService::wslconfig_path(None), "C:\\Users\\Default\\.wslconfig");
}

#[test]
fn written_text_settings_read_back_last_value() {
    let settings = vec![
        ("swap".to_string(), "0".to_string()),
        ("memory".to_string(), "4GB".to_string()),
        ("swap".to_string(), "2GB".to_string()),
    ];
    let c = WslConfigService::parse(&WslConfigService::wslconfig_content(&settings));
    assert_eq!(c.memory.as_deref(), Some("4GB"));
    assert_eq!(c.swap.as_deref(), Some("2GB"));
    assert!(c.processors.is_none());
    assert!(c.localhost_forwarding.is_none());
    assert!(c.nested_virtualization.is_none());
    assert!(c.vm_idle_timeout.is_none());
    assert!(c.dns_tunneling.is_none());
}
