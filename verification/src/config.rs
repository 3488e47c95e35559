//! The server's configuration: its shape and its built-in defaults.
//!
//! Reading the YAML file is the application's business; the library holds
//! the values it reads.
use vstd::prelude::*;

verus! {

#[derive(Debug, Clone)]
pub struct AppConfig {
    pub server: ServerConfig,
    pub execution: ExecutionConfig,
    pub auth: AuthConfig,
    pub logging: LogConfig,
    pub path_mappings: Vec<PathMapping>,
}

#[derive(Debug, Clone)]
pub struct ServerConfig {
    pub address: String,
    pub port: u16,
    pub transport: String,
}

#[derive(Debug, Clone)]
pub struct ExecutionConfig {
    pub default_action: String,
    pub default_timeout_ms: u64,
    pub max_timeout_ms: u64,
    pub commands: Vec<CommandPolicy>,
}

#[derive(Debug, Clone)]
pub struct CommandPolicy {
    pub pattern: String,
    pub action: String,
}

#[derive(Debug, Clone)]
pub struct AuthConfig {
    pub api_key_env: Option<String>,
}

#[derive(Debug, Clone)]
pub struct LogConfig {
    pub dir: String,
    pub persist: bool,
}

#[derive(Debug, Clone)]
pub struct PathMapping {
    pub from_prefix: String,
    pub to_prefix: String,
}

impl Default for AppConfig {
    /// The configuration used when no file is given: stdio on 127.0.0.1:8787;
    /// commands allowed unless they match, in this order, the shutdown rule
    /// (deny), the destructive-disk rule (deny) or `sudo` (confirm); a 30 s
    /// default and 300 s maximum timeout; the API key read from
    /// `WSL_MCP_API_KEY`; logs not persisted; `C:\Users\` mapped to
    /// `/mnt/c/Users/` and `D:\` to `/mnt/d/`.
    fn default() -> (cfg: Self)
        ensures
            cfg.server.address@ == "127.0.0.1"@,
            cfg.server.port == 8787,
            cfg.server.transport@ == "stdio"@,
            cfg.execution.default_action@ == "allow"@,
            cfg.execution.default_timeout_ms == 30000,
            cfg.execution.max_timeout_ms == 300000,
            cfg.execution.commands@.len() == 3,
            cfg.execution.commands@[0].pattern@ == "shutdown|reboot|poweroff|halt"@,
            cfg.execution.commands@[0].action@ == "deny"@,
            cfg.execution.commands@[1].pattern@ == "rm -rf /|mkfs|dd if="@,
            cfg.execution.commands@[1].action@ == "deny"@,
            cfg.execution.commands@[2].pattern@ == "sudo"@,
            cfg.execution.commands@[2].action@ == "confirm"@,
            cfg.auth.api_key_env matches Some(name) && name@ == "WSL_MCP_API_KEY"@,
            cfg.logging.dir@ == ".wsl-mcp-logs"@,
            !cfg.logging.persist,
            cfg.path_mappings@.len() == 2,
            cfg.path_mappings@[0].from_prefix@ == "C:\\Users\\"@,
            cfg.path_mappings@[0].to_prefix@ == "/mnt/c/Users/"@,
            cfg.path_mappings@[1].from_prefix@ == "D:\\"@,
            cfg.path_mappings@[1].to_prefix@ == "/mnt/d/"@,
    {
        let mut commands: Vec<CommandPolicy> = Vec::new();
        commands.push(
            CommandPolicy {
                pattern: String::from_str("shutdown|reboot|poweroff|halt"),
                action: String::from_str("deny"),
            },
        );
        commands.push(
            CommandPolicy {
                pattern: String::from_str("rm -rf /|mkfs|dd if="),
                action: String::from_str("deny"),
            },
        );
        commands.push(
            CommandPolicy { pattern: String::from_str("sudo"), action: String::from_str("confirm") },
        );
        let mut path_mappings: Vec<PathMapping> = Vec::new();
        path_mappings.push(
            PathMapping {
                from_prefix: String::from_str("C:\\Users\\"),
                to_prefix: String::from_str("/mnt/c/Users/"),
            },
        );
        path_mappings.push(
            PathMapping {
                from_prefix: String::from_str("D:\\"),
                to_prefix: String::from_str("/mnt/d/"),
            },
        );
        AppConfig {
            server: ServerConfig {
                address: String::from_str("127.0.0.1"),
                port: 8787,
                transport: String::from_str("stdio"),
            },
            execution: ExecutionConfig {
                default_action: String::from_str("allow"),
                default_timeout_ms: 30000,
                max_timeout_ms: 300000,
                commands,
            },
            auth: AuthConfig { api_key_env: Some(String::from_str("WSL_MCP_API_KEY")) },
            logging: LogConfig { dir: String::from_str(".wsl-mcp-logs"), persist: false },
            path_mappings,
        }
    }
}

} // verus!
