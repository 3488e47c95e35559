use std::sync::Arc;

use appz_wsl_mcp::auth::Authenticator;
use appz_wsl_mcp::config::AppConfig;

fn with_env_name() -> Arc<AppConfig> {
    let mut cfg = AppConfig::default();
    cfg.auth.api_key_env = Some("WSL_MCP_API_KEY".to_string());
    Arc::new(cfg)
}

#[test]
fn disabled_accepts_everything() {
    let mut cfg = AppConfig::default();
    cfg.auth.api_key_env = None;
    let a = Authenticator::new(&Arc::new(cfg), Some("ignored".to_string()));
    assert!(!a.is_enabled());
    assert!(a.validate(None));
    assert!(a.validate(Some("Bearer nope")));
}

#[test]
fn variable_named_but_unset_disables() {
    let a = Authenticator::new(&with_env_name(), None);
    assert!(!a.is_enabled());
    assert!(a.validate(None));
}

#[test]
fn enabled_accepts_only_bearer_key() {
    let a = Authenticator::new(&with_env_name(), Some("sk-123".to_string()));
    assert!(a.is_enabled());
    assert!(a.validate(Some("Bearer sk-123")));
    assert!(!a.validate(Some("Bearer sk-124")));
    assert!(!a.validate(Some("sk-123")));
    assert!(!a.validate(Some("bearer sk-123")));
    assert!(!a.validate(Some("Bearer sk-123 ")));
    assert!(!a.validate(None));
}
