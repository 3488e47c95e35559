pub mod text;
pub mod clock;
pub mod config;
pub mod path_map;
pub mod policy;
pub mod services;
pub mod auth;
pub mod read_tools;
pub mod agents;
pub mod server;
pub mod logging;

pub use agents::intelligence::IntelligenceService;
pub use agents::planner::TaskPlanner;
pub use auth::Authenticator;
pub use policy::PolicyEngine;
pub use services::exec::ExecService;
pub use services::wsl::WslService;
