pub mod exec;
pub mod config;
pub mod file_ops;
pub mod wsl;
pub mod terminal;
