pub mod backend;
pub mod text;
pub mod config;
pub mod ids;
pub mod package;
pub mod backends;
pub mod declaration;
pub mod query;
pub mod groups;
pub mod desired;
pub mod commands;
pub mod rustup;
pub mod cli;
