pub mod cli;
pub mod config;
pub mod error;
pub mod git;
pub mod gitignore;
pub mod plugin;
pub mod sync;
pub mod text;
pub mod upgrade;
