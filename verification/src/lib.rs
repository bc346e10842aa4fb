//! Verified core of a dotfile manager: path handling, configuration rules and
//! the decisions taken when linking and unlinking dotfiles.

pub mod args;
pub mod config;
pub mod config_file;
pub mod dot_manager;
pub mod path;
pub mod text;
pub mod utils;

