//! Version management core for EnvHive: version ordering and resolution,
//! download-mirror rewriting, registry configuration merging, checksum
//! specifications and environment-variable composition.

pub mod checksum;
pub mod cli;
pub mod env;
pub mod error;
pub mod global_flow;
pub mod install_flow;
pub mod junction;
pub mod mirror;
pub mod order;
pub mod overview;
pub mod plugin;
pub mod plugin_def;
pub mod registry;
pub mod sort;
pub mod resolver;
pub mod settings;
pub mod strmap;
pub mod term;
pub mod text;
pub mod usage;
pub mod tool;
pub mod tui_actions;
pub mod tui_input;
pub mod tui_msg;
pub mod tui_nav;
pub mod tui_rows;
pub mod tui_tabs;
pub mod user_path;
pub mod util;
pub mod version;
