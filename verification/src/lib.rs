//! Version manager core for Godot engine builds: release-manifest queries,
//! platform tag resolution, download planning, integrity checks and the
//! layout of installed versions.

pub mod config;
pub mod handler;
pub mod install;
pub mod json;
pub mod layout;
pub mod list;
pub mod order;
pub mod source;
pub mod store;
pub mod style;
pub mod tags;
pub mod text;
pub mod tool;
pub mod utils;
