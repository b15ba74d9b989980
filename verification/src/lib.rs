//! Verified core of a PAM-compatible authentication framework.

pub mod appl;
pub mod builtin;
pub mod config;
pub mod constants;
pub mod conv;
pub mod data;
pub mod delay;
pub mod dispatch;
pub mod env;
pub mod error;
pub mod item;
pub mod legacy_pamd;
pub mod loader;
pub mod log;
pub mod module;
pub mod modutil;
pub mod paths;
pub mod securemem;
pub mod text;
pub mod types;
