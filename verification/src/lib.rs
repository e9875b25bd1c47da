//! Verified core of the WSL keeper: configuration rules, status, text parsing.
use vstd::prelude::*;

pub mod bindings;
pub mod config;
pub mod disk;
pub mod guardian;
pub mod i18n;
pub mod log;
pub mod mount;
pub mod state;
pub mod status;
pub mod text;
pub mod tray;
pub mod wsl;

verus! {
}
