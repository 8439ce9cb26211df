//! Portly: the logic behind a menu-bar watcher of local development
//! servers. It reads the output of `lsof`, `ps` and `kill`, keeps the
//! registry of launchable projects, validates the folders a user
//! configures, and works out the commands it runs.
use vstd::prelude::*;

pub mod config;
pub mod detect;
pub mod host;
pub mod kill;
pub mod model;
pub mod registry;
pub mod scan;
pub mod spawn;
pub mod text;
pub mod tray;

verus! {
}
