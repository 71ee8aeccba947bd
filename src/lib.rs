//! Renames the workspaces of a tiling window manager after the applications
//! that run in them.
//!
//! The library holds the logic: extracting the windows of each workspace from
//! a layout tree or a client snapshot, turning windows into icon labels,
//! deciding which events call for a rename pass, and the supervisor that
//! drives connection, enumeration, renaming and reconnection.
use vstd::prelude::*;

pub mod backend;
pub mod config;
pub mod event;
pub mod label;
pub mod snapshot;
pub mod supervisor;
pub mod text;
pub mod tree;
pub mod window;
pub mod workspace;

pub use backend::EnforceWindowManager;
pub use config::{Config, Other};
pub use window::Window;

verus! {

} // verus!
