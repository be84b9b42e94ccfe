//! Workspace navigation for tiling window managers with several outputs.
//!
//! Given a snapshot of workspaces and outputs, the functions here compute the
//! number of the workspace to go to for each navigation mode.
pub mod model;
pub mod nav;
pub mod number;
pub mod order;
pub mod select;
