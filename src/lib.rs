//! Supervision of coding-agent sessions run in isolated VCS worktrees.
pub mod text;
pub mod worktree;
pub mod log_store;
pub mod model;
pub mod store;
pub mod keyed;
pub mod executor;
pub mod supervisor;
pub mod tasks;
pub mod keyboard;
pub mod panels;
pub mod agent;
