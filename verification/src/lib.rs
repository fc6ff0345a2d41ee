//! Verified core of a dispatcher for coding agents.

pub mod editor;
pub mod feed;
pub mod git;
pub mod json;
pub mod models;
pub mod paths;
pub mod process;
pub mod prompts;
pub mod sections;
pub mod text;
pub mod trust;
pub mod worktree;
