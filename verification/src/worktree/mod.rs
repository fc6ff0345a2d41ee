//! Worktrees: one for each task, made when it is dispatched and taken away when
//! it is done.
//!
//! Nothing here touches the disk, git or tmux. Each procedure is a function of
//! the answers that it got so far: it says what to ask next, or what came of it
//! all. Whoever runs it performs what is asked, appends the answer, and calls it
//! again.

pub mod finish;
pub mod provision;
pub mod start;
pub mod steps;
pub mod teardown;
pub mod windows;
