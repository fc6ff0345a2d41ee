//! Feeds: commands whose output fills an epic with tasks.

pub mod board;
pub mod cycle;
pub mod entries;
pub mod exec;
pub mod ingest;
pub mod parse;
pub mod repos;
pub mod routing;
pub mod runner;
pub mod store;
