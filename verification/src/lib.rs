//! Merging blocklists: hostnames are read from the lines of many sources, each kept
//! once, sorted, and written out as one list per category.

pub mod client;
pub mod consolidate;
pub mod download;
pub mod hostname;
pub mod lists;
pub mod output;
pub mod pool;
pub mod refresh;
pub mod retry;
pub mod serve;
pub mod service;
pub mod sorting;
