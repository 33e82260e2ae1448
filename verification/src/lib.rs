//! A session-jumper core: turns ranked directory paths into short, unique,
//! length-bounded session names, merges them with live and recoverable
//! sessions into one searchable list, and drives an incremental fuzzy
//! selection cursor over that list.

pub mod config;
pub mod item;
pub mod manager;
pub mod naming;
pub mod render;
pub mod search;
pub mod state;
pub mod strutil;
pub mod zoxide;
