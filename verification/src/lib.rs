//! Verified core of a Windows process viewer: version and executable
//! validation, column layout rules, number formatting and caches.

pub mod event_wait;
pub mod bytes;
pub mod installer;
pub mod text;
pub mod numfmt;
pub mod app;
pub mod json;
pub mod config;
pub mod system;
pub mod resource_version;
pub mod bench;
pub mod cli;
pub mod tree;
pub mod update;
pub mod release;
pub mod cursor;
pub mod search;
pub mod edit;
pub mod input;
pub mod event_loop;
pub mod filter;
pub mod mouse;
pub mod collector;
pub mod affinity;
pub mod columns;
pub mod branch;
pub mod tags;
pub mod users;
pub mod sorting;
