//! A verified core for a recursive filename search: a substring matcher,
//! a command-line configuration parser, a work-frontier engine with explicit
//! termination detection, and a scan driver proved against a reference
//! traversal of an in-memory directory tree.

pub mod config;
pub mod engine;
pub mod matcher;
pub mod model;
