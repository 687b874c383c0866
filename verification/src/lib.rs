//! A sandboxed filesystem service library.
//!
//! Every operation is gated by a path-containment guard that confines
//! access to a fixed set of allowed directories.  The library also houses
//! a line-oriented text edit engine with whitespace-tolerant matching,
//! unified-diff reporting, and the selection logic behind directory
//! search and archive creation.

pub mod cli;
pub mod error;
pub mod fs_service;
pub mod handler;
pub mod text;
pub mod tools;
