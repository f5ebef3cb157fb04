//! Field-shape statistics over newline-delimited JSON documents.
//!
//! Each document is walked recursively; every field occurrence, at any
//! depth, is tallied under its own name by the kind of value it holds.
use vstd::prelude::*;

pub mod value;
pub mod stats;
pub mod error;
pub mod backend;
pub mod pipeline;
pub mod laws;
