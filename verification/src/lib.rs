//! A small structured observability pipeline: spans, events, a context
//! stack, and a registry that fans every record out to its layers
//! (a console printer and a remote-export queue).

pub mod config;
pub mod data;
pub mod layer;
pub mod registry;
pub mod render;
pub mod stack;
