//! Whole-program call graphs annotated with error propagation, and the
//! error propagation chains derived from them.

pub mod ir;
pub mod graph;
pub mod chains;
pub mod text;
pub mod types;
pub mod resolve;
pub mod collect;
pub mod builder;
pub mod analysis;
pub mod render;
pub mod format_graph;
pub mod invocation;
