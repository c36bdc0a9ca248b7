//! Compact directory listings: turns `ls -la` output (or a native directory
//! scan) into a short tree-like text with a per-extension summary.

pub mod text;
pub mod size;
pub mod listing;
pub mod invocation;
pub mod native;
pub mod laws;
