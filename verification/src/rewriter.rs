//! The rewriter: renders a header and the retained rows as a compact table.

pub mod interface;
pub mod table;
