//! The report parser: header extraction, body rows, retention filter and the
//! entry points that compose them.

pub mod globals;
pub mod header;
pub mod helpers;
pub mod interface;
pub mod profile_parsing;
pub mod types;
