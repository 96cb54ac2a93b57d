//! Parsing, filtering and compact re-rendering of the flat "top" reports
//! written by a statistical sampling profiler.
//!
//! Every function in this crate is verified with Verus against a
//! mathematical model of the report: text is a `Seq<char>`, a number is a
//! finite decimal (`DecimalView`), and each data type has a view.

pub mod agents;
pub mod decimal;
pub mod parser;
pub mod rewriter;
pub mod text;
