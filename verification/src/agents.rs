//! Assembly of the analysis request from parsed reports.

pub mod globals;
pub mod helpers;
pub mod interface;
