//! Rendering of a typed header with its rows.

use vstd::prelude::*;
use crate::parser::types::{
    row_views,
    FunctionProfileData,
    FunctionProfileView,
    Header,
    HeaderView,
};
use crate::rewriter::table::{push_table, table};

verus! {

/// The compact text of a report: the profile type, the two summary lines of
/// the header, and the table of rows.
pub open spec fn rewritten(header: HeaderView, rows: Seq<FunctionProfileView>) -> Seq<char> {
    "Type: "@ + header.profile_type + "\n"@ + header.parallelism.summary()
        + header.total_nodes.summary() + table(rows)
}

/// Renders the header and the rows as compact text. The rows come out in
/// the order given; nothing is filtered here.
pub fn rewrite_profile_data(header: Header, functions_profile_data: Vec<FunctionProfileData>) -> (s:
    String)
    ensures
        s@ == rewritten(header@, row_views(functions_profile_data@)),
{
    let mut s = String::from_str("Type: ");
    s.append(header.profile_type.as_str());
    s.append("\n");
    s.append(header.parallelism.format_summary().as_str());
    s.append(header.total_nodes.format_summary().as_str());
    push_table(&mut s, &functions_profile_data);
    assert(s@ == "Type: "@ + header.profile_type@ + "\n"@ + header.parallelism@.summary()
        + header.total_nodes@.summary() + table(row_views(functions_profile_data@)));
    s
}

} // verus!
