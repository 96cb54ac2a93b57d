//! The combined operation: parse, filter and render in one call.

use vstd::prelude::*;
use crate::parser::profile_parsing::checked_profile_of;
use crate::parser::types::{ParsingFailure, ProfileParsingError};
use crate::rewriter::interface::{rewrite_profile_data, rewritten};

verus! {

/// The compact text of the content of a report file.
pub open spec fn compact_of(profile_data: Seq<char>) -> Result<Seq<char>, ParsingFailure> {
    match checked_profile_of(profile_data) {
        Err(e) => Err(e),
        Ok((header, rows)) => Ok(rewritten(header, rows)),
    }
}

/// Parses the content of a report file, keeps the rows that the retention
/// rule retains and renders the result as compact text.
pub fn parse_profile_data(profile_data: &str) -> (r: Result<String, ProfileParsingError>)
    ensures
        match r {
            Ok(text) => compact_of(profile_data@) == Ok::<Seq<char>, ParsingFailure>(text@),
            Err(e) => compact_of(profile_data@) == Err::<Seq<char>, ParsingFailure>(e@),
        },
{
    match crate::parser::profile_parsing::parse_profile_data(profile_data) {
        Ok((header, rows)) => Ok(rewrite_profile_data(header, rows)),
        Err(e) => Err(e),
    }
}

} // verus!
