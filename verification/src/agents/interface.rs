//! From the contents of report files to the request text.

use vstd::prelude::*;
use crate::agents::helpers::{
    collect_parser_results,
    compact_of_each,
    prompt_of,
    string_texts,
    structure_prompt,
};
use crate::parser::types::{ParsingFailure, ProfileParsingError};

verus! {

/// The request for the contents of several report files.
pub open spec fn profiles_prompt_of(contents: Seq<Seq<char>>) -> Result<Seq<char>, ParsingFailure> {
    match compact_of_each(contents) {
        Err(e) => Err(e),
        Ok(profiles) => Ok(prompt_of(profiles)),
    }
}

/// Parses the content of each report file and builds the request from the
/// compact texts; the first content that does not parse decides the failure.
pub fn create_profiles_prompt(profile_contents: Vec<String>) -> (r: Result<
    String,
    ProfileParsingError,
>)
    ensures
        match r {
            Ok(prompt) => profiles_prompt_of(string_texts(profile_contents@)) == Ok::<
                Seq<char>,
                ParsingFailure,
            >(prompt@),
            Err(e) => profiles_prompt_of(string_texts(profile_contents@)) == Err::<
                Seq<char>,
                ParsingFailure,
            >(e@),
        },
{
    match collect_parser_results(profile_contents) {
        Ok(profiles) => Ok(structure_prompt(profiles)),
        Err(e) => Err(e),
    }
}

} // verus!
