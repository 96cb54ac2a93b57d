//! Parsing of a whole report into its typed header and its retained rows.

use vstd::prelude::*;
use crate::parser::globals::{CUM_MINIMUM, MINIMUM_ROW_WORDS, SUM_MAXIMUM};
use crate::parser::header::{header_from_lines, header_lines_of, header_of};
use crate::parser::helpers::{
    body_rows,
    cleaned_header,
    header_info_of,
    is_blank,
    lemma_body_rows_failure,
    retained_rows,
    retained_rows_of,
    structured_of_lines,
    validate_profile_string,
    with_line,
};
use crate::parser::types::{
    row_views,
    FunctionProfileData,
    FunctionProfileView,
    Header,
    HeaderView,
    ParsingFailure,
    ProfileParsingError,
};
use crate::text::{join, lines, split_lines, texts, to_chars, trim, words};

verus! {

/// The header and the retained rows of a report, from its lines. A report
/// without lines is an empty file; the body starts right after the header.
pub open spec fn profile_of_lines(lines: Seq<Seq<char>>) -> Result<
    (HeaderView, Seq<FunctionProfileView>),
    ParsingFailure,
> {
    if lines.len() == 0 {
        Err(ParsingFailure::EmptyFile)
    } else {
        match header_of(lines) {
            Err(e) => Err(e),
            Ok((header, size)) => match retained_rows_of(lines.skip(size as int)) {
                Err(e) => Err(e),
                Ok(rows) => Ok((header, rows)),
            },
        }
    }
}

/// The header and the retained rows of a report.
pub open spec fn profile_of(profile_data: Seq<char>) -> Result<
    (HeaderView, Seq<FunctionProfileView>),
    ParsingFailure,
> {
    profile_of_lines(lines(profile_data))
}

/// The header and the retained rows of the content of a file: content of
/// white space only is an empty file.
pub open spec fn checked_profile_of(profile_data: Seq<char>) -> Result<
    (HeaderView, Seq<FunctionProfileView>),
    ParsingFailure,
> {
    if is_blank(profile_data) {
        Err(ParsingFailure::EmptyFile)
    } else {
        profile_of(profile_data)
    }
}

/// Parses the text of a report: the typed header, then in one pass over the
/// body the rows that the retention rule keeps. A success holds at least one
/// row, and a failure is exactly one typed error.
pub fn extract_profile_data(profile_data: &str) -> (r: Result<
    (Header, Vec<FunctionProfileData>),
    ProfileParsingError,
>)
    ensures
        match r {
            Ok((header, rows)) => profile_of(profile_data@) == Ok::<
                (HeaderView, Seq<FunctionProfileView>),
                ParsingFailure,
            >((header@, row_views(rows@))) && rows@.len() > 0,
            Err(e) => profile_of(profile_data@) == Err::<
                (HeaderView, Seq<FunctionProfileView>),
                ParsingFailure,
            >(e@),
        },
{
    let chars = to_chars(profile_data);
    let all = split_lines(chars.as_slice());
    if all.len() == 0 {
        return Err(ProfileParsingError::EmptyFile);
    }
    let (header, size) = match header_from_lines(all.as_slice()) {
        Ok(found) => found,
        Err(e) => {
            return Err(e);
        },
    };
    let body = &all[size..all.len()];
    assert(texts(body@) == texts(all@).skip(size as int));
    match retained_rows(body) {
        Ok(rows) => Ok((header, rows)),
        Err(e) => Err(e),
    }
}

/// Parses the content of a report file: refuses content of white space only
/// before any line is split off, then parses the text.
pub fn parse_profile_data(profile_data: &str) -> (r: Result<
    (Header, Vec<FunctionProfileData>),
    ProfileParsingError,
>)
    ensures
        match r {
            Ok((header, rows)) => checked_profile_of(profile_data@) == Ok::<
                (HeaderView, Seq<FunctionProfileView>),
                ParsingFailure,
            >((header@, row_views(rows@))) && rows@.len() > 0,
            Err(e) => checked_profile_of(profile_data@) == Err::<
                (HeaderView, Seq<FunctionProfileView>),
                ParsingFailure,
            >(e@),
        },
{
    match validate_profile_string(profile_data) {
        Err(e) => Err(e),
        Ok(_) => extract_profile_data(profile_data),
    }
}

/// Blank lines hold no rows.
pub proof fn lemma_blank_lines_hold_no_rows(
    lines: Seq<Seq<char>>,
    sum_maximum: nat,
    cum_minimum: nat,
)
    requires
        forall|i: int| 0 <= i < lines.len() ==> is_blank(#[trigger] lines[i]),
    ensures
        body_rows(lines, sum_maximum, cum_minimum) == Ok::<
            Seq<FunctionProfileView>,
            ParsingFailure,
        >(Seq::empty()),
    decreases lines.len(),
{
    if lines.len() > 0 {
        let init = lines.drop_last();
        assert forall|i: int| 0 <= i < init.len() implies is_blank(#[trigger] init[i]) by {
            assert(init[i] == lines[i]);
        }
        lemma_blank_lines_hold_no_rows(init, sum_maximum, cum_minimum);
        assert(is_blank(lines[lines.len() - 1]));
    }
}

/// A report whose header is complete and whose body holds nothing but blank
/// lines, or no line at all, is an incomplete body: never a success without
/// rows.
pub proof fn lemma_blank_body_is_incomplete(lines: Seq<Seq<char>>)
    requires
        lines.len() > 0,
        header_of(lines) is Ok,
        forall|i: int|
            header_of(lines)->Ok_0.1 <= i < lines.len() ==> is_blank(#[trigger] lines[i]),
    ensures
        profile_of_lines(lines) is Err,
        profile_of_lines(lines)->Err_0 is IncompleteBody,
{
    let size = header_of(lines)->Ok_0.1;
    let body = lines.skip(size as int);
    assert forall|i: int| 0 <= i < body.len() implies is_blank(#[trigger] body[i]) by {
        assert(body[i] == lines[i + size]);
    }
    lemma_blank_lines_hold_no_rows(body, SUM_MAXIMUM as nat, CUM_MINIMUM as nat);
}

/// A successful parse holds at least one row.
pub proof fn lemma_success_holds_rows(lines: Seq<Seq<char>>)
    requires
        profile_of_lines(lines) is Ok,
    ensures
        profile_of_lines(lines)->Ok_0.1.len() > 0,
{
}

/// A body line that is not blank and has fewer than six words makes the body
/// fail, whatever the thresholds: it is never passed over. Where no line
/// before it fails, the failure is an incomplete body.
pub proof fn lemma_short_row_fails(
    lines: Seq<Seq<char>>,
    i: int,
    sum_maximum: nat,
    cum_minimum: nat,
)
    requires
        0 <= i < lines.len(),
        !is_blank(lines[i]),
        words(trim(lines[i])).len() < MINIMUM_ROW_WORDS,
    ensures
        body_rows(lines, sum_maximum, cum_minimum) is Err,
        body_rows(lines.take(i), sum_maximum, cum_minimum) is Ok ==> body_rows(
            lines,
            sum_maximum,
            cum_minimum,
        )->Err_0 is IncompleteBody,
{
    let upto = lines.take(i + 1);
    assert(upto.drop_last() == lines.take(i));
    assert(upto.last() == lines[i]);
    match body_rows(lines.take(i), sum_maximum, cum_minimum) {
        Ok(rows) => {
            assert(with_line(rows, lines[i], sum_maximum, cum_minimum) is Err);
        },
        Err(e) => {},
    }
    assert(body_rows(upto, sum_maximum, cum_minimum) is Err);
    lemma_body_rows_failure(lines, i + 1, sum_maximum, cum_minimum);
}

/// Taking the `Type: ` line out of a report whose next line is the `Time: `
/// line leaves a report with an incomplete header, for the typed header, for
/// the count of header lines and for the compact header alike; putting the
/// line back gives the report that was there before, so it parses as before.
pub proof fn lemma_missing_type_line(lines: Seq<Seq<char>>)
    requires
        lines.len() >= 3,
        "Time: "@.is_prefix_of(lines[2]),
    ensures
        profile_of_lines(lines.remove(1)) is Err,
        profile_of_lines(lines.remove(1))->Err_0 is IncompleteHeader,
        header_lines_of(lines.remove(1)) is Err,
        header_lines_of(lines.remove(1))->Err_0 is IncompleteHeader,
        header_info_of(lines.remove(1)) is Err,
        header_info_of(lines.remove(1))->Err_0 is IncompleteHeader,
        structured_of_lines(lines.remove(1)) is Err,
        structured_of_lines(lines.remove(1))->Err_0 is IncompleteHeader,
        lines.remove(1).insert(1, lines[1]) == lines,
{
    reveal_strlit("Time: ");
    reveal_strlit("Type: ");
    let cut = lines.remove(1);
    assert(cut[1] == lines[2]);
    assert(!"Type: "@.is_prefix_of(cut[1])) by {
        if "Type: "@.is_prefix_of(cut[1]) {
            assert("Type: "@[1] == cut[1].subrange(0, "Type: "@.len() as int)[1]);
            assert("Time: "@[1] == cut[1].subrange(0, "Time: "@.len() as int)[1]);
        }
    }
    assert(header_of(cut) is Err);
    assert(cut.insert(1, lines[1]) == lines);
}

/// The parse with the compact header fails exactly where the parse with the
/// typed header fails, with the same failure; where both succeed they hold
/// the same rows, and the compact header is made of the kept lines among
/// the header lines.
pub proof fn lemma_structured_as_profile(lines: Seq<Seq<char>>)
    ensures
        profile_of_lines(lines) matches Err(e) ==> structured_of_lines(lines) == Err::<
            (Seq<char>, Seq<FunctionProfileView>),
            ParsingFailure,
        >(e),
        profile_of_lines(lines) matches Ok(found) ==> structured_of_lines(lines) == Ok::<
            (Seq<char>, Seq<FunctionProfileView>),
            ParsingFailure,
        >((join(cleaned_header(lines.take(header_of(lines)->Ok_0.1 as int)), "\n"@), found.1)),
{
}

} // verus!
