//! The numeric field normalizer, the reading of one row, the retention rule
//! and the pass over the body lines; beside them the compact header that
//! keeps the raw header lines, and the parse and the rendering built on it.

use vstd::prelude::*;
use crate::decimal::{decimal_of, Decimal, DecimalView};
use crate::parser::globals::{
    CPU_HEADER_SIZE,
    CUM_MINIMUM,
    FUNCTION_NAME_INDEX,
    MINIMUM_ROW_WORDS,
    REST_HEADER_SIZE,
    SUM_MAXIMUM,
};
use crate::parser::header::{
    header_from_lines,
    header_lines_of,
    header_of,
    header_size_of,
    profile_type_and_size,
    profile_type_in,
};
use crate::parser::types::{
    row_views,
    FunctionProfileData,
    FunctionProfileView,
    ParsingFailure,
    ProfileParsingError,
};
use crate::rewriter::table::{push_table, table};
use crate::text::{
    from_chars,
    join,
    join_parts,
    lines,
    numeric_prefix,
    same_text,
    scan,
    skip_whitespace,
    split_lines,
    split_words,
    starts_with,
    strip_prefix,
    texts,
    to_chars,
    trim,
    trim_start,
    trimmed,
    words,
    CharClass,
};

verus! {

/// The texts of `v`, in order.
pub open spec fn str_texts(v: Seq<&str>) -> Seq<Seq<char>> {
    Seq::new(v.len(), |i: int| v[i]@)
}

/// The characters of each text of `parts`.
pub fn chars_of_each(parts: &[&str]) -> (out: Vec<Vec<char>>)
    ensures
        out@.len() == parts@.len(),
        forall|i: int| 0 <= i < out@.len() ==> (#[trigger] out@[i])@ == parts@[i]@,
{
    let mut out: Vec<Vec<char>> = Vec::new();
    let mut i: usize = 0;
    while i < parts.len()
        invariant
            i <= parts.len(),
            out@.len() == i,
            forall|k: int| 0 <= k < i ==> (#[trigger] out@[k])@ == parts@[k]@,
        decreases parts.len() - i,
    {
        out.push(to_chars(parts[i]));
        i += 1;
    }
    out
}

/// Each text of `owned`, borrowed.
pub fn borrow_each<'a>(owned: &'a Vec<Vec<char>>) -> (out: Vec<&'a [char]>)
    ensures
        out@.len() == owned@.len(),
        forall|i: int| 0 <= i < out@.len() ==> (#[trigger] out@[i])@ == owned@[i]@,
{
    let mut out: Vec<&'a [char]> = Vec::new();
    let mut i: usize = 0;
    while i < owned.len()
        invariant
            i <= owned.len(),
            out@.len() == i,
            forall|k: int| 0 <= k < i ==> (#[trigger] out@[k])@ == owned@[k]@,
        decreases owned.len() - i,
    {
        out.push(owned[i].as_slice());
        i += 1;
    }
    out
}

/// Cuts the unit or percent suffix off a token: what is left is its leading
/// run of digits and decimal points.
pub fn trim_non_numeric_end<'a>(token: &'a [char]) -> (r: &'a [char])
    ensures
        r@ == numeric_prefix(token@),
{
    let n = scan(token, CharClass::Numeric);
    &token[0..n]
}

/// The number in a column of a row; a token that holds none is a failure
/// that names the column.
pub open spec fn column_of(token: Seq<char>, name: Seq<char>) -> Result<
    DecimalView,
    ParsingFailure,
> {
    match decimal_of(numeric_prefix(token)) {
        Some(d) => Ok(d),
        None => Err(ParsingFailure::InvalidFormat(name + ": not a decimal number"@)),
    }
}

/// The function name of a row of at least six words: the words after the
/// five numeric columns, joined by single spaces, without a last word
/// `(inline)`.
pub open spec fn function_name_of(words: Seq<Seq<char>>) -> Seq<char> {
    if words.last() == "(inline)"@ {
        join(words.subrange(FUNCTION_NAME_INDEX as int, words.len() - 1), " "@)
    } else {
        join(words.skip(FUNCTION_NAME_INDEX as int), " "@)
    }
}

/// The row that the words of a line stand for. Fewer than six words are an
/// incomplete body; otherwise the first column that is no number decides the
/// failure.
pub open spec fn row_of(words: Seq<Seq<char>>) -> Result<FunctionProfileView, ParsingFailure> {
    if words.len() < MINIMUM_ROW_WORDS {
        Err(ParsingFailure::IncompleteBody("Invalid line parts"@))
    } else {
        match column_of(words[0], "Flat time"@) {
            Err(e) => Err(e),
            Ok(flat) => match column_of(words[1], "Flat percentage"@) {
                Err(e) => Err(e),
                Ok(flat_percentage) => match column_of(words[2], "Sum percentage"@) {
                    Err(e) => Err(e),
                    Ok(sum_percentage) => match column_of(words[3], "Cum time"@) {
                        Err(e) => Err(e),
                        Ok(cum) => match column_of(words[4], "Cum percentage"@) {
                            Err(e) => Err(e),
                            Ok(cum_percentage) => Ok(
                                FunctionProfileView {
                                    function_name: function_name_of(words),
                                    flat,
                                    flat_percentage,
                                    sum_percentage,
                                    cum,
                                    cum_percentage,
                                },
                            ),
                        },
                    },
                },
            },
        }
    }
}

/// Reads the number in a column of a row.
pub fn column(token: &[char], name: &str) -> (r: Result<Decimal, ProfileParsingError>)
    ensures
        match r {
            Ok(d) => column_of(token@, name@) == Ok::<DecimalView, ParsingFailure>(d@),
            Err(e) => column_of(token@, name@) == Err::<DecimalView, ParsingFailure>(e@),
        },
{
    match Decimal::parse(trim_non_numeric_end(token)) {
        Some(d) => Ok(d),
        None => Err(
            ProfileParsingError::InvalidFormat(
                String::from_str(name).concat(": not a decimal number"),
            ),
        ),
    }
}

/// Reads a row from the words of a line.
pub fn row_from_words(words: &[&[char]]) -> (r: Result<FunctionProfileData, ProfileParsingError>)
    ensures
        match r {
            Ok(row) => row_of(texts(words@)) == Ok::<FunctionProfileView, ParsingFailure>(row@),
            Err(e) => row_of(texts(words@)) == Err::<FunctionProfileView, ParsingFailure>(e@),
        },
{
    let ghost w = texts(words@);
    if words.len() < MINIMUM_ROW_WORDS {
        return Err(ProfileParsingError::IncompleteBody(String::from_str("Invalid line parts")));
    }
    let marker = to_chars("(inline)");
    let space = to_chars(" ");
    let last = words.len() - 1;
    let name_words = if same_text(words[last], marker.as_slice()) {
        &words[FUNCTION_NAME_INDEX..last]
    } else {
        &words[FUNCTION_NAME_INDEX..words.len()]
    };
    let name = join_parts(name_words, space.as_slice());
    proof {
        assert(w.last() == words@[last as int]@);
        if w.last() == "(inline)"@ {
            assert(texts(name_words@) == w.subrange(FUNCTION_NAME_INDEX as int, w.len() - 1));
        } else {
            assert(texts(name_words@) == w.skip(FUNCTION_NAME_INDEX as int));
        }
        assert(name@ == function_name_of(w));
        assert(w[0] == words@[0]@);
        assert(w[1] == words@[1]@);
        assert(w[2] == words@[2]@);
        assert(w[3] == words@[3]@);
        assert(w[4] == words@[4]@);
    }
    let flat = match column(words[0], "Flat time") {
        Ok(d) => d,
        Err(e) => {
            return Err(e);
        },
    };
    let flat_percentage = match column(words[1], "Flat percentage") {
        Ok(d) => d,
        Err(e) => {
            return Err(e);
        },
    };
    let sum_percentage = match column(words[2], "Sum percentage") {
        Ok(d) => d,
        Err(e) => {
            return Err(e);
        },
    };
    let cum = match column(words[3], "Cum time") {
        Ok(d) => d,
        Err(e) => {
            return Err(e);
        },
    };
    let cum_percentage = match column(words[4], "Cum percentage") {
        Ok(d) => d,
        Err(e) => {
            return Err(e);
        },
    };
    Ok(
        FunctionProfileData::new(
            from_chars(name.as_slice()),
            flat,
            flat_percentage,
            sum_percentage,
            cum,
            cum_percentage,
        ),
    )
}

/// Reads a row from the words of a line. A row of fewer than six words is
/// never passed over: it is an incomplete body. A last word `(inline)` is
/// left out of the function name; anywhere else it is part of the name.
pub fn collect_function_profile_data(line_parts: &[&str]) -> (r: Result<
    Option<FunctionProfileData>,
    ProfileParsingError,
>)
    ensures
        match r {
            Ok(Some(row)) => row_of(str_texts(line_parts@)) == Ok::<
                FunctionProfileView,
                ParsingFailure,
            >(row@),
            Ok(None) => false,
            Err(e) => row_of(str_texts(line_parts@)) == Err::<FunctionProfileView, ParsingFailure>(
                e@,
            ),
        },
        line_parts@.len() < MINIMUM_ROW_WORDS ==> r is Err && r->Err_0@ is IncompleteBody,
        r matches Ok(Some(row)) ==> row.function_name@ == function_name_of(str_texts(line_parts@)),
{
    let owned = chars_of_each(line_parts);
    let words = borrow_each(&owned);
    assert(texts(words@) == str_texts(line_parts@));
    match row_from_words(words.as_slice()) {
        Ok(row) => Ok(Some(row)),
        Err(e) => Err(e),
    }
}

/// The retention rule: a row is kept while the running percentage has not
/// passed `sum_maximum`, or where its own cumulative percentage reaches
/// `cum_minimum`. Both bounds are inclusive.
pub open spec fn retained(row: FunctionProfileView, sum_maximum: nat, cum_minimum: nat) -> bool {
    row.sum_percentage.at_most(sum_maximum) || row.cum_percentage.at_least(cum_minimum)
}

/// Decides whether the retention rule keeps `row`.
pub fn is_retained(row: &FunctionProfileData, sum_maximum: u64, cum_minimum: u64) -> (keep: bool)
    ensures
        keep == retained(row@, sum_maximum as nat, cum_minimum as nat),
{
    row.sum_percentage.is_at_most(sum_maximum) || row.cum_percentage.is_at_least(cum_minimum)
}

/// What one more body line adds to the rows read so far: a blank line
/// nothing, a row that the rule keeps itself, a row that it drops nothing,
/// and a line that is no row a failure.
pub open spec fn with_line(
    rows: Seq<FunctionProfileView>,
    line: Seq<char>,
    sum_maximum: nat,
    cum_minimum: nat,
) -> Result<Seq<FunctionProfileView>, ParsingFailure> {
    if trim(line).len() == 0 {
        Ok(rows)
    } else {
        match row_of(words(trim(line))) {
            Err(e) => Err(e),
            Ok(row) => if retained(row, sum_maximum, cum_minimum) {
                Ok(rows.push(row))
            } else {
                Ok(rows)
            },
        }
    }
}

/// The rows that the body lines hold and the rule keeps, in the order of the
/// lines; the first line that is no row decides the failure.
pub open spec fn body_rows(lines: Seq<Seq<char>>, sum_maximum: nat, cum_minimum: nat) -> Result<
    Seq<FunctionProfileView>,
    ParsingFailure,
>
    decreases lines.len(),
{
    if lines.len() == 0 {
        Ok(Seq::empty())
    } else {
        match body_rows(lines.drop_last(), sum_maximum, cum_minimum) {
            Err(e) => Err(e),
            Ok(rows) => with_line(rows, lines.last(), sum_maximum, cum_minimum),
        }
    }
}

/// Reads the body lines in one pass, keeping the rows that the rule retains.
pub fn collect_rows(lines: &[&[char]], sum_maximum: u64, cum_minimum: u64) -> (r: Result<
    Vec<FunctionProfileData>,
    ProfileParsingError,
>)
    ensures
        match r {
            Ok(rows) => body_rows(texts(lines@), sum_maximum as nat, cum_minimum as nat) == Ok::<
                Seq<FunctionProfileView>,
                ParsingFailure,
            >(row_views(rows@)),
            Err(e) => body_rows(texts(lines@), sum_maximum as nat, cum_minimum as nat) == Err::<
                Seq<FunctionProfileView>,
                ParsingFailure,
            >(e@),
        },
{
    let ghost all = texts(lines@);
    let mut rows: Vec<FunctionProfileData> = Vec::new();
    let mut i: usize = 0;
    assert(all.take(0) == Seq::<Seq<char>>::empty());
    assert(row_views(rows@) == Seq::<FunctionProfileView>::empty());
    while i < lines.len()
        invariant
            i <= lines.len(),
            all == texts(lines@),
            body_rows(all.take(i as int), sum_maximum as nat, cum_minimum as nat) == Ok::<
                Seq<FunctionProfileView>,
                ParsingFailure,
            >(row_views(rows@)),
        decreases lines.len() - i,
    {
        let ghost before = rows@;
        proof {
            assert(all.take(i + 1).drop_last() == all.take(i as int));
            assert(all.take(i + 1).last() == lines@[i as int]@);
            assert(i + 1 == lines.len() ==> all.take(i + 1) == all);
        }
        let line = trimmed(lines[i]);
        if line.len() > 0 {
            let parts = split_words(line);
            match row_from_words(parts.as_slice()) {
                Ok(row) => {
                    if is_retained(&row, sum_maximum, cum_minimum) {
                        rows.push(row);
                        assert(row_views(rows@) == row_views(before).push(row@));
                    }
                },
                Err(e) => {
                    proof {
                        lemma_body_rows_failure(
                            all,
                            i + 1,
                            sum_maximum as nat,
                            cum_minimum as nat,
                        );
                    }
                    return Err(e);
                },
            }
        }
        i += 1;
    }
    assert(all.take(lines.len() as int) == all);
    Ok(rows)
}

/// Once the first `n` lines have failed, the failure stands whatever
/// follows.
pub proof fn lemma_body_rows_failure(
    lines: Seq<Seq<char>>,
    n: int,
    sum_maximum: nat,
    cum_minimum: nat,
)
    requires
        0 <= n <= lines.len(),
        body_rows(lines.take(n), sum_maximum, cum_minimum) is Err,
    ensures
        body_rows(lines, sum_maximum, cum_minimum) == body_rows(
            lines.take(n),
            sum_maximum,
            cum_minimum,
        ),
    decreases lines.len() - n,
{
    if n == lines.len() {
        assert(lines.take(n) == lines);
    } else {
        assert(lines.drop_last().take(n) == lines.take(n));
        lemma_body_rows_failure(lines.drop_last(), n, sum_maximum, cum_minimum);
    }
}

/// Whether `line` is the line of column titles: after leading white space
/// it starts with `flat`.
pub open spec fn is_title_line(line: Seq<char>) -> bool {
    "flat"@.is_prefix_of(trim_start(line))
}

/// Decides whether `line` is the line of column titles.
pub fn title_line(line: &[char]) -> (b: bool)
    ensures
        b == is_title_line(line@),
{
    let flat = to_chars("flat");
    starts_with(skip_whitespace(line), flat.as_slice())
}

/// The raw header of a report: its first lines, six for a `cpu` report and
/// five for any other. The second line must name the profile type after
/// `Type: `, and the report must have as many lines as the header takes;
/// fewer lines are never a shorter header.
pub fn get_header_slice<'a>(profile_data_lines: &'a [&'a str]) -> (r: Result<
    &'a [&'a str],
    ProfileParsingError,
>)
    ensures
        match r {
            Ok(slice) => {
                &&& header_lines_of(str_texts(profile_data_lines@)) == Ok::<nat, ParsingFailure>(
                    slice@.len(),
                )
                &&& slice@ == profile_data_lines@.take(slice@.len() as int)
                &&& slice@.len() == header_size_of(profile_type_in(str_texts(profile_data_lines@)))
            },
            Err(e) => header_lines_of(str_texts(profile_data_lines@)) == Err::<
                nat,
                ParsingFailure,
            >(e@),
        },
        r matches Err(e) ==> e@ is IncompleteHeader,
{
    let owned = chars_of_each(profile_data_lines);
    let lines = borrow_each(&owned);
    assert(texts(lines@) == str_texts(profile_data_lines@));
    match profile_type_and_size(lines.as_slice()) {
        Ok((_, size)) => Ok(&profile_data_lines[0..size]),
        Err(e) => Err(e),
    }
}

/// Whether the compact header keeps `line`: the file name, the time stamp
/// and the column titles are left out.
pub open spec fn keeps_header_line(line: Seq<char>) -> bool {
    !"Time: "@.is_prefix_of(line) && !"File: "@.is_prefix_of(line) && !is_title_line(line)
}

/// The header lines that the compact header keeps, in order.
pub open spec fn cleaned_header(lines: Seq<Seq<char>>) -> Seq<Seq<char>>
    decreases lines.len(),
{
    if lines.len() == 0 {
        Seq::empty()
    } else if keeps_header_line(lines.last()) {
        cleaned_header(lines.drop_last()).push(lines.last())
    } else {
        cleaned_header(lines.drop_last())
    }
}

/// Leaves out the header lines that the compact header does not keep.
pub fn clean_header_slice<'a>(header_slice: &[&'a [char]]) -> (out: Vec<&'a [char]>)
    ensures
        texts(out@) == cleaned_header(texts(header_slice@)),
{
    let ghost all = texts(header_slice@);
    let mut out: Vec<&'a [char]> = Vec::new();
    let mut i: usize = 0;
    assert(all.take(0) == Seq::<Seq<char>>::empty());
    assert(texts(out@) == Seq::<Seq<char>>::empty());
    while i < header_slice.len()
        invariant
            i <= header_slice.len(),
            all == texts(header_slice@),
            texts(out@) == cleaned_header(all.take(i as int)),
        decreases header_slice.len() - i,
    {
        let ghost before = out@;
        let line = header_slice[i];
        proof {
            assert(all.take(i + 1).drop_last() == all.take(i as int));
            assert(all.take(i + 1).last() == line@);
        }
        let dropped = strip_prefix(line, "Time: ").is_some()
            || strip_prefix(line, "File: ").is_some() || title_line(line);
        if !dropped {
            out.push(line);
            assert(texts(out@) == texts(before).push(line@));
        }
        i += 1;
    }
    assert(all.take(header_slice.len() as int) == all);
    out
}

/// The compact header of a report and the number of its raw header lines.
/// The header must be complete, checked as for the typed header; the compact
/// header is then made of the raw header lines that are kept, one to a line.
pub open spec fn header_info_of(lines: Seq<Seq<char>>) -> Result<(Seq<char>, nat), ParsingFailure> {
    match header_of(lines) {
        Err(e) => Err(e),
        Ok((_, size)) => Ok((join(cleaned_header(lines.take(size as int)), "\n"@), size)),
    }
}

/// Builds the compact header from the lines of a report and counts its raw
/// header lines: six for a `cpu` report, five for any other. An incomplete
/// header fails as it does for the typed header.
pub fn header_info_from_lines(lines: &[&[char]]) -> (r: Result<
    (String, usize),
    ProfileParsingError,
>)
    ensures
        match r {
            Ok((header, size)) => {
                &&& header_info_of(texts(lines@)) == Ok::<(Seq<char>, nat), ParsingFailure>(
                    (header@, size as nat),
                )
                &&& header_lines_of(texts(lines@)) == Ok::<nat, ParsingFailure>(size as nat)
                &&& size <= lines@.len()
                &&& size == CPU_HEADER_SIZE || size == REST_HEADER_SIZE
            },
            Err(e) => header_info_of(texts(lines@)) == Err::<(Seq<char>, nat), ParsingFailure>(e@),
        },
        r matches Err(e) ==> e@ is IncompleteHeader,
{
    match header_from_lines(lines) {
        Ok((_, size)) => {
            let raw = &lines[0..size];
            assert(texts(raw@) == texts(lines@).take(size as int));
            let cleaned = clean_header_slice(raw);
            let newline = to_chars("\n");
            let header = join_parts(cleaned.as_slice(), newline.as_slice());
            Ok((from_chars(header.as_slice()), size))
        },
        Err(e) => Err(e),
    }
}

/// Builds the compact header from the lines of a report and counts its raw
/// header lines: six for a `cpu` report, five for any other. An incomplete
/// header fails as it does for the typed header.
pub fn get_header_info(profile_data_lines: &[&str]) -> (r: Result<
    (String, usize),
    ProfileParsingError,
>)
    ensures
        match r {
            Ok((header, size)) => {
                &&& header_info_of(str_texts(profile_data_lines@)) == Ok::<
                    (Seq<char>, nat),
                    ParsingFailure,
                >((header@, size as nat))
                &&& header_lines_of(str_texts(profile_data_lines@)) == Ok::<nat, ParsingFailure>(
                    size as nat,
                )
                &&& size <= profile_data_lines@.len()
                &&& size == CPU_HEADER_SIZE || size == REST_HEADER_SIZE
            },
            Err(e) => header_info_of(str_texts(profile_data_lines@)) == Err::<
                (Seq<char>, nat),
                ParsingFailure,
            >(e@),
        },
        r matches Err(e) ==> e@ is IncompleteHeader,
{
    let owned = chars_of_each(profile_data_lines);
    let lines = borrow_each(&owned);
    assert(texts(lines@) == str_texts(profile_data_lines@));
    header_info_from_lines(lines.as_slice())
}

/// What follows the header: the rows that the body holds and the rule with
/// the thresholds of this library keeps. A report without a body line, or
/// with no row left, is an incomplete body.
pub open spec fn retained_rows_of(body: Seq<Seq<char>>) -> Result<
    Seq<FunctionProfileView>,
    ParsingFailure,
> {
    if body.len() == 0 {
        Err(ParsingFailure::IncompleteBody("Empty body"@))
    } else {
        match body_rows(body, SUM_MAXIMUM as nat, CUM_MINIMUM as nat) {
            Err(e) => Err(e),
            Ok(rows) => if rows.len() == 0 {
                Err(ParsingFailure::IncompleteBody("Empty functions profile data"@))
            } else {
                Ok(rows)
            },
        }
    }
}

/// Reads the body of a report and keeps the rows that the rule retains.
pub fn retained_rows(body: &[&[char]]) -> (r: Result<Vec<FunctionProfileData>, ProfileParsingError>)
    ensures
        match r {
            Ok(rows) => retained_rows_of(texts(body@)) == Ok::<
                Seq<FunctionProfileView>,
                ParsingFailure,
            >(row_views(rows@)) && rows@.len() > 0,
            Err(e) => retained_rows_of(texts(body@)) == Err::<
                Seq<FunctionProfileView>,
                ParsingFailure,
            >(e@),
        },
{
    if body.len() == 0 {
        return Err(ProfileParsingError::IncompleteBody(String::from_str("Empty body")));
    }
    match collect_rows(body, SUM_MAXIMUM, CUM_MINIMUM) {
        Err(e) => Err(e),
        Ok(rows) => {
            if rows.len() == 0 {
                Err(
                    ProfileParsingError::IncompleteBody(
                        String::from_str("Empty functions profile data"),
                    ),
                )
            } else {
                Ok(rows)
            }
        },
    }
}

/// The compact header and the retained rows of a report, from its lines.
pub open spec fn structured_of_lines(lines: Seq<Seq<char>>) -> Result<
    (Seq<char>, Seq<FunctionProfileView>),
    ParsingFailure,
> {
    if lines.len() == 0 {
        Err(ParsingFailure::EmptyFile)
    } else {
        match header_info_of(lines) {
            Err(e) => Err(e),
            Ok((header, size)) => match retained_rows_of(lines.skip(size as int)) {
                Err(e) => Err(e),
                Ok(rows) => Ok((header, rows)),
            },
        }
    }
}

/// The compact header and the retained rows of a report.
pub open spec fn structured_of(profile_data: Seq<char>) -> Result<
    (Seq<char>, Seq<FunctionProfileView>),
    ParsingFailure,
> {
    structured_of_lines(lines(profile_data))
}

/// Reads a report: its compact header and, in one pass over the body, the
/// rows that the retention rule keeps. It fails exactly where the parse
/// into a typed header fails; a success holds at least one row.
pub fn structure_profile_data(profile_data: &str) -> (r: Result<
    (String, Vec<FunctionProfileData>),
    ProfileParsingError,
>)
    ensures
        match r {
            Ok((header, rows)) => structured_of(profile_data@) == Ok::<
                (Seq<char>, Seq<FunctionProfileView>),
                ParsingFailure,
            >((header@, row_views(rows@))) && rows@.len() > 0,
            Err(e) => structured_of(profile_data@) == Err::<
                (Seq<char>, Seq<FunctionProfileView>),
                ParsingFailure,
            >(e@),
        },
{
    let chars = to_chars(profile_data);
    let all = split_lines(chars.as_slice());
    if all.len() == 0 {
        return Err(ProfileParsingError::EmptyFile);
    }
    let (header, size) = match header_info_from_lines(all.as_slice()) {
        Ok(info) => info,
        Err(e) => {
            return Err(e);
        },
    };
    let body = &all[size..all.len()];
    assert(texts(body@) == texts(all@).skip(size as int));
    match retained_rows(body) {
        Ok(rows) => Ok((header, rows)),
        Err(e) => Err(e),
    }
}

/// Renders a compact header and rows: the header, a line break, and the
/// table of rows.
pub fn rewrite_profile_data(
    header_string: String,
    functions_profile_data: Vec<FunctionProfileData>,
) -> (s: String)
    ensures
        s@ == header_string@ + "\n"@ + table(row_views(functions_profile_data@)),
{
    let mut s = header_string;
    s.append("\n");
    push_table(&mut s, &functions_profile_data);
    s
}

/// Whether `text` holds nothing but white space.
pub open spec fn is_blank(text: Seq<char>) -> bool {
    trim(text).len() == 0
}

/// Refuses the content of a file that holds nothing but white space, before
/// any line is split off.
pub fn validate_profile_string(profile_data: &str) -> (r: Result<(), ProfileParsingError>)
    ensures
        match r {
            Ok(_) => !is_blank(profile_data@),
            Err(e) => is_blank(profile_data@) && e@ == ParsingFailure::EmptyFile,
        },
{
    let chars = to_chars(profile_data);
    if trimmed(chars.as_slice()).len() == 0 {
        Err(ProfileParsingError::EmptyFile)
    } else {
        Ok(())
    }
}

} // verus!
