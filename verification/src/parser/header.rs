//! The header extractor: finds the fixed header lines of a report, checks
//! them and builds the typed header.

use vstd::prelude::*;
use crate::decimal::{
    decimal_of,
    lemma_fixed2_is_numeric,
    lemma_fixed2_round_trip,
    lemma_rounded_is_close,
    Decimal,
    DecimalView,
};
use crate::parser::globals::{CPU_HEADER_SIZE, REST_HEADER_SIZE};
use crate::parser::helpers::{borrow_each, chars_of_each, str_texts, trim_non_numeric_end};
use crate::parser::types::{
    Header,
    HeaderView,
    Parallelism,
    ParallelismView,
    ParsingFailure,
    ProfileParsingError,
    TotalNodes,
    TotalNodesView,
};
use crate::text::{
    from_chars,
    is_numeric,
    is_whitespace,
    lemma_numeric_prefix_of,
    lemma_split_once_first,
    lemma_trim_core,
    numeric_prefix,
    same_text,
    split_on,
    split_once,
    strip_prefix,
    texts,
    to_chars,
    trim,
    trimmed,
};

verus! {

/// A number of the header: read from the leading digits of the trimmed text,
/// and zero where there is none, as header numbers only inform.
pub open spec fn header_field(text: Seq<char>) -> DecimalView {
    match decimal_of(numeric_prefix(trim(text))) {
        Some(d) => d,
        None => DecimalView::zero(),
    }
}

/// Number of header lines of a report of the given type.
pub open spec fn header_size_of(profile_type: Seq<char>) -> nat {
    if profile_type == "cpu"@ {
        CPU_HEADER_SIZE as nat
    } else {
        REST_HEADER_SIZE as nat
    }
}

/// The numbers of a `Duration: <n><unit>, Total samples = <n><unit> (<n>%)`
/// line. The duration ends at the first comma; the sampled time stands
/// between the `=` and the `(` that follow, the percentage between that `(`
/// and the next `)`.
pub open spec fn parallelism_of(line: Seq<char>) -> Result<ParallelismView, ParsingFailure> {
    if !"Duration: "@.is_prefix_of(line) {
        Err(ParsingFailure::IncompleteHeader("Missing duration (Duration: )"@))
    } else {
        match split_once(line.skip("Duration: "@.len() as int), ","@) {
            None => Err(ParsingFailure::IncompleteHeader("Missing ',' in duration line"@)),
            Some((duration, samples)) => match split_once(samples, "="@) {
                None => Err(ParsingFailure::IncompleteHeader("Missing '=' in duration line"@)),
                Some((_, amount)) => match split_once(amount, "("@) {
                    None => Err(ParsingFailure::IncompleteHeader("Missing '(' in duration line"@)),
                    Some((time, share)) => match split_once(share, ")"@) {
                        None => Err(
                            ParsingFailure::IncompleteHeader("Missing ')' in duration line"@),
                        ),
                        Some((percentage, _)) => Ok(
                            ParallelismView {
                                duration: header_field(duration),
                                total_samples_time: header_field(time),
                                total_samples_percentage: header_field(percentage),
                            },
                        ),
                    },
                },
            },
        }
    }
}

/// The numbers of a `Showing nodes accounting for <n><unit>, <n>% of
/// <n><unit> total` line. The accounted time ends at the first comma; in
/// what follows it, the percentage ends at the first `%` and the total
/// starts after the first `of`.
pub open spec fn total_nodes_of(line: Seq<char>) -> Result<TotalNodesView, ParsingFailure> {
    if !"Showing nodes accounting for "@.is_prefix_of(line) {
        Err(
            ParsingFailure::IncompleteHeader(
                "Missing nodes accounting (Showing nodes accounting for )"@,
            ),
        )
    } else {
        match split_once(line.skip("Showing nodes accounting for "@.len() as int), ","@) {
            None => Err(ParsingFailure::IncompleteHeader("Missing ',' in nodes accounting line"@)),
            Some((collected, shares)) => match split_once(shares, "%"@) {
                None => Err(
                    ParsingFailure::IncompleteHeader("Missing '%' in nodes accounting line"@),
                ),
                Some((percentage, _)) => match split_once(shares, "of"@) {
                    None => Err(
                        ParsingFailure::IncompleteHeader("Missing 'of' in nodes accounting line"@),
                    ),
                    Some((_, total)) => Ok(
                        TotalNodesView {
                            collected_nodes_accounting: header_field(collected),
                            collected_nodes_accounting_percentage: header_field(percentage),
                            total_nodes_accounting: header_field(total),
                        },
                    ),
                },
            },
        }
    }
}

/// The profile type that the second line of a report names: what follows
/// `Type: `, trimmed.
pub open spec fn profile_type_in(lines: Seq<Seq<char>>) -> Seq<char> {
    trim(lines[1].skip("Type: "@.len() as int))
}

/// The number of lines that the header of a report takes: six for a `cpu`
/// report, five for any other. A report whose second line does not start
/// with `Type: `, and one with fewer lines than its header takes, has an
/// incomplete header.
pub open spec fn header_lines_of(lines: Seq<Seq<char>>) -> Result<nat, ParsingFailure> {
    if lines.len() < 2 || !"Type: "@.is_prefix_of(lines[1]) {
        Err(ParsingFailure::IncompleteHeader("Missing profile type (Type: )"@))
    } else if lines.len() < header_size_of(profile_type_in(lines)) {
        Err(ParsingFailure::IncompleteHeader("Fewer header lines than the profile type has"@))
    } else {
        Ok(header_size_of(profile_type_in(lines)))
    }
}

/// The header that the lines of a report start with, and the number of lines
/// that it takes. The checks come in this order: the `Type: ` line, the
/// number of lines, the `File: ` line, for a `cpu` report the `Duration: `
/// line, and the `Showing nodes` line, which is the last but one of the
/// header.
pub open spec fn header_of(lines: Seq<Seq<char>>) -> Result<(HeaderView, nat), ParsingFailure> {
    if lines.len() < 2 || !"Type: "@.is_prefix_of(lines[1]) {
        Err(ParsingFailure::IncompleteHeader("Missing profile type (Type: )"@))
    } else {
        let profile_type = trim(lines[1].skip("Type: "@.len() as int));
        let size = header_size_of(profile_type);
        if lines.len() < size {
            Err(ParsingFailure::IncompleteHeader("Fewer header lines than the profile type has"@))
        } else if !"File: "@.is_prefix_of(lines[0]) {
            Err(ParsingFailure::IncompleteHeader("Missing file name (File: )"@))
        } else {
            let file_name = trim(lines[0].skip("File: "@.len() as int));
            let parallelism = if profile_type == "cpu"@ {
                parallelism_of(lines[3])
            } else {
                Ok(ParallelismView::zero())
            };
            match parallelism {
                Err(e) => Err(e),
                Ok(parallelism) => match total_nodes_of(lines[size - 2]) {
                    Err(e) => Err(e),
                    Ok(total_nodes) => Ok(
                        (HeaderView { file_name, profile_type, parallelism, total_nodes }, size),
                    ),
                },
            }
        }
    }
}

/// The failure of a header that lacks what `detail` names.
fn incomplete_header(detail: &str) -> (e: ProfileParsingError)
    ensures
        e@ == ParsingFailure::IncompleteHeader(detail@),
{
    ProfileParsingError::IncompleteHeader(String::from_str(detail))
}

/// Reads a number of the header, zero where the text holds none.
pub fn field(text: &[char]) -> (d: Decimal)
    ensures
        d@ == header_field(text@),
{
    match Decimal::parse(trim_non_numeric_end(trimmed(text))) {
        Some(d) => d,
        None => Decimal::zero(),
    }
}

/// Reads the `Duration` line.
pub fn parse_parallelism(line: &[char]) -> (r: Result<Parallelism, ProfileParsingError>)
    ensures
        match r {
            Ok(p) => parallelism_of(line@) == Ok::<ParallelismView, ParsingFailure>(p@),
            Err(e) => parallelism_of(line@) == Err::<ParallelismView, ParsingFailure>(e@),
        },
{
    let rest = match strip_prefix(line, "Duration: ") {
        Some(rest) => rest,
        None => {
            return Err(incomplete_header("Missing duration (Duration: )"));
        },
    };
    let (duration, samples) = match split_on(rest, ",") {
        Some(parts) => parts,
        None => {
            return Err(incomplete_header("Missing ',' in duration line"));
        },
    };
    let (_, amount) = match split_on(samples, "=") {
        Some(parts) => parts,
        None => {
            return Err(incomplete_header("Missing '=' in duration line"));
        },
    };
    let (time, share) = match split_on(amount, "(") {
        Some(parts) => parts,
        None => {
            return Err(incomplete_header("Missing '(' in duration line"));
        },
    };
    let (percentage, _) = match split_on(share, ")") {
        Some(parts) => parts,
        None => {
            return Err(incomplete_header("Missing ')' in duration line"));
        },
    };
    Ok(Parallelism::new(field(duration), field(time), field(percentage)))
}

/// Reads the `Showing nodes` line.
pub fn parse_total_nodes(line: &[char]) -> (r: Result<TotalNodes, ProfileParsingError>)
    ensures
        match r {
            Ok(t) => total_nodes_of(line@) == Ok::<TotalNodesView, ParsingFailure>(t@),
            Err(e) => total_nodes_of(line@) == Err::<TotalNodesView, ParsingFailure>(e@),
        },
{
    let rest = match strip_prefix(line, "Showing nodes accounting for ") {
        Some(rest) => rest,
        None => {
            return Err(
                incomplete_header("Missing nodes accounting (Showing nodes accounting for )"),
            );
        },
    };
    let (collected, shares) = match split_on(rest, ",") {
        Some(parts) => parts,
        None => {
            return Err(incomplete_header("Missing ',' in nodes accounting line"));
        },
    };
    let (percentage, _) = match split_on(shares, "%") {
        Some(parts) => parts,
        None => {
            return Err(incomplete_header("Missing '%' in nodes accounting line"));
        },
    };
    let (_, total) = match split_on(shares, "of") {
        Some(parts) => parts,
        None => {
            return Err(incomplete_header("Missing 'of' in nodes accounting line"));
        },
    };
    Ok(TotalNodes::new(field(collected), field(percentage), field(total)))
}

/// Reads the profile type off the second line of a report and tells how many
/// lines the header takes. It fails where that line does not start with
/// `Type: ` and where the report has fewer lines than the header takes.
pub fn profile_type_and_size<'a>(lines: &[&'a [char]]) -> (r: Result<
    (&'a [char], usize),
    ProfileParsingError,
>)
    ensures
        match r {
            Ok((profile_type, size)) => {
                &&& header_lines_of(texts(lines@)) == Ok::<nat, ParsingFailure>(size as nat)
                &&& profile_type@ == profile_type_in(texts(lines@))
                &&& size <= lines@.len()
                &&& size == CPU_HEADER_SIZE || size == REST_HEADER_SIZE
            },
            Err(e) => header_lines_of(texts(lines@)) == Err::<nat, ParsingFailure>(e@),
        },
        r matches Err(e) ==> e@ is IncompleteHeader,
{
    let ghost all = texts(lines@);
    if lines.len() < 2 {
        return Err(incomplete_header("Missing profile type (Type: )"));
    }
    assert(all[1] == lines@[1]@);
    let profile_type = match strip_prefix(lines[1], "Type: ") {
        Some(rest) => trimmed(rest),
        None => {
            return Err(incomplete_header("Missing profile type (Type: )"));
        },
    };
    let cpu = to_chars("cpu");
    let size = if same_text(profile_type, cpu.as_slice()) {
        CPU_HEADER_SIZE
    } else {
        REST_HEADER_SIZE
    };
    if lines.len() < size {
        return Err(incomplete_header("Fewer header lines than the profile type has"));
    }
    Ok((profile_type, size))
}

/// Builds the header from the lines of a report and tells how many lines it
/// takes: six for a `cpu` report, five for any other.
pub fn header_from_lines(lines: &[&[char]]) -> (r: Result<(Header, usize), ProfileParsingError>)
    ensures
        match r {
            Ok((header, size)) => header_of(texts(lines@)) == Ok::<
                (HeaderView, nat),
                ParsingFailure,
            >((header@, size as nat)),
            Err(e) => header_of(texts(lines@)) == Err::<(HeaderView, nat), ParsingFailure>(e@),
        },
        r matches Ok((header, size)) ==> {
            &&& size <= lines@.len()
            &&& header.profile_type@ == "cpu"@ ==> size == CPU_HEADER_SIZE
            &&& header.profile_type@ != "cpu"@ ==> size == REST_HEADER_SIZE
        },
        r matches Err(e) ==> e@ is IncompleteHeader,
{
    let ghost all = texts(lines@);
    let (profile_type, size) = match profile_type_and_size(lines) {
        Ok(found) => found,
        Err(e) => {
            return Err(e);
        },
    };
    let cpu = to_chars("cpu");
    let is_cpu = same_text(profile_type, cpu.as_slice());
    assert(all[0] == lines@[0]@);
    assert(all[3] == lines@[3]@);
    assert(all[size - 2] == lines@[size - 2]@);
    let file_name = match strip_prefix(lines[0], "File: ") {
        Some(rest) => trimmed(rest),
        None => {
            return Err(incomplete_header("Missing file name (File: )"));
        },
    };
    let parallelism = if is_cpu {
        match parse_parallelism(lines[3]) {
            Ok(p) => p,
            Err(e) => {
                return Err(e);
            },
        }
    } else {
        Parallelism::new(Decimal::zero(), Decimal::zero(), Decimal::zero())
    };
    let total_nodes = match parse_total_nodes(lines[size - 2]) {
        Ok(t) => t,
        Err(e) => {
            return Err(e);
        },
    };
    Ok(
        (
            Header::new(from_chars(file_name), from_chars(profile_type), parallelism, total_nodes),
            size,
        ),
    )
}

/// Builds the header from the lines of a report and tells how many lines it
/// takes: six for a `cpu` report, five for any other.
pub fn build_header(profile_data_lines: &[&str]) -> (r: Result<
    (Header, usize),
    ProfileParsingError,
>)
    ensures
        match r {
            Ok((header, size)) => header_of(str_texts(profile_data_lines@)) == Ok::<
                (HeaderView, nat),
                ParsingFailure,
            >((header@, size as nat)),
            Err(e) => header_of(str_texts(profile_data_lines@)) == Err::<
                (HeaderView, nat),
                ParsingFailure,
            >(e@),
        },
        r matches Ok((header, size)) ==> {
            &&& size <= profile_data_lines@.len()
            &&& header.profile_type@ == "cpu"@ ==> size == CPU_HEADER_SIZE
            &&& header.profile_type@ != "cpu"@ ==> size == REST_HEADER_SIZE
        },
        r matches Err(e) ==> e@ is IncompleteHeader,
{
    let owned = chars_of_each(profile_data_lines);
    let lines = borrow_each(&owned);
    assert(texts(lines@) == str_texts(profile_data_lines@));
    header_from_lines(lines.as_slice())
}

/// A header fails its first checks exactly as the count of its lines fails,
/// and a complete header takes the number of lines counted.
pub proof fn lemma_header_lines(lines: Seq<Seq<char>>)
    ensures
        header_lines_of(lines) matches Err(e) ==> header_of(lines) == Err::<
            (HeaderView, nat),
            ParsingFailure,
        >(e),
        header_of(lines) matches Ok(found) ==> header_lines_of(lines) == Ok::<nat, ParsingFailure>(
            found.1,
        ),
        header_lines_of(lines) matches Ok(size) ==> size <= lines.len() && (size == CPU_HEADER_SIZE
            || size == REST_HEADER_SIZE),
{
}

/// A complete header takes six lines where the profile type is `cpu` and
/// five where it is anything else, and the report has at least that many.
pub proof fn lemma_header_size(lines: Seq<Seq<char>>)
    requires
        header_of(lines) is Ok,
    ensures
        header_of(lines)->Ok_0.0.profile_type == "cpu"@ ==> header_of(lines)->Ok_0.1
            == CPU_HEADER_SIZE,
        header_of(lines)->Ok_0.0.profile_type != "cpu"@ ==> header_of(lines)->Ok_0.1
            == REST_HEADER_SIZE,
        header_of(lines)->Ok_0.1 <= lines.len(),
{
}

/// A number written with two fraction digits, with white space around it
/// and its unit behind it, is read as a header number without change.
pub proof fn lemma_header_field_of_fixed2(
    d: DecimalView,
    lead: Seq<char>,
    unit: Seq<char>,
    trail: Seq<char>,
)
    requires
        forall|k: int| 0 <= k < lead.len() ==> is_whitespace(#[trigger] lead[k]),
        forall|k: int| 0 <= k < trail.len() ==> is_whitespace(#[trigger] trail[k]),
        unit.len() == 0 || (!is_numeric(unit[0]) && !is_whitespace(unit.last())),
    ensures
        header_field(lead + (d.fixed2() + unit) + trail) == d.rounded(),
{
    let number = d.fixed2();
    let core = number + unit;
    lemma_fixed2_is_numeric(d);
    lemma_fixed2_round_trip(d);
    assert(core[0] == number[0]);
    if unit.len() == 0 {
        assert(core == number);
    } else {
        assert(core.last() == unit.last());
    }
    lemma_trim_core(lead, core, trail);
    lemma_numeric_prefix_of(number, unit);
}

/// The parts of the `Duration` line between which it is split when read.
proof fn lemma_duration_line_parts(f1: Seq<char>, f2: Seq<char>, f3: Seq<char>)
    ensures
        "Duration: "@ + f1 + "s, Total samples = "@ + f2 + "s ("@ + f3 + "%)\n"@ == "Duration: "@ + (
        (f1 + seq!['s']) + ","@ + (" Total samples "@ + "="@ + ((seq![' '] + (f2 + seq!['s'])
            + seq![' ']) + "("@ + ((f3 + seq!['%']) + ")"@ + seq!['\n'])))),
{
    let l0 = "Duration: "@;
    let l1 = "s, Total samples = "@;
    let l2 = "s ("@;
    let l3 = "%)\n"@;
    assert(l1 == seq!['s'] + ","@ + (" Total samples "@ + "="@ + seq![' '])) by {
        reveal_strlit("s, Total samples = ");
        reveal_strlit(",");
        reveal_strlit(" Total samples ");
        reveal_strlit("=");
    }
    assert(l2 == seq!['s'] + seq![' '] + "("@) by {
        reveal_strlit("s (");
        reveal_strlit("(");
    }
    assert(l3 == seq!['%'] + ")"@ + seq!['\n']) by {
        reveal_strlit("%)\n");
        reveal_strlit(")");
    }
    let share = (f3 + seq!['%']) + ")"@ + seq!['\n'];
    assert(f3 + l3 == share);
    let amount = (seq![' '] + (f2 + seq!['s']) + seq![' ']) + "("@ + share;
    assert(seq![' '] + (f2 + (l2 + (f3 + l3))) == amount);
    let samples = " Total samples "@ + "="@ + amount;
    let rest = (f1 + seq!['s']) + ","@ + samples;
    assert(f1 + (l1 + (f2 + (l2 + (f3 + l3)))) == rest) by {
        assert(l1 + (f2 + (l2 + (f3 + l3))) == seq!['s'] + ","@ + samples);
    }
    assert(l0 + f1 + l1 + f2 + l2 + f3 + l3 == l0 + (f1 + (l1 + (f2 + (l2 + (f3 + l3)))))) by {
        assert(l0 + f1 + l1 + f2 + l2 + f3 + l3 == l0 + f1 + l1 + f2 + l2 + (f3 + l3));
        assert(l0 + f1 + l1 + f2 + l2 + (f3 + l3) == l0 + f1 + l1 + f2 + (l2 + (f3 + l3)));
        assert(l0 + f1 + l1 + f2 + (l2 + (f3 + l3)) == l0 + f1 + l1 + (f2 + (l2 + (f3 + l3))));
        assert(l0 + f1 + l1 + (f2 + (l2 + (f3 + l3))) == l0 + f1 + (l1 + (f2 + (l2 + (f3
            + l3)))));
    }
}

/// The words between the comma and the `=` of the `Duration` line hold no
/// `=`.
proof fn lemma_total_samples_words()
    ensures
        forall|k: int|
            0 <= k < " Total samples "@.len() ==> #[trigger] " Total samples "@[k] != '=',
        "="@ == seq!['='],
        ","@ == seq![','],
        "("@ == seq!['('],
        ")"@ == seq![')'],
{
    reveal_strlit(" Total samples ");
    reveal_strlit("=");
    reveal_strlit(",");
    reveal_strlit("(");
    reveal_strlit(")");
    let w = " Total samples "@;
    assert forall|k: int| 0 <= k < w.len() implies #[trigger] w[k] != '=' by {
        if k == 0 {
        } else if k == 1 {
        } else if k == 2 {
        } else if k == 3 {
        } else if k == 4 {
        } else if k == 5 {
        } else if k == 6 {
        } else if k == 7 {
        } else if k == 8 {
        } else if k == 9 {
        } else if k == 10 {
        } else if k == 11 {
        } else if k == 12 {
        } else if k == 13 {
        } else {
        }
    }
}

/// The `Duration` line that reports a `Parallelism` reads back as its
/// numbers rounded to hundredths, each within 0.01 of the number written.
pub proof fn lemma_parallelism_round_trip(p: ParallelismView)
    ensures
        parallelism_of(p.summary()) == Ok::<ParallelismView, ParsingFailure>(
            ParallelismView {
                duration: p.duration.rounded(),
                total_samples_time: p.total_samples_time.rounded(),
                total_samples_percentage: p.total_samples_percentage.rounded(),
            },
        ),
        p.duration.rounded().within_a_hundredth_of(p.duration),
        p.total_samples_time.rounded().within_a_hundredth_of(p.total_samples_time),
        p.total_samples_percentage.rounded().within_a_hundredth_of(p.total_samples_percentage),
{
    lemma_rounded_is_close(p.duration);
    lemma_rounded_is_close(p.total_samples_time);
    lemma_rounded_is_close(p.total_samples_percentage);
    let f1 = p.duration.fixed2();
    let f2 = p.total_samples_time.fixed2();
    let f3 = p.total_samples_percentage.fixed2();
    lemma_fixed2_is_numeric(p.duration);
    lemma_fixed2_is_numeric(p.total_samples_time);
    lemma_fixed2_is_numeric(p.total_samples_percentage);
    lemma_duration_line_parts(f1, f2, f3);
    lemma_total_samples_words();
    let empty = Seq::<char>::empty();
    let blank = seq![' '];
    let duration = f1 + seq!['s'];
    let time = blank + (f2 + seq!['s']) + blank;
    let percentage = f3 + seq!['%'];
    let share = percentage + ")"@ + seq!['\n'];
    let amount = time + "("@ + share;
    let samples = " Total samples "@ + "="@ + amount;
    let rest = duration + ","@ + samples;
    let line = p.summary();
    assert(line == "Duration: "@ + rest);
    assert("Duration: "@.is_prefix_of(line)) by {
        assert(line.subrange(0, "Duration: "@.len() as int) == "Duration: "@);
    }
    assert(line.skip("Duration: "@.len() as int) == rest);
    assert(split_once(rest, ","@) == Some((duration, samples))) by {
        assert forall|k: int| 0 <= k < duration.len() implies #[trigger] duration[k] != ","@[0] by {
            if k < f1.len() {
                assert(duration[k] == f1[k]);
                assert(is_numeric(f1[k]));
            }
        }
        lemma_split_once_first(duration, ","@, samples);
    }
    assert(split_once(samples, "="@) == Some((" Total samples "@, amount))) by {
        lemma_split_once_first(" Total samples "@, "="@, amount);
    }
    assert(split_once(amount, "("@) == Some((time, share))) by {
        assert forall|k: int| 0 <= k < time.len() implies #[trigger] time[k] != "("@[0] by {
            if 1 <= k <= f2.len() {
                assert(time[k] == f2[k - 1]);
                assert(is_numeric(f2[k - 1]));
            }
        }
        lemma_split_once_first(time, "("@, share);
    }
    assert(split_once(share, ")"@) == Some((percentage, seq!['\n']))) by {
        assert forall|k: int| 0 <= k < percentage.len() implies #[trigger] percentage[k] != ")"@[0]
        by {
            if k < f3.len() {
                assert(percentage[k] == f3[k]);
                assert(is_numeric(f3[k]));
            }
        }
        lemma_split_once_first(percentage, ")"@, seq!['\n']);
    }
    assert(header_field(duration) == p.duration.rounded()) by {
        lemma_header_field_of_fixed2(p.duration, empty, seq!['s'], empty);
        assert(empty + duration + empty == duration);
    }
    assert(header_field(time) == p.total_samples_time.rounded()) by {
        lemma_header_field_of_fixed2(p.total_samples_time, blank, seq!['s'], blank);
    }
    assert(header_field(percentage) == p.total_samples_percentage.rounded()) by {
        lemma_header_field_of_fixed2(p.total_samples_percentage, empty, seq!['%'], empty);
        assert(empty + percentage + empty == percentage);
    }
}

/// The parts of the `Showing nodes` line between which it is split when
/// read.
proof fn lemma_nodes_line_parts(f1: Seq<char>, f2: Seq<char>, f3: Seq<char>)
    ensures
        "Showing nodes accounting for "@ + f1 + "s, "@ + f2 + "% of "@ + f3 + "s total\n"@
            == "Showing nodes accounting for "@ + ((f1 + seq!['s']) + ","@ + ((seq![' '] + f2)
            + "%"@ + (seq![' '] + "of"@ + (seq![' '] + (f3 + "s total"@) + seq!['\n'])))),
        (seq![' '] + f2) + "%"@ + (seq![' '] + "of"@ + (seq![' '] + (f3 + "s total"@) + seq!['\n']))
            == ((seq![' '] + f2) + seq!['%', ' ']) + "of"@ + (seq![' '] + (f3 + "s total"@)
            + seq!['\n']),
{
    let l0 = "Showing nodes accounting for "@;
    let l1 = "s, "@;
    let l2 = "% of "@;
    let l3 = "s total\n"@;
    assert(l1 == seq!['s'] + ","@ + seq![' ']) by {
        reveal_strlit("s, ");
        reveal_strlit(",");
    }
    assert(l2 == "%"@ + seq![' '] + "of"@ + seq![' ']) by {
        reveal_strlit("% of ");
        reveal_strlit("%");
        reveal_strlit("of");
    }
    assert(l3 == "s total"@ + seq!['\n']) by {
        reveal_strlit("s total\n");
        reveal_strlit("s total");
    }
    assert("%"@ == seq!['%']) by {
        reveal_strlit("%");
    }
    let total = seq![' '] + (f3 + "s total"@) + seq!['\n'];
    let after = seq![' '] + "of"@ + total;
    assert(l2 + (f3 + l3) == "%"@ + after);
    let shares = (seq![' '] + f2) + "%"@ + after;
    assert(seq![' '] + (f2 + (l2 + (f3 + l3))) == shares);
    let rest = (f1 + seq!['s']) + ","@ + shares;
    assert(f1 + (l1 + (f2 + (l2 + (f3 + l3)))) == rest) by {
        assert(l1 + (f2 + (l2 + (f3 + l3))) == seq!['s'] + ","@ + shares);
    }
    assert(l0 + f1 + l1 + f2 + l2 + f3 + l3 == l0 + (f1 + (l1 + (f2 + (l2 + (f3 + l3)))))) by {
        assert(l0 + f1 + l1 + f2 + l2 + f3 + l3 == l0 + f1 + l1 + f2 + l2 + (f3 + l3));
        assert(l0 + f1 + l1 + f2 + l2 + (f3 + l3) == l0 + f1 + l1 + f2 + (l2 + (f3 + l3)));
        assert(l0 + f1 + l1 + f2 + (l2 + (f3 + l3)) == l0 + f1 + l1 + (f2 + (l2 + (f3 + l3))));
        assert(l0 + f1 + l1 + (f2 + (l2 + (f3 + l3))) == l0 + f1 + (l1 + (f2 + (l2 + (f3
            + l3)))));
    }
    assert(shares == ((seq![' '] + f2) + seq!['%', ' ']) + "of"@ + total);
}

/// What the patterns and the unit of the `Showing nodes` line hold.
proof fn lemma_nodes_line_words()
    ensures
        ","@ == seq![','],
        "%"@ == seq!['%'],
        "of"@ == seq!['o', 'f'],
        "s total"@.len() == 7,
        "s total"@[0] == 's',
        "s total"@.last() == 'l',
{
    reveal_strlit(",");
    reveal_strlit("%");
    reveal_strlit("of");
    reveal_strlit("s total");
}

/// The `Showing nodes` line that reports a `TotalNodes` reads back as its
/// numbers rounded to hundredths, each within 0.01 of the number written.
pub proof fn lemma_total_nodes_round_trip(t: TotalNodesView)
    ensures
        total_nodes_of(t.summary()) == Ok::<TotalNodesView, ParsingFailure>(
            TotalNodesView {
                collected_nodes_accounting: t.collected_nodes_accounting.rounded(),
                collected_nodes_accounting_percentage:
                    t.collected_nodes_accounting_percentage.rounded(),
                total_nodes_accounting: t.total_nodes_accounting.rounded(),
            },
        ),
        t.collected_nodes_accounting.rounded().within_a_hundredth_of(t.collected_nodes_accounting),
        t.collected_nodes_accounting_percentage.rounded().within_a_hundredth_of(
            t.collected_nodes_accounting_percentage,
        ),
        t.total_nodes_accounting.rounded().within_a_hundredth_of(t.total_nodes_accounting),
{
    lemma_rounded_is_close(t.collected_nodes_accounting);
    lemma_rounded_is_close(t.collected_nodes_accounting_percentage);
    lemma_rounded_is_close(t.total_nodes_accounting);
    let f1 = t.collected_nodes_accounting.fixed2();
    let f2 = t.collected_nodes_accounting_percentage.fixed2();
    let f3 = t.total_nodes_accounting.fixed2();
    lemma_fixed2_is_numeric(t.collected_nodes_accounting);
    lemma_fixed2_is_numeric(t.collected_nodes_accounting_percentage);
    lemma_fixed2_is_numeric(t.total_nodes_accounting);
    lemma_nodes_line_parts(f1, f2, f3);
    lemma_nodes_line_words();
    let empty = Seq::<char>::empty();
    let blank = seq![' '];
    let collected = f1 + seq!['s'];
    let percentage = blank + f2;
    let total = blank + (f3 + "s total"@) + seq!['\n'];
    let after = blank + "of"@ + total;
    let before = percentage + seq!['%', ' '];
    let shares = percentage + "%"@ + after;
    let rest = collected + ","@ + shares;
    let line = t.summary();
    let prefix = "Showing nodes accounting for "@;
    assert(line == prefix + rest);
    assert(prefix.is_prefix_of(line)) by {
        assert(line.subrange(0, prefix.len() as int) == prefix);
    }
    assert(line.skip(prefix.len() as int) == rest);
    assert(split_once(rest, ","@) == Some((collected, shares))) by {
        assert forall|k: int| 0 <= k < collected.len() implies #[trigger] collected[k] != ","@[0]
        by {
            if k < f1.len() {
                assert(collected[k] == f1[k]);
                assert(is_numeric(f1[k]));
            }
        }
        lemma_split_once_first(collected, ","@, shares);
    }
    assert(split_once(shares, "%"@) == Some((percentage, after))) by {
        assert forall|k: int| 0 <= k < percentage.len() implies #[trigger] percentage[k] != "%"@[0]
        by {
            if 1 <= k {
                assert(percentage[k] == f2[k - 1]);
                assert(is_numeric(f2[k - 1]));
            }
        }
        lemma_split_once_first(percentage, "%"@, after);
    }
    assert(split_once(shares, "of"@) == Some((before, total))) by {
        assert forall|k: int| 0 <= k < before.len() implies #[trigger] before[k] != "of"@[0] by {
            if 1 <= k <= f2.len() {
                assert(before[k] == f2[k - 1]);
                assert(is_numeric(f2[k - 1]));
            }
        }
        lemma_split_once_first(before, "of"@, total);
    }
    assert(header_field(collected) == t.collected_nodes_accounting.rounded()) by {
        lemma_header_field_of_fixed2(t.collected_nodes_accounting, empty, seq!['s'], empty);
        assert(empty + collected + empty == collected);
    }
    assert(header_field(percentage) == t.collected_nodes_accounting_percentage.rounded()) by {
        lemma_header_field_of_fixed2(t.collected_nodes_accounting_percentage, blank, empty, empty);
        assert(blank + (f2 + empty) + empty == percentage);
    }
    assert(header_field(total) == t.total_nodes_accounting.rounded()) by {
        lemma_header_field_of_fixed2(t.total_nodes_accounting, blank, "s total"@, seq!['\n']);
    }
}

} // verus!
