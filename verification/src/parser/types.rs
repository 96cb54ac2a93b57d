//! The data that a parsed report is made of, the failures that parsing can
//! end in, and the mathematical view of each.

use vstd::prelude::*;
use crate::decimal::{Decimal, DecimalView};
use crate::text::push_chars;

verus! {

/// Why a report could not be parsed.
#[derive(Debug)]
pub enum ProfileParsingError {
    /// The file could not be read; holds the cause in words.
    FileReadError(String),
    /// The file holds nothing but white space.
    EmptyFile,
    /// A column that must be a number is none; names the column.
    InvalidFormat(String),
    /// A header line or one of its parts is missing; names it.
    IncompleteHeader(String),
    /// A row has too few words, or no row is left.
    IncompleteBody(String),
}

/// The view of a `ProfileParsingError`.
pub enum ParsingFailure {
    FileReadError(Seq<char>),
    EmptyFile,
    InvalidFormat(Seq<char>),
    IncompleteHeader(Seq<char>),
    IncompleteBody(Seq<char>),
}

impl ParsingFailure {
    /// The failure in words.
    pub open spec fn message(self) -> Seq<char> {
        match self {
            ParsingFailure::FileReadError(cause) => "Failed to read profile file: "@ + cause,
            ParsingFailure::EmptyFile => "Profile file is empty"@,
            ParsingFailure::InvalidFormat(detail) => "Invalid profile format: "@ + detail,
            ParsingFailure::IncompleteHeader(detail) => "Incomplete header: "@ + detail,
            ParsingFailure::IncompleteBody(detail) => "Incomplete body: "@ + detail,
        }
    }
}

impl View for ProfileParsingError {
    type V = ParsingFailure;

    open spec fn view(&self) -> ParsingFailure {
        match self {
            ProfileParsingError::FileReadError(cause) => ParsingFailure::FileReadError(cause@),
            ProfileParsingError::EmptyFile => ParsingFailure::EmptyFile,
            ProfileParsingError::InvalidFormat(detail) => ParsingFailure::InvalidFormat(detail@),
            ProfileParsingError::IncompleteHeader(detail) => ParsingFailure::IncompleteHeader(
                detail@,
            ),
            ProfileParsingError::IncompleteBody(detail) => ParsingFailure::IncompleteBody(detail@),
        }
    }
}

impl ProfileParsingError {
    /// The failure in words.
    pub fn message(&self) -> (s: String)
        ensures
            s@ == self@.message(),
    {
        match self {
            ProfileParsingError::FileReadError(cause) => {
                String::from_str("Failed to read profile file: ").concat(cause.as_str())
            },
            ProfileParsingError::EmptyFile => String::from_str("Profile file is empty"),
            ProfileParsingError::InvalidFormat(detail) => {
                String::from_str("Invalid profile format: ").concat(detail.as_str())
            },
            ProfileParsingError::IncompleteHeader(detail) => {
                String::from_str("Incomplete header: ").concat(detail.as_str())
            },
            ProfileParsingError::IncompleteBody(detail) => {
                String::from_str("Incomplete body: ").concat(detail.as_str())
            },
        }
    }
}

/// The `Duration` line of a `cpu` report: seconds of wall time profiled,
/// seconds of CPU time sampled over all threads, and the second as a
/// percentage of the first.
#[derive(Debug)]
pub struct Parallelism {
    pub duration: Decimal,
    pub total_samples_time: Decimal,
    pub total_samples_percentage: Decimal,
}

/// The view of a `Parallelism`.
pub struct ParallelismView {
    pub duration: DecimalView,
    pub total_samples_time: DecimalView,
    pub total_samples_percentage: DecimalView,
}

impl ParallelismView {
    /// The line that reports these numbers, each with two fraction digits.
    pub open spec fn summary(self) -> Seq<char> {
        "Duration: "@ + self.duration.fixed2() + "s, Total samples = "@
            + self.total_samples_time.fixed2() + "s ("@ + self.total_samples_percentage.fixed2()
            + "%)\n"@
    }

    /// What a report without a `Duration` line has: zeros.
    pub open spec fn zero() -> ParallelismView {
        ParallelismView {
            duration: DecimalView::zero(),
            total_samples_time: DecimalView::zero(),
            total_samples_percentage: DecimalView::zero(),
        }
    }
}

impl View for Parallelism {
    type V = ParallelismView;

    open spec fn view(&self) -> ParallelismView {
        ParallelismView {
            duration: self.duration@,
            total_samples_time: self.total_samples_time@,
            total_samples_percentage: self.total_samples_percentage@,
        }
    }
}

impl Parallelism {
    /// A `Parallelism` of the three numbers given.
    pub fn new(
        duration: Decimal,
        total_samples_time: Decimal,
        total_samples_percentage: Decimal,
    ) -> (p: Parallelism)
        ensures
            p.duration == duration,
            p.total_samples_time == total_samples_time,
            p.total_samples_percentage == total_samples_percentage,
    {
        Parallelism { duration, total_samples_time, total_samples_percentage }
    }

    /// The line that reports these numbers, each with two fraction digits.
    pub fn format_summary(&self) -> (s: String)
        ensures
            s@ == self@.summary(),
    {
        let mut s = String::from_str("Duration: ");
        push_chars(&mut s, self.duration.fixed2_chars().as_slice());
        s.append("s, Total samples = ");
        push_chars(&mut s, self.total_samples_time.fixed2_chars().as_slice());
        s.append("s (");
        push_chars(&mut s, self.total_samples_percentage.fixed2_chars().as_slice());
        s.append("%)\n");
        s
    }
}

/// The `Showing nodes` line: seconds that the listed nodes account for, that
/// as a percentage of the total, and the total in seconds.
#[derive(Debug)]
pub struct TotalNodes {
    pub collected_nodes_accounting: Decimal,
    pub collected_nodes_accounting_percentage: Decimal,
    pub total_nodes_accounting: Decimal,
}

/// The view of a `TotalNodes`.
pub struct TotalNodesView {
    pub collected_nodes_accounting: DecimalView,
    pub collected_nodes_accounting_percentage: DecimalView,
    pub total_nodes_accounting: DecimalView,
}

impl TotalNodesView {
    /// The line that reports these numbers, each with two fraction digits.
    pub open spec fn summary(self) -> Seq<char> {
        "Showing nodes accounting for "@ + self.collected_nodes_accounting.fixed2() + "s, "@
            + self.collected_nodes_accounting_percentage.fixed2() + "% of "@
            + self.total_nodes_accounting.fixed2() + "s total\n"@
    }
}

impl View for TotalNodes {
    type V = TotalNodesView;

    open spec fn view(&self) -> TotalNodesView {
        TotalNodesView {
            collected_nodes_accounting: self.collected_nodes_accounting@,
            collected_nodes_accounting_percentage: self.collected_nodes_accounting_percentage@,
            total_nodes_accounting: self.total_nodes_accounting@,
        }
    }
}

impl TotalNodes {
    /// A `TotalNodes` of the three numbers given.
    pub fn new(
        collected_nodes_accounting: Decimal,
        collected_nodes_accounting_percentage: Decimal,
        total_nodes_accounting: Decimal,
    ) -> (t: TotalNodes)
        ensures
            t.collected_nodes_accounting == collected_nodes_accounting,
            t.collected_nodes_accounting_percentage == collected_nodes_accounting_percentage,
            t.total_nodes_accounting == total_nodes_accounting,
    {
        TotalNodes {
            collected_nodes_accounting,
            collected_nodes_accounting_percentage,
            total_nodes_accounting,
        }
    }

    /// The line that reports these numbers, each with two fraction digits.
    pub fn format_summary(&self) -> (s: String)
        ensures
            s@ == self@.summary(),
    {
        let mut s = String::from_str("Showing nodes accounting for ");
        push_chars(&mut s, self.collected_nodes_accounting.fixed2_chars().as_slice());
        s.append("s, ");
        push_chars(&mut s, self.collected_nodes_accounting_percentage.fixed2_chars().as_slice());
        s.append("% of ");
        push_chars(&mut s, self.total_nodes_accounting.fixed2_chars().as_slice());
        s.append("s total\n");
        s
    }
}

/// The header of a report.
#[derive(Debug)]
pub struct Header {
    pub file_name: String,
    pub profile_type: String,
    pub parallelism: Parallelism,
    pub total_nodes: TotalNodes,
}

/// The view of a `Header`.
pub struct HeaderView {
    pub file_name: Seq<char>,
    pub profile_type: Seq<char>,
    pub parallelism: ParallelismView,
    pub total_nodes: TotalNodesView,
}

impl View for Header {
    type V = HeaderView;

    open spec fn view(&self) -> HeaderView {
        HeaderView {
            file_name: self.file_name@,
            profile_type: self.profile_type@,
            parallelism: self.parallelism@,
            total_nodes: self.total_nodes@,
        }
    }
}

impl Header {
    /// A header of the parts given.
    pub fn new(
        file_name: String,
        profile_type: String,
        parallelism: Parallelism,
        total_nodes: TotalNodes,
    ) -> (h: Header)
        ensures
            h.file_name == file_name,
            h.profile_type == profile_type,
            h.parallelism == parallelism,
            h.total_nodes == total_nodes,
    {
        Header { file_name, profile_type, parallelism, total_nodes }
    }
}

/// One row of the report: a function and its five numbers.
#[derive(Debug)]
pub struct FunctionProfileData {
    pub function_name: String,
    pub flat: Decimal,
    pub flat_percentage: Decimal,
    pub sum_percentage: Decimal,
    pub cum: Decimal,
    pub cum_percentage: Decimal,
}

/// The view of a `FunctionProfileData`.
pub struct FunctionProfileView {
    pub function_name: Seq<char>,
    pub flat: DecimalView,
    pub flat_percentage: DecimalView,
    pub sum_percentage: DecimalView,
    pub cum: DecimalView,
    pub cum_percentage: DecimalView,
}

impl View for FunctionProfileData {
    type V = FunctionProfileView;

    open spec fn view(&self) -> FunctionProfileView {
        FunctionProfileView {
            function_name: self.function_name@,
            flat: self.flat@,
            flat_percentage: self.flat_percentage@,
            sum_percentage: self.sum_percentage@,
            cum: self.cum@,
            cum_percentage: self.cum_percentage@,
        }
    }
}

impl FunctionProfileData {
    /// A row of the name and the five numbers given.
    pub fn new(
        function_name: String,
        flat: Decimal,
        flat_percentage: Decimal,
        sum_percentage: Decimal,
        cum: Decimal,
        cum_percentage: Decimal,
    ) -> (row: FunctionProfileData)
        ensures
            row.function_name == function_name,
            row.flat == flat,
            row.flat_percentage == flat_percentage,
            row.sum_percentage == sum_percentage,
            row.cum == cum,
            row.cum_percentage == cum_percentage,
    {
        FunctionProfileData {
            function_name,
            flat,
            flat_percentage,
            sum_percentage,
            cum,
            cum_percentage,
        }
    }
}

/// The views of `rows`, in order.
pub open spec fn row_views(rows: Seq<FunctionProfileData>) -> Seq<FunctionProfileView> {
    Seq::new(rows.len(), |i: int| rows[i]@)
}

} // verus!
