//! The fixed-width table of rows: a line of column titles and one line for
//! each row, every number with two fraction digits.

use vstd::prelude::*;
use crate::parser::types::{row_views, FunctionProfileData, FunctionProfileView};
use crate::text::{padded, push_padded, to_chars};

verus! {

/// Width of the `flat`, `flat%` and `cum` columns.
pub const NARROW_COLUMN: usize = 8;

/// Width of the `sum%` and `cum%` columns.
pub const WIDE_COLUMN: usize = 10;

/// The line of column titles.
pub open spec fn title_line() -> Seq<char> {
    padded("flat"@, NARROW_COLUMN as nat) + " "@ + padded("flat%"@, NARROW_COLUMN as nat) + " "@
        + padded("sum%"@, WIDE_COLUMN as nat) + " "@ + padded("cum"@, NARROW_COLUMN as nat) + " "@
        + padded("cum%"@, WIDE_COLUMN as nat) + " "@ + "function"@ + "\n"@
}

/// The line of one row: its numbers rounded to two fraction digits, each
/// left-justified in its column, then the function name.
pub open spec fn row_line(row: FunctionProfileView) -> Seq<char> {
    padded(row.flat.fixed2(), NARROW_COLUMN as nat) + " "@ + padded(
        row.flat_percentage.fixed2(),
        NARROW_COLUMN as nat,
    ) + " "@ + padded(row.sum_percentage.fixed2(), WIDE_COLUMN as nat) + " "@ + padded(
        row.cum.fixed2(),
        NARROW_COLUMN as nat,
    ) + " "@ + padded(row.cum_percentage.fixed2(), WIDE_COLUMN as nat) + " "@ + row.function_name
        + "\n"@
}

/// The lines of `rows`, in order.
pub open spec fn row_lines(rows: Seq<FunctionProfileView>) -> Seq<char>
    decreases rows.len(),
{
    if rows.len() == 0 {
        Seq::empty()
    } else {
        row_lines(rows.drop_last()) + row_line(rows.last())
    }
}

/// The table: the title line, then the lines of `rows`.
pub open spec fn table(rows: Seq<FunctionProfileView>) -> Seq<char> {
    title_line() + row_lines(rows)
}

/// Appends the line of column titles.
pub fn push_title_line(out: &mut String)
    ensures
        final(out)@ == old(out)@ + title_line(),
{
    let mut line = String::new();
    push_padded(&mut line, to_chars("flat").as_slice(), NARROW_COLUMN);
    assert(line@ == padded("flat"@, NARROW_COLUMN as nat));
    line.append(" ");
    push_padded(&mut line, to_chars("flat%").as_slice(), NARROW_COLUMN);
    line.append(" ");
    push_padded(&mut line, to_chars("sum%").as_slice(), WIDE_COLUMN);
    line.append(" ");
    push_padded(&mut line, to_chars("cum").as_slice(), NARROW_COLUMN);
    line.append(" ");
    push_padded(&mut line, to_chars("cum%").as_slice(), WIDE_COLUMN);
    line.append(" ");
    line.append("function");
    line.append("\n");
    out.append(line.as_str());
}

/// Appends the line of `row`.
pub fn push_row_line(out: &mut String, row: &FunctionProfileData)
    ensures
        final(out)@ == old(out)@ + row_line(row@),
{
    let mut line = String::new();
    push_padded(&mut line, row.flat.fixed2_chars().as_slice(), NARROW_COLUMN);
    assert(line@ == padded(row@.flat.fixed2(), NARROW_COLUMN as nat));
    line.append(" ");
    push_padded(&mut line, row.flat_percentage.fixed2_chars().as_slice(), NARROW_COLUMN);
    line.append(" ");
    push_padded(&mut line, row.sum_percentage.fixed2_chars().as_slice(), WIDE_COLUMN);
    line.append(" ");
    push_padded(&mut line, row.cum.fixed2_chars().as_slice(), NARROW_COLUMN);
    line.append(" ");
    push_padded(&mut line, row.cum_percentage.fixed2_chars().as_slice(), WIDE_COLUMN);
    line.append(" ");
    line.append(row.function_name.as_str());
    line.append("\n");
    out.append(line.as_str());
}

/// Appends the table of `rows`.
pub fn push_table(out: &mut String, rows: &Vec<FunctionProfileData>)
    ensures
        final(out)@ == old(out)@ + table(row_views(rows@)),
{
    push_title_line(out);
    let ghost views = row_views(rows@);
    let mut i: usize = 0;
    assert(views.take(0) == Seq::<FunctionProfileView>::empty());
    assert(old(out)@ + title_line() + Seq::<char>::empty() == old(out)@ + title_line());
    while i < rows.len()
        invariant
            i <= rows.len(),
            views == row_views(rows@),
            out@ == old(out)@ + title_line() + row_lines(views.take(i as int)),
        decreases rows.len() - i,
    {
        push_row_line(out, &rows[i]);
        proof {
            assert(views.take(i + 1).drop_last() == views.take(i as int));
            assert(views.take(i + 1).last() == rows@[i as int]@);
            assert(old(out)@ + title_line() + row_lines(views.take(i as int)) + row_line(
                rows@[i as int]@,
            ) == old(out)@ + title_line() + (row_lines(views.take(i as int)) + row_line(
                rows@[i as int]@,
            )));
        }
        i += 1;
    }
    assert(views.take(rows.len() as int) == views);
    assert(old(out)@ + title_line() + row_lines(views) == old(out)@ + (title_line() + row_lines(
        views,
    )));
}

} // verus!
