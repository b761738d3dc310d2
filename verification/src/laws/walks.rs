//! Which lines of a progress table say nothing: they are passed over, and the
//! walk through the table goes on.

use crate::chars;
use crate::laws::layout;
use crate::numbers;
use crate::quantity::{RealView, Unit};
use crate::solvers::progress;
use crate::solvers::progress::{Open, ScanView, StepView, TableFormat};
use crate::solvers::{cbc, copt, cplex, gurobi, highs, optverse, scip, xpress};
use vstd::prelude::*;

verus! {

/// Before the heading of a table no line is a row, whatever it holds.
pub proof fn law_nothing_before_the_heading(scan: ScanView, any: bool, line: Seq<char>)
    requires
        scan.open == Open::No,
    ensures
        !(chars::contains(line, "Incumbent"@) && chars::contains(line, "BestBd"@))
            ==> gurobi::GurobiTable.meaning(scan, any, line) == (scan, StepView::Pass),
        !(chars::contains(line, "Node  Left"@) && chars::contains(line, "Best Integer"@))
            ==> cplex::CplexTable.meaning(scan, any, line) == (scan, StepView::Pass),
        !chars::contains(line, "Src  Proc. InQueue"@) ==> highs::HighsTable.meaning(scan, any, line)
            == (scan, StepView::Pass),
        !(chars::contains(line, "Nodes"@) && chars::contains(line, "BestBound"@)
            && chars::contains(line, "BestSolution"@)) ==> copt::CoptTable.meaning(scan, any, line)
            == (scan, StepView::Pass),
        !(chars::contains(line, "Time"@) && chars::contains(line, "Solved"@) && chars::contains(
            line,
            "BestBound"@,
        )) ==> optverse::OptverseTable.meaning(scan, any, line) == (scan, StepView::Pass),
{
}

/// In a Gurobi table a line that is no row and does not end it is passed over,
/// and so are blank lines above the first row.
pub proof fn law_lines_of_gurobi(scan: ScanView, any: bool, line: Seq<char>)
    requires
        scan.open != Open::No,
    ensures
        chars::blank(line) && !any ==> gurobi::GurobiTable.meaning(scan, any, line) == (
            scan,
            StepView::Pass,
        ),
        chars::blank(line) && any ==> gurobi::GurobiTable.meaning(scan, any, line).1
            == StepView::Stop,
        !chars::blank(line) && gurobi::row_in(line) is None && !chars::starts_with(
            line,
            "Cutting planes:"@,
        ) && !chars::starts_with(line, "Cutting Planes:"@) && !chars::starts_with(
            line,
            "Explored "@,
        ) && !chars::contains(line, "Time limit reached"@) && !chars::starts_with(
            line,
            "Optimal solution"@,
        ) ==> gurobi::GurobiTable.meaning(scan, any, line) == (scan, StepView::Pass),
{
}

/// In a CPLEX table a blank line says nothing, and a line on the elapsed time
/// sets the clock by which the rows below it are timed.
pub proof fn law_clock_of_cplex(scan: ScanView, any: bool, line: Seq<char>)
    requires
        scan.open != Open::No,
    ensures
        chars::blank(line) ==> cplex::CplexTable.meaning(scan, any, line) == (scan, StepView::Pass),
        ({
            let time = layout::number(
                layout::said(r"Elapsed time\s*=\s*([\d.]+)\s+sec"@, line, 1),
                Unit::One,
            );
            !chars::blank(line) && chars::contains(line, "Elapsed time"@) && time is Some
                ==> cplex::CplexTable.meaning(scan, any, line) == (
                ScanView { clock: time->Some_0, ..scan },
                StepView::Pass,
            )
        }),
        !chars::blank(line) && !chars::contains(line, "Elapsed time"@) && !cplex::ends_table(line)
            ==> cplex::CplexTable.meaning(scan, any, line) == (
            scan,
            match cplex::row_in(line, scan.clock) {
                Some(row) => StepView::Row(row),
                None => StepView::Pass,
            },
        ),
{
}

/// In a HiGHS table blank lines and lines on a restart are passed over, and so
/// is what is no row.
pub proof fn law_lines_of_highs(scan: ScanView, any: bool, line: Seq<char>)
    requires
        scan.open != Open::No,
    ensures
        chars::blank(line) ==> highs::HighsTable.meaning(scan, any, line) == (scan, StepView::Pass),
        !chars::starts_with(line, "Solving report"@) && (chars::starts_with(
            line,
            "Model after restart"@,
        ) || chars::contains(line, "restarting"@) || chars::contains(
            line,
            "inactive integer columns"@,
        )) ==> highs::HighsTable.meaning(scan, any, line) == (scan, StepView::Pass),
        !chars::starts_with(line, "Solving report"@) && highs::row_in(line) is None
            ==> highs::HighsTable.meaning(scan, any, line) == (scan, StepView::Pass),
{
}

/// In a SCIP table blank lines and lines without a bar are passed over, and
/// the heading may come again.
pub proof fn law_lines_of_scip(scan: ScanView, any: bool, line: Seq<char>)
    requires
        scan.open == Open::Tree,
    ensures
        chars::blank(line) ==> scip::ScipTable.meaning(scan, any, line) == (scan, StepView::Pass),
        scip::is_header(line) ==> scip::ScipTable.meaning(scan, any, line) == (
            scan,
            StepView::Pass,
        ),
        !scip::ends_table(chars::trimmed(line)) && !chars::contains(line, "|"@)
            ==> scip::ScipTable.meaning(scan, any, line) == (scan, StepView::Pass),
        !scip::ends_table(chars::trimmed(line)) && scip::row_in(line) is None
            ==> scip::ScipTable.meaning(scan, any, line) == (scan, StepView::Pass),
{
}

/// In a COPT table and in an OptVerse table blank lines are passed over, the
/// heading may come again, and so is what is no row.
pub proof fn law_lines_of_copt_and_optverse(scan: ScanView, any: bool, line: Seq<char>)
    requires
        scan.open != Open::No,
    ensures
        chars::blank(line) ==> copt::CoptTable.meaning(scan, any, line) == (scan, StepView::Pass),
        chars::starts_with(chars::trimmed(line), "Nodes"@) && chars::contains(
            chars::trimmed(line),
            "BestBound"@,
        ) ==> copt::CoptTable.meaning(scan, any, line) == (scan, StepView::Pass),
        !copt::ends_table(chars::trimmed(line)) && copt::row_in(line) is None
            ==> copt::CoptTable.meaning(scan, any, line) == (scan, StepView::Pass),
        chars::blank(line) ==> optverse::OptverseTable.meaning(scan, any, line) == (
            scan,
            StepView::Pass,
        ),
        chars::starts_with(chars::trimmed(line), "Time"@) && chars::contains(
            chars::trimmed(line),
            "BestBound"@,
        ) ==> optverse::OptverseTable.meaning(scan, any, line) == (scan, StepView::Pass),
        !chars::starts_with(chars::trimmed(line), "Solve results"@) && !chars::starts_with(
            chars::trimmed(line),
            "Write best"@,
        ) && !chars::starts_with(chars::trimmed(line), "Status"@) && optverse::row_in(line) is None
            ==> optverse::OptverseTable.meaning(scan, any, line) == (scan, StepView::Pass),
{
}

/// In an Xpress table blank lines above the first row are passed over, and so
/// is what is no row of the table that is open; a blank line below a row ends
/// it.
pub proof fn law_lines_of_xpress(scan: ScanView, any: bool, line: Seq<char>)
    requires
        scan.open != Open::No,
    ensures
        chars::blank(line) && !any ==> xpress::XpressTable.meaning(scan, any, line) == (
            scan,
            StepView::Pass,
        ),
        chars::blank(line) && any ==> xpress::XpressTable.meaning(scan, any, line).1
            == StepView::Stop,
        scan.open == Open::Tree && !chars::blank(line) && !xpress::ends_table(line)
            && xpress::tree_row_in(line) is None ==> xpress::XpressTable.meaning(scan, any, line)
            == (scan, StepView::Pass),
        scan.open == Open::Root && !chars::blank(line) && !xpress::ends_table(line)
            && xpress::root_row_in(line) is None ==> xpress::XpressTable.meaning(scan, any, line)
            == (scan, StepView::Pass),
{
}

/// CBC has no table: each line of the log is a row or says nothing.
pub proof fn law_lines_of_cbc(scan: ScanView, any: bool, line: Seq<char>)
    ensures
        cbc::CbcTable.meaning(scan, any, line) == (
            scan,
            match cbc::row_in(line) {
                Some(row) => StepView::Row(row),
                None => StepView::Pass,
            },
        ),
{
}

/// The line without its first character where that is a mark.
pub open spec fn unmarked(line: Seq<char>, marked: bool) -> Seq<char> {
    if marked {
        line.skip(1)
    } else {
        line
    }
}

/// A row of Gurobi has ten cells, or seven where a solution was found, a time
/// in its last cell and a count in its first; nothing else is a row.
pub proof fn law_rows_of_gurobi(line: Seq<char>)
    ensures
        ({
            let marked = line.len() > 0 && (line[0] == 'H' || line[0] == 'h' || line[0] == '*');
            let cells = chars::words(unmarked(line, marked));
            gurobi::row_in(line) is Some <==> line.len() > 0 && numbers::u64_of(cells[0]) is Some && ((
            cells.len() == 10 && progress::time_of(cells[9]) is Some) || (cells.len() == 7
                && progress::time_of(cells[6]) is Some))
        }),
{
}

/// A row of the search of Xpress has nine cells, or seven where there is no
/// solution yet, a number in its last cell and a count in its first. A row of
/// its root node has ten cells or more with a number in the tenth, and one of a
/// solution at the root starts with a `P` and has seven or more with a number
/// in the last.
pub proof fn law_rows_of_xpress(line: Seq<char>)
    ensures
        ({
            let marked = line.len() > 0 && ('a' <= line[0] <= 'z' || 'A' <= line[0] <= 'Z');
            let cells = chars::words(unmarked(line, marked));
            xpress::tree_row_in(line) is Some <==> numbers::u64_of(cells[0]) is Some && ((cells.len()
                == 9 && numbers::is_real(cells[8])) || (cells.len() == 7 && numbers::is_real(
                cells[6],
            )))
        }),
        ({
            let cells = chars::words(line);
            xpress::root_row_in(line) is Some <==> line.len() > 0 && if line[0] == 'P' {
                cells.len() >= 7 && numbers::is_real(cells.last())
            } else {
                cells.len() >= 10 && numbers::is_real(cells[9])
            }
        }),
{
}

/// A row of SCIP has seventeen cells or more between its bars, and a time in
/// the first of them.
pub proof fn law_rows_of_scip(line: Seq<char>)
    ensures
        ({
            let cells = chars::pieces(line, '|');
            let first = chars::trimmed(cells[0]);
            &&& cells.len() < 17 ==> scip::row_in(line) is None
            &&& cells.len() >= 17 && first.len() > 0 && numbers::is_digit(first[0]) ==> (
            scip::row_in(line) is Some <==> numbers::is_real(
                chars::back_trimmed(first, "s"@, false),
            ))
        }),
{
}

/// A row of HiGHS has twelve cells, or thirteen where the first is no count,
/// and a time in the last of them.
pub proof fn law_rows_of_highs(line: Seq<char>)
    ensures
        ({
            let cells = chars::words(line);
            highs::row_in(line) is Some <==> progress::time_of(cells.last()) is Some && (cells.len()
                >= 13 || (cells.len() == 12 && numbers::u64_of(cells[0]) is Some))
        }),
{
}

/// A row of CPLEX has eight cells, seven, six or five; with a star before it
/// eight, six, five or four. The cells are counted behind the star.
pub proof fn law_rows_of_cplex(line: Seq<char>, clock: RealView)
    ensures
        ({
            let marked = line.len() > 0 && line[0] == '*';
            let n = chars::words(unmarked(line, marked)).len();
            cplex::row_in(line, clock) is Some <==> line.len() > 0 && !chars::contains(
                line,
                "Cuts:"@,
            ) && if marked {
                n == 8 || n == 6 || n == 5 || n == 4
            } else {
                n == 8 || n == 7 || n == 6 || n == 5
            }
        }),
        cplex::row_in(line, clock) matches Some(row) ==> row.time_seconds == clock,
{
}

/// A row of COPT has eight cells or more and a time in the last of them.
pub proof fn law_rows_of_copt(line: Seq<char>)
    ensures
        ({
            let marked = line.len() > 0 && chars::alphabetic(line[0]);
            let cells = chars::words(unmarked(line, marked));
            copt::row_in(line) is Some <==> line.len() > 0 && cells.len() >= 8 && progress::time_of(
                cells.last(),
            ) is Some
        }),
{
}

/// A row of OptVerse has a time in seconds in its first cell and six more, or
/// in its second and six more.
pub proof fn law_rows_of_optverse(line: Seq<char>)
    requires
        line.len() >= 2,
        line[0] <= '\u{7f}',
        line[1] <= '\u{7f}',
    ensures
        ({
            let cells = chars::words(line);
            optverse::row_in(line) is Some <==> if cells.len() >= 7 && chars::ends_with(
                cells[0],
                "s"@,
            ) {
                progress::time_of(cells[0]) is Some
            } else {
                cells.len() >= 8 && chars::ends_with(cells[1], "s"@) && progress::time_of(
                    cells[1],
                ) is Some
            }
        }),
{
}

/// A row of CBC is a message on the search or on an integer solution.
pub proof fn law_rows_of_cbc(line: Seq<char>)
    ensures
        ({
            let search = r"Cbc0010I After\s+([\d,]+)\s+nodes,\s+([\d,]+)\s+on tree,\s+([-\d.eE+]+)\s+best solution,\s+best possible\s+([-\d.eE+]+)\s+\(([\d.]+)\s+seconds\)"@;
            let solution = r"Cbc0004I Integer solution of\s+([-\d.eE+]+)\s+found after\s+([\d,]+)\s+iterations and\s+([\d,]+)\s+nodes\s+\(([\d.]+)\s+seconds\)"@;
            cbc::row_in(line) is Some <==> (chars::contains(line, "Cbc0010I"@)
                && layout::matches_in(search, line)) || (chars::contains(line, "Cbc0004I"@)
                && layout::matches_in(solution, line))
        }),
{
}

} // verus!
