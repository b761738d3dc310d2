//! CPLEX logs.

use crate::chars;
use crate::json;
use crate::json::{Entries, Json, JsonValue};
use crate::matching;
use crate::matching::{Captures, Groups};
use crate::numbers;
use crate::quantity;
use crate::quantity::{Real, RealView};
use crate::schema;
use crate::schema::{
    Bounds, BoundsView, EventView, LogView, NamedValue, NodeEvent, NodeSnapshot, ParserInfo, PresolveStats, RowView,
    Solver, SolverLog, Status, Termination, TerminationView, Timing, TimingView, TreeStats,
};
use crate::solvers::entries;
use crate::solvers::entries::Kind;
use crate::solvers::progress;
use crate::solvers::progress::{Open, Scan, ScanView, Step, StepView, TableFormat};
use crate::table;
use crate::{LogParser, ParseError};
use vstd::prelude::*;

verus! {

pub const VERSION: &'static str =
    r"(?:CPLEX[^I]*Interactive Optimizer\s+|Version identifier:\s+)(\d+\.\d+\.\d+(?:\.\d+)?)";
pub const PROBLEM: &'static str = r"Problem '([^']+)' read\.";
pub const REDUCED: &'static str =
    r"Reduced MIP has\s+([\d,]+)\s+rows,\s+([\d,]+)\s+columns,\s+and\s+([\d,]+)\s+nonzeros";
pub const OBJECTIVE: &'static str = r"MIP - [^:]+:\s+Objective\s*=\s*([-\d.eE+]+)";
pub const SOLUTION_TIME: &'static str =
    r"Solution time\s*=\s*([\d.]+)\s+sec\.\s+Iterations\s*=\s*([\d,]+)\s+Nodes\s*=\s*([\d,]+)";
pub const TOTAL_TIME: &'static str = r"Total\s*\(root\+branch&cut\)\s*=\s*([\d.]+)\s+sec";
pub const ELAPSED: &'static str = r"Elapsed time\s*=\s*([\d.]+)\s+sec";
pub const ROOT_TIME: &'static str = r"Root relaxation solution time\s*=\s*([\d.]+)\s+sec";
pub const SOLUTION_POOL: &'static str = r"Solution pool:\s+(\d+)\s+solutions? saved";
pub const CUTS: &'static str = r"(?m)^\s*(.+?)\s+cuts applied:\s+([\d,]+)";
pub const INCUMBENT: &'static str =
    r"Found incumbent of value\s+([\d.eE+\-]+)\s+after\s+([\d.]+)\s+sec";
pub const PRESOLVE_TIME: &'static str = r"Presolve time\s*=\s*([\d.]+)\s+sec";
pub const EMPHASIS: &'static str = r"MIP emphasis:\s+(.+?)\.";
pub const SEARCH_METHOD: &'static str = r"MIP search method:\s+(.+?)\.";
pub const PARALLEL_MODE: &'static str =
    r"Parallel mode:\s+([^,]+),\s+using up to (\d+) threads?";
pub const BREAKDOWN: &'static str =
    r"Reduced MIP has (\d+) binaries,\s+(\d+) generals,\s+(\d+) SOSs,\s+and\s+(\d+) indicators";
pub const ELIMINATED: &'static str =
    r"MIP Presolve eliminated (\d+) rows? and (\d+) columns?";
pub const MODIFIED: &'static str = r"MIP Presolve modified (\d+) coefficients?";
pub const PROBING_TIME: &'static str = r"Probing time\s*=\s*([\d.]+)\s+sec";
pub const PROBING_SENSE: &'static str = r"Probing changed sense of (\d+) constraints?";
pub const CLIQUES: &'static str = r"Clique table members:\s+(\d+)";
pub const TICKS: &'static str =
    r"Total \(root\+branch&cut\)\s*=\s*[\d.]+\s+sec\.\s+\(([\d.]+)\s+ticks\)";
pub const ROOT_NODE_TIME: &'static str =
    r"Root node processing \(before b&c\):\s*Real time\s*=\s*([\d.]+)";
pub const PARALLEL_TIME: &'static str =
    r"Parallel b&c,\s+\d+\s+threads?:\s*Real time\s*=\s*([\d.]+)";

/// Which texts look like a CPLEX log.
pub open spec fn looks_right(text: Seq<char>) -> bool {
    &&& chars::contains(text, "CPLEX"@) || chars::contains(text, "CPXPARAM"@)
    &&& chars::contains(text, "Interactive Optimizer"@) || chars::contains(text, "CPXPARAM"@)
        || chars::contains(text, "MIP - "@)
}

/// The status that the words behind `MIP - ` stand for.
pub open spec fn mip_status(s: Seq<char>) -> Option<Status> {
    if chars::contains(s, "nteger optimal"@) {
        Some(Status::Optimal)
    } else if chars::contains(s, "infeasible"@) || chars::contains(s, "Infeasible"@) {
        Some(Status::Infeasible)
    } else if chars::contains(s, "unbounded"@) || chars::contains(s, "Unbounded"@) {
        Some(Status::Unbounded)
    } else if chars::contains(s, "Time limit"@) || chars::contains(s, "time limit"@) {
        Some(Status::TimeLimit)
    } else if chars::contains(s, "Node limit"@) || chars::contains(s, "node limit"@) {
        Some(Status::OtherLimit)
    } else {
        None
    }
}

/// Why the run stopped: the first `MIP - ` line says it, lines of input aside;
/// until there is one, the last line on an LP optimum.
pub open spec fn termination_after(
    lines: Seq<Seq<char>>,
    so_far: TerminationView,
) -> TerminationView
    decreases lines.len(),
{
    if lines.len() == 0 {
        so_far
    } else {
        let line = chars::trimmed(lines[0]);
        if chars::starts_with(line, "CPLEX>"@) {
            termination_after(lines.skip(1), so_far)
        } else {
            match chars::after_prefix(line, "MIP - "@) {
                Some(rest) => TerminationView {
                    status: match mip_status(rest) {
                        Some(s) => s,
                        None => so_far.status,
                    },
                    raw_reason: Some(rest),
                },
                None => if chars::starts_with(line, "Optimal:"@) || chars::starts_with(
                    line,
                    "LP status = optimal"@,
                ) {
                    termination_after(
                        lines.skip(1),
                        TerminationView { status: Status::Optimal, raw_reason: Some(line) },
                    )
                } else {
                    termination_after(lines.skip(1), so_far)
                },
            }
        }
    }
}

pub fn classify(s: &[char]) -> (out: Option<Status>)
    ensures
        out == mip_status(s@),
{
    if chars::has(s, "nteger optimal") {
        Some(Status::Optimal)
    } else if chars::has(s, "infeasible") || chars::has(s, "Infeasible") {
        Some(Status::Infeasible)
    } else if chars::has(s, "unbounded") || chars::has(s, "Unbounded") {
        Some(Status::Unbounded)
    } else if chars::has(s, "Time limit") || chars::has(s, "time limit") {
        Some(Status::TimeLimit)
    } else if chars::has(s, "Node limit") || chars::has(s, "node limit") {
        Some(Status::OtherLimit)
    } else {
        None
    }
}

pub open spec fn termination_in(text: Seq<char>) -> TerminationView {
    termination_after(chars::lines(text), schema::no_termination())
}

pub fn read_termination(text: &[char]) -> (out: Termination)
    ensures
        out@ == termination_in(text@),
{
    let lines = chars::split_lines(text);
    let ghost all = chars::lines(text@);
    assert(chars::views(lines@).len() == lines@.len());
    let mut so_far = Termination::default();
    let mut i: usize = 0;
    assert(all.skip(0) =~= all);
    while i < lines.len()
        invariant
            i <= lines@.len(),
            chars::views(lines@) == all,
            all == chars::lines(text@),
            termination_after(all.skip(i as int), so_far@) == termination_in(text@),
        decreases lines@.len() - i,
    {
        assert(all.skip(i as int)[0] == lines@[i as int]@);
        assert(all.skip(i as int).skip(1) =~= all.skip(i + 1));
        let line = chars::trim(lines[i]);
        if !chars::begins(line, "CPLEX>") {
            if let Some(rest) = chars::strip_front(line, "MIP - ") {
                let status = match classify(rest) {
                    Some(s) => s,
                    None => so_far.status,
                };
                return Termination { status, raw_reason: Some(chars::string_of(rest)) };
            }
            if chars::begins(line, "Optimal:") || chars::begins(line, "LP status = optimal") {
                so_far =
                Termination {
                    status: Status::Optimal,
                    raw_reason: Some(chars::string_of(line)),
                };
            }
        }
        i = i + 1;
    }
    assert(all.skip(i as int) =~= Seq::empty());
    so_far
}

/// No time, or a time of zero.
pub open spec fn no_time(t: Option<RealView>) -> bool {
    match t {
        Some(r) => quantity::reads_zero(r),
        None => true,
    }
}

/// The wall time: that of the solution line; where that is none or zero, the
/// total; where that is none or zero too, the last time that was announced.
pub open spec fn wall_from(
    solution: Option<Groups>,
    total: Option<Groups>,
    elapsed: Seq<Groups>,
) -> Option<RealView> {
    let w0 = matching::real_at(solution, 1);
    let w1 = if total is Some {
        matching::real_at(total, 1)
    } else {
        w0
    };
    if !no_time(w0) {
        w0
    } else if !no_time(w1) {
        w1
    } else {
        match matching::real_at(entries::last_of(elapsed), 1) {
            Some(t) => if quantity::reads_positive(t) {
                Some(t)
            } else {
                w1
            },
            None => w1,
        }
    }
}

fn lacks_time(t: &Option<Real>) -> (out: bool)
    ensures
        out == no_time(quantity::opt_real(*t)),
{
    match t {
        Some(r) => r.is_zero(),
        None => true,
    }
}

pub fn make_wall(
    solution: &Option<Captures>,
    total: &Option<Captures>,
    elapsed: Vec<Captures>,
) -> (out: Option<Real>)
    ensures
        quantity::opt_real(out) == wall_from(
            matching::opt_groups(*solution),
            matching::opt_groups(*total),
            matching::all_groups(elapsed@),
        ),
{
    let mut wall = matching::found_real(solution, 1);
    if lacks_time(&wall) {
        if total.is_some() {
            wall = matching::found_real(total, 1);
        }
        if lacks_time(&wall) {
            let last = entries::take_last(elapsed);
            if let Some(t) = matching::found_real(&last, 1) {
                if t.is_positive() {
                    return Some(t);
                }
            }
        }
    }
    wall
}

/// Those of the texts that write real numbers.
pub open spec fn real_texts(s: Seq<Seq<char>>) -> Seq<Seq<char>>
    decreases s.len(),
{
    if s.len() == 0 {
        Seq::empty()
    } else if numbers::is_real(s.last()) {
        real_texts(s.drop_last()).push(s.last())
    } else {
        real_texts(s.drop_last())
    }
}

/// The sum of the times of all matches.
pub open spec fn sum_from(ms: Seq<Groups>) -> Option<RealView> {
    let literals = real_texts(entries::column(ms, 1));
    if literals.len() > 0 {
        Some(RealView { literals, unit: quantity::Unit::One })
    } else {
        None
    }
}

pub fn make_sum(ms: &Vec<Captures>) -> (out: Option<Real>)
    ensures
        quantity::opt_real(out) == sum_from(matching::all_groups(ms@)),
{
    let mut sum: Option<Real> = None;
    let mut i: usize = 0;
    let ghost all = entries::column(matching::all_groups(ms@), 1);
    while i < ms.len()
        invariant
            i <= ms@.len(),
            all == entries::column(matching::all_groups(ms@), 1),
            real_texts(all.take(i as int)).len() == 0 ==> sum is None,
            real_texts(all.take(i as int)).len() > 0 ==> quantity::opt_real(sum) == Some(
                RealView {
                    literals: real_texts(all.take(i as int)),
                    unit: quantity::Unit::One,
                },
            ),
        decreases ms@.len() - i,
    {
        assert(all.take(i + 1).drop_last() =~= all.take(i as int));
        let s = ms[i].part(1);
        assert(all.take(i + 1).last() == s@);
        let ghost before = real_texts(all.take(i as int));
        if let Some(t) = Real::read(s.as_slice()) {
            sum =
            match sum {
                Some(r) => {
                    assert(before + seq![s@] =~= before.push(s@));
                    Some(r.plus(&t))
                },
                None => {
                    assert(seq![s@] =~= before.push(s@));
                    Some(t)
                },
            };
        }
        i = i + 1;
    }
    assert(all.take(i as int) =~= all);
    sum
}

/// The times.
pub open spec fn timing_from(
    wall: Option<RealView>,
    presolve: Seq<Groups>,
    root: Option<Groups>,
) -> TimingView {
    TimingView {
        wall_seconds: wall,
        presolve_seconds: sum_from(presolve),
        root_relaxation_seconds: matching::real_at(root, 1),
        ..schema::no_timing()
    }
}

pub fn make_timing(wall: Option<Real>, presolve: &Vec<Captures>, root: &Option<Captures>) -> (out:
    Timing)
    ensures
        out@ == timing_from(
            quantity::opt_real(wall),
            matching::all_groups(presolve@),
            matching::opt_groups(*root),
        ),
{
    Timing {
        wall_seconds: wall,
        cpu_seconds: None,
        reading_seconds: None,
        presolve_seconds: make_sum(presolve),
        root_relaxation_seconds: matching::found_real(root, 1),
    }
}

/// The bounds. CPLEX has no summary of the dual bound and the gap: they are
/// those of the last row. The root bound is the first that is not zero.
pub open spec fn bounds_from(
    objective: Option<Groups>,
    incumbent: Option<Groups>,
    rows: Seq<RowView>,
) -> BoundsView {
    BoundsView {
        primal: matching::real_at(objective, 1),
        dual: if rows.len() > 0 {
            rows.last().dual
        } else {
            None
        },
        gap: if rows.len() > 0 {
            rows.last().gap
        } else {
            None
        },
        root_dual: progress::first_dual(rows),
        first_primal: matching::real_at(incumbent, 1),
        first_primal_time_seconds: matching::real_at(incumbent, 2),
        primal_dual_integral: None,
    }
}

pub fn make_bounds(
    objective: &Option<Captures>,
    incumbent: &Option<Captures>,
    rows: &schema::ProgressTable,
) -> (out: Bounds)
    requires
        rows.well_formed(),
    ensures
        out@ == bounds_from(
            matching::opt_groups(*objective),
            matching::opt_groups(*incumbent),
            rows@,
        ),
{
    let n: usize = rows.len();
    let mut dual: Option<Real> = None;
    let mut gap: Option<Real> = None;
    if n > 0 {
        dual = quantity::copy_opt(&rows.dual[n - 1]);
        gap = quantity::copy_opt(&rows.gap[n - 1]);
    }
    Bounds {
        primal: matching::found_real(objective, 1),
        dual,
        gap,
        root_dual: progress::find_first_dual(rows),
        first_primal: matching::found_real(incumbent, 1),
        first_primal_time_seconds: matching::found_real(incumbent, 2),
        primal_dual_integral: None,
    }
}

/// The counts of the search.
pub open spec fn tree_from(solution: Option<Groups>, pool: Option<Groups>) -> TreeStats {
    TreeStats {
        nodes_explored: matching::count_at(solution, 3),
        simplex_iterations: matching::count_at(solution, 2),
        solutions_found: matching::u64_at(pool, 1),
        max_depth: None,
        restarts: None,
    }
}

pub fn make_tree(solution: &Option<Captures>, pool: &Option<Captures>) -> (out: TreeStats)
    ensures
        out == tree_from(matching::opt_groups(*solution), matching::opt_groups(*pool)),
{
    TreeStats {
        nodes_explored: matching::found_count(solution, 3),
        simplex_iterations: matching::found_count(solution, 2),
        solutions_found: matching::found_u64(pool, 1),
        max_depth: None,
        restarts: None,
    }
}

/// The dimensions after presolve: the last that were reported.
pub open spec fn presolve_from(reduced: Seq<Groups>) -> PresolveStats {
    let last = entries::last_of(reduced);
    PresolveStats {
        rows_after: matching::count_at(last, 1),
        cols_after: matching::count_at(last, 2),
        nonzeros_after: matching::count_at(last, 3),
        ..schema::no_presolve()
    }
}

pub fn make_presolve(reduced: Vec<Captures>) -> (out: PresolveStats)
    ensures
        out == presolve_from(matching::all_groups(reduced@)),
{
    let last = entries::take_last(reduced);
    PresolveStats {
        rows_before: None,
        cols_before: None,
        nonzeros_before: None,
        rows_after: matching::found_count(&last, 1),
        cols_after: matching::found_count(&last, 2),
        nonzeros_after: matching::found_count(&last, 3),
    }
}

/// A count in a row, commas aside.
pub open spec fn count_of(tok: Seq<char>) -> Option<u64> {
    numbers::u64_of(chars::without(tok, ','))
}

pub fn read_count(tok: &[char]) -> (out: Option<u64>)
    ensures
        out == count_of(tok@),
{
    let digits = chars::drop_char(tok, ',');
    numbers::read_u64(digits.as_slice())
}

/// The number of the node, with which a `+` may stand.
pub open spec fn node_of(tok: Seq<char>) -> Option<u64> {
    count_of(
        match chars::before_suffix(tok, "+"@) {
            Some(s) => s,
            None => tok,
        },
    )
}

/// A row of the progress table at the time that was last announced. The
/// columns that are blank depend on the number of tokens and on whether the
/// row reports a new incumbent; rows on root cuts are left out.
pub open spec fn row_in(line: Seq<char>, clock: RealView) -> Option<RowView> {
    if line.len() == 0 || chars::contains(line, "Cuts:"@) {
        None
    } else {
        let marked = line[0] == '*';
        let toks = chars::words(
            if marked {
                line.skip(1)
            } else {
                line
            },
        );
        let n = toks.len();
        let row = RowView {
            time_seconds: clock,
            nodes_explored: node_of(toks[0]),
            event: if marked {
                Some(EventView::Heuristic)
            } else {
                None
            },
            ..schema::empty_row()
        };
        if n == 8 {
            Some(
                RowView {
                    primal: progress::cell_of(toks[4]),
                    dual: progress::cell_of(toks[5]),
                    lp_iterations: count_of(toks[6]),
                    gap: progress::gap_of(toks[7]),
                    ..row
                },
            )
        } else if n == 7 && !marked {
            Some(
                RowView {
                    primal: progress::cell_of(toks[3]),
                    dual: progress::cell_of(toks[4]),
                    lp_iterations: count_of(toks[5]),
                    gap: progress::gap_of(toks[6]),
                    ..row
                },
            )
        } else if n == 6 && marked {
            Some(
                RowView {
                    primal: progress::cell_of(toks[2]),
                    dual: progress::cell_of(toks[3]),
                    lp_iterations: count_of(toks[4]),
                    gap: progress::gap_of(toks[5]),
                    ..row
                },
            )
        } else if n == 6 {
            Some(
                RowView {
                    dual: progress::cell_of(toks[4]),
                    lp_iterations: count_of(toks[5]),
                    ..row
                },
            )
        } else if n == 5 && marked {
            Some(
                RowView {
                    primal: progress::cell_of(toks[2]),
                    dual: progress::cell_of(toks[3]),
                    gap: progress::gap_of(toks[4]),
                    ..row
                },
            )
        } else if n == 5 {
            Some(RowView { dual: progress::cell_of(toks[4]), ..row })
        } else if n == 4 && marked {
            Some(
                RowView {
                    primal: progress::cell_of(toks[2]),
                    dual: progress::cell_of(toks[3]),
                    ..row
                },
            )
        } else {
            None
        }
    }
}

pub fn parse_row(line: &[char], clock: &Real) -> (out: Option<NodeSnapshot>)
    ensures
        schema::opt_row(out) == row_in(line@, clock@),
{
    if line.len() == 0 || chars::has(line, "Cuts:") {
        return None;
    }
    let marked = line[0] == '*';
    let body = if marked {
        chars::from(line, 1)
    } else {
        line
    };
    let toks = chars::split_words(body);
    let ghost words = chars::words(body@);
    assert(words.len() == toks@.len());
    assert(forall|i: int| 0 <= i < toks@.len() ==> words[i] == (#[trigger] toks@[i])@);
    let n: usize = toks.len();
    if n < 4 {
        return None;
    }
    let node = match chars::strip_back(toks[0], "+") {
        Some(s) => s,
        None => toks[0],
    };
    let nodes_explored = read_count(node);
    let event = if marked {
        Some(NodeEvent::Heuristic)
    } else {
        None
    };
    let time_seconds = clock.copy();
    let mut primal: Option<Real> = None;
    let mut dual: Option<Real> = None;
    let mut gap: Option<Real> = None;
    let mut lp_iterations: Option<u64> = None;
    if n == 8 {
        primal = progress::parse_or_dash(toks[4]);
        dual = progress::parse_or_dash(toks[5]);
        lp_iterations = read_count(toks[6]);
        gap = progress::parse_gap(toks[7]);
    } else if n == 7 && !marked {
        primal = progress::parse_or_dash(toks[3]);
        dual = progress::parse_or_dash(toks[4]);
        lp_iterations = read_count(toks[5]);
        gap = progress::parse_gap(toks[6]);
    } else if n == 6 && marked {
        primal = progress::parse_or_dash(toks[2]);
        dual = progress::parse_or_dash(toks[3]);
        lp_iterations = read_count(toks[4]);
        gap = progress::parse_gap(toks[5]);
    } else if n == 6 {
        dual = progress::parse_or_dash(toks[4]);
        lp_iterations = read_count(toks[5]);
    } else if n == 5 && marked {
        primal = progress::parse_or_dash(toks[2]);
        dual = progress::parse_or_dash(toks[3]);
        gap = progress::parse_gap(toks[4]);
    } else if n == 5 {
        dual = progress::parse_or_dash(toks[4]);
    } else if n == 4 && marked {
        primal = progress::parse_or_dash(toks[2]);
        dual = progress::parse_or_dash(toks[3]);
    } else {
        return None;
    }
    Some(
        NodeSnapshot {
            time_seconds,
            nodes_explored,
            primal,
            dual,
            gap,
            depth: None,
            lp_iterations,
            event,
        },
    )
}

/// The CPLEX progress table. Its rows have no time: lines between them announce it.
pub struct CplexTable;

/// What a line announces as the time.
pub open spec fn announced(line: Seq<char>) -> Option<Groups> {
    if chars::contains(line, "Elapsed time"@) {
        matching::regex_captures(ELAPSED@, line)
    } else {
        None
    }
}

pub open spec fn ends_table(line: Seq<char>) -> bool {
    let s = chars::trimmed(line);
    ||| chars::starts_with(s, "Clique"@)
    ||| chars::starts_with(s, "Cover"@)
    ||| chars::starts_with(s, "Implied"@)
    ||| chars::starts_with(s, "Flow"@)
    ||| chars::starts_with(s, "Mixed"@)
    ||| chars::starts_with(s, "Zero-half"@)
    ||| chars::starts_with(s, "Gomory"@)
    ||| chars::starts_with(s, "Lift"@)
    ||| chars::starts_with(s, "GUB"@)
    ||| chars::contains(line, "cuts applied"@)
    ||| chars::starts_with(s, "Root node"@)
    ||| chars::starts_with(s, "MIP -"@)
    ||| chars::starts_with(s, "Solution pool"@)
    ||| chars::starts_with(s, "Repeating presolve"@)
}

pub fn is_table_end(line: &[char]) -> (out: bool)
    ensures
        out == ends_table(line@),
{
    let s = chars::trim(line);
    chars::begins(s, "Clique") || chars::begins(s, "Cover") || chars::begins(s, "Implied")
        || chars::begins(s, "Flow") || chars::begins(s, "Mixed") || chars::begins(s, "Zero-half")
        || chars::begins(s, "Gomory") || chars::begins(s, "Lift") || chars::begins(s, "GUB")
        || chars::has(line, "cuts applied") || chars::begins(s, "Root node") || chars::begins(
        s,
        "MIP -",
    ) || chars::begins(s, "Solution pool") || chars::begins(s, "Repeating presolve")
}

/// The time behind an announcement: what it says, if that is a number.
pub open spec fn clock_after(clock: RealView, announcement: Groups) -> RealView {
    match matching::real_at(Some(announcement), 1) {
        Some(t) => t,
        None => clock,
    }
}

impl TableFormat for CplexTable {
    open spec fn meaning(&self, scan: ScanView, any: bool, line: Seq<char>) -> (
        ScanView,
        StepView,
    ) {
        if scan.open == Open::No {
            if chars::contains(line, "Node  Left"@) && chars::contains(line, "Best Integer"@) {
                (ScanView { open: Open::Tree, ..scan }, StepView::Pass)
            } else {
                (scan, StepView::Pass)
            }
        } else if chars::blank(line) {
            (scan, StepView::Pass)
        } else {
            match announced(line) {
                Some(m) => (
                    ScanView { clock: clock_after(scan.clock, m), ..scan },
                    StepView::Pass,
                ),
                None => if ends_table(line) {
                    (scan, StepView::Stop)
                } else {
                    (scan, progress::row_or_pass(row_in(line, scan.clock)))
                },
            }
        }
    }

    fn step(&self, scan: Scan, any: bool, line: &[char]) -> (out: (Scan, Step)) {
        if scan.open == Open::No {
            if chars::has(line, "Node  Left") && chars::has(line, "Best Integer") {
                return (Scan { open: Open::Tree, clock: scan.clock }, Step::Pass);
            }
            return (scan, Step::Pass);
        }
        if chars::is_blank(line) {
            return (scan, Step::Pass);
        }
        if chars::has(line, "Elapsed time") {
            let text = chars::string_of(line);
            let m = matching::captures(ELAPSED, text.as_str());
            if m.is_some() {
                return match matching::found_real(&m, 1) {
                    Some(t) => (Scan { open: scan.open, clock: t }, Step::Pass),
                    None => (scan, Step::Pass),
                };
            }
        }
        if is_table_end(line) {
            return (scan, Step::Stop);
        }
        let row = parse_row(line, &scan.clock);
        (scan, progress::step_of(row))
    }
}

/// How the search was set up.
pub open spec fn config_from(
    emphasis: Option<Groups>,
    method: Option<Groups>,
    parallel: Option<Groups>,
) -> Option<Json> {
    let e0 = entries::with_found(json::no_entries(), emphasis, 1, "mip_emphasis"@, Kind::Trimmed);
    let e1 = entries::with_found(e0, method, 1, "search_method"@, Kind::Trimmed);
    let e2 = entries::with_found(e1, parallel, 1, "parallel_mode"@, Kind::Trimmed);
    json::object_of(entries::with_found(e2, parallel, 2, "threads"@, Kind::Value))
}

pub fn make_config(
    emphasis: &Option<Captures>,
    method: &Option<Captures>,
    parallel: &Option<Captures>,
) -> (out: Option<JsonValue>)
    ensures
        json::opt_json(out) == config_from(
            matching::opt_groups(*emphasis),
            matching::opt_groups(*method),
            matching::opt_groups(*parallel),
        ),
{
    let mut e = Entries::new();
    entries::put_found(&mut e, emphasis, 1, "mip_emphasis", Kind::Trimmed);
    entries::put_found(&mut e, method, 1, "search_method", Kind::Trimmed);
    entries::put_found(&mut e, parallel, 1, "parallel_mode", Kind::Trimmed);
    entries::put_found(&mut e, parallel, 2, "threads", Kind::Value);
    e.some_object()
}

/// The variables after presolve by type: the last that were reported.
pub open spec fn types_from(ms: Seq<Groups>) -> Option<Json> {
    let m = entries::last_of(ms);
    let e0 = entries::with_found(json::no_entries(), m, 1, "binaries"@, Kind::Value);
    let e1 = entries::with_found(e0, m, 2, "generals"@, Kind::Value);
    let e2 = entries::with_found(e1, m, 3, "sos"@, Kind::Value);
    json::object_of(entries::with_found(e2, m, 4, "indicators"@, Kind::Value))
}

pub fn make_types(ms: Vec<Captures>) -> (out: Option<JsonValue>)
    ensures
        json::opt_json(out) == types_from(matching::all_groups(ms@)),
{
    let m = entries::take_last(ms);
    let mut e = Entries::new();
    entries::put_found(&mut e, &m, 1, "binaries", Kind::Value);
    entries::put_found(&mut e, &m, 2, "generals", Kind::Value);
    entries::put_found(&mut e, &m, 3, "sos", Kind::Value);
    entries::put_found(&mut e, &m, 4, "indicators", Kind::Value);
    e.some_object()
}

/// The sum of the counts in group `i` of the matches; what is no count adds nothing.
pub open spec fn total_of(ms: Seq<Groups>, i: int) -> u64
    decreases ms.len(),
{
    if ms.len() == 0 {
        0
    } else {
        numbers::wrapped_sum(
            total_of(ms.drop_last(), i),
            match numbers::u64_of(matching::part(ms.last(), i)) {
                Some(n) => n,
                None => 0,
            },
        )
    }
}

pub fn add_up(ms: &Vec<Captures>, i: usize) -> (out: u64)
    ensures
        out == total_of(matching::all_groups(ms@), i as int),
{
    let mut total: u64 = 0;
    let mut k: usize = 0;
    let ghost all = matching::all_groups(ms@);
    while k < ms.len()
        invariant
            k <= ms@.len(),
            all == matching::all_groups(ms@),
            total == total_of(all.take(k as int), i as int),
        decreases ms@.len() - k,
    {
        assert(all.take(k + 1).drop_last() =~= all.take(k as int));
        assert(all.take(k + 1).last() == ms@[k as int]@);
        let s = ms[k].part(i);
        let n: u64 = match numbers::read_u64(s.as_slice()) {
            Some(n) => n,
            None => 0,
        };
        total = numbers::add_wrapping(total, n);
        k = k + 1;
    }
    assert(all.take(k as int) =~= all);
    total
}

/// What presolve did: rows and columns over all phases, and the coefficients
/// that the last one changed.
pub open spec fn details_from(eliminated: Seq<Groups>, modified: Seq<Groups>) -> Option<Json> {
    let rows = total_of(eliminated, 1);
    let cols = total_of(eliminated, 2);
    let e = if rows > 0 || cols > 0 {
        table::put(
            table::put(json::no_entries(), "eliminated_rows"@, Json::Count(rows)),
            "eliminated_cols"@,
            Json::Count(cols),
        )
    } else {
        json::no_entries()
    };
    json::object_of(
        entries::with_found(
            e,
            entries::last_of(modified),
            1,
            "modified_coefficients"@,
            Kind::Value,
        ),
    )
}

pub fn make_details(eliminated: &Vec<Captures>, modified: Vec<Captures>) -> (out: Option<JsonValue>)
    ensures
        json::opt_json(out) == details_from(
            matching::all_groups(eliminated@),
            matching::all_groups(modified@),
        ),
{
    let rows: u64 = add_up(eliminated, 1);
    let cols: u64 = add_up(eliminated, 2);
    let mut e = Entries::new();
    if rows > 0 || cols > 0 {
        e.put("eliminated_rows", JsonValue::Count(rows));
        e.put("eliminated_cols", JsonValue::Count(cols));
    }
    let last = entries::take_last(modified);
    entries::put_found(&mut e, &last, 1, "modified_coefficients", Kind::Value);
    e.some_object()
}

/// What probing took and did.
pub open spec fn probing_from(times: Seq<Groups>, sense: Option<Groups>) -> Option<Json> {
    let e = entries::with_found(
        json::no_entries(),
        entries::last_of(times),
        1,
        "time_seconds"@,
        Kind::Value,
    );
    json::object_of(
        entries::with_found(e, sense, 1, "constraints_sense_changed"@, Kind::Value),
    )
}

pub fn make_probing(times: Vec<Captures>, sense: &Option<Captures>) -> (out: Option<JsonValue>)
    ensures
        json::opt_json(out) == probing_from(
            matching::all_groups(times@),
            matching::opt_groups(*sense),
        ),
{
    let last = entries::take_last(times);
    let mut e = Entries::new();
    entries::put_found(&mut e, &last, 1, "time_seconds", Kind::Value);
    entries::put_found(&mut e, sense, 1, "constraints_sense_changed", Kind::Value);
    e.some_object()
}

/// An incumbent and when it was found.
pub open spec fn incumbent_of(m: Groups) -> Json {
    let e = entries::with_group(json::no_entries(), m, 1, "value"@, Kind::Value);
    Json::Object(entries::with_group(e, m, 2, "time_seconds"@, Kind::Value))
}

pub open spec fn incumbents_from(ms: Seq<Groups>) -> Seq<Json> {
    Seq::new(ms.len(), |i: int| incumbent_of(ms[i]))
}

pub fn collect_incumbents(ms: &Vec<Captures>) -> (out: Option<JsonValue>)
    ensures
        json::opt_json(out) == json::array_of(incumbents_from(matching::all_groups(ms@))),
{
    let mut out: Vec<JsonValue> = Vec::new();
    let mut i: usize = 0;
    let ghost all = incumbents_from(matching::all_groups(ms@));
    assert(json::jsons(out@) =~= all.take(0));
    while i < ms.len()
        invariant
            i <= ms@.len(),
            all == incumbents_from(matching::all_groups(ms@)),
            json::jsons(out@) == all.take(i as int),
        decreases ms@.len() - i,
    {
        let mut e = Entries::new();
        entries::put_group(&mut e, &ms[i], 1, "value", Kind::Value);
        entries::put_group(&mut e, &ms[i], 2, "time_seconds", Kind::Value);
        let v = e.object();
        proof {
            json::lemma_jsons_push(out@, v);
        }
        out.push(v);
        assert(all.take(i + 1) =~= all.take(i as int).push(all[i as int]));
        i = i + 1;
    }
    assert(all.take(i as int) =~= all);
    json::some_array(out)
}

/// The times at the root node and in the parallel search.
pub open spec fn breakdown_from(root: Option<Groups>, parallel: Option<Groups>) -> Option<Json> {
    let e = entries::with_found(json::no_entries(), root, 1, "root_node_time"@, Kind::Value);
    json::object_of(entries::with_found(e, parallel, 1, "parallel_bc_time"@, Kind::Value))
}

pub fn make_breakdown(root: &Option<Captures>, parallel: &Option<Captures>) -> (out: Option<
    JsonValue,
>)
    ensures
        json::opt_json(out) == breakdown_from(
            matching::opt_groups(*root),
            matching::opt_groups(*parallel),
        ),
{
    let mut e = Entries::new();
    entries::put_found(&mut e, root, 1, "root_node_time", Kind::Value);
    entries::put_found(&mut e, parallel, 1, "parallel_bc_time", Kind::Value);
    e.some_object()
}

/// What only CPLEX reports.
pub open spec fn others_in(text: Seq<char>) -> Seq<(Seq<char>, Json)> {
    let o0 = progress::with_other(
        Seq::empty(),
        "cplex.search_config"@,
        config_from(
            matching::regex_captures(EMPHASIS@, text),
            matching::regex_captures(SEARCH_METHOD@, text),
            matching::regex_captures(PARALLEL_MODE@, text),
        ),
    );
    let o1 = progress::with_other(
        o0,
        "cplex.variable_types_after_presolve"@,
        types_from(matching::regex_captures_iter(BREAKDOWN@, text)),
    );
    let o2 = progress::with_other(
        o1,
        "cplex.presolve_details"@,
        details_from(
            matching::regex_captures_iter(ELIMINATED@, text),
            matching::regex_captures_iter(MODIFIED@, text),
        ),
    );
    let o3 = progress::with_other(
        o2,
        "cplex.probing"@,
        probing_from(
            matching::regex_captures_iter(PROBING_TIME@, text),
            matching::regex_captures(PROBING_SENSE@, text),
        ),
    );
    let o4 = progress::with_other(
        o3,
        "cplex.clique_table_members"@,
        entries::value_at(matching::regex_captures(CLIQUES@, text), 1),
    );
    let o5 = progress::with_other(
        o4,
        "cplex.incumbents"@,
        json::array_of(incumbents_from(matching::regex_captures_iter(INCUMBENT@, text))),
    );
    let o6 = progress::with_other(
        o5,
        "cplex.deterministic_ticks"@,
        entries::value_at(matching::regex_captures(TICKS@, text), 1),
    );
    progress::with_other(
        o6,
        "cplex.timing_breakdown"@,
        breakdown_from(
            matching::regex_captures(ROOT_NODE_TIME@, text),
            matching::regex_captures(PARALLEL_TIME@, text),
        ),
    )
}

pub fn collect_others(text: &str) -> (out: Vec<NamedValue>)
    ensures
        schema::others_of(out@) == others_in(text@),
{
    let mut out: Vec<NamedValue> = Vec::new();
    assert(schema::others_of(out@) =~= Seq::empty());
    let emphasis = matching::captures(EMPHASIS, text);
    let method = matching::captures(SEARCH_METHOD, text);
    let parallel = matching::captures(PARALLEL_MODE, text);
    progress::add_other(
        &mut out,
        "cplex.search_config",
        make_config(&emphasis, &method, &parallel),
    );
    let types = matching::captures_iter(BREAKDOWN, text);
    progress::add_other(&mut out, "cplex.variable_types_after_presolve", make_types(types));
    let eliminated = matching::captures_iter(ELIMINATED, text);
    let modified = matching::captures_iter(MODIFIED, text);
    progress::add_other(&mut out, "cplex.presolve_details", make_details(&eliminated, modified));
    let times = matching::captures_iter(PROBING_TIME, text);
    let sense = matching::captures(PROBING_SENSE, text);
    progress::add_other(&mut out, "cplex.probing", make_probing(times, &sense));
    let cliques = matching::captures(CLIQUES, text);
    progress::add_other(&mut out, "cplex.clique_table_members", entries::value_entry(&cliques, 1));
    let found = matching::captures_iter(INCUMBENT, text);
    progress::add_other(&mut out, "cplex.incumbents", collect_incumbents(&found));
    let ticks = matching::captures(TICKS, text);
    progress::add_other(&mut out, "cplex.deterministic_ticks", entries::value_entry(&ticks, 1));
    let root = matching::captures(ROOT_NODE_TIME, text);
    let search = matching::captures(PARALLEL_TIME, text);
    progress::add_other(&mut out, "cplex.timing_breakdown", make_breakdown(&root, &search));
    out
}

/// What is found in a CPLEX log.
#[verifier::opaque]
pub open spec fn log_in(text: Seq<char>) -> LogView {
    let solution = matching::regex_captures(SOLUTION_TIME@, text);
    let rows = progress::table_rows(CplexTable, text);
    LogView {
        solver: Solver::Cplex,
        version: matching::text_at(matching::regex_captures(VERSION@, text), 1),
        solver_git_hash: None,
        problem: progress::problem_in(
            matching::text_at(matching::regex_captures(PROBLEM@, text), 1),
        ),
        termination: termination_in(text),
        timing: timing_from(
            wall_from(
                solution,
                matching::regex_captures(TOTAL_TIME@, text),
                matching::regex_captures_iter(ELAPSED@, text),
            ),
            matching::regex_captures_iter(PRESOLVE_TIME@, text),
            matching::regex_captures(ROOT_TIME@, text),
        ),
        bounds: bounds_from(
            matching::regex_captures(OBJECTIVE@, text),
            matching::regex_captures(INCUMBENT@, text),
            rows,
        ),
        tree: tree_from(solution, matching::regex_captures(SOLUTION_POOL@, text)),
        presolve: presolve_from(matching::regex_captures_iter(REDUCED@, text)),
        cuts: progress::cuts_of(matching::regex_captures_iter(CUTS@, text), true, true),
        progress: rows,
        other_data: others_in(text),
    }
}

/// The log is one of this solver.
pub proof fn lemma_solver(text: Seq<char>)
    ensures
        log_in(text).solver == Solver::Cplex,
{
    reveal(log_in);
}

pub struct CplexParser;

impl LogParser for CplexParser {
    open spec fn handles(&self) -> Solver {
        Solver::Cplex
    }

    open spec fn recognizes(&self, text: Seq<char>) -> bool {
        looks_right(text)
    }

    open spec fn reading(&self, text: Seq<char>) -> LogView {
        log_in(text)
    }

    fn solver(&self) -> (out: Solver) {
        Solver::Cplex
    }

    fn sniff(&self, text: &str) -> (out: bool) {
        let all = chars::chars_of(text);
        let all = all.as_slice();
        (chars::has(all, "CPLEX") || chars::has(all, "CPXPARAM")) && (chars::has(
            all,
            "Interactive Optimizer",
        ) || chars::has(all, "CPXPARAM") || chars::has(all, "MIP - "))
    }

    fn parse(&self, text: &str) -> (out: Result<SolverLog, ParseError>) {
        if !self.sniff(text) {
            return Err(ParseError::WrongSolver("cplex"));
        }
        proof {
            reveal(log_in);
        }
        let all = chars::chars_of(text);
        let version = matching::captures(VERSION, text);
        let problem = matching::captures(PROBLEM, text);
        let solution = matching::captures(SOLUTION_TIME, text);
        let total = matching::captures(TOTAL_TIME, text);
        let elapsed = matching::captures_iter(ELAPSED, text);
        let presolve_time = matching::captures_iter(PRESOLVE_TIME, text);
        let root = matching::captures(ROOT_TIME, text);
        let objective = matching::captures(OBJECTIVE, text);
        let incumbent = matching::captures(INCUMBENT, text);
        let pool = matching::captures(SOLUTION_POOL, text);
        let reduced = matching::captures_iter(REDUCED, text);
        let cuts = matching::captures_iter(CUTS, text);
        let rows = progress::read_table(&CplexTable, all.as_slice());
        let wall = make_wall(&solution, &total, elapsed);
        Ok(
            SolverLog {
                solver: Solver::Cplex,
                parser: ParserInfo::current(),
                version: matching::found_text(&version, 1),
                solver_git_hash: None,
                problem: progress::problem_from_path(&problem, 1),
                termination: read_termination(all.as_slice()),
                timing: make_timing(wall, &presolve_time, &root),
                bounds: make_bounds(&objective, &incumbent, &rows),
                tree: make_tree(&solution, &pool),
                presolve: make_presolve(reduced),
                cuts: progress::collect_cuts(&cuts, true, true),
                progress: rows,
                other_data: collect_others(text),
            },
        )
    }
}

/// Of several reports on the reduced problem the last one counts.
pub proof fn law_last_presolve_counts(text: Seq<char>)
    requires
        matching::regex_captures_iter(REDUCED@, text).len() > 0,
    ensures
        ({
            let last = Some(matching::regex_captures_iter(REDUCED@, text).last());
            &&& log_in(text).presolve.rows_after == matching::count_at(last, 1)
            &&& log_in(text).presolve.cols_after == matching::count_at(last, 2)
            &&& log_in(text).presolve.nonzeros_after == matching::count_at(last, 3)
        }),
{
    reveal(log_in);
}

/// The dual bound and the gap are those of the last row.
pub proof fn law_last_row_bounds(text: Seq<char>)
    requires
        log_in(text).progress.len() > 0,
    ensures
        log_in(text).bounds.dual == log_in(text).progress.last().dual,
        log_in(text).bounds.gap == log_in(text).progress.last().gap,
{
    reveal(log_in);
}

/// The names of the other data start with `cplex.`, and none occurs twice.
pub proof fn lemma_other_names(text: Seq<char>)
    ensures
        progress::are_named(log_in(text).other_data, "cplex"@),
{
    reveal(log_in);
    reveal_strlit("cplex");
    let key = "cplex"@;
    assert(progress::are_among(Seq::empty(), Set::empty(), key));
    reveal_strlit("cplex.search_config");
    reveal_strlit("cplex.variable_types_after_presolve");
    reveal_strlit("cplex.presolve_details");
    reveal_strlit("cplex.probing");
    reveal_strlit("cplex.clique_table_members");
    reveal_strlit("cplex.incumbents");
    reveal_strlit("cplex.deterministic_ticks");
    reveal_strlit("cplex.timing_breakdown");
    assert("cplex.search_config"@.subrange(0, 6) =~= key.push('.'));
    progress::lemma_new_name(Set::empty(), "cplex.search_config"@, key);
    let names0 = Set::empty().insert("cplex.search_config"@);
    assert("cplex.variable_types_after_presolve"@.subrange(0, 6) =~= key.push('.'));
    progress::lemma_new_name(names0, "cplex.variable_types_after_presolve"@, key);
    let names1 = names0.insert("cplex.variable_types_after_presolve"@);
    assert("cplex.presolve_details"@.subrange(0, 6) =~= key.push('.'));
    progress::lemma_new_name(names1, "cplex.presolve_details"@, key);
    let names2 = names1.insert("cplex.presolve_details"@);
    assert("cplex.probing"@.subrange(0, 6) =~= key.push('.'));
    progress::lemma_new_name(names2, "cplex.probing"@, key);
    let names3 = names2.insert("cplex.probing"@);
    assert("cplex.clique_table_members"@.subrange(0, 6) =~= key.push('.'));
    progress::lemma_new_name(names3, "cplex.clique_table_members"@, key);
    let names4 = names3.insert("cplex.clique_table_members"@);
    assert("cplex.incumbents"@.subrange(0, 6) =~= key.push('.'));
    progress::lemma_new_name(names4, "cplex.incumbents"@, key);
    let names5 = names4.insert("cplex.incumbents"@);
    assert("cplex.deterministic_ticks"@.subrange(0, 6) =~= key.push('.'));
    progress::lemma_new_name(names5, "cplex.deterministic_ticks"@, key);
    let names6 = names5.insert("cplex.deterministic_ticks"@);
    assert("cplex.timing_breakdown"@.subrange(0, 6) =~= key.push('.'));
    assert("cplex.presolve_details"@[6] != "cplex.timing_breakdown"@[6]);
    progress::lemma_new_name(names6, "cplex.timing_breakdown"@, key);
}

pub proof fn lemma_cuts(text: Seq<char>)
    ensures
        table::counts_positive(log_in(text).cuts),
{
    reveal(log_in);
    progress::lemma_cuts_positive(matching::regex_captures_iter(CUTS@, text), true, true);
}

} // verus!
