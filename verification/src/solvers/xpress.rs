//! FICO Xpress logs.

use crate::chars;
use crate::json;
use crate::json::{Entries, Json, JsonValue};
use crate::matching;
use crate::matching::{Captures, Groups, Margin};
use crate::numbers;
use crate::quantity;
use crate::quantity::Real;
use crate::schema;
use crate::schema::{
    Bounds, BoundsView, LogView, NamedValue, NodeSnapshot, ParserInfo, PresolveStats, RowView,
    Solver, SolverLog, Status, Termination, TerminationView, Timing, TimingView, TreeStats,
};
use crate::solvers::entries;
use crate::solvers::entries::Kind;
use crate::solvers::progress;
use crate::solvers::progress::{Open, Scan, ScanView, Step, StepView, TableFormat};
use crate::table;
use crate::table::CutCounts;
use crate::{LogParser, ParseError};
use vstd::prelude::*;

verus! {

pub const VERSION: &'static str = r"FICO Xpress(?:\s+Solver\s+\S+)?\s+v(\d+\.\d+\.\d+)";
pub const PROBLEM: &'static str = r"Reading Problem\s+(\S+)";
pub const SOLUTION_TIME: &'static str = r"Solution time\s*/.*?:\s*([\d.]+)s";
pub const LP_SUMMARY: &'static str = r"(\d+) simplex iterations? in ([\d.]+) seconds";
pub const FINAL_OBJECTIVE: &'static str = r"Final MIP objective\s*:\s*([\d.eE+\-]+)";
pub const FINAL_BOUND: &'static str = r"Final MIP bound\s*:\s*([\d.eE+\-]+)";
pub const LP_OBJECTIVE: &'static str = r"(?m)^Final objective\s*:\s*([\d.eE+\-]+)";
pub const ROOT_OBJECTIVE: &'static str = r"(?ms)Final objective\s*:\s*([\d.eE+\-]+)";
pub const SOLUTIONS_NODES: &'static str =
    r"Number of solutions found\s*/\s*nodes\s*:\s*(\d+)\s*/\s*(\d+)";
pub const STATISTICS: &'static str =
    r"(?ms)Problem Statistics\s*\n\s*(\d+)\s+.*?rows\s*\n\s*(\d+)\s+.*?structural columns\s*\n\s*(\d+)\s+.*?non-zero elements";
pub const ORIGINAL: &'static str =
    r"(?ms)Original problem has:\s*(\d+)\s+rows?\s+(\d+)\s+cols?\s+(\d+)\s+elements";
pub const PRESOLVED: &'static str =
    r"Presolved problem has:\s+(\d+)\s+rows\s+(\d+)\s+cols\s+(\d+)\s+elements";
pub const PRESOLVE_TIME: &'static str = r"Presolve finished in (\d+) seconds";
pub const INTEGRAL: &'static str =
    r"Solution time\s*/\s*primaldual integral\s*:\s*[\d.]+s/\s*([\d.]+)%";
pub const FIRST_SOLUTION: &'static str =
    r"\*\*\* Solution found:\s+([\d.eE+\-]+)\s+Time:\s+([\d.]+)";
pub const CUTS_TOTAL: &'static str = r"Cuts in the matrix\s*:\s*(\d+)";
pub const STOPPING: &'static str = r"STOPPING - (\S+)";
pub const RANGES_HEADER: &'static str = r"(?m)^Coefficient range\s";
pub const RANGES_ROW: &'static str =
    r"^\s+(Coefficients|RHS and bounds|Objective)\s+\[min,max\]\s*:\s*\[\s*([^\],]+?),\s*([^\]]+?)\]\s*/\s*\[\s*([^\],]+?),\s*([^\]]+?)\]";
pub const SYMMETRY_HEADER: &'static str = r"(?m)^Symmetric problem:";
pub const GENERATORS: &'static str = r"generators:\s+(\d+)";
pub const SUPPORT_SET: &'static str = r"support set:\s+(\d+)";
pub const ORBITS: &'static str = r"Number of orbits:\s+(\d+)";
pub const LARGEST_ORBIT: &'static str = r"largest orbit:\s+(\d+)";
pub const ROW_ORBITS: &'static str = r"Row orbits:\s+(\d+)";
pub const ROW_SUPPORT: &'static str = r"row support:\s+(\d+)";
pub const RUN_CONFIG: &'static str =
    r"using up to (\d+) threads? and up to (\d+)(GB|MB|KB) memory";
pub const HEURISTIC: &'static str =
    r"\*\*\* Solution found:\s+([\d.eE+\-]+)\s+Time:\s+([\d.]+)\s+Heuristic:\s+(\S+)\s*\*\*\*";
pub const WORK: &'static str = r"Work\s*/\s*work units per second\s*:\s*([\d.]+)\s*/\s*([\d.]+)";
pub const STOPPING_DETAIL: &'static str = r"STOPPING - ([^(\n]+)(?:\(([^)]+)\))?\.?";
pub const PRIMAL_VIOLATION: &'static str =
    r"Max primal violation\s+\(abs/rel\)\s*:\s+([\d.eE+\-]+)";
pub const DUAL_VIOLATION: &'static str = r"Max dual violation\s+\(abs/rel\)\s*:\s+([\d.eE+\-]+)";
pub const INTEGER_VIOLATION: &'static str =
    r"Max integer violation\s+\(abs\s*\)\s*:\s+([\d.eE+\-]+)";
pub const COMPLEMENTARITY_VIOLATION: &'static str =
    r"Max complementarity viol\.\s+\(abs/rel\)\s*:\s+([\d.eE+\-]+)";

/// Which texts look like an Xpress log.
pub open spec fn looks_right(text: Seq<char>) -> bool {
    chars::contains(text, "FICO Xpress"@)
}

pub open spec fn says_infeasible(text: Seq<char>) -> bool {
    ||| chars::contains(text, "Problem is integer infeasible"@)
    ||| chars::contains(text, "Problem is infeasible"@)
    ||| chars::contains(text, "The problem is infeasible"@)
}

/// The text of a pure LP run that was solved: nothing in it speaks of a
/// search for integer solutions.
pub open spec fn says_lp_solved(text: Seq<char>) -> bool {
    &&& !chars::contains(text, "MILP"@)
    &&& !chars::contains(text, "Final MIP"@)
    &&& !chars::contains(text, "Starting root cutting"@)
    &&& (chars::contains(text, "Dual solved problem"@) || chars::contains(
        text,
        "Optimal solution found"@,
    ))
}

/// Why the run stopped. That the problem is infeasible is said behind
/// `Search completed`, so it is asked first.
pub open spec fn termination_from(text: Seq<char>, stop: Option<Groups>) -> TerminationView {
    if says_infeasible(text) {
        TerminationView { status: Status::Infeasible, raw_reason: None }
    } else if chars::contains(text, "*** Search completed ***"@) || says_lp_solved(text) {
        TerminationView { status: Status::Optimal, raw_reason: None }
    } else {
        match matching::text_at(stop, 1) {
            Some(reason) => TerminationView {
                status: if chars::contains(reason, "MAXTIME"@) {
                    Status::TimeLimit
                } else {
                    Status::OtherLimit
                },
                raw_reason: Some(reason),
            },
            None => if chars::contains(text, "*** Search unfinished ***"@) {
                TerminationView {
                    status: Status::TimeLimit,
                    raw_reason: Some("Search unfinished"@),
                }
            } else {
                schema::no_termination()
            },
        }
    }
}

pub fn find_lp_solved(text: &[char]) -> (out: bool)
    ensures
        out == says_lp_solved(text@),
{
    !chars::has(text, "MILP") && !chars::has(text, "Final MIP") && !chars::has(
        text,
        "Starting root cutting",
    ) && (chars::has(text, "Dual solved problem") || chars::has(text, "Optimal solution found"))
}

pub fn make_termination(text: &[char], stop: &Option<Captures>) -> (out: Termination)
    ensures
        out@ == termination_from(text@, matching::opt_groups(*stop)),
{
    if chars::has(text, "Problem is integer infeasible") || chars::has(
        text,
        "Problem is infeasible",
    ) || chars::has(text, "The problem is infeasible") {
        return Termination { status: Status::Infeasible, raw_reason: None };
    }
    if chars::has(text, "*** Search completed ***") || find_lp_solved(text) {
        return Termination { status: Status::Optimal, raw_reason: None };
    }
    match matching::found(stop, 1) {
        Some(reason) => {
            let status = if chars::has(reason.as_slice(), "MAXTIME") {
                Status::TimeLimit
            } else {
                Status::OtherLimit
            };
            Termination { status, raw_reason: Some(chars::string_of(reason.as_slice())) }
        },
        None => {
            if chars::has(text, "*** Search unfinished ***") {
                Termination {
                    status: Status::TimeLimit,
                    raw_reason: Some("Search unfinished".to_string()),
                }
            } else {
                Termination::default()
            }
        },
    }
}

/// The times: of the search or, in a pure LP run, of the simplex.
pub open spec fn timing_from(
    solution: Option<Groups>,
    lp: Option<Groups>,
    presolve: Option<Groups>,
) -> TimingView {
    TimingView {
        wall_seconds: match matching::real_at(solution, 1) {
            Some(w) => Some(w),
            None => matching::real_at(lp, 2),
        },
        presolve_seconds: matching::real_at(presolve, 1),
        ..schema::no_timing()
    }
}

pub fn make_timing(
    solution: &Option<Captures>,
    lp: &Option<Captures>,
    presolve: &Option<Captures>,
) -> (out: Timing)
    ensures
        out@ == timing_from(
            matching::opt_groups(*solution),
            matching::opt_groups(*lp),
            matching::opt_groups(*presolve),
        ),
{
    let wall_seconds = match matching::found_real(solution, 1) {
        Some(w) => Some(w),
        None => matching::found_real(lp, 2),
    };
    Timing {
        wall_seconds,
        cpu_seconds: None,
        reading_seconds: None,
        presolve_seconds: matching::found_real(presolve, 1),
        root_relaxation_seconds: None,
    }
}

/// The final bounds. Without a primal one the objective of a pure LP run
/// stands for both; where that run was solved, it closes the gap.
pub open spec fn bounds_from(
    objective: Option<Groups>,
    bound: Option<Groups>,
    lp: Option<Groups>,
    root: Option<Groups>,
    integral: Option<Groups>,
    first: Option<Groups>,
    lp_solved: bool,
) -> BoundsView {
    let primal = matching::real_at(objective, 1);
    let dual = matching::real_at(bound, 1);
    BoundsView {
        primal: if primal is Some {
            primal
        } else {
            matching::real_at(lp, 1)
        },
        dual: if dual is Some || primal is Some {
            dual
        } else {
            matching::real_at(lp, 1)
        },
        gap: if lp_solved && primal is None && dual is None && matching::real_at(lp, 1) is Some {
            Some(quantity::zero_real())
        } else {
            None
        },
        root_dual: matching::real_at(root, 1),
        first_primal: matching::real_at(first, 1),
        first_primal_time_seconds: matching::real_at(first, 2),
        primal_dual_integral: matching::percent_at(integral, 1),
    }
}

pub fn make_bounds(
    objective: &Option<Captures>,
    bound: &Option<Captures>,
    lp: &Option<Captures>,
    root: &Option<Captures>,
    integral: &Option<Captures>,
    first: &Option<Captures>,
    lp_solved: bool,
) -> (out: Bounds)
    ensures
        out@ == bounds_from(
            matching::opt_groups(*objective),
            matching::opt_groups(*bound),
            matching::opt_groups(*lp),
            matching::opt_groups(*root),
            matching::opt_groups(*integral),
            matching::opt_groups(*first),
            lp_solved,
        ),
{
    let mut primal = matching::found_real(objective, 1);
    let mut dual = matching::found_real(bound, 1);
    let mut gap: Option<Real> = None;
    if primal.is_none() {
        primal = matching::found_real(lp, 1);
        if dual.is_none() {
            dual = matching::found_real(lp, 1);
            if lp_solved && dual.is_some() {
                gap = Some(Real::zero());
            }
        }
    }
    Bounds {
        primal,
        dual,
        gap,
        root_dual: matching::found_real(root, 1),
        first_primal: matching::found_real(first, 1),
        first_primal_time_seconds: matching::found_real(first, 2),
        primal_dual_integral: matching::found_percent(integral, 1),
    }
}

/// The counts of the search; the simplex iterations are those of a pure LP run.
pub open spec fn tree_from(
    solution: Option<Groups>,
    lp: Option<Groups>,
    counts: Option<Groups>,
    rows: Seq<RowView>,
) -> TreeStats {
    TreeStats {
        nodes_explored: matching::u64_at(counts, 2),
        simplex_iterations: if matching::real_at(solution, 1) is None {
            matching::u64_at(lp, 1)
        } else {
            None
        },
        solutions_found: matching::u64_at(counts, 1),
        max_depth: progress::deepest(rows),
        restarts: None,
    }
}

pub fn make_tree(
    solution: &Option<Captures>,
    lp: &Option<Captures>,
    counts: &Option<Captures>,
    rows: &schema::ProgressTable,
) -> (out: TreeStats)
    requires
        rows.well_formed(),
    ensures
        out == tree_from(
            matching::opt_groups(*solution),
            matching::opt_groups(*lp),
            matching::opt_groups(*counts),
            rows@,
        ),
{
    let simplex_iterations = if matching::found_real(solution, 1).is_none() {
        matching::found_u64(lp, 1)
    } else {
        None
    };
    TreeStats {
        nodes_explored: matching::found_u64(counts, 2),
        simplex_iterations,
        solutions_found: matching::found_u64(counts, 1),
        max_depth: progress::max_depth(rows),
        restarts: None,
    }
}

/// The dimensions before presolve, from the block of statistics or else from
/// the line on the original problem, and after it.
pub open spec fn presolve_from(
    statistics: Option<Groups>,
    original: Option<Groups>,
    presolved: Option<Groups>,
) -> PresolveStats {
    let before = if statistics is Some {
        statistics
    } else {
        original
    };
    PresolveStats {
        rows_before: matching::u64_at(before, 1),
        cols_before: matching::u64_at(before, 2),
        nonzeros_before: matching::u64_at(before, 3),
        rows_after: matching::u64_at(presolved, 1),
        cols_after: matching::u64_at(presolved, 2),
        nonzeros_after: matching::u64_at(presolved, 3),
    }
}

pub fn make_presolve(
    statistics: &Option<Captures>,
    original: &Option<Captures>,
    presolved: &Option<Captures>,
) -> (out: PresolveStats)
    ensures
        out == presolve_from(
            matching::opt_groups(*statistics),
            matching::opt_groups(*original),
            matching::opt_groups(*presolved),
        ),
{
    let before = if statistics.is_some() {
        statistics
    } else {
        original
    };
    PresolveStats {
        rows_before: matching::found_u64(before, 1),
        cols_before: matching::found_u64(before, 2),
        nonzeros_before: matching::found_u64(before, 3),
        rows_after: matching::found_u64(presolved, 1),
        cols_after: matching::found_u64(presolved, 2),
        nonzeros_after: matching::found_u64(presolved, 3),
    }
}

/// The total of the cuts; Xpress does not report families.
pub open spec fn cuts_from(total: Option<Groups>) -> Seq<(Seq<char>, u64)> {
    match matching::u64_at(total, 1) {
        Some(n) => if n > 0 {
            table::put(Seq::empty(), "total"@, n)
        } else {
            Seq::empty()
        },
        None => Seq::empty(),
    }
}

pub fn make_cuts(total: &Option<Captures>) -> (out: CutCounts)
    ensures
        out@ == cuts_from(matching::opt_groups(*total)),
        out.well_formed(),
{
    let mut out = CutCounts::new();
    if let Some(n) = matching::found_u64(total, 1) {
        if n > 0 {
            out.insert("total".to_string(), n);
        }
    }
    out
}

pub open spec fn is_letter(c: char) -> bool {
    'a' <= c <= 'z' || 'A' <= c <= 'Z'
}

/// A row of the table of the tree search: nine columns, or seven where there
/// is no solution yet.
pub open spec fn tree_row_in(line: Seq<char>) -> Option<RowView> {
    let marked = line.len() > 0 && is_letter(line[0]);
    let event = if marked {
        progress::event_of(line[0])
    } else {
        None
    };
    let toks = chars::words(
        if marked {
            line.skip(1)
        } else {
            line
        },
    );
    if toks.len() == 9 {
        match (quantity::real_of(toks[8]), numbers::u64_of(toks[0])) {
            (Some(time), Some(nodes)) => Some(
                RowView {
                    time_seconds: time,
                    nodes_explored: Some(nodes),
                    primal: progress::cell_of(toks[1]),
                    dual: progress::cell_of(toks[2]),
                    gap: progress::gap_of(toks[6]),
                    depth: numbers::u32_of(toks[5]),
                    lp_iterations: None,
                    event,
                },
            ),
            _ => None,
        }
    } else if toks.len() == 7 {
        match (quantity::real_of(toks[6]), numbers::u64_of(toks[0])) {
            (Some(time), Some(nodes)) => Some(
                RowView {
                    time_seconds: time,
                    nodes_explored: Some(nodes),
                    primal: None,
                    dual: progress::cell_of(toks[1]),
                    gap: None,
                    depth: numbers::u32_of(toks[4]),
                    lp_iterations: None,
                    event,
                },
            ),
            _ => None,
        }
    } else {
        None
    }
}

pub fn parse_bb_row(line: &[char]) -> (out: Option<NodeSnapshot>)
    ensures
        schema::opt_row(out) == tree_row_in(line@),
{
    let marked = line.len() > 0 && (('a' <= line[0] && line[0] <= 'z') || ('A' <= line[0] && line[0]
        <= 'Z'));
    let event = if marked {
        progress::event_from_marker(line[0])
    } else {
        None
    };
    let body = if marked {
        chars::from(line, 1)
    } else {
        line
    };
    let toks = chars::split_words(body);
    let ghost words = chars::words(body@);
    assert(words.len() == toks@.len());
    assert(forall|i: int| 0 <= i < toks@.len() ==> words[i] == (#[trigger] toks@[i])@);
    if toks.len() == 9 {
        let time = Real::read(toks[8])?;
        let nodes = numbers::read_u64(toks[0])?;
        Some(
            NodeSnapshot {
                time_seconds: time,
                nodes_explored: Some(nodes),
                primal: progress::parse_or_dash(toks[1]),
                dual: progress::parse_or_dash(toks[2]),
                gap: progress::parse_gap(toks[6]),
                depth: numbers::read_u32(toks[5]),
                lp_iterations: None,
                event,
            },
        )
    } else if toks.len() == 7 {
        let time = Real::read(toks[6])?;
        let nodes = numbers::read_u64(toks[0])?;
        Some(
            NodeSnapshot {
                time_seconds: time,
                nodes_explored: Some(nodes),
                primal: None,
                dual: progress::parse_or_dash(toks[1]),
                gap: None,
                depth: numbers::read_u32(toks[4]),
                lp_iterations: None,
                event,
            },
        )
    } else {
        None
    }
}

/// A row of the table of root cutting and heuristics: ten columns, or, on a
/// line that starts with `P`, a new incumbent.
pub open spec fn root_row_in(line: Seq<char>) -> Option<RowView> {
    let toks = chars::words(line);
    if line.len() == 0 {
        None
    } else if line[0] == 'P' {
        if toks.len() < 7 {
            None
        } else {
            match quantity::real_of(toks.last()) {
                Some(time) => Some(
                    RowView {
                        time_seconds: time,
                        primal: progress::cell_of(toks[1]),
                        dual: progress::cell_of(toks[2]),
                        gap: progress::gap_of(toks[4]),
                        event: Some(schema::EventView::BranchSolution),
                        ..schema::empty_row()
                    },
                ),
                None => None,
            }
        }
    } else if toks.len() < 10 {
        None
    } else {
        match quantity::real_of(toks[9]) {
            Some(time) => Some(
                RowView {
                    time_seconds: time,
                    primal: progress::cell_of(toks[2]),
                    dual: progress::cell_of(toks[3]),
                    gap: progress::gap_of(toks[7]),
                    lp_iterations: numbers::u64_of(toks[0]),
                    ..schema::empty_row()
                },
            ),
            None => None,
        }
    }
}

pub fn parse_root_cutting_row(line: &[char]) -> (out: Option<NodeSnapshot>)
    ensures
        schema::opt_row(out) == root_row_in(line@),
{
    if line.len() == 0 {
        return None;
    }
    let toks = chars::split_words(line);
    let ghost words = chars::words(line@);
    assert(words.len() == toks@.len());
    assert(forall|i: int| 0 <= i < toks@.len() ==> words[i] == (#[trigger] toks@[i])@);
    if line[0] == 'P' {
        if toks.len() < 7 {
            return None;
        }
        let time = Real::read(toks[toks.len() - 1])?;
        Some(
            NodeSnapshot {
                time_seconds: time,
                nodes_explored: None,
                primal: progress::parse_or_dash(toks[1]),
                dual: progress::parse_or_dash(toks[2]),
                gap: progress::parse_gap(toks[4]),
                depth: None,
                lp_iterations: None,
                event: Some(schema::NodeEvent::BranchSolution),
            },
        )
    } else {
        if toks.len() < 10 {
            return None;
        }
        let time = Real::read(toks[9])?;
        Some(
            NodeSnapshot {
                time_seconds: time,
                nodes_explored: None,
                primal: progress::parse_or_dash(toks[2]),
                dual: progress::parse_or_dash(toks[3]),
                gap: progress::parse_gap(toks[7]),
                depth: None,
                lp_iterations: numbers::read_u64(toks[0]),
                event: None,
            },
        )
    }
}

/// The Xpress progress table: that of root cutting, where the root round
/// closes the gap, or that of the tree search; whichever header comes first.
pub struct XpressTable;

pub open spec fn root_header(line: Seq<char>) -> bool {
    &&& chars::contains(line, "Its"@)
    &&& chars::contains(line, "BestBound"@)
    &&& chars::contains(line, "Add"@)
    &&& chars::contains(line, "Del"@)
}

pub open spec fn tree_header(line: Seq<char>) -> bool {
    &&& chars::contains(line, "Node"@)
    &&& chars::contains(line, "BestBound"@)
    &&& chars::contains(line, "Active"@)
    &&& chars::ends_with(chars::back_trimmed(line, ""@, true), "Time"@)
}

/// A line behind the table.
pub open spec fn ends_table(line: Seq<char>) -> bool {
    let s = chars::front_trimmed(line, ""@, true);
    ||| chars::starts_with(s, "***"@)
    ||| chars::starts_with(s, "Final MIP"@)
    ||| chars::starts_with(s, "Uncrunching"@)
    ||| chars::starts_with(s, "Heap usage"@)
    ||| chars::starts_with(s, "Cuts in the matrix"@)
    ||| chars::starts_with(s, "STOPPING"@)
}

impl TableFormat for XpressTable {
    open spec fn meaning(&self, scan: ScanView, any: bool, line: Seq<char>) -> (
        ScanView,
        StepView,
    ) {
        if scan.open == Open::No {
            if root_header(line) {
                (ScanView { open: Open::Root, ..scan }, StepView::Pass)
            } else if tree_header(line) {
                (ScanView { open: Open::Tree, ..scan }, StepView::Pass)
            } else {
                (scan, StepView::Pass)
            }
        } else if chars::blank(line) {
            (
                scan,
                if any {
                    StepView::Stop
                } else {
                    StepView::Pass
                },
            )
        } else if ends_table(line) {
            (scan, StepView::Stop)
        } else if scan.open == Open::Tree {
            (scan, progress::row_or_pass(tree_row_in(line)))
        } else {
            (scan, progress::row_or_pass(root_row_in(line)))
        }
    }

    fn step(&self, scan: Scan, any: bool, line: &[char]) -> (out: (Scan, Step)) {
        if scan.open == Open::No {
            if chars::has(line, "Its") && chars::has(line, "BestBound") && chars::has(line, "Add")
                && chars::has(line, "Del") {
                return (Scan { open: Open::Root, clock: scan.clock }, Step::Pass);
            }
            if chars::has(line, "Node") && chars::has(line, "BestBound") && chars::has(
                line,
                "Active",
            ) && chars::closes(chars::trim_back(line, "", true), "Time") {
                return (Scan { open: Open::Tree, clock: scan.clock }, Step::Pass);
            }
            return (scan, Step::Pass);
        }
        if chars::is_blank(line) {
            return if any {
                (scan, Step::Stop)
            } else {
                (scan, Step::Pass)
            };
        }
        let s = chars::trim_front(line, "", true);
        if chars::begins(s, "***") || chars::begins(s, "Final MIP") || chars::begins(
            s,
            "Uncrunching",
        ) || chars::begins(s, "Heap usage") || chars::begins(s, "Cuts in the matrix")
            || chars::begins(s, "STOPPING") {
            return (scan, Step::Stop);
        }
        if scan.open == Open::Tree {
            (scan, progress::step_of(parse_bb_row(line)))
        } else {
            (scan, progress::step_of(parse_root_cutting_row(line)))
        }
    }
}

/// The name of a coefficient range.
pub open spec fn range_name(label: Seq<char>) -> Seq<char> {
    if label == "RHS and bounds"@ {
        "rhs_and_bounds"@
    } else {
        chars::lowercase(label)
    }
}

/// The coefficient ranges of the original and of the solved problem.
pub open spec fn ranges_from(ms: Seq<Groups>) -> Seq<(Seq<char>, Json)>
    decreases ms.len(),
{
    if ms.len() == 0 {
        json::no_entries()
    } else {
        let m = ms.last();
        let both = table::put(
            table::put(
                json::no_entries(),
                "original"@,
                entries::range_of(matching::part(m, 2), matching::part(m, 3)),
            ),
            "solved"@,
            entries::range_of(matching::part(m, 4), matching::part(m, 5)),
        );
        table::put(
            ranges_from(ms.drop_last()),
            range_name(matching::part(m, 1)),
            Json::Object(both),
        )
    }
}

pub fn collect_ranges(ms: &Vec<Captures>) -> (out: Option<JsonValue>)
    ensures
        json::opt_json(out) == json::object_of(ranges_from(matching::all_groups(ms@))),
{
    let mut e = Entries::new();
    let mut i: usize = 0;
    let ghost all = matching::all_groups(ms@);
    while i < ms.len()
        invariant
            i <= ms@.len(),
            all == matching::all_groups(ms@),
            e@ == ranges_from(all.take(i as int)),
        decreases ms@.len() - i,
    {
        assert(all.take(i + 1).drop_last() =~= all.take(i as int));
        assert(all.take(i + 1).last() == ms@[i as int]@);
        let label = ms[i].part(1);
        let name = if chars::same(label.as_slice(), "RHS and bounds") {
            "rhs_and_bounds".to_string()
        } else {
            let low = chars::to_lowercase(label.as_slice());
            chars::string_of(low.as_slice())
        };
        let a = ms[i].part(2);
        let b = ms[i].part(3);
        let c = ms[i].part(4);
        let d = ms[i].part(5);
        let mut both = Entries::new();
        both.put("original", entries::range(a.as_slice(), b.as_slice()));
        both.put("solved", entries::range(c.as_slice(), d.as_slice()));
        e.put(name.as_str(), both.object());
        i = i + 1;
    }
    assert(all.take(i as int) =~= all);
    e.some_object()
}

/// Lines in one, with blanks between them.
pub open spec fn in_one_line(lines: Seq<Seq<char>>) -> Seq<char>
    decreases lines.len(),
{
    if lines.len() == 0 {
        Seq::empty()
    } else if lines.len() == 1 {
        lines[0]
    } else {
        in_one_line(lines.drop_last()) + seq![' '] + lines.last()
    }
}

/// The block on symmetry: the line with the header and the three that follow.
pub open spec fn symmetry_block(header: Seq<char>, rest: Seq<char>) -> Seq<char> {
    header + in_one_line(matching::at_most(chars::lines(rest), 4))
}

pub fn read_symmetry_block(header: &str, rest: &str) -> (out: String)
    ensures
        out@ == symmetry_block(header@, rest@),
{
    let rest = chars::chars_of(rest);
    let lines = chars::split_lines(rest.as_slice());
    let ghost all = chars::lines(rest@);
    assert(chars::views(lines@).len() == lines@.len());
    let n: usize = if lines.len() <= 4 {
        lines.len()
    } else {
        4
    };
    let ghost kept = matching::at_most(all, 4);
    assert(kept =~= all.take(n as int));
    let mut out = chars::chars_of(header);
    let mut i: usize = 0;
    assert(all.take(0) =~= Seq::empty());
    assert(out@ =~= header@ + in_one_line(all.take(0)));
    while i < n
        invariant
            i <= n <= lines@.len(),
            chars::views(lines@) == all,
            out@ == header@ + in_one_line(all.take(i as int)),
        decreases n - i,
    {
        let line = chars::string_of(lines[i]);
        assert(line@ == all[i as int]);
        assert(all.take(i + 1).drop_last() =~= all.take(i as int));
        let ghost before = out@;
        if i > 0 {
            out.push(' ');
        }
        out = chars::join(out.as_slice(), line.as_str());
        assert(out@ =~= header@ + in_one_line(all.take(i + 1)));
        i = i + 1;
    }
    chars::string_of(out.as_slice())
}

/// The symmetry that was found, as far as the block names it.
pub open spec fn symmetry_from(
    generators: Option<Groups>,
    support_set: Option<Groups>,
    orbits: Option<Groups>,
    largest_orbit: Option<Groups>,
    row_orbits: Option<Groups>,
    row_support: Option<Groups>,
) -> Option<Json> {
    let e0 = entries::with_found(json::no_entries(), generators, 1, "generators"@, Kind::Value);
    let e1 = entries::with_found(e0, support_set, 1, "support_set"@, Kind::Value);
    let e2 = entries::with_found(e1, orbits, 1, "orbits"@, Kind::Value);
    let e3 = entries::with_found(e2, largest_orbit, 1, "largest_orbit"@, Kind::Value);
    let e4 = entries::with_found(e3, row_orbits, 1, "row_orbits"@, Kind::Value);
    json::object_of(entries::with_found(e4, row_support, 1, "row_support"@, Kind::Value))
}

pub fn make_symmetry(
    generators: &Option<Captures>,
    support_set: &Option<Captures>,
    orbits: &Option<Captures>,
    largest_orbit: &Option<Captures>,
    row_orbits: &Option<Captures>,
    row_support: &Option<Captures>,
) -> (out: Option<JsonValue>)
    ensures
        json::opt_json(out) == symmetry_from(
            matching::opt_groups(*generators),
            matching::opt_groups(*support_set),
            matching::opt_groups(*orbits),
            matching::opt_groups(*largest_orbit),
            matching::opt_groups(*row_orbits),
            matching::opt_groups(*row_support),
        ),
{
    let mut e = Entries::new();
    entries::put_found(&mut e, generators, 1, "generators", Kind::Value);
    entries::put_found(&mut e, support_set, 1, "support_set", Kind::Value);
    entries::put_found(&mut e, orbits, 1, "orbits", Kind::Value);
    entries::put_found(&mut e, largest_orbit, 1, "largest_orbit", Kind::Value);
    entries::put_found(&mut e, row_orbits, 1, "row_orbits", Kind::Value);
    entries::put_found(&mut e, row_support, 1, "row_support", Kind::Value);
    e.some_object()
}

pub open spec fn symmetry_in(text: Seq<char>) -> Option<Json> {
    match matching::regex_find(SYMMETRY_HEADER@, text) {
        Some(hit) => {
            let body = symmetry_block(hit.0, hit.1);
            symmetry_from(
                matching::regex_captures(GENERATORS@, body),
                matching::regex_captures(SUPPORT_SET@, body),
                matching::regex_captures(ORBITS@, body),
                matching::regex_captures(LARGEST_ORBIT@, body),
                matching::regex_captures(ROW_ORBITS@, body),
                matching::regex_captures(ROW_SUPPORT@, body),
            )
        },
        None => None,
    }
}

pub fn parse_symmetry(text: &str) -> (out: Option<JsonValue>)
    ensures
        json::opt_json(out) == symmetry_in(text@),
{
    let hit = matching::find(SYMMETRY_HEADER, text)?;
    let body = read_symmetry_block(hit.0.as_str(), hit.1.as_str());
    let generators = matching::captures(GENERATORS, body.as_str());
    let support_set = matching::captures(SUPPORT_SET, body.as_str());
    let orbits = matching::captures(ORBITS, body.as_str());
    let largest_orbit = matching::captures(LARGEST_ORBIT, body.as_str());
    let row_orbits = matching::captures(ROW_ORBITS, body.as_str());
    let row_support = matching::captures(ROW_SUPPORT, body.as_str());
    make_symmetry(&generators, &support_set, &orbits, &largest_orbit, &row_orbits, &row_support)
}

/// The threads and the memory limit of the run.
pub open spec fn config_from(m: Option<Groups>) -> Option<Json> {
    match m {
        Some(g) => Some(
            Json::Object(
                table::put(
                    entries::with_group(json::no_entries(), g, 1, "threads"@, Kind::Value),
                    "memory_limit"@,
                    Json::Text(matching::part(g, 2) + matching::part(g, 3)),
                ),
            ),
        ),
        None => None,
    }
}

pub fn make_config(m: &Option<Captures>) -> (out: Option<JsonValue>)
    ensures
        json::opt_json(out) == config_from(matching::opt_groups(*m)),
{
    match m {
        Some(c) => {
            let mut e = Entries::new();
            entries::put_group(&mut e, c, 1, "threads", Kind::Value);
            let size = c.part(2);
            let unit = c.part(3);
            let unit = chars::string_of(unit.as_slice());
            let limit = chars::join(size.as_slice(), unit.as_str());
            e.put("memory_limit", json::text(limit.as_slice()));
            Some(e.object())
        },
        None => None,
    }
}

/// A solution that a heuristic found.
pub open spec fn solution_of(m: Groups) -> Json {
    let e0 = entries::with_group(json::no_entries(), m, 1, "value"@, Kind::Value);
    let e1 = entries::with_group(e0, m, 2, "time"@, Kind::Value);
    Json::Object(entries::with_group(e1, m, 3, "heuristic"@, Kind::Text))
}

/// The solutions that heuristics found, in order.
pub open spec fn solutions_from(ms: Seq<Groups>) -> Seq<Json> {
    Seq::new(ms.len(), |i: int| solution_of(ms[i]))
}

pub fn collect_solutions(ms: &Vec<Captures>) -> (out: Option<JsonValue>)
    ensures
        json::opt_json(out) == json::array_of(solutions_from(matching::all_groups(ms@))),
{
    let mut out: Vec<JsonValue> = Vec::new();
    let mut i: usize = 0;
    let ghost all = solutions_from(matching::all_groups(ms@));
    assert(json::jsons(out@) =~= all.take(0));
    while i < ms.len()
        invariant
            i <= ms@.len(),
            all == solutions_from(matching::all_groups(ms@)),
            json::jsons(out@) == all.take(i as int),
        decreases ms@.len() - i,
    {
        let mut e = Entries::new();
        entries::put_group(&mut e, &ms[i], 1, "value", Kind::Value);
        entries::put_group(&mut e, &ms[i], 2, "time", Kind::Value);
        entries::put_group(&mut e, &ms[i], 3, "heuristic", Kind::Text);
        let v = e.object();
        proof {
            json::lemma_jsons_push(out@, v);
        }
        out.push(v);
        assert(all.take(i + 1) =~= all.take(i as int).push(all[i as int]));
        i = i + 1;
    }
    assert(all.take(i as int) =~= all);
    json::some_array(out)
}

/// The work that the run took.
pub open spec fn work_from(m: Option<Groups>) -> Option<Json> {
    let e = entries::with_found(json::no_entries(), m, 1, "work"@, Kind::Value);
    json::object_of(entries::with_found(e, m, 2, "work_units_per_second"@, Kind::Value))
}

pub fn make_work(m: &Option<Captures>) -> (out: Option<JsonValue>)
    ensures
        json::opt_json(out) == work_from(matching::opt_groups(*m)),
{
    let mut e = Entries::new();
    entries::put_found(&mut e, m, 1, "work", Kind::Value);
    entries::put_found(&mut e, m, 2, "work_units_per_second", Kind::Value);
    e.some_object()
}

/// Why the search was stopped, with what stands in brackets behind it.
pub open spec fn stopping_from(m: Option<Groups>) -> Option<Json> {
    match m {
        Some(g) => {
            let e = entries::with_group(json::no_entries(), g, 1, "reason"@, Kind::Trimmed);
            Some(
                Json::Object(
                    match matching::group(g, 2) {
                        Some(detail) => table::put(e, "detail"@, Json::Text(detail)),
                        None => e,
                    },
                ),
            )
        },
        None => None,
    }
}

pub fn make_stopping(m: &Option<Captures>) -> (out: Option<JsonValue>)
    ensures
        json::opt_json(out) == stopping_from(matching::opt_groups(*m)),
{
    match m {
        Some(c) => {
            let mut e = Entries::new();
            entries::put_group(&mut e, c, 1, "reason", Kind::Trimmed);
            if let Some(detail) = c.group(2) {
                e.put("detail", JsonValue::Text(detail));
            }
            Some(e.object())
        },
        None => None,
    }
}

/// The violations of the final solution.
pub open spec fn quality_from(
    primal: Option<Groups>,
    dual: Option<Groups>,
    integer: Option<Groups>,
    complementarity: Option<Groups>,
) -> Option<Json> {
    let e0 = entries::with_found(
        json::no_entries(),
        primal,
        1,
        "max_primal_violation"@,
        Kind::Value,
    );
    let e1 = entries::with_found(e0, dual, 1, "max_dual_violation"@, Kind::Value);
    let e2 = entries::with_found(e1, integer, 1, "max_integer_violation"@, Kind::Value);
    json::object_of(
        entries::with_found(
            e2,
            complementarity,
            1,
            "max_complementarity_violation"@,
            Kind::Value,
        ),
    )
}

pub fn make_quality(
    primal: &Option<Captures>,
    dual: &Option<Captures>,
    integer: &Option<Captures>,
    complementarity: &Option<Captures>,
) -> (out: Option<JsonValue>)
    ensures
        json::opt_json(out) == quality_from(
            matching::opt_groups(*primal),
            matching::opt_groups(*dual),
            matching::opt_groups(*integer),
            matching::opt_groups(*complementarity),
        ),
{
    let mut e = Entries::new();
    entries::put_found(&mut e, primal, 1, "max_primal_violation", Kind::Value);
    entries::put_found(&mut e, dual, 1, "max_dual_violation", Kind::Value);
    entries::put_found(&mut e, integer, 1, "max_integer_violation", Kind::Value);
    entries::put_found(&mut e, complementarity, 1, "max_complementarity_violation", Kind::Value);
    e.some_object()
}

/// What only Xpress reports.
pub open spec fn others_in(text: Seq<char>) -> Seq<(Seq<char>, Json)> {
    let o0 = progress::with_other(
        Seq::empty(),
        "xpress.coefficient_ranges"@,
        json::object_of(
            ranges_from(
                matching::block_rows(RANGES_HEADER@, RANGES_ROW@, 6, true, Margin::Free, text),
            ),
        ),
    );
    let o1 = progress::with_other(o0, "xpress.symmetry"@, symmetry_in(text));
    let o2 = progress::with_other(
        o1,
        "xpress.run_config"@,
        config_from(matching::regex_captures(RUN_CONFIG@, text)),
    );
    let o3 = progress::with_other(
        o2,
        "xpress.pre_bb_heuristic_solutions"@,
        json::array_of(solutions_from(matching::regex_captures_iter(HEURISTIC@, text))),
    );
    let o4 = progress::with_other(
        o3,
        "xpress.work"@,
        work_from(matching::regex_captures(WORK@, text)),
    );
    let o5 = progress::with_other(
        o4,
        "xpress.stopping_reason"@,
        stopping_from(matching::regex_captures(STOPPING_DETAIL@, text)),
    );
    progress::with_other(
        o5,
        "xpress.solution_quality"@,
        quality_from(
            matching::regex_captures(PRIMAL_VIOLATION@, text),
            matching::regex_captures(DUAL_VIOLATION@, text),
            matching::regex_captures(INTEGER_VIOLATION@, text),
            matching::regex_captures(COMPLEMENTARITY_VIOLATION@, text),
        ),
    )
}

pub fn collect_others(text: &str) -> (out: Vec<NamedValue>)
    ensures
        schema::others_of(out@) == others_in(text@),
{
    let mut out: Vec<NamedValue> = Vec::new();
    assert(schema::others_of(out@) =~= Seq::empty());
    let ranges = matching::match_block(RANGES_HEADER, RANGES_ROW, 6, true, Margin::Free, text);
    progress::add_other(&mut out, "xpress.coefficient_ranges", collect_ranges(&ranges));
    progress::add_other(&mut out, "xpress.symmetry", parse_symmetry(text));
    let config = matching::captures(RUN_CONFIG, text);
    progress::add_other(&mut out, "xpress.run_config", make_config(&config));
    let found = matching::captures_iter(HEURISTIC, text);
    progress::add_other(
        &mut out,
        "xpress.pre_bb_heuristic_solutions",
        collect_solutions(&found),
    );
    let work = matching::captures(WORK, text);
    progress::add_other(&mut out, "xpress.work", make_work(&work));
    let stopping = matching::captures(STOPPING_DETAIL, text);
    progress::add_other(&mut out, "xpress.stopping_reason", make_stopping(&stopping));
    let primal = matching::captures(PRIMAL_VIOLATION, text);
    let dual = matching::captures(DUAL_VIOLATION, text);
    let integer = matching::captures(INTEGER_VIOLATION, text);
    let complementarity = matching::captures(COMPLEMENTARITY_VIOLATION, text);
    progress::add_other(
        &mut out,
        "xpress.solution_quality",
        make_quality(&primal, &dual, &integer, &complementarity),
    );
    out
}

/// What is found in an Xpress log.
#[verifier::opaque]
pub open spec fn log_in(text: Seq<char>) -> LogView {
    let solution = matching::regex_captures(SOLUTION_TIME@, text);
    let lp = matching::regex_captures(LP_SUMMARY@, text);
    let rows = progress::table_rows(XpressTable, text);
    LogView {
        solver: Solver::Xpress,
        version: matching::text_at(matching::regex_captures(VERSION@, text), 1),
        solver_git_hash: None,
        problem: matching::trimmed_at(matching::regex_captures(PROBLEM@, text), 1),
        termination: termination_from(text, matching::regex_captures(STOPPING@, text)),
        timing: timing_from(solution, lp, matching::regex_captures(PRESOLVE_TIME@, text)),
        bounds: bounds_from(
            matching::regex_captures(FINAL_OBJECTIVE@, text),
            matching::regex_captures(FINAL_BOUND@, text),
            matching::regex_captures(LP_OBJECTIVE@, text),
            matching::regex_captures(ROOT_OBJECTIVE@, text),
            matching::regex_captures(INTEGRAL@, text),
            matching::regex_captures(FIRST_SOLUTION@, text),
            says_lp_solved(text),
        ),
        tree: tree_from(
            solution,
            lp,
            matching::regex_captures(SOLUTIONS_NODES@, text),
            rows,
        ),
        presolve: presolve_from(
            matching::regex_captures(STATISTICS@, text),
            matching::regex_captures(ORIGINAL@, text),
            matching::regex_captures(PRESOLVED@, text),
        ),
        cuts: cuts_from(matching::regex_captures(CUTS_TOTAL@, text)),
        progress: rows,
        other_data: others_in(text),
    }
}

/// The log is one of this solver.
pub proof fn lemma_solver(text: Seq<char>)
    ensures
        log_in(text).solver == Solver::Xpress,
{
    reveal(log_in);
}

pub struct XpressParser;

impl LogParser for XpressParser {
    open spec fn handles(&self) -> Solver {
        Solver::Xpress
    }

    open spec fn recognizes(&self, text: Seq<char>) -> bool {
        looks_right(text)
    }

    open spec fn reading(&self, text: Seq<char>) -> LogView {
        log_in(text)
    }

    fn solver(&self) -> (out: Solver) {
        Solver::Xpress
    }

    fn sniff(&self, text: &str) -> (out: bool) {
        let all = chars::chars_of(text);
        chars::has(all.as_slice(), "FICO Xpress")
    }

    fn parse(&self, text: &str) -> (out: Result<SolverLog, ParseError>) {
        if !self.sniff(text) {
            return Err(ParseError::WrongSolver("xpress"));
        }
        proof {
            reveal(log_in);
        }
        let all = chars::chars_of(text);
        let version = matching::captures(VERSION, text);
        let problem = matching::captures(PROBLEM, text);
        let stop = matching::captures(STOPPING, text);
        let solution = matching::captures(SOLUTION_TIME, text);
        let lp = matching::captures(LP_SUMMARY, text);
        let presolve_time = matching::captures(PRESOLVE_TIME, text);
        let objective = matching::captures(FINAL_OBJECTIVE, text);
        let bound = matching::captures(FINAL_BOUND, text);
        let lp_objective = matching::captures(LP_OBJECTIVE, text);
        let root = matching::captures(ROOT_OBJECTIVE, text);
        let integral = matching::captures(INTEGRAL, text);
        let first = matching::captures(FIRST_SOLUTION, text);
        let counts = matching::captures(SOLUTIONS_NODES, text);
        let statistics = matching::captures(STATISTICS, text);
        let original = matching::captures(ORIGINAL, text);
        let presolved = matching::captures(PRESOLVED, text);
        let cuts = matching::captures(CUTS_TOTAL, text);
        let rows = progress::read_table(&XpressTable, all.as_slice());
        Ok(
            SolverLog {
                solver: Solver::Xpress,
                parser: ParserInfo::current(),
                version: matching::found_text(&version, 1),
                solver_git_hash: None,
                problem: matching::found_trimmed(&problem, 1),
                termination: make_termination(all.as_slice(), &stop),
                timing: make_timing(&solution, &lp, &presolve_time),
                bounds: make_bounds(
                    &objective,
                    &bound,
                    &lp_objective,
                    &root,
                    &integral,
                    &first,
                    find_lp_solved(all.as_slice()),
                ),
                tree: make_tree(&solution, &lp, &counts, &rows),
                presolve: make_presolve(&statistics, &original, &presolved),
                cuts: make_cuts(&cuts),
                progress: rows,
                other_data: collect_others(text),
            },
        )
    }
}

/// Without final bounds, the optimum of the LP is both of them; in a pure LP
/// run that was solved, it closes the gap.
pub proof fn law_lp_optimum_is_both_bounds(text: Seq<char>)
    requires
        matching::real_at(matching::regex_captures(FINAL_OBJECTIVE@, text), 1) is None,
        matching::real_at(matching::regex_captures(FINAL_BOUND@, text), 1) is None,
    ensures
        log_in(text).bounds.primal == log_in(text).bounds.dual,
        says_lp_solved(text) && log_in(text).bounds.primal is Some ==> log_in(text).bounds.gap
            == Some(quantity::zero_real()),
{
    reveal(log_in);
}

/// The depth of the tree is that of the deepest row.
pub proof fn law_depth_is_deepest_row(text: Seq<char>)
    ensures
        log_in(text).tree.max_depth == progress::deepest(log_in(text).progress),
{
    reveal(log_in);
}

/// The names of the other data start with `xpress.`, and none occurs twice.
pub proof fn lemma_other_names(text: Seq<char>)
    ensures
        progress::are_named(log_in(text).other_data, "xpress"@),
{
    reveal(log_in);
    reveal_strlit("xpress");
    let key = "xpress"@;
    assert(progress::are_among(Seq::empty(), Set::empty(), key));
    reveal_strlit("xpress.coefficient_ranges");
    reveal_strlit("xpress.symmetry");
    reveal_strlit("xpress.run_config");
    reveal_strlit("xpress.pre_bb_heuristic_solutions");
    reveal_strlit("xpress.work");
    reveal_strlit("xpress.stopping_reason");
    reveal_strlit("xpress.solution_quality");
    assert("xpress.coefficient_ranges"@.subrange(0, 7) =~= key.push('.'));
    progress::lemma_new_name(Set::empty(), "xpress.coefficient_ranges"@, key);
    let names0 = Set::empty().insert("xpress.coefficient_ranges"@);
    assert("xpress.symmetry"@.subrange(0, 7) =~= key.push('.'));
    progress::lemma_new_name(names0, "xpress.symmetry"@, key);
    let names1 = names0.insert("xpress.symmetry"@);
    assert("xpress.run_config"@.subrange(0, 7) =~= key.push('.'));
    progress::lemma_new_name(names1, "xpress.run_config"@, key);
    let names2 = names1.insert("xpress.run_config"@);
    assert("xpress.pre_bb_heuristic_solutions"@.subrange(0, 7) =~= key.push('.'));
    progress::lemma_new_name(names2, "xpress.pre_bb_heuristic_solutions"@, key);
    let names3 = names2.insert("xpress.pre_bb_heuristic_solutions"@);
    assert("xpress.work"@.subrange(0, 7) =~= key.push('.'));
    progress::lemma_new_name(names3, "xpress.work"@, key);
    let names4 = names3.insert("xpress.work"@);
    assert("xpress.stopping_reason"@.subrange(0, 7) =~= key.push('.'));
    progress::lemma_new_name(names4, "xpress.stopping_reason"@, key);
    let names5 = names4.insert("xpress.stopping_reason"@);
    assert("xpress.solution_quality"@.subrange(0, 7) =~= key.push('.'));
    progress::lemma_new_name(names5, "xpress.solution_quality"@, key);
}

pub proof fn lemma_cuts(text: Seq<char>)
    ensures
        table::counts_positive(log_in(text).cuts),
{
    reveal(log_in);
    if let Some(n) = matching::u64_at(matching::regex_captures(CUTS_TOTAL@, text), 1) {
        if n > 0 {
            table::lemma_put_positive(Seq::empty(), "total"@, n);
        }
    }
}

} // verus!
