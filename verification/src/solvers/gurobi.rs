//! Gurobi logs.

use crate::chars;
use crate::json;
use crate::json::{Entries, Json, JsonValue};
use crate::matching;
use crate::matching::{Captures, Groups, Margin};
use crate::numbers;
use crate::quantity;
use crate::quantity::Real;
use crate::schema;
use crate::schema::{
    Bounds, BoundsView, LogView, NamedValue, NodeSnapshot, ParserInfo, PresolveStats, RowView,
    Solver, SolverLog, Status, Termination, TerminationView, Timing, TimingView, TreeStats,
};
use crate::solvers::entries;
use crate::solvers::entries::Kind;
use crate::solvers::progress;
use crate::solvers::progress::{Open, Scan, ScanView, Step, StepView, TableFormat};
use crate::table;
use crate::{LogParser, ParseError};
use vstd::prelude::*;

verus! {

pub const VERSION: &'static str =
    r"Gurobi(?:\s+Optimizer)?\s+(?:version\s+)?(\d+\.\d+(?:\.\d+)?)";
pub const EXPLORED: &'static str =
    r"Explored\s+([\d,]+)\s+nodes?\s+\(([\d,]+)\s+simplex iterations\)\s+in\s+([\d.]+)\s+seconds";
pub const BEST: &'static str =
    r"Best objective\s+(-|[\d.eE+\-]+)\s*,\s*best bound\s+(-|[\d.eE+\-]+)\s*,\s*gap\s+(-|[\d.]+)%?";
pub const SOLUTION_COUNT: &'static str = r"Solution count\s+(\d+)";
pub const LP_SOLVED: &'static str =
    r"Solved in\s+([\d,]+)\s+iterations? and\s+([\d.]+)\s+seconds";
pub const LP_OBJECTIVE: &'static str = r"Optimal objective\s+([-\d.eE+]+)";
pub const ORIGINAL: &'static str =
    r"Optimize a model with ([\d,]+) rows?, ([\d,]+) columns? and ([\d,]+) nonzeros";
pub const PRESOLVED: &'static str =
    r"Presolved:\s+([\d,]+)\s+rows,\s+([\d,]+)\s+columns,\s+([\d,]+)\s+nonzeros";
pub const PRESOLVE_TIME: &'static str = r"Presolve time:\s+([\d.]+)s";
pub const ROOT_RELAXATION: &'static str =
    r"Root relaxation:\s+objective\s+([-\d.eE+]+),\s+[\d,]+\s+iterations,\s+([\d.]+)\s+seconds";
pub const HEURISTIC: &'static str = r"Found heuristic solution:\s+objective\s+([-\d.eE+]+)";
pub const CUTS_HEADER: &'static str = r"(?m)^Cutting [Pp]lanes:";
pub const CUTS_ROW: &'static str = r"^\s+([A-Za-z][A-Za-z0-9 \-]*?):\s+(\d+)";
pub const RANGES_HEADER: &'static str = r"(?m)^Coefficient statistics:";
pub const RANGES_ROW: &'static str =
    r"^\s+(Matrix|Objective|Bounds|RHS) range\s+\[([^,]+),\s*([^\]]+)\]";
pub const VARIABLE_TYPES: &'static str =
    r"Variable types:\s+(\d+)\s+continuous,\s+(\d+)\s+integer\s+\((\d+)\s+binary\)";
pub const CPU: &'static str = r"CPU model:\s+(.+)";
pub const THREADS: &'static str =
    r"Thread count:\s+(\d+)\s+physical cores?,\s+(\d+)\s+logical processors?, using up to (\d+) threads?";
pub const SOLUTION_POOL: &'static str = r"Solution count (\d+):\s+(.+)";
pub const FINGERPRINT: &'static str = r"Model fingerprint:\s+(\S+)";
pub const TOLERANCE: &'static str = r"Optimal solution found \(tolerance\s+([0-9.eE+\-]+)\)";
pub const WORK_UNITS: &'static str = r"\(([\d.]+)\s+work units\)";

/// Which texts look like a Gurobi log.
pub open spec fn looks_right(text: Seq<char>) -> bool {
    chars::contains(text, "Gurobi Optimizer"@) || chars::contains(text, "gurobi_cl"@)
}

/// The words behind which a limit is reported, other than that of time.
pub open spec fn limit_reason(text: Seq<char>) -> Option<Seq<char>> {
    if chars::contains(text, "Node limit reached"@) {
        Some("Node limit reached"@)
    } else if chars::contains(text, "Solution limit reached"@) {
        Some("Solution limit reached"@)
    } else if chars::contains(text, "Iteration limit reached"@) {
        Some("Iteration limit reached"@)
    } else if chars::contains(text, "Work limit reached"@) {
        Some("Work limit reached"@)
    } else {
        None
    }
}

/// Why the run stopped.
pub open spec fn termination_in(text: Seq<char>) -> TerminationView {
    if chars::contains(text, "Optimal solution found"@) || (chars::contains(
        text,
        "Optimal objective"@,
    ) && !chars::contains(text, "Solution count"@)) {
        TerminationView { status: Status::Optimal, raw_reason: None }
    } else if chars::contains(text, "Model is infeasible and unbounded"@) || chars::contains(
        text,
        "Model is infeasible or unbounded"@,
    ) {
        TerminationView { status: Status::InfeasibleOrUnbounded, raw_reason: None }
    } else if chars::contains(text, "Model is infeasible"@) {
        TerminationView { status: Status::Infeasible, raw_reason: None }
    } else if chars::contains(text, "Model is unbounded"@) {
        TerminationView { status: Status::Unbounded, raw_reason: None }
    } else if chars::contains(text, "Time limit reached"@) {
        TerminationView { status: Status::TimeLimit, raw_reason: Some("Time limit reached"@) }
    } else if chars::contains(text, "Out of memory"@) {
        TerminationView { status: Status::MemoryLimit, raw_reason: None }
    } else if limit_reason(text) is Some {
        TerminationView { status: Status::OtherLimit, raw_reason: limit_reason(text) }
    } else {
        schema::no_termination()
    }
}

pub fn read_termination(text: &[char]) -> (out: Termination)
    ensures
        out@ == termination_in(text@),
{
    if chars::has(text, "Optimal solution found") || (chars::has(text, "Optimal objective")
        && !chars::has(text, "Solution count")) {
        Termination { status: Status::Optimal, raw_reason: None }
    } else if chars::has(text, "Model is infeasible and unbounded") || chars::has(
        text,
        "Model is infeasible or unbounded",
    ) {
        Termination { status: Status::InfeasibleOrUnbounded, raw_reason: None }
    } else if chars::has(text, "Model is infeasible") {
        Termination { status: Status::Infeasible, raw_reason: None }
    } else if chars::has(text, "Model is unbounded") {
        Termination { status: Status::Unbounded, raw_reason: None }
    } else if chars::has(text, "Time limit reached") {
        Termination {
            status: Status::TimeLimit,
            raw_reason: Some("Time limit reached".to_string()),
        }
    } else if chars::has(text, "Out of memory") {
        Termination { status: Status::MemoryLimit, raw_reason: None }
    } else if chars::has(text, "Node limit reached") {
        Termination {
            status: Status::OtherLimit,
            raw_reason: Some("Node limit reached".to_string()),
        }
    } else if chars::has(text, "Solution limit reached") {
        Termination {
            status: Status::OtherLimit,
            raw_reason: Some("Solution limit reached".to_string()),
        }
    } else if chars::has(text, "Iteration limit reached") {
        Termination {
            status: Status::OtherLimit,
            raw_reason: Some("Iteration limit reached".to_string()),
        }
    } else if chars::has(text, "Work limit reached") {
        Termination {
            status: Status::OtherLimit,
            raw_reason: Some("Work limit reached".to_string()),
        }
    } else {
        Termination::default()
    }
}

/// The times: of the tree search or, in a pure LP run, of the simplex.
pub open spec fn timing_from(
    explored: Option<Groups>,
    lp: Option<Groups>,
    presolve: Option<Groups>,
    root: Option<Groups>,
) -> TimingView {
    TimingView {
        wall_seconds: match matching::real_at(explored, 3) {
            Some(w) => Some(w),
            None => matching::real_at(lp, 2),
        },
        presolve_seconds: matching::real_at(presolve, 1),
        root_relaxation_seconds: matching::real_at(root, 2),
        ..schema::no_timing()
    }
}

pub fn make_timing(
    explored: &Option<Captures>,
    lp: &Option<Captures>,
    presolve: &Option<Captures>,
    root: &Option<Captures>,
) -> (out: Timing)
    ensures
        out@ == timing_from(
            matching::opt_groups(*explored),
            matching::opt_groups(*lp),
            matching::opt_groups(*presolve),
            matching::opt_groups(*root),
        ),
{
    let wall_seconds = match matching::found_real(explored, 3) {
        Some(w) => Some(w),
        None => matching::found_real(lp, 2),
    };
    Timing {
        wall_seconds,
        cpu_seconds: None,
        reading_seconds: None,
        presolve_seconds: matching::found_real(presolve, 1),
        root_relaxation_seconds: matching::found_real(root, 2),
    }
}

/// The bounds: those of the tree search or, in a pure LP run, the optimum as
/// both of them.
pub open spec fn bounds_from(
    best: Option<Groups>,
    lp: Option<Groups>,
    root: Option<Groups>,
    first: Option<Groups>,
) -> BoundsView {
    let tree = best is Some;
    BoundsView {
        primal: if tree {
            matching::real_at(best, 1)
        } else {
            matching::real_at(lp, 1)
        },
        dual: if tree {
            matching::real_at(best, 2)
        } else {
            matching::real_at(lp, 1)
        },
        gap: if tree {
            matching::percent_at(best, 3)
        } else if lp is Some {
            Some(quantity::zero_real())
        } else {
            None
        },
        root_dual: matching::real_at(root, 1),
        first_primal: matching::real_at(first, 1),
        ..schema::no_bounds()
    }
}

pub fn make_bounds(
    best: &Option<Captures>,
    lp: &Option<Captures>,
    root: &Option<Captures>,
    first: &Option<Captures>,
) -> (out: Bounds)
    ensures
        out@ == bounds_from(
            matching::opt_groups(*best),
            matching::opt_groups(*lp),
            matching::opt_groups(*root),
            matching::opt_groups(*first),
        ),
{
    let root_dual = matching::found_real(root, 1);
    let first_primal = matching::found_real(first, 1);
    if best.is_some() {
        Bounds {
            primal: matching::found_real(best, 1),
            dual: matching::found_real(best, 2),
            gap: matching::found_percent(best, 3),
            root_dual,
            first_primal,
            first_primal_time_seconds: None,
            primal_dual_integral: None,
        }
    } else {
        let gap = if lp.is_some() {
            Some(Real::zero())
        } else {
            None
        };
        Bounds {
            primal: matching::found_real(lp, 1),
            dual: matching::found_real(lp, 1),
            gap,
            root_dual,
            first_primal,
            first_primal_time_seconds: None,
            primal_dual_integral: None,
        }
    }
}

/// The counts of the tree search.
pub open spec fn tree_from(
    explored: Option<Groups>,
    lp: Option<Groups>,
    solutions: Option<Groups>,
    rows: Seq<RowView>,
) -> TreeStats {
    TreeStats {
        nodes_explored: matching::count_at(explored, 1),
        simplex_iterations: if matching::real_at(explored, 3) is None && lp is Some {
            matching::count_at(lp, 1)
        } else {
            matching::count_at(explored, 2)
        },
        solutions_found: matching::u64_at(solutions, 1),
        max_depth: progress::deepest(rows),
        restarts: None,
    }
}

pub fn make_tree(
    explored: &Option<Captures>,
    lp: &Option<Captures>,
    solutions: &Option<Captures>,
    rows: &schema::ProgressTable,
) -> (out: TreeStats)
    requires
        rows.well_formed(),
    ensures
        out == tree_from(
            matching::opt_groups(*explored),
            matching::opt_groups(*lp),
            matching::opt_groups(*solutions),
            rows@,
        ),
{
    let simplex_iterations = if matching::found_real(explored, 3).is_none() && lp.is_some() {
        matching::found_count(lp, 1)
    } else {
        matching::found_count(explored, 2)
    };
    TreeStats {
        nodes_explored: matching::found_count(explored, 1),
        simplex_iterations,
        solutions_found: matching::found_u64(solutions, 1),
        max_depth: progress::max_depth(rows),
        restarts: None,
    }
}

/// The dimensions before and after presolve.
pub open spec fn presolve_from(original: Option<Groups>, presolved: Option<Groups>) -> PresolveStats {
    PresolveStats {
        rows_before: matching::count_at(original, 1),
        cols_before: matching::count_at(original, 2),
        nonzeros_before: matching::count_at(original, 3),
        rows_after: matching::count_at(presolved, 1),
        cols_after: matching::count_at(presolved, 2),
        nonzeros_after: matching::count_at(presolved, 3),
    }
}

pub fn make_presolve(original: &Option<Captures>, presolved: &Option<Captures>) -> (out:
    PresolveStats)
    ensures
        out == presolve_from(matching::opt_groups(*original), matching::opt_groups(*presolved)),
{
    PresolveStats {
        rows_before: matching::found_count(original, 1),
        cols_before: matching::found_count(original, 2),
        nonzeros_before: matching::found_count(original, 3),
        rows_after: matching::found_count(presolved, 1),
        cols_after: matching::found_count(presolved, 2),
        nonzeros_after: matching::found_count(presolved, 3),
    }
}

/// The markers of rows that report a new incumbent.
pub open spec fn is_marker(c: char) -> bool {
    c == 'H' || c == '*' || c == 'h'
}

/// A row of the progress table: ten columns, or seven on a line that reports
/// a new incumbent and leaves objective, depth and infeasibilities blank.
pub open spec fn row_in(line: Seq<char>) -> Option<RowView> {
    if line.len() == 0 {
        None
    } else {
        let marked = is_marker(line[0]);
        let event = if marked {
            progress::event_of(line[0])
        } else {
            None
        };
        let toks = chars::words(
            if marked {
                line.skip(1)
            } else {
                line
            },
        );
        if toks.len() == 10 {
            match (progress::time_of(toks[9]), numbers::u64_of(toks[0])) {
                (Some(time), Some(nodes)) => Some(
                    RowView {
                        time_seconds: time,
                        nodes_explored: Some(nodes),
                        primal: progress::cell_of(toks[5]),
                        dual: progress::cell_of(toks[6]),
                        gap: progress::gap_of(toks[7]),
                        depth: numbers::u32_of(toks[3]),
                        lp_iterations: numbers::u64_of(toks[8]),
                        event,
                    },
                ),
                _ => None,
            }
        } else if toks.len() == 7 {
            match (progress::time_of(toks[6]), numbers::u64_of(toks[0])) {
                (Some(time), Some(nodes)) => Some(
                    RowView {
                        time_seconds: time,
                        nodes_explored: Some(nodes),
                        primal: progress::cell_of(toks[2]),
                        dual: progress::cell_of(toks[3]),
                        gap: progress::gap_of(toks[4]),
                        depth: None,
                        lp_iterations: numbers::u64_of(toks[5]),
                        event,
                    },
                ),
                _ => None,
            }
        } else {
            None
        }
    }
}

pub fn parse_row(line: &[char]) -> (out: Option<NodeSnapshot>)
    ensures
        schema::opt_row(out) == row_in(line@),
{
    if line.len() == 0 {
        return None;
    }
    let marker = line[0];
    let marked = marker == 'H' || marker == '*' || marker == 'h';
    let event = if marked {
        progress::event_from_marker(marker)
    } else {
        None
    };
    let body = if marked {
        chars::from(line, 1)
    } else {
        line
    };
    let toks = chars::split_words(body);
    let ghost words = chars::words(body@);
    assert(words.len() == toks@.len());
    assert(forall|i: int| 0 <= i < toks@.len() ==> words[i] == (#[trigger] toks@[i])@);
    if toks.len() == 10 {
        let time = progress::parse_time_token(toks[9])?;
        let nodes = numbers::read_u64(toks[0])?;
        Some(
            NodeSnapshot {
                time_seconds: time,
                nodes_explored: Some(nodes),
                primal: progress::parse_or_dash(toks[5]),
                dual: progress::parse_or_dash(toks[6]),
                gap: progress::parse_gap(toks[7]),
                depth: numbers::read_u32(toks[3]),
                lp_iterations: numbers::read_u64(toks[8]),
                event,
            },
        )
    } else if toks.len() == 7 {
        let time = progress::parse_time_token(toks[6])?;
        let nodes = numbers::read_u64(toks[0])?;
        Some(
            NodeSnapshot {
                time_seconds: time,
                nodes_explored: Some(nodes),
                primal: progress::parse_or_dash(toks[2]),
                dual: progress::parse_or_dash(toks[3]),
                gap: progress::parse_gap(toks[4]),
                depth: None,
                lp_iterations: numbers::read_u64(toks[5]),
                event,
            },
        )
    } else {
        None
    }
}

/// The Gurobi progress table. It starts behind its header, and ends at a blank
/// line behind its first row or at a line of the summary.
pub struct GurobiTable;

/// A line of the summary behind the table.
pub open spec fn ends_table(line: Seq<char>) -> bool {
    ||| chars::starts_with(line, "Cutting planes:"@)
    ||| chars::starts_with(line, "Cutting Planes:"@)
    ||| chars::starts_with(line, "Explored "@)
    ||| chars::contains(line, "Time limit reached"@)
    ||| chars::starts_with(line, "Optimal solution"@)
}

impl TableFormat for GurobiTable {
    open spec fn meaning(&self, scan: ScanView, any: bool, line: Seq<char>) -> (
        ScanView,
        StepView,
    ) {
        if scan.open == Open::No {
            if chars::contains(line, "Incumbent"@) && chars::contains(line, "BestBd"@) {
                (ScanView { open: Open::Tree, ..scan }, StepView::Pass)
            } else {
                (scan, StepView::Pass)
            }
        } else if chars::blank(line) {
            (
                scan,
                if any {
                    StepView::Stop
                } else {
                    StepView::Pass
                },
            )
        } else {
            match row_in(line) {
                Some(row) => (scan, StepView::Row(row)),
                None => (
                    scan,
                    if ends_table(line) {
                        StepView::Stop
                    } else {
                        StepView::Pass
                    },
                ),
            }
        }
    }

    fn step(&self, scan: Scan, any: bool, line: &[char]) -> (out: (Scan, Step)) {
        if scan.open == Open::No {
            if chars::has(line, "Incumbent") && chars::has(line, "BestBd") {
                return (Scan { open: Open::Tree, clock: scan.clock }, Step::Pass);
            }
            return (scan, Step::Pass);
        }
        if chars::is_blank(line) {
            return if any {
                (scan, Step::Stop)
            } else {
                (scan, Step::Pass)
            };
        }
        match parse_row(line) {
            Some(row) => (scan, Step::Row(row)),
            None => {
                if chars::begins(line, "Cutting planes:") || chars::begins(line, "Cutting Planes:")
                    || chars::begins(line, "Explored ") || chars::has(line, "Time limit reached")
                    || chars::begins(line, "Optimal solution") {
                    (scan, Step::Stop)
                } else {
                    (scan, Step::Pass)
                }
            },
        }
    }
}

/// The counts of continuous, integer and binary variables.
pub open spec fn types_in(m: Groups) -> Json {
    Json::Object(
        entries::with_group(
            entries::with_group(
                entries::with_group(json::no_entries(), m, 1, "continuous"@, Kind::Count),
                m,
                2,
                "integer"@,
                Kind::Count,
            ),
            m,
            3,
            "binary"@,
            Kind::Count,
        ),
    )
}

pub fn make_types(m: &Captures) -> (out: JsonValue)
    ensures
        json::json(out) == types_in(m@),
{
    let mut e = Entries::new();
    entries::put_group(&mut e, m, 1, "continuous", Kind::Count);
    entries::put_group(&mut e, m, 2, "integer", Kind::Count);
    entries::put_group(&mut e, m, 3, "binary", Kind::Count);
    e.object()
}

/// The variable types before presolve: those of the first match.
pub open spec fn types_before(ms: Seq<Groups>) -> Option<Json> {
    if ms.len() > 0 {
        Some(types_in(ms[0]))
    } else {
        None
    }
}

/// The variable types after presolve: those of the last match, where there
/// are two or more.
pub open spec fn types_after(ms: Seq<Groups>) -> Option<Json> {
    if ms.len() >= 2 {
        Some(types_in(ms.last()))
    } else {
        None
    }
}

pub fn variable_types(ms: &Vec<Captures>) -> (out: (Option<JsonValue>, Option<JsonValue>))
    ensures
        json::opt_json(out.0) == types_before(matching::all_groups(ms@)),
        json::opt_json(out.1) == types_after(matching::all_groups(ms@)),
{
    let ghost all = matching::all_groups(ms@);
    assert(all.len() == ms@.len());
    let before = if ms.len() > 0 {
        assert(all[0] == ms@[0]@);
        Some(make_types(&ms[0]))
    } else {
        None
    };
    let after = if ms.len() >= 2 {
        assert(all.last() == ms@[ms@.len() - 1]@);
        Some(make_types(&ms[ms.len() - 1]))
    } else {
        None
    };
    (before, after)
}

/// The processor and the threads.
pub open spec fn machine_from(cpu: Option<Groups>, threads: Option<Groups>) -> Option<Json> {
    let e0 = entries::with_found(json::no_entries(), cpu, 1, "cpu"@, Kind::Trimmed);
    let e1 = entries::with_found(e0, threads, 1, "physical_cores"@, Kind::Count);
    let e2 = entries::with_found(e1, threads, 2, "logical_processors"@, Kind::Count);
    json::object_of(entries::with_found(e2, threads, 3, "threads_used"@, Kind::Count))
}

pub fn make_machine(cpu: &Option<Captures>, threads: &Option<Captures>) -> (out: Option<JsonValue>)
    ensures
        json::opt_json(out) == machine_from(
            matching::opt_groups(*cpu),
            matching::opt_groups(*threads),
        ),
{
    let mut e = Entries::new();
    entries::put_found(&mut e, cpu, 1, "cpu", Kind::Trimmed);
    entries::put_found(&mut e, threads, 1, "physical_cores", Kind::Count);
    entries::put_found(&mut e, threads, 2, "logical_processors", Kind::Count);
    entries::put_found(&mut e, threads, 3, "threads_used", Kind::Count);
    e.some_object()
}

/// The solution pool: its size, and the objective values that are listed.
pub open spec fn pool_from(m: Option<Groups>) -> Option<Json> {
    match m {
        Some(g) => match numbers::u64_of(matching::part(g, 1)) {
            Some(n) => Some(
                Json::Object(
                    table::put(
                        table::put(json::no_entries(), "count"@, Json::Count(n)),
                        "top_values"@,
                        Json::Array(entries::finite_numbers(chars::words(matching::part(g, 2)))),
                    ),
                ),
            ),
            None => None,
        },
        None => None,
    }
}

pub fn make_pool(m: &Option<Captures>) -> (out: Option<JsonValue>)
    ensures
        json::opt_json(out) == pool_from(matching::opt_groups(*m)),
{
    match m {
        Some(c) => {
            let count = c.part(1);
            let n = numbers::read_u64(count.as_slice())?;
            let list = c.part(2);
            let words = chars::split_words(list.as_slice());
            let mut e = Entries::new();
            e.put("count", JsonValue::Count(n));
            e.put("top_values", json::array(entries::collect_finite(&words)));
            Some(e.object())
        },
        None => None,
    }
}

/// What only Gurobi reports.
pub open spec fn others_in(text: Seq<char>) -> Seq<(Seq<char>, Json)> {
    let types = matching::regex_captures_iter(VARIABLE_TYPES@, text);
    let o0 = progress::with_other(
        Seq::empty(),
        "gurobi.coefficient_ranges"@,
        json::object_of(
            entries::ranges_of(
                matching::block_rows(
                    RANGES_HEADER@,
                    RANGES_ROW@,
                    8,
                    true,
                    Margin::TwoBlanks,
                    text,
                ),
                true,
            ),
        ),
    );
    let o1 = progress::with_other(
        o0,
        "gurobi.variable_types_before_presolve"@,
        types_before(types),
    );
    let o2 = progress::with_other(o1, "gurobi.variable_types_after_presolve"@, types_after(types));
    let o3 = progress::with_other(
        o2,
        "gurobi.machine"@,
        machine_from(
            matching::regex_captures(CPU@, text),
            matching::regex_captures(THREADS@, text),
        ),
    );
    let o4 = progress::with_other(
        o3,
        "gurobi.pre_bb_heuristic_solutions"@,
        json::array_of(
            entries::finite_numbers(
                entries::column(matching::regex_captures_iter(HEURISTIC@, text), 1),
            ),
        ),
    );
    let o5 = progress::with_other(
        o4,
        "gurobi.solution_pool"@,
        pool_from(matching::regex_captures(SOLUTION_POOL@, text)),
    );
    let o6 = progress::with_other(
        o5,
        "gurobi.model_fingerprint"@,
        entries::text_entry_at(matching::regex_captures(FINGERPRINT@, text), 1),
    );
    let o7 = progress::with_other(
        o6,
        "gurobi.optimality_tolerance"@,
        entries::finite_at(matching::regex_captures(TOLERANCE@, text), 1),
    );
    progress::with_other(
        o7,
        "gurobi.work_units"@,
        entries::finite_at(matching::regex_captures(WORK_UNITS@, text), 1),
    )
}

pub fn collect_others(text: &str) -> (out: Vec<NamedValue>)
    ensures
        schema::others_of(out@) == others_in(text@),
{
    let mut out: Vec<NamedValue> = Vec::new();
    assert(schema::others_of(out@) =~= Seq::empty());
    let ranges = matching::match_block(
        RANGES_HEADER,
        RANGES_ROW,
        8,
        true,
        Margin::TwoBlanks,
        text,
    );
    progress::add_other(
        &mut out,
        "gurobi.coefficient_ranges",
        entries::collect_ranges(&ranges, true),
    );
    let types = matching::captures_iter(VARIABLE_TYPES, text);
    let (before, after) = variable_types(&types);
    progress::add_other(&mut out, "gurobi.variable_types_before_presolve", before);
    progress::add_other(&mut out, "gurobi.variable_types_after_presolve", after);
    let cpu = matching::captures(CPU, text);
    let threads = matching::captures(THREADS, text);
    progress::add_other(&mut out, "gurobi.machine", make_machine(&cpu, &threads));
    let found = matching::captures_iter(HEURISTIC, text);
    progress::add_other(
        &mut out,
        "gurobi.pre_bb_heuristic_solutions",
        entries::collect_finite_matches(&found),
    );
    let pool = matching::captures(SOLUTION_POOL, text);
    progress::add_other(&mut out, "gurobi.solution_pool", make_pool(&pool));
    let fingerprint = matching::captures(FINGERPRINT, text);
    progress::add_other(
        &mut out,
        "gurobi.model_fingerprint",
        entries::text_entry(&fingerprint, 1),
    );
    let tolerance = matching::captures(TOLERANCE, text);
    progress::add_other(
        &mut out,
        "gurobi.optimality_tolerance",
        entries::finite_entry(&tolerance, 1),
    );
    let work = matching::captures(WORK_UNITS, text);
    progress::add_other(&mut out, "gurobi.work_units", entries::finite_entry(&work, 1));
    out
}

/// What is found in a Gurobi log.
#[verifier::opaque]
pub open spec fn log_in(text: Seq<char>) -> LogView {
    let explored = matching::regex_captures(EXPLORED@, text);
    let lp = matching::regex_captures(LP_SOLVED@, text);
    let root = matching::regex_captures(ROOT_RELAXATION@, text);
    let rows = progress::table_rows(GurobiTable, text);
    LogView {
        solver: Solver::Gurobi,
        version: matching::text_at(matching::regex_captures(VERSION@, text), 1),
        solver_git_hash: None,
        problem: None,
        termination: termination_in(text),
        timing: timing_from(
            explored,
            lp,
            matching::regex_captures(PRESOLVE_TIME@, text),
            root,
        ),
        bounds: bounds_from(
            matching::regex_captures(BEST@, text),
            matching::regex_captures(LP_OBJECTIVE@, text),
            root,
            matching::regex_captures(HEURISTIC@, text),
        ),
        tree: tree_from(
            explored,
            lp,
            matching::regex_captures(SOLUTION_COUNT@, text),
            rows,
        ),
        presolve: presolve_from(
            matching::regex_captures(ORIGINAL@, text),
            matching::regex_captures(PRESOLVED@, text),
        ),
        cuts: progress::cuts_of(
            matching::block_rows(
                CUTS_HEADER@,
                CUTS_ROW@,
                usize::MAX as int,
                true,
                Margin::Space,
                text,
            ),
            true,
            false,
        ),
        progress: rows,
        other_data: others_in(text),
    }
}

/// The log is one of this solver.
pub proof fn lemma_solver(text: Seq<char>)
    ensures
        log_in(text).solver == Solver::Gurobi,
{
    reveal(log_in);
}

pub struct GurobiParser;

impl LogParser for GurobiParser {
    open spec fn handles(&self) -> Solver {
        Solver::Gurobi
    }

    open spec fn recognizes(&self, text: Seq<char>) -> bool {
        looks_right(text)
    }

    open spec fn reading(&self, text: Seq<char>) -> LogView {
        log_in(text)
    }

    fn solver(&self) -> (out: Solver) {
        Solver::Gurobi
    }

    fn sniff(&self, text: &str) -> (out: bool) {
        let all = chars::chars_of(text);
        chars::has(all.as_slice(), "Gurobi Optimizer") || chars::has(all.as_slice(), "gurobi_cl")
    }

    fn parse(&self, text: &str) -> (out: Result<SolverLog, ParseError>) {
        if !self.sniff(text) {
            return Err(ParseError::WrongSolver("gurobi"));
        }
        proof {
            reveal(log_in);
        }
        let all = chars::chars_of(text);
        let explored = matching::captures(EXPLORED, text);
        let lp = matching::captures(LP_SOLVED, text);
        let root = matching::captures(ROOT_RELAXATION, text);
        let best = matching::captures(BEST, text);
        let lp_objective = matching::captures(LP_OBJECTIVE, text);
        let first = matching::captures(HEURISTIC, text);
        let solutions = matching::captures(SOLUTION_COUNT, text);
        let presolve_time = matching::captures(PRESOLVE_TIME, text);
        let original = matching::captures(ORIGINAL, text);
        let presolved = matching::captures(PRESOLVED, text);
        let version = matching::captures(VERSION, text);
        let cuts = matching::match_block(
            CUTS_HEADER,
            CUTS_ROW,
            usize::MAX,
            true,
            Margin::Space,
            text,
        );
        let rows = progress::read_table(&GurobiTable, all.as_slice());
        Ok(
            SolverLog {
                solver: Solver::Gurobi,
                parser: ParserInfo::current(),
                version: matching::found_text(&version, 1),
                solver_git_hash: None,
                problem: None,
                termination: read_termination(all.as_slice()),
                timing: make_timing(&explored, &lp, &presolve_time, &root),
                bounds: make_bounds(&best, &lp_objective, &root, &first),
                tree: make_tree(&explored, &lp, &solutions, &rows),
                presolve: make_presolve(&original, &presolved),
                cuts: progress::collect_cuts(&cuts, true, false),
                progress: rows,
                other_data: collect_others(text),
            },
        )
    }
}

/// Without a line on the bounds of a tree search, the optimum of the LP is
/// both bounds, and closes the gap.
pub proof fn law_lp_optimum_is_both_bounds(text: Seq<char>)
    requires
        matching::regex_captures(BEST@, text) is None,
    ensures
        log_in(text).bounds.primal == log_in(text).bounds.dual,
        matching::regex_captures(LP_OBJECTIVE@, text) is Some ==> log_in(text).bounds.gap == Some(
            quantity::zero_real(),
        ),
{
    reveal(log_in);
}

/// The depth of the tree is that of the deepest row.
pub proof fn law_depth_is_deepest_row(text: Seq<char>)
    ensures
        log_in(text).tree.max_depth == progress::deepest(log_in(text).progress),
{
    reveal(log_in);
}

/// The names of the other data start with `gurobi.`, and none occurs twice.
pub proof fn lemma_other_names(text: Seq<char>)
    ensures
        progress::are_named(log_in(text).other_data, "gurobi"@),
{
    reveal(log_in);
    reveal_strlit("gurobi");
    let key = "gurobi"@;
    assert(progress::are_among(Seq::empty(), Set::empty(), key));
    reveal_strlit("gurobi.coefficient_ranges");
    reveal_strlit("gurobi.variable_types_before_presolve");
    reveal_strlit("gurobi.variable_types_after_presolve");
    reveal_strlit("gurobi.machine");
    reveal_strlit("gurobi.pre_bb_heuristic_solutions");
    reveal_strlit("gurobi.solution_pool");
    reveal_strlit("gurobi.model_fingerprint");
    reveal_strlit("gurobi.optimality_tolerance");
    reveal_strlit("gurobi.work_units");
    assert("gurobi.coefficient_ranges"@.subrange(0, 7) =~= key.push('.'));
    progress::lemma_new_name(Set::empty(), "gurobi.coefficient_ranges"@, key);
    let names0 = Set::empty().insert("gurobi.coefficient_ranges"@);
    assert("gurobi.variable_types_before_presolve"@.subrange(0, 7) =~= key.push('.'));
    progress::lemma_new_name(names0, "gurobi.variable_types_before_presolve"@, key);
    let names1 = names0.insert("gurobi.variable_types_before_presolve"@);
    assert("gurobi.variable_types_after_presolve"@.subrange(0, 7) =~= key.push('.'));
    progress::lemma_new_name(names1, "gurobi.variable_types_after_presolve"@, key);
    let names2 = names1.insert("gurobi.variable_types_after_presolve"@);
    assert("gurobi.machine"@.subrange(0, 7) =~= key.push('.'));
    progress::lemma_new_name(names2, "gurobi.machine"@, key);
    let names3 = names2.insert("gurobi.machine"@);
    assert("gurobi.pre_bb_heuristic_solutions"@.subrange(0, 7) =~= key.push('.'));
    progress::lemma_new_name(names3, "gurobi.pre_bb_heuristic_solutions"@, key);
    let names4 = names3.insert("gurobi.pre_bb_heuristic_solutions"@);
    assert("gurobi.solution_pool"@.subrange(0, 7) =~= key.push('.'));
    progress::lemma_new_name(names4, "gurobi.solution_pool"@, key);
    let names5 = names4.insert("gurobi.solution_pool"@);
    assert("gurobi.model_fingerprint"@.subrange(0, 7) =~= key.push('.'));
    progress::lemma_new_name(names5, "gurobi.model_fingerprint"@, key);
    let names6 = names5.insert("gurobi.model_fingerprint"@);
    assert("gurobi.optimality_tolerance"@.subrange(0, 7) =~= key.push('.'));
    progress::lemma_new_name(names6, "gurobi.optimality_tolerance"@, key);
    let names7 = names6.insert("gurobi.optimality_tolerance"@);
    assert("gurobi.work_units"@.subrange(0, 7) =~= key.push('.'));
    progress::lemma_new_name(names7, "gurobi.work_units"@, key);
}

pub proof fn lemma_cuts(text: Seq<char>)
    ensures
        table::counts_positive(log_in(text).cuts),
{
    reveal(log_in);
    progress::lemma_cuts_positive(
        matching::block_rows(CUTS_HEADER@, CUTS_ROW@, usize::MAX as int, true, Margin::Space, text),
        true,
        false,
    );
}

} // verus!
