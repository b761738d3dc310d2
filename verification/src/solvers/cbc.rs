//! CBC (COIN-OR branch and cut) logs.

use crate::chars;
use crate::json;
use crate::json::{Entries, Json, JsonValue};
use crate::matching;
use crate::matching::{Captures, Groups};
use crate::numbers;
use crate::quantity;
use crate::quantity::{Real, RealView};
use crate::schema;
use crate::schema::{
    Bounds, BoundsView, EventView, LogView, NamedValue, NodeEvent, NodeSnapshot, ParserInfo, PresolveStats, RowView,
    Solver, SolverLog, Status, Termination, TerminationView, Timing, TimingView, TreeStats,
};
use crate::solvers::entries;
use crate::solvers::entries::Kind;
use crate::solvers::progress;
use crate::solvers::progress::{Scan, ScanView, Step, StepView, TableFormat};
use crate::table;
use crate::{LogParser, ParseError};
use vstd::prelude::*;

verus! {

pub const VERSION: &'static str = r"Version:\s*(\d+\.\d+\.\d+)";
pub const PROBLEM: &'static str =
    r"Problem\s+(\S+)\s+has\s+([\d,]+)\s+rows,\s+([\d,]+)\s+columns\s+and\s+([\d,]+)\s+elements";
pub const PROCESSED: &'static str =
    r"processed model has\s+([\d,]+)\s+rows,\s+([\d,]+)\s+columns\b.*?\band\s+([\d,]+)\s+elements";
pub const OBJECTIVE: &'static str = r"Objective value:\s+([-\d.eE+]+)";
pub const LP_OBJECTIVE: &'static str =
    r"Optimal(?:\s+-\s+| )objective(?:\s+value)?\s+([-\d.eE+]+)";
pub const LOWER_BOUND: &'static str = r"Lower bound:\s+([-\d.eE+]+)";
pub const GAP: &'static str = r"(?m)^Gap:\s+([\d.]+)";
pub const TOTAL_TIME: &'static str =
    r"Total time \(CPU seconds\):\s+([\d.]+)\s+\(Wallclock seconds\):\s+([\d.]+)";
pub const PARTIAL_SEARCH: &'static str =
    r"Cbc0005I.*took\s+([\d,]+)\s+iterations\s+and\s+([\d,]+)\s+nodes\s+\(([\d.]+)\s+seconds\)";
pub const ENUMERATED_NODES: &'static str = r"Enumerated nodes:\s+([\d,]+)";
pub const TOTAL_ITERATIONS: &'static str = r"Total iterations:\s+([\d,]+)";
pub const CUTS: &'static str =
    r"(\w+)\s+was tried\s+\d+\s+times and created\s+([\d,]+)\s+cuts";
pub const PROGRESS: &'static str =
    r"Cbc0010I After\s+([\d,]+)\s+nodes,\s+([\d,]+)\s+on tree,\s+([-\d.eE+]+)\s+best solution,\s+best possible\s+([-\d.eE+]+)\s+\(([\d.]+)\s+seconds\)";
pub const INCUMBENT: &'static str =
    r"Cbc0004I Integer solution of\s+([-\d.eE+]+)\s+found after\s+([\d,]+)\s+iterations and\s+([\d,]+)\s+nodes\s+\(([\d.]+)\s+seconds\)";
pub const MAX_DEPTH: &'static str = r"Maximum depth\s+(\d+)";
pub const ROOT_BOUND: &'static str =
    r"At root node, \d+ cuts changed objective from\s+([-\d.eE+]+)\s+to\s+([-\d.eE+]+)";
pub const FIRST_SOLUTION: &'static str =
    r"Integer solution of\s+([-\d.eE+]+)\s+found by feasibility pump after \d+ iterations and \d+ nodes \(([\d.]+)\s+seconds\)";
pub const CUT_GENERATOR: &'static str =
    r"Cbc0014I Cut generator \d+ \(([A-Za-z0-9]+)\)\s*-\s*(\d+) row cuts.*?(\d+) column cuts \((\d+) active\)\s+in\s+([\d.]+)\s+seconds";
pub const STRONG_BRANCHING: &'static str =
    r"Strong branching done (\d+) times \((\d+) iterations\), fathomed (\d+) nodes and fixed (\d+) variables";
pub const ROOT_LP: &'static str =
    r"At root node, (\d+) cuts changed objective from\s+([-\d.eE+]+)\s+to\s+([-\d.eE+]+)\s+in\s+(\d+)\s+passes";
pub const CONTINUOUS: &'static str =
    r"Continuous objective value is\s+([-\d.eE+]+)\s+-\s+([\d.]+)\s+seconds";

/// Which texts look like a CBC log.
pub open spec fn looks_right(text: Seq<char>) -> bool {
    chars::contains(text, "Welcome to the CBC MILP Solver"@) || (chars::contains(text, "Cbc0"@)
        && chars::contains(text, "CBC"@))
}

/// The status that the words behind `Result - ` stand for.
pub open spec fn result_status(s: Seq<char>) -> Status {
    if chars::contains(s, "Optimal"@) {
        Status::Optimal
    } else if chars::contains(s, "Infeasible"@) || chars::contains(s, "infeasible"@) {
        Status::Infeasible
    } else if chars::contains(s, "Unbounded"@) || chars::contains(s, "unbounded"@) {
        Status::Unbounded
    } else if chars::contains(s, "time limit"@) || chars::contains(s, "Stopped on time"@) {
        Status::TimeLimit
    } else if chars::contains(s, "node limit"@) || chars::contains(s, "iteration limit"@) {
        Status::OtherLimit
    } else {
        Status::Unknown
    }
}

/// Why the run stopped: the line on the result says it, or else a line on the
/// search, on an LP optimum, or on infeasibility found in presolve.
pub open spec fn termination_in(text: Seq<char>) -> TerminationView {
    match progress::first_labelled(chars::lines(text), "Result - "@) {
        Some(s) => TerminationView { status: result_status(s), raw_reason: Some(s) },
        None => if chars::contains(text, "Search completed"@) {
            TerminationView { status: Status::Optimal, raw_reason: Some("Search completed"@) }
        } else if chars::contains(text, "Optimal - objective value"@) || chars::contains(
            text,
            "Optimal objective "@,
        ) {
            TerminationView { status: Status::Optimal, raw_reason: Some("Optimal"@) }
        } else if chars::contains(text, "Problem is infeasible"@) {
            TerminationView {
                status: Status::Infeasible,
                raw_reason: Some("Problem is infeasible"@),
            }
        } else {
            schema::no_termination()
        },
    }
}

pub fn classify(s: &[char]) -> (out: Status)
    ensures
        out == result_status(s@),
{
    if chars::has(s, "Optimal") {
        Status::Optimal
    } else if chars::has(s, "Infeasible") || chars::has(s, "infeasible") {
        Status::Infeasible
    } else if chars::has(s, "Unbounded") || chars::has(s, "unbounded") {
        Status::Unbounded
    } else if chars::has(s, "time limit") || chars::has(s, "Stopped on time") {
        Status::TimeLimit
    } else if chars::has(s, "node limit") || chars::has(s, "iteration limit") {
        Status::OtherLimit
    } else {
        Status::Unknown
    }
}

pub fn read_termination(text: &[char]) -> (out: Termination)
    ensures
        out@ == termination_in(text@),
{
    let lines = chars::split_lines(text);
    if let Some(s) = progress::find_labelled(&lines, "Result - ") {
        return Termination { status: classify(s), raw_reason: Some(chars::string_of(s)) };
    }
    if chars::has(text, "Search completed") {
        return Termination {
            status: Status::Optimal,
            raw_reason: Some("Search completed".to_string()),
        };
    }
    if chars::has(text, "Optimal - objective value") || chars::has(text, "Optimal objective ") {
        return Termination { status: Status::Optimal, raw_reason: Some("Optimal".to_string()) };
    }
    if chars::has(text, "Problem is infeasible") {
        return Termination {
            status: Status::Infeasible,
            raw_reason: Some("Problem is infeasible".to_string()),
        };
    }
    Termination::default()
}

/// The times: the totals, or else that of the search.
pub open spec fn timing_from(total: Option<Groups>, search: Option<Groups>) -> TimingView {
    TimingView {
        cpu_seconds: matching::real_at(total, 1),
        wall_seconds: match matching::real_at(total, 2) {
            Some(w) => Some(w),
            None => matching::real_at(search, 3),
        },
        ..schema::no_timing()
    }
}

pub fn make_timing(total: &Option<Captures>, search: &Option<Captures>) -> (out: Timing)
    ensures
        out@ == timing_from(matching::opt_groups(*total), matching::opt_groups(*search)),
{
    let wall_seconds = match matching::found_real(total, 2) {
        Some(w) => Some(w),
        None => matching::found_real(search, 3),
    };
    Timing {
        wall_seconds,
        cpu_seconds: matching::found_real(total, 1),
        reading_seconds: None,
        presolve_seconds: None,
        root_relaxation_seconds: None,
    }
}

/// The bounds. An optimal run has no line on the dual bound: it is the primal
/// one, and the gap is closed.
pub open spec fn bounds_from(
    objective: Option<Groups>,
    lp: Option<Groups>,
    lower: Option<Groups>,
    gap: Option<Groups>,
    root: Option<Groups>,
    first: Option<Groups>,
    status: Status,
) -> BoundsView {
    let primal = if objective is Some {
        matching::real_at(objective, 1)
    } else {
        matching::real_at(lp, 1)
    };
    let dual = matching::real_at(lower, 1);
    let mirrored = status == Status::Optimal && dual is None;
    BoundsView {
        primal,
        dual: if mirrored {
            primal
        } else {
            dual
        },
        gap: if mirrored {
            Some(quantity::zero_real())
        } else {
            matching::real_at(gap, 1)
        },
        root_dual: matching::real_at(root, 2),
        first_primal: matching::real_at(first, 1),
        first_primal_time_seconds: matching::real_at(first, 2),
        primal_dual_integral: None,
    }
}

pub fn make_bounds(
    objective: &Option<Captures>,
    lp: &Option<Captures>,
    lower: &Option<Captures>,
    gap: &Option<Captures>,
    root: &Option<Captures>,
    first: &Option<Captures>,
    status: Status,
) -> (out: Bounds)
    ensures
        out@ == bounds_from(
            matching::opt_groups(*objective),
            matching::opt_groups(*lp),
            matching::opt_groups(*lower),
            matching::opt_groups(*gap),
            matching::opt_groups(*root),
            matching::opt_groups(*first),
            status,
        ),
{
    let primal = if objective.is_some() {
        matching::found_real(objective, 1)
    } else {
        matching::found_real(lp, 1)
    };
    let mut dual = matching::found_real(lower, 1);
    let mut gap = matching::found_real(gap, 1);
    if status == Status::Optimal && dual.is_none() {
        dual = quantity::copy_opt(&primal);
        gap = Some(Real::zero());
    }
    Bounds {
        primal,
        dual,
        gap,
        root_dual: matching::found_real(root, 2),
        first_primal: matching::found_real(first, 1),
        first_primal_time_seconds: matching::found_real(first, 2),
        primal_dual_integral: None,
    }
}

/// The counts: those of the search, or else the totals.
pub open spec fn tree_from(
    search: Option<Groups>,
    nodes: Option<Groups>,
    iterations: Option<Groups>,
    depth: Option<Groups>,
) -> TreeStats {
    TreeStats {
        nodes_explored: match matching::count_at(search, 2) {
            Some(n) => Some(n),
            None => matching::count_at(nodes, 1),
        },
        simplex_iterations: match matching::count_at(search, 1) {
            Some(n) => Some(n),
            None => matching::count_at(iterations, 1),
        },
        solutions_found: None,
        max_depth: matching::u32_at(depth, 1),
        restarts: None,
    }
}

pub fn make_tree(
    search: &Option<Captures>,
    nodes: &Option<Captures>,
    iterations: &Option<Captures>,
    depth: &Option<Captures>,
) -> (out: TreeStats)
    ensures
        out == tree_from(
            matching::opt_groups(*search),
            matching::opt_groups(*nodes),
            matching::opt_groups(*iterations),
            matching::opt_groups(*depth),
        ),
{
    let nodes_explored = match matching::found_count(search, 2) {
        Some(n) => Some(n),
        None => matching::found_count(nodes, 1),
    };
    let simplex_iterations = match matching::found_count(search, 1) {
        Some(n) => Some(n),
        None => matching::found_count(iterations, 1),
    };
    TreeStats {
        nodes_explored,
        simplex_iterations,
        solutions_found: None,
        max_depth: matching::found_u32(depth, 1),
        restarts: None,
    }
}

/// The dimensions before and after presolve.
pub open spec fn presolve_from(problem: Option<Groups>, processed: Option<Groups>) -> PresolveStats {
    PresolveStats {
        rows_before: matching::count_at(problem, 2),
        cols_before: matching::count_at(problem, 3),
        nonzeros_before: matching::count_at(problem, 4),
        rows_after: matching::count_at(processed, 1),
        cols_after: matching::count_at(processed, 2),
        nonzeros_after: matching::count_at(processed, 3),
    }
}

pub fn make_presolve(problem: &Option<Captures>, processed: &Option<Captures>) -> (out:
    PresolveStats)
    ensures
        out == presolve_from(matching::opt_groups(*problem), matching::opt_groups(*processed)),
{
    PresolveStats {
        rows_before: matching::found_count(problem, 2),
        cols_before: matching::found_count(problem, 3),
        nonzeros_before: matching::found_count(problem, 4),
        rows_after: matching::found_count(processed, 1),
        cols_after: matching::found_count(processed, 2),
        nonzeros_after: matching::found_count(processed, 3),
    }
}

/// An objective value; a value past 1e40 stands for there being none.
pub open spec fn objective_of(s: Seq<char>) -> Option<RealView> {
    if numbers::reaches(s, numbers::SENTINEL@) {
        None
    } else {
        quantity::real_of(s)
    }
}

pub fn parse_obj(s: &[char]) -> (out: Option<Real>)
    ensures
        quantity::opt_real(out) == objective_of(s@),
{
    if numbers::past_sentinel(s) {
        None
    } else {
        Real::read(s)
    }
}

/// The time in group `i`; zero where it is none.
pub open spec fn time_or_zero(m: Groups, i: int) -> RealView {
    match quantity::real_of(matching::part(m, i)) {
        Some(t) => t,
        None => quantity::zero_real(),
    }
}

pub fn read_time(m: &Captures, i: usize) -> (out: Real)
    ensures
        out@ == time_or_zero(m@, i as int),
{
    let s = m.part(i);
    match Real::read(s.as_slice()) {
        Some(t) => t,
        None => Real::zero(),
    }
}

/// The row that a progress message gives.
pub open spec fn progress_row(m: Groups) -> RowView {
    RowView {
        time_seconds: time_or_zero(m, 5),
        nodes_explored: matching::count_at(Some(m), 1),
        primal: objective_of(matching::part(m, 3)),
        dual: matching::real_at(Some(m), 4),
        ..schema::empty_row()
    }
}

pub fn make_progress_row(m: Captures) -> (out: NodeSnapshot)
    ensures
        out@ == progress_row(m@),
{
    let time_seconds = read_time(&m, 5);
    let objective = m.part(3);
    let m = Some(m);
    NodeSnapshot {
        time_seconds,
        nodes_explored: matching::found_count(&m, 1),
        primal: parse_obj(objective.as_slice()),
        dual: matching::found_real(&m, 4),
        gap: None,
        depth: None,
        lp_iterations: None,
        event: None,
    }
}

/// The row that a message on a new incumbent gives.
pub open spec fn incumbent_row(m: Groups) -> RowView {
    RowView {
        time_seconds: time_or_zero(m, 4),
        nodes_explored: matching::count_at(Some(m), 3),
        primal: matching::real_at(Some(m), 1),
        lp_iterations: matching::count_at(Some(m), 2),
        event: Some(EventView::Heuristic),
        ..schema::empty_row()
    }
}

pub fn make_incumbent_row(m: Captures) -> (out: NodeSnapshot)
    ensures
        out@ == incumbent_row(m@),
{
    let time_seconds = read_time(&m, 4);
    let m = Some(m);
    NodeSnapshot {
        time_seconds,
        nodes_explored: matching::found_count(&m, 3),
        primal: matching::found_real(&m, 1),
        dual: None,
        gap: None,
        depth: None,
        lp_iterations: matching::found_count(&m, 2),
        event: Some(NodeEvent::Heuristic),
    }
}

/// What a pattern finds on a line that holds the code of a message.
pub open spec fn message(line: Seq<char>, code: Seq<char>, pattern: Seq<char>) -> Option<Groups> {
    if chars::contains(line, code) {
        matching::regex_captures(pattern, line)
    } else {
        None
    }
}

fn find_message(line: &[char], code: &str, pattern: &str) -> (out: Option<Captures>)
    ensures
        matching::opt_groups(out) == message(line@, code@, pattern@),
{
    if chars::has(line, code) {
        let text = chars::string_of(line);
        matching::captures(pattern, text.as_str())
    } else {
        None
    }
}

/// The row that a line gives, if it holds one of the two messages.
pub open spec fn row_in(line: Seq<char>) -> Option<RowView> {
    match message(line, "Cbc0010I"@, PROGRESS@) {
        Some(m) => Some(progress_row(m)),
        None => match message(line, "Cbc0004I"@, INCUMBENT@) {
            Some(m) => Some(incumbent_row(m)),
            None => None,
        },
    }
}

pub fn parse_row(line: &[char]) -> (out: Option<NodeSnapshot>)
    ensures
        schema::opt_row(out) == row_in(line@),
{
    if let Some(m) = find_message(line, "Cbc0010I", PROGRESS) {
        return Some(make_progress_row(m));
    }
    if let Some(m) = find_message(line, "Cbc0004I", INCUMBENT) {
        return Some(make_incumbent_row(m));
    }
    None
}

/// CBC has no progress table: its rows are messages throughout the log.
pub struct CbcTable;

impl TableFormat for CbcTable {
    open spec fn meaning(&self, scan: ScanView, any: bool, line: Seq<char>) -> (
        ScanView,
        StepView,
    ) {
        (scan, progress::row_or_pass(row_in(line)))
    }

    fn step(&self, scan: Scan, any: bool, line: &[char]) -> (out: (Scan, Step)) {
        (scan, progress::step_of(parse_row(line)))
    }
}

/// What one cut generator did.
pub open spec fn generator_of(m: Groups) -> Json {
    let e0 = json::no_entries();
    let e1 = entries::with_group(e0, m, 1, "name"@, Kind::Text);
    let e2 = entries::with_group(e1, m, 2, "row_cuts"@, Kind::Value);
    let e3 = entries::with_group(e2, m, 3, "column_cuts"@, Kind::Value);
    let e4 = entries::with_group(e3, m, 4, "active"@, Kind::Value);
    let e5 = entries::with_group(e4, m, 5, "time_seconds"@, Kind::Value);
    Json::Object(e5)
}

pub open spec fn generators_from(ms: Seq<Groups>) -> Seq<Json> {
    Seq::new(ms.len(), |i: int| generator_of(ms[i]))
}

pub fn collect_generators(ms: &Vec<Captures>) -> (out: Option<JsonValue>)
    ensures
        json::opt_json(out) == json::array_of(generators_from(matching::all_groups(ms@))),
{
    let mut out: Vec<JsonValue> = Vec::new();
    let mut i: usize = 0;
    let ghost all = generators_from(matching::all_groups(ms@));
    assert(json::jsons(out@) =~= all.take(0));
    while i < ms.len()
        invariant
            i <= ms@.len(),
            all == generators_from(matching::all_groups(ms@)),
            json::jsons(out@) == all.take(i as int),
        decreases ms@.len() - i,
    {
        let mut e = Entries::new();
        entries::put_group(&mut e, &ms[i], 1, "name", Kind::Text);
        entries::put_group(&mut e, &ms[i], 2, "row_cuts", Kind::Value);
        entries::put_group(&mut e, &ms[i], 3, "column_cuts", Kind::Value);
        entries::put_group(&mut e, &ms[i], 4, "active", Kind::Value);
        entries::put_group(&mut e, &ms[i], 5, "time_seconds", Kind::Value);
        let v = e.object();
        proof {
            json::lemma_jsons_push(out@, v);
        }
        out.push(v);
        assert(all.take(i + 1) =~= all.take(i as int).push(all[i as int]));
        i = i + 1;
    }
    assert(all.take(i as int) =~= all);
    json::some_array(out)
}

/// What strong branching did.
pub open spec fn branching_from(m: Option<Groups>) -> Option<Json> {
    let e0 = json::no_entries();
    let e1 = entries::with_found(e0, m, 1, "times"@, Kind::Value);
    let e2 = entries::with_found(e1, m, 2, "iterations"@, Kind::Value);
    let e3 = entries::with_found(e2, m, 3, "fathomed_nodes"@, Kind::Value);
    let e4 = entries::with_found(e3, m, 4, "fixed_variables"@, Kind::Value);
    json::object_of(e4)
}

pub fn make_branching(m: &Option<Captures>) -> (out: Option<JsonValue>)
    ensures
        json::opt_json(out) == branching_from(matching::opt_groups(*m)),
{
    let mut e = Entries::new();
    entries::put_found(&mut e, m, 1, "times", Kind::Value);
    entries::put_found(&mut e, m, 2, "iterations", Kind::Value);
    entries::put_found(&mut e, m, 3, "fathomed_nodes", Kind::Value);
    entries::put_found(&mut e, m, 4, "fixed_variables", Kind::Value);
    e.some_object()
}

/// What the cuts at the root node did.
pub open spec fn root_from(m: Option<Groups>) -> Option<Json> {
    let e0 = json::no_entries();
    let e1 = entries::with_found(e0, m, 1, "cuts"@, Kind::Value);
    let e2 = entries::with_found(e1, m, 2, "objective_before"@, Kind::Value);
    let e3 = entries::with_found(e2, m, 3, "objective_after"@, Kind::Value);
    let e4 = entries::with_found(e3, m, 4, "passes"@, Kind::Value);
    json::object_of(e4)
}

pub fn make_root(m: &Option<Captures>) -> (out: Option<JsonValue>)
    ensures
        json::opt_json(out) == root_from(matching::opt_groups(*m)),
{
    let mut e = Entries::new();
    entries::put_found(&mut e, m, 1, "cuts", Kind::Value);
    entries::put_found(&mut e, m, 2, "objective_before", Kind::Value);
    entries::put_found(&mut e, m, 3, "objective_after", Kind::Value);
    entries::put_found(&mut e, m, 4, "passes", Kind::Value);
    e.some_object()
}

/// The objective of the relaxation.
pub open spec fn continuous_from(m: Option<Groups>) -> Option<Json> {
    let e0 = json::no_entries();
    let e1 = entries::with_found(e0, m, 1, "value"@, Kind::Value);
    let e2 = entries::with_found(e1, m, 2, "time_seconds"@, Kind::Value);
    json::object_of(e2)
}

pub fn make_continuous(m: &Option<Captures>) -> (out: Option<JsonValue>)
    ensures
        json::opt_json(out) == continuous_from(matching::opt_groups(*m)),
{
    let mut e = Entries::new();
    entries::put_found(&mut e, m, 1, "value", Kind::Value);
    entries::put_found(&mut e, m, 2, "time_seconds", Kind::Value);
    e.some_object()
}

/// What only CBC reports.
pub open spec fn others_in(text: Seq<char>) -> Seq<(Seq<char>, Json)> {
    let o0 = progress::with_other(
        Seq::empty(),
        "cbc.cut_generators"@,
        json::array_of(generators_from(matching::regex_captures_iter(CUT_GENERATOR@, text))),
    );
    let o1 = progress::with_other(
        o0,
        "cbc.strong_branching"@,
        branching_from(matching::regex_captures(STRONG_BRANCHING@, text)),
    );
    let o2 = progress::with_other(
        o1,
        "cbc.root_lp"@,
        root_from(matching::regex_captures(ROOT_LP@, text)),
    );
    progress::with_other(
        o2,
        "cbc.continuous_objective"@,
        continuous_from(matching::regex_captures(CONTINUOUS@, text)),
    )
}

pub fn collect_others(text: &str) -> (out: Vec<NamedValue>)
    ensures
        schema::others_of(out@) == others_in(text@),
{
    let mut out: Vec<NamedValue> = Vec::new();
    assert(schema::others_of(out@) =~= Seq::empty());
    let generators = matching::captures_iter(CUT_GENERATOR, text);
    progress::add_other(&mut out, "cbc.cut_generators", collect_generators(&generators));
    let branching = matching::captures(STRONG_BRANCHING, text);
    progress::add_other(&mut out, "cbc.strong_branching", make_branching(&branching));
    let root = matching::captures(ROOT_LP, text);
    progress::add_other(&mut out, "cbc.root_lp", make_root(&root));
    let continuous = matching::captures(CONTINUOUS, text);
    progress::add_other(&mut out, "cbc.continuous_objective", make_continuous(&continuous));
    out
}

/// What is found in a CBC log.
#[verifier::opaque]
pub open spec fn log_in(text: Seq<char>) -> LogView {
    let problem = matching::regex_captures(PROBLEM@, text);
    let search = matching::regex_captures(PARTIAL_SEARCH@, text);
    let termination = termination_in(text);
    LogView {
        solver: Solver::Cbc,
        version: matching::text_at(matching::regex_captures(VERSION@, text), 1),
        solver_git_hash: None,
        problem: matching::text_at(problem, 1),
        termination,
        timing: timing_from(matching::regex_captures(TOTAL_TIME@, text), search),
        bounds: bounds_from(
            matching::regex_captures(OBJECTIVE@, text),
            matching::regex_captures(LP_OBJECTIVE@, text),
            matching::regex_captures(LOWER_BOUND@, text),
            matching::regex_captures(GAP@, text),
            matching::regex_captures(ROOT_BOUND@, text),
            matching::regex_captures(FIRST_SOLUTION@, text),
            termination.status,
        ),
        tree: tree_from(
            search,
            matching::regex_captures(ENUMERATED_NODES@, text),
            matching::regex_captures(TOTAL_ITERATIONS@, text),
            matching::regex_captures(MAX_DEPTH@, text),
        ),
        presolve: presolve_from(problem, matching::regex_captures(PROCESSED@, text)),
        cuts: progress::cuts_of(matching::regex_captures_iter(CUTS@, text), false, true),
        progress: progress::table_rows(CbcTable, text),
        other_data: others_in(text),
    }
}

/// The log is one of this solver.
pub proof fn lemma_solver(text: Seq<char>)
    ensures
        log_in(text).solver == Solver::Cbc,
{
    reveal(log_in);
}

pub struct CbcParser;

impl LogParser for CbcParser {
    open spec fn handles(&self) -> Solver {
        Solver::Cbc
    }

    open spec fn recognizes(&self, text: Seq<char>) -> bool {
        looks_right(text)
    }

    open spec fn reading(&self, text: Seq<char>) -> LogView {
        log_in(text)
    }

    fn solver(&self) -> (out: Solver) {
        Solver::Cbc
    }

    fn sniff(&self, text: &str) -> (out: bool) {
        let all = chars::chars_of(text);
        let all = all.as_slice();
        chars::has(all, "Welcome to the CBC MILP Solver") || (chars::has(all, "Cbc0") && chars::has(
            all,
            "CBC",
        ))
    }

    fn parse(&self, text: &str) -> (out: Result<SolverLog, ParseError>) {
        if !self.sniff(text) {
            return Err(ParseError::WrongSolver("cbc"));
        }
        proof {
            reveal(log_in);
        }
        let all = chars::chars_of(text);
        let version = matching::captures(VERSION, text);
        let problem = matching::captures(PROBLEM, text);
        let processed = matching::captures(PROCESSED, text);
        let search = matching::captures(PARTIAL_SEARCH, text);
        let total = matching::captures(TOTAL_TIME, text);
        let objective = matching::captures(OBJECTIVE, text);
        let lp = matching::captures(LP_OBJECTIVE, text);
        let lower = matching::captures(LOWER_BOUND, text);
        let gap = matching::captures(GAP, text);
        let root = matching::captures(ROOT_BOUND, text);
        let first = matching::captures(FIRST_SOLUTION, text);
        let nodes = matching::captures(ENUMERATED_NODES, text);
        let iterations = matching::captures(TOTAL_ITERATIONS, text);
        let depth = matching::captures(MAX_DEPTH, text);
        let cuts = matching::captures_iter(CUTS, text);
        let termination = read_termination(all.as_slice());
        Ok(
            SolverLog {
                solver: Solver::Cbc,
                parser: ParserInfo::current(),
                version: matching::found_text(&version, 1),
                solver_git_hash: None,
                problem: matching::found_text(&problem, 1),
                timing: make_timing(&total, &search),
                bounds: make_bounds(
                    &objective,
                    &lp,
                    &lower,
                    &gap,
                    &root,
                    &first,
                    termination.status,
                ),
                termination,
                tree: make_tree(&search, &nodes, &iterations, &depth),
                presolve: make_presolve(&problem, &processed),
                cuts: progress::collect_cuts(&cuts, false, true),
                progress: progress::read_table(&CbcTable, all.as_slice()),
                other_data: collect_others(text),
            },
        )
    }
}

/// An optimal run has a dual bound wherever it has a primal one. Where the
/// log has no line on the dual bound, the two are the same and the gap is
/// closed.
pub proof fn law_optimal_bounds_meet(text: Seq<char>)
    requires
        log_in(text).termination.status == Status::Optimal,
    ensures
        log_in(text).bounds.primal is Some ==> log_in(text).bounds.dual is Some,
        matching::real_at(matching::regex_captures(LOWER_BOUND@, text), 1) is None ==> {
            &&& log_in(text).bounds.dual == log_in(text).bounds.primal
            &&& log_in(text).bounds.gap == Some(quantity::zero_real())
        },
{
    reveal(log_in);
}

/// The names of the other data start with `cbc.`, and none occurs twice.
pub proof fn lemma_other_names(text: Seq<char>)
    ensures
        progress::are_named(log_in(text).other_data, "cbc"@),
{
    reveal(log_in);
    reveal_strlit("cbc");
    let key = "cbc"@;
    assert(progress::are_among(Seq::empty(), Set::empty(), key));
    reveal_strlit("cbc.cut_generators");
    reveal_strlit("cbc.strong_branching");
    reveal_strlit("cbc.root_lp");
    reveal_strlit("cbc.continuous_objective");
    assert("cbc.cut_generators"@.subrange(0, 4) =~= key.push('.'));
    progress::lemma_new_name(Set::empty(), "cbc.cut_generators"@, key);
    let names0 = Set::empty().insert("cbc.cut_generators"@);
    assert("cbc.strong_branching"@.subrange(0, 4) =~= key.push('.'));
    progress::lemma_new_name(names0, "cbc.strong_branching"@, key);
    let names1 = names0.insert("cbc.strong_branching"@);
    assert("cbc.root_lp"@.subrange(0, 4) =~= key.push('.'));
    progress::lemma_new_name(names1, "cbc.root_lp"@, key);
    let names2 = names1.insert("cbc.root_lp"@);
    assert("cbc.continuous_objective"@.subrange(0, 4) =~= key.push('.'));
    progress::lemma_new_name(names2, "cbc.continuous_objective"@, key);
}

pub proof fn lemma_cuts(text: Seq<char>)
    ensures
        table::counts_positive(log_in(text).cuts),
{
    reveal(log_in);
    progress::lemma_cuts_positive(matching::regex_captures_iter(CUTS@, text), false, true);
}

} // verus!
