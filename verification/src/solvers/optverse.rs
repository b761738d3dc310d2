//! OptVerse logs.

use crate::chars;
use crate::matching;
use crate::matching::{Captures, Groups};
use crate::numbers;
use crate::quantity;
use crate::quantity::{Real, RealView};
use crate::schema;
use crate::schema::{
    Bounds, BoundsView, EventView, LogView, NodeEvent, NodeSnapshot, PresolveStats,
    RowView, Solver, SolverLog, Status, Termination, TerminationView, Timing, TimingView,
    TreeStats,
};
use crate::solvers::progress;
use crate::solvers::progress::{Open, Scan, ScanView, Step, StepView, TableFormat};
use crate::table;
use crate::{LogParser, ParseError};
use vstd::prelude::*;

verus! {

pub const VERSION: &'static str = r"OptVerse Optimizer version\s+(\d+\.\d+\.\d+)";
pub const READ_PROBLEM: &'static str = r"Read problem\s+(\S+)";
pub const ORIGINAL: &'static str =
    r"(?m)^\s+([\d,]+)\s+rows,\s+([\d,]+)\s+columns\b.*?\band\s+([\d,]+)\s+nonzeros";
pub const PRESOLVED: &'static str =
    r"After presolve:\n\s+([\d,]+)\s+rows,\s+([\d,]+)\s+columns\b.*?\band\s+([\d,]+)\s+nonzeros";
pub const PRESOLVE_TIME: &'static str = r"Presolve time:\s*([\d.]+)s";
pub const BEST_SOLUTION: &'static str = r"Best solution\s+([-+\d.eE]+)";
pub const BEST_BOUND: &'static str = r"Best bound\s+([-+\d.eE]+)";
pub const GAP: &'static str = r"(?m)^\s+Gap\s+([\d.]+)%";
pub const NODE: &'static str = r"(?m)^\s+Node\s+([\d,]+)";
pub const LP_ITERATION: &'static str = r"(?m)^\s+LP iteration\s+([\d,]+)";
pub const TIME: &'static str = r"(?m)^\s+Time\s+([\d.]+)";

/// Which texts look like an OptVerse log.
pub open spec fn looks_right(text: Seq<char>) -> bool {
    chars::contains(text, "OptVerse Optimizer"@) || chars::contains(text, "Optverse license"@)
}

/// The status that the words of the status line stand for.
pub open spec fn status_of(s: Seq<char>) -> Status {
    if chars::contains(s, "Optimal"@) {
        Status::Optimal
    } else if chars::contains(s, "infeasible"@) || chars::contains(s, "Infeasible"@) {
        Status::Infeasible
    } else if chars::contains(s, "unbounded"@) || chars::contains(s, "Unbounded"@) {
        Status::Unbounded
    } else if chars::contains(s, "Time limit"@) || chars::contains(s, "time limit"@) {
        Status::TimeLimit
    } else if chars::contains(s, "Memory"@) || chars::contains(s, "memory"@) {
        Status::MemoryLimit
    } else if chars::contains(s, "Node limit"@) || chars::contains(s, "node limit"@) {
        Status::OtherLimit
    } else {
        Status::Unknown
    }
}

/// Why the run stopped: the first status line says it.
pub open spec fn termination_in(text: Seq<char>) -> TerminationView {
    match progress::first_labelled(chars::lines(text), "Status"@) {
        Some(rest) => TerminationView {
            status: status_of(chars::trimmed(rest)),
            raw_reason: Some(chars::trimmed(rest)),
        },
        None => schema::no_termination(),
    }
}

pub fn classify(s: &[char]) -> (out: Status)
    ensures
        out == status_of(s@),
{
    if chars::has(s, "Optimal") {
        Status::Optimal
    } else if chars::has(s, "infeasible") || chars::has(s, "Infeasible") {
        Status::Infeasible
    } else if chars::has(s, "unbounded") || chars::has(s, "Unbounded") {
        Status::Unbounded
    } else if chars::has(s, "Time limit") || chars::has(s, "time limit") {
        Status::TimeLimit
    } else if chars::has(s, "Memory") || chars::has(s, "memory") {
        Status::MemoryLimit
    } else if chars::has(s, "Node limit") || chars::has(s, "node limit") {
        Status::OtherLimit
    } else {
        Status::Unknown
    }
}

pub fn read_termination(text: &[char]) -> (out: Termination)
    ensures
        out@ == termination_in(text@),
{
    let lines = chars::split_lines(text);
    match progress::find_labelled(&lines, "Status") {
        Some(rest) => {
            let s = chars::trim(rest);
            Termination { status: classify(s), raw_reason: Some(chars::string_of(s)) }
        },
        None => Termination::default(),
    }
}

/// A number; none where dashes, nothing or `inf` stand for it.
pub open spec fn number_of(s: Seq<char>) -> Option<RealView> {
    let t = chars::trimmed(s);
    if t == "--"@ || t == "-"@ || t.len() == 0 || chars::ascii_lowered(t) == "inf"@ {
        None
    } else {
        quantity::real_of(t)
    }
}

pub fn parse_optverse_num(s: &[char]) -> (out: Option<Real>)
    ensures
        quantity::opt_real(out) == number_of(s@),
{
    let t = chars::trim(s);
    let low = chars::lower(t);
    if chars::same(t, "--") || chars::same(t, "-") || t.len() == 0 || chars::same(
        low.as_slice(),
        "inf",
    ) {
        None
    } else {
        Real::read(t)
    }
}

pub open spec fn number_at(m: Option<Groups>) -> Option<RealView> {
    match matching::text_at(m, 1) {
        Some(s) => number_of(s),
        None => None,
    }
}

fn found_number(m: &Option<Captures>) -> (out: Option<Real>)
    ensures
        quantity::opt_real(out) == number_at(matching::opt_groups(*m)),
{
    match matching::found(m, 1) {
        Some(s) => parse_optverse_num(s.as_slice()),
        None => None,
    }
}

/// The bounds of the results.
pub open spec fn bounds_from(
    solution: Option<Groups>,
    bound: Option<Groups>,
    gap: Option<Groups>,
) -> BoundsView {
    BoundsView {
        primal: number_at(solution),
        dual: number_at(bound),
        gap: matching::percent_at(gap, 1),
        ..schema::no_bounds()
    }
}

pub fn make_bounds(
    solution: &Option<Captures>,
    bound: &Option<Captures>,
    gap: &Option<Captures>,
) -> (out: Bounds)
    ensures
        out@ == bounds_from(
            matching::opt_groups(*solution),
            matching::opt_groups(*bound),
            matching::opt_groups(*gap),
        ),
{
    Bounds {
        primal: found_number(solution),
        dual: found_number(bound),
        gap: matching::found_percent(gap, 1),
        root_dual: None,
        first_primal: None,
        first_primal_time_seconds: None,
        primal_dual_integral: None,
    }
}

/// The times.
pub open spec fn timing_from(time: Option<Groups>, presolve: Option<Groups>) -> TimingView {
    TimingView {
        wall_seconds: matching::real_at(time, 1),
        presolve_seconds: matching::real_at(presolve, 1),
        ..schema::no_timing()
    }
}

pub fn make_timing(time: &Option<Captures>, presolve: &Option<Captures>) -> (out: Timing)
    ensures
        out@ == timing_from(matching::opt_groups(*time), matching::opt_groups(*presolve)),
{
    Timing {
        wall_seconds: matching::found_real(time, 1),
        cpu_seconds: None,
        reading_seconds: None,
        presolve_seconds: matching::found_real(presolve, 1),
        root_relaxation_seconds: None,
    }
}

/// The counts of the search.
pub open spec fn tree_from(node: Option<Groups>, iteration: Option<Groups>) -> TreeStats {
    TreeStats {
        nodes_explored: matching::count_at(node, 1),
        simplex_iterations: matching::count_at(iteration, 1),
        ..schema::no_tree()
    }
}

pub fn make_tree(node: &Option<Captures>, iteration: &Option<Captures>) -> (out: TreeStats)
    ensures
        out == tree_from(matching::opt_groups(*node), matching::opt_groups(*iteration)),
{
    TreeStats {
        nodes_explored: matching::found_count(node, 1),
        simplex_iterations: matching::found_count(iteration, 1),
        solutions_found: None,
        max_depth: None,
        restarts: None,
    }
}

/// The dimensions before and after presolve.
pub open spec fn presolve_from(original: Option<Groups>, presolved: Option<Groups>) -> PresolveStats {
    PresolveStats {
        rows_before: matching::count_at(original, 1),
        cols_before: matching::count_at(original, 2),
        nonzeros_before: matching::count_at(original, 3),
        rows_after: matching::count_at(presolved, 1),
        cols_after: matching::count_at(presolved, 2),
        nonzeros_after: matching::count_at(presolved, 3),
    }
}

pub fn make_presolve(original: &Option<Captures>, presolved: &Option<Captures>) -> (out:
    PresolveStats)
    ensures
        out == presolve_from(matching::opt_groups(*original), matching::opt_groups(*presolved)),
{
    PresolveStats {
        rows_before: matching::found_count(original, 1),
        cols_before: matching::found_count(original, 2),
        nonzeros_before: matching::found_count(original, 3),
        rows_after: matching::found_count(presolved, 1),
        cols_after: matching::found_count(presolved, 2),
        nonzeros_after: matching::found_count(presolved, 3),
    }
}

/// The first two bytes of a line, where characters end there.
pub open spec fn two_bytes(line: Seq<char>) -> Option<Seq<char>> {
    if line.len() >= 1 && progress::utf8_len(line[0]) == 2 {
        Some(line.take(1))
    } else if line.len() >= 2 && progress::utf8_len(line[0]) + progress::utf8_len(line[1]) == 2 {
        Some(line.take(2))
    } else {
        None
    }
}

/// The event that the margin of a row stands for: a marker is one ASCII character.
pub open spec fn margin_event(margin: Seq<char>) -> Option<EventView> {
    let marker = chars::trimmed(margin);
    if marker.len() == 1 && progress::utf8_len(marker[0]) == 1 {
        progress::event_of(marker[0])
    } else {
        None
    }
}

/// A row of the progress table: seven columns, of which the first is the
/// time, behind a marker on rows with a new incumbent.
pub open spec fn row_in(line: Seq<char>) -> Option<RowView> {
    let toks = chars::words(line);
    match two_bytes(line) {
        Some(margin) => {
            let k: int = if toks.len() >= 7 && chars::ends_with(toks[0], "s"@) {
                0
            } else if toks.len() >= 8 && chars::ends_with(toks[1], "s"@) {
                1
            } else {
                -1
            };
            if k < 0 {
                None
            } else {
                match progress::time_of(toks[k]) {
                    Some(time) => Some(
                        RowView {
                            time_seconds: time,
                            nodes_explored: numbers::u64_of(chars::without(toks[k + 1], ',')),
                            primal: number_of(toks[k + 5]),
                            dual: number_of(toks[k + 4]),
                            gap: progress::gap_of(toks[k + 6]),
                            depth: None,
                            lp_iterations: None,
                            event: margin_event(margin),
                        },
                    ),
                    None => None,
                }
            }
        },
        None => None,
    }
}

fn read_two_bytes(line: &[char]) -> (out: Option<&[char]>)
    ensures
        chars::opt_view(out) == two_bytes(line@),
{
    if line.len() >= 1 && progress::byte_len(line[0]) == 2 {
        Some(chars::upto(line, 1))
    } else if line.len() >= 2 && progress::byte_len(line[0]) + progress::byte_len(line[1]) == 2 {
        Some(chars::upto(line, 2))
    } else {
        None
    }
}

fn read_margin_event(margin: &[char]) -> (out: Option<NodeEvent>)
    ensures
        schema::opt_event(out) == margin_event(margin@),
{
    let marker = chars::trim(margin);
    if marker.len() == 1 && progress::byte_len(marker[0]) == 1 {
        progress::event_from_marker(marker[0])
    } else {
        None
    }
}

pub fn parse_row(line: &[char]) -> (out: Option<NodeSnapshot>)
    ensures
        schema::opt_row(out) == row_in(line@),
{
    let margin = read_two_bytes(line)?;
    let toks = chars::split_words(line);
    let ghost words = chars::words(line@);
    assert(words.len() == toks@.len());
    assert(forall|i: int| 0 <= i < toks@.len() ==> words[i] == (#[trigger] toks@[i])@);
    let k: usize = if toks.len() >= 7 && chars::closes(toks[0], "s") {
        0
    } else if toks.len() >= 8 && chars::closes(toks[1], "s") {
        1
    } else {
        return None;
    };
    let time = progress::parse_time_token(toks[k])?;
    let nodes = chars::drop_char(toks[k + 1], ',');
    Some(
        NodeSnapshot {
            time_seconds: time,
            nodes_explored: numbers::read_u64(nodes.as_slice()),
            primal: parse_optverse_num(toks[k + 5]),
            dual: parse_optverse_num(toks[k + 4]),
            gap: progress::parse_gap(toks[k + 6]),
            depth: None,
            lp_iterations: None,
            event: read_margin_event(margin),
        },
    )
}

/// The OptVerse progress table. Its header may come again; the results end it.
pub struct OptverseTable;

impl TableFormat for OptverseTable {
    open spec fn meaning(&self, scan: ScanView, any: bool, line: Seq<char>) -> (
        ScanView,
        StepView,
    ) {
        let s = chars::trimmed(line);
        if scan.open == Open::No {
            if chars::contains(line, "Time"@) && chars::contains(line, "Solved"@)
                && chars::contains(line, "BestBound"@) {
                (ScanView { open: Open::Tree, ..scan }, StepView::Pass)
            } else {
                (scan, StepView::Pass)
            }
        } else if chars::blank(line) || (chars::starts_with(s, "Time"@) && chars::contains(
            s,
            "BestBound"@,
        )) {
            (scan, StepView::Pass)
        } else if chars::starts_with(s, "Solve results"@) || chars::starts_with(s, "Write best"@)
            || chars::starts_with(s, "Status"@) {
            (scan, StepView::Stop)
        } else {
            (scan, progress::row_or_pass(row_in(line)))
        }
    }

    fn step(&self, scan: Scan, any: bool, line: &[char]) -> (out: (Scan, Step)) {
        if scan.open == Open::No {
            if chars::has(line, "Time") && chars::has(line, "Solved") && chars::has(
                line,
                "BestBound",
            ) {
                return (Scan { open: Open::Tree, clock: scan.clock }, Step::Pass);
            }
            return (scan, Step::Pass);
        }
        let s = chars::trim(line);
        if chars::is_blank(line) || (chars::begins(s, "Time") && chars::has(s, "BestBound")) {
            return (scan, Step::Pass);
        }
        if chars::begins(s, "Solve results") || chars::begins(s, "Write best") || chars::begins(
            s,
            "Status",
        ) {
            return (scan, Step::Stop);
        }
        (scan, progress::step_of(parse_row(line)))
    }
}

/// What is found in an OptVerse log.
#[verifier::opaque]
pub open spec fn log_in(text: Seq<char>) -> LogView {
    LogView {
        version: matching::text_at(matching::regex_captures(VERSION@, text), 1),
        problem: progress::problem_in(
            matching::text_at(matching::regex_captures(READ_PROBLEM@, text), 1),
        ),
        termination: termination_in(text),
        timing: timing_from(
            matching::regex_captures(TIME@, text),
            matching::regex_captures(PRESOLVE_TIME@, text),
        ),
        bounds: bounds_from(
            matching::regex_captures(BEST_SOLUTION@, text),
            matching::regex_captures(BEST_BOUND@, text),
            matching::regex_captures(GAP@, text),
        ),
        tree: tree_from(
            matching::regex_captures(NODE@, text),
            matching::regex_captures(LP_ITERATION@, text),
        ),
        presolve: presolve_from(
            matching::regex_captures(ORIGINAL@, text),
            matching::regex_captures(PRESOLVED@, text),
        ),
        progress: progress::table_rows(OptverseTable, text),
        ..schema::empty_log(Solver::Optverse)
    }
}

/// The log is one of this solver.
pub proof fn lemma_solver(text: Seq<char>)
    ensures
        log_in(text).solver == Solver::Optverse,
{
    reveal(log_in);
}

pub struct OptverseParser;

impl LogParser for OptverseParser {
    open spec fn handles(&self) -> Solver {
        Solver::Optverse
    }

    open spec fn recognizes(&self, text: Seq<char>) -> bool {
        looks_right(text)
    }

    open spec fn reading(&self, text: Seq<char>) -> LogView {
        log_in(text)
    }

    fn solver(&self) -> (out: Solver) {
        Solver::Optverse
    }

    fn sniff(&self, text: &str) -> (out: bool) {
        let all = chars::chars_of(text);
        chars::has(all.as_slice(), "OptVerse Optimizer") || chars::has(
            all.as_slice(),
            "Optverse license",
        )
    }

    fn parse(&self, text: &str) -> (out: Result<SolverLog, ParseError>) {
        if !self.sniff(text) {
            return Err(ParseError::WrongSolver("optverse"));
        }
        proof {
            reveal(log_in);
        }
        let all = chars::chars_of(text);
        let version = matching::captures(VERSION, text);
        let problem = matching::captures(READ_PROBLEM, text);
        let original = matching::captures(ORIGINAL, text);
        let presolved = matching::captures(PRESOLVED, text);
        let presolve_time = matching::captures(PRESOLVE_TIME, text);
        let solution = matching::captures(BEST_SOLUTION, text);
        let bound = matching::captures(BEST_BOUND, text);
        let gap = matching::captures(GAP, text);
        let node = matching::captures(NODE, text);
        let iteration = matching::captures(LP_ITERATION, text);
        let time = matching::captures(TIME, text);
        let mut log = SolverLog::new(Solver::Optverse);
        log.version = matching::found_text(&version, 1);
        log.problem = progress::problem_from_path(&problem, 1);
        log.termination = read_termination(all.as_slice());
        log.timing = make_timing(&time, &presolve_time);
        log.bounds = make_bounds(&solution, &bound, &gap);
        log.tree = make_tree(&node, &iteration);
        log.presolve = make_presolve(&original, &presolved);
        log.progress = progress::read_table(&OptverseTable, all.as_slice());
        Ok(log)
    }
}

/// There are no other data.
pub proof fn lemma_other_names(text: Seq<char>)
    ensures
        log_in(text).other_data.len() == 0,
{
    reveal(log_in);
}

pub proof fn lemma_cuts(text: Seq<char>)
    ensures
        table::counts_positive(log_in(text).cuts),
{
    reveal(log_in);
}

} // verus!
