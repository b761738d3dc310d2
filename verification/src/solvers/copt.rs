//! COPT (Cardinal Optimizer) logs.

use crate::chars;
use crate::json;
use crate::json::{Entries, Json, JsonValue};
use crate::matching;
use crate::matching::{Captures, Groups, Margin};
use crate::numbers;
use crate::quantity;
use crate::quantity::{Real, RealView};
use crate::schema;
use crate::schema::{
    Bounds, BoundsView, LogView, NamedValue, NodeSnapshot, ParserInfo, PresolveStats, RowView,
    Solver, SolverLog, Status, Termination, TerminationView, Timing, TimingView, TreeStats,
};
use crate::solvers::entries;
use crate::solvers::entries::Kind;
use crate::solvers::progress;
use crate::solvers::progress::{Open, Scan, ScanView, Step, StepView, TableFormat};
use crate::table;
use crate::{LogParser, ParseError};
use vstd::prelude::*;

verus! {

pub const VERSION: &'static str = r"Cardinal Optimizer\s+v(\d+\.\d+\.\d+)";
pub const READING: &'static str = r"Reading from '([^']+)'";
pub const ORIGINAL: &'static str =
    r"(?m)^\s+([\d,]+)\s+rows,\s+([\d,]+)\s+columns\s+and\s+([\d,]+)\s+non-zero";
pub const PRESOLVED: &'static str =
    r"The presolved problem has:\n\s+([\d,]+)\s+rows,\s+([\d,]+)\s+columns\s+and\s+([\d,]+)\s+non-zero";
pub const LP_STATUS: &'static str =
    r"(?m)^Status:\s+(\S+)\s+Objective:\s+([-\d.eE+]+)(?:\s+Iterations:\s+(\d+))?(?:\s+Time:\s+([\d.]+))?";
pub const BEST_SOLUTION: &'static str = r"Best solution\s*:\s*([-+\d.eE+inf]+)";
pub const BEST_BOUND: &'static str = r"Best bound\s*:\s*([-+\d.eE+inf]+)";
pub const BEST_GAP: &'static str = r"Best gap\s*:\s*([\d.]+)%";
pub const SOLVE_TIME: &'static str = r"Solve time\s*:\s*([\d.]+)";
pub const SOLVE_NODE: &'static str = r"Solve node\s*:\s*([\d,]+)";
pub const PLATFORM: &'static str = r"Cardinal Optimizer\s+\S+\s+on\s+(.+)";
pub const CPU: &'static str = r"The CPU model is\s+(.+)";
pub const HARDWARE: &'static str =
    r"Hardware has\s+(\d+)\s+physical cores?\s+and\s+(\d+)\s+logical cores?\.\s*Using instruction set\s+(\S+)";
pub const RUN_CONFIG: &'static str =
    r"Starting the MIP solver with\s+(\d+)\s+threads? and\s+(\d+)\s+tasks?";
pub const FINGERPRINT: &'static str = r"Model fingerprint:\s+(\S+)";
pub const ORIGINAL_HEADER: &'static str = r"(?m)^The original problem has:";
pub const BEFORE_LINE: &'static str = r"^\s+(\d+)\s+(binaries|integers|continuous)";
pub const PRESOLVED_HEADER: &'static str = r"(?m)^The presolved problem has:";
pub const AFTER_LINE: &'static str = r"(\d+)\s+(binaries|integers|continuous)";
pub const RANGES: &'static str =
    r"Range of (matrix|rhs|bound|cost) coefficients:\s*\[([^,]+),([^\]]+)\]";
pub const VIOLATIONS_HEADER: &'static str = r"(?m)^Violations\s*:";
pub const VIOLATIONS_ROW: &'static str =
    r"^\s+(bounds|rows|integrality)\s*:\s+([\d.eE+\-]+)\s+([\d.eE+\-]+)?";

/// Which texts look like a COPT log.
pub open spec fn looks_right(text: Seq<char>) -> bool {
    chars::contains(text, "Cardinal Optimizer"@) || chars::contains(text, "Exiting COPT"@)
}

/// The status that a pure LP run reports.
pub open spec fn lp_status(s: Seq<char>) -> Status {
    if s == "Optimal"@ {
        Status::Optimal
    } else if s == "Infeasible"@ {
        Status::Infeasible
    } else if s == "Unbounded"@ {
        Status::Unbounded
    } else {
        Status::Unknown
    }
}

/// What a `MIP status` line says behind its label.
pub open spec fn mip_words(rest: Seq<char>) -> Seq<char> {
    chars::trimmed(chars::front_trimmed(chars::front_trimmed(rest, ""@, true), ":"@, false))
}

/// The status that the words of a `MIP status` line stand for.
pub open spec fn mip_status(s: Seq<char>) -> Status {
    if chars::contains(s, "time limit"@) {
        Status::TimeLimit
    } else if chars::contains(s, "memory"@) {
        Status::MemoryLimit
    } else if chars::contains(s, "node limit"@) || chars::contains(s, "iteration limit"@) {
        Status::OtherLimit
    } else if s == "solved"@ {
        Status::Optimal
    } else {
        Status::Unknown
    }
}

/// What a `Solution status` line settles: an optimum or infeasibility.
pub open spec fn settled(s: Seq<char>) -> Option<Status> {
    if chars::starts_with(s, "integer optimal"@) {
        Some(Status::Optimal)
    } else if s == "infeasible"@ {
        Some(Status::Infeasible)
    } else {
        None
    }
}

/// Why the run stopped: a `Solution status` line that settles it does; else
/// the first `MIP status` line that has a meaning.
pub open spec fn termination_after(
    lines: Seq<Seq<char>>,
    so_far: TerminationView,
) -> TerminationView
    decreases lines.len(),
{
    if lines.len() == 0 {
        so_far
    } else {
        let line = chars::trimmed(lines[0]);
        let solution = match chars::after_prefix(line, "Solution status :"@) {
            Some(rest) => Some(chars::trimmed(rest)),
            None => None,
        };
        match solution {
            Some(s) => match settled(s) {
                Some(status) => TerminationView { status, raw_reason: Some(s) },
                None => termination_after(lines.skip(1), so_far),
            },
            None => match chars::after_prefix(line, "MIP status"@) {
                Some(rest) => if so_far.status != Status::Unknown {
                    termination_after(lines.skip(1), so_far)
                } else {
                    let s = mip_words(rest);
                    termination_after(
                        lines.skip(1),
                        TerminationView { status: mip_status(s), raw_reason: Some(s) },
                    )
                },
                None => termination_after(lines.skip(1), so_far),
            },
        }
    }
}

/// The status of a limit that a `MIP status` line reports.
pub open spec fn limit_status(s: Seq<char>) -> Status {
    if chars::contains(s, "time limit"@) {
        Status::TimeLimit
    } else if chars::contains(s, "memory"@) {
        Status::MemoryLimit
    } else {
        Status::Unknown
    }
}

/// Why the run stopped, from the lines of a MIP run. Where they leave it
/// open, the first `MIP status` line gives the reason.
pub open spec fn mip_termination(text: Seq<char>) -> TerminationView {
    let lines = chars::lines(text);
    let first = termination_after(lines, schema::no_termination());
    if first.status != Status::Unknown {
        first
    } else {
        match progress::first_labelled(lines, "MIP status"@) {
            Some(rest) => TerminationView {
                status: limit_status(mip_words(rest)),
                raw_reason: Some(mip_words(rest)),
            },
            None => first,
        }
    }
}

/// Why the run stopped: the summary of a pure LP run says it, or else the
/// lines of a MIP run.
pub open spec fn termination_from(text: Seq<char>, lp: Option<Groups>) -> TerminationView {
    match lp {
        Some(g) => TerminationView {
            status: lp_status(matching::part(g, 1)),
            raw_reason: Some(matching::part(g, 1)),
        },
        None => mip_termination(text),
    }
}

pub fn classify_lp(s: &[char]) -> (out: Status)
    ensures
        out == lp_status(s@),
{
    if chars::same(s, "Optimal") {
        Status::Optimal
    } else if chars::same(s, "Infeasible") {
        Status::Infeasible
    } else if chars::same(s, "Unbounded") {
        Status::Unbounded
    } else {
        Status::Unknown
    }
}

pub fn classify_mip(s: &[char]) -> (out: Status)
    ensures
        out == mip_status(s@),
{
    if chars::has(s, "time limit") {
        Status::TimeLimit
    } else if chars::has(s, "memory") {
        Status::MemoryLimit
    } else if chars::has(s, "node limit") || chars::has(s, "iteration limit") {
        Status::OtherLimit
    } else if chars::same(s, "solved") {
        Status::Optimal
    } else {
        Status::Unknown
    }
}

pub fn classify_solution(s: &[char]) -> (out: Option<Status>)
    ensures
        out == settled(s@),
{
    if chars::begins(s, "integer optimal") {
        Some(Status::Optimal)
    } else if chars::same(s, "infeasible") {
        Some(Status::Infeasible)
    } else {
        None
    }
}

fn read_mip_words<'a>(rest: &'a [char]) -> (out: &'a [char])
    ensures
        out@ == mip_words(rest@),
{
    chars::trim(chars::trim_front(chars::trim_front(rest, "", true), ":", false))
}

fn scan_status(lines: &Vec<&[char]>) -> (out: Termination)
    ensures
        out@ == termination_after(chars::views(lines@), schema::no_termination()),
{
    let ghost all = chars::views(lines@);
    let mut so_far = Termination::default();
    let mut i: usize = 0;
    assert(all.skip(0) =~= all);
    while i < lines.len()
        invariant
            i <= lines@.len(),
            chars::views(lines@) == all,
            termination_after(all.skip(i as int), so_far@) == termination_after(
                all,
                schema::no_termination(),
            ),
        decreases lines@.len() - i,
    {
        assert(all.skip(i as int)[0] == lines@[i as int]@);
        assert(all.skip(i as int).skip(1) =~= all.skip(i + 1));
        let line = chars::trim(lines[i]);
        if let Some(rest) = chars::strip_front(line, "Solution status :") {
            let s = chars::trim(rest);
            if let Some(status) = classify_solution(s) {
                return Termination { status, raw_reason: Some(chars::string_of(s)) };
            }
        } else if let Some(rest) = chars::strip_front(line, "MIP status") {
            if so_far.status == Status::Unknown {
                let s = read_mip_words(rest);
                so_far =
                Termination {
                    status: classify_mip(s),
                    raw_reason: Some(chars::string_of(s)),
                };
            }
        }
        i = i + 1;
    }
    assert(all.skip(i as int) =~= Seq::empty());
    so_far
}

pub fn read_mip_termination(text: &[char]) -> (out: Termination)
    ensures
        out@ == mip_termination(text@),
{
    let lines = chars::split_lines(text);
    let first = scan_status(&lines);
    if first.status != Status::Unknown {
        return first;
    }
    match progress::find_labelled(&lines, "MIP status") {
        Some(rest) => {
            let s = read_mip_words(rest);
            let status = if chars::has(s, "time limit") {
                Status::TimeLimit
            } else if chars::has(s, "memory") {
                Status::MemoryLimit
            } else {
                Status::Unknown
            };
            Termination { status, raw_reason: Some(chars::string_of(s)) }
        },
        None => first,
    }
}

pub fn make_termination(text: &[char], lp: &Option<Captures>) -> (out: Termination)
    ensures
        out@ == termination_from(text@, matching::opt_groups(*lp)),
{
    match lp {
        Some(c) => {
            let s = c.part(1);
            Termination {
                status: classify_lp(s.as_slice()),
                raw_reason: Some(chars::string_of(s.as_slice())),
            }
        },
        None => read_mip_termination(text),
    }
}

/// A bound of the summary; none where it is infinite or `--`.
pub open spec fn bound_of(s: Seq<char>) -> Option<RealView> {
    let t = chars::trimmed(s);
    if t == "+inf"@ || t == "-inf"@ || t == "inf"@ || t == "--"@ {
        None
    } else {
        quantity::real_of(t)
    }
}

pub fn parse_copt_bound(s: &[char]) -> (out: Option<Real>)
    ensures
        quantity::opt_real(out) == bound_of(s@),
{
    let t = chars::trim(s);
    if chars::same(t, "+inf") || chars::same(t, "-inf") || chars::same(t, "inf") || chars::same(
        t,
        "--",
    ) {
        None
    } else {
        Real::read(t)
    }
}

pub open spec fn bound_at(m: Option<Groups>) -> Option<RealView> {
    match matching::text_at(m, 1) {
        Some(s) => bound_of(s),
        None => None,
    }
}

fn found_bound(m: &Option<Captures>) -> (out: Option<Real>)
    ensures
        quantity::opt_real(out) == bound_at(matching::opt_groups(*m)),
{
    match matching::found(m, 1) {
        Some(s) => parse_copt_bound(s.as_slice()),
        None => None,
    }
}

/// The first row that reports an incumbent: one with an event and a primal bound.
pub open spec fn first_incumbent(rows: Seq<RowView>) -> Option<RowView>
    decreases rows.len(),
{
    if rows.len() == 0 {
        None
    } else if rows[0].event is Some && rows[0].primal is Some {
        Some(rows[0])
    } else {
        first_incumbent(rows.skip(1))
    }
}

pub fn find_first_incumbent(rows: &schema::ProgressTable) -> (out: Option<usize>)
    requires
        rows.well_formed(),
    ensures
        out matches Some(i) ==> i < rows@.len() && first_incumbent(rows@) == Some(rows@[i as int])
            && rows@[i as int].primal is Some,
        out is None ==> first_incumbent(rows@) is None,
{
    let mut i: usize = 0;
    assert(rows@.skip(0) =~= rows@);
    while i < rows.len()
        invariant
            i <= rows@.len(),
            rows.well_formed(),
            first_incumbent(rows@) == first_incumbent(rows@.skip(i as int)),
        decreases rows@.len() - i,
    {
        assert(rows@.skip(i as int)[0] == rows@[i as int]);
        assert(rows@.skip(i as int).skip(1) =~= rows@.skip(i + 1));
        if rows.event[i].is_some() && rows.primal[i].is_some() {
            return Some(i);
        }
        i = i + 1;
    }
    assert(rows@.skip(i as int) =~= Seq::empty());
    None
}

/// A pure LP run that was solved.
pub open spec fn lp_solved(lp: Option<Groups>) -> bool {
    lp is Some && lp_status(matching::part(lp->Some_0, 1)) == Status::Optimal
}

/// The bounds of the summary, or else the optimum of a pure LP run as both;
/// the first incumbent and the root bound are taken from the rows.
pub open spec fn bounds_from(
    lp: Option<Groups>,
    solution: Option<Groups>,
    bound: Option<Groups>,
    gap: Option<Groups>,
    rows: Seq<RowView>,
) -> BoundsView {
    let optimum = if lp_solved(lp) {
        matching::real_at(lp, 2)
    } else {
        None
    };
    let first = first_incumbent(rows);
    BoundsView {
        primal: if solution is Some {
            bound_at(solution)
        } else {
            optimum
        },
        dual: if bound is Some {
            bound_at(bound)
        } else {
            optimum
        },
        gap: if gap is Some {
            matching::percent_at(gap, 1)
        } else if lp_solved(lp) {
            Some(quantity::zero_real())
        } else {
            None
        },
        root_dual: progress::first_dual(rows),
        first_primal: match first {
            Some(row) => row.primal,
            None => None,
        },
        first_primal_time_seconds: match first {
            Some(row) => Some(row.time_seconds),
            None => None,
        },
        primal_dual_integral: None,
    }
}

pub fn make_bounds(
    lp: &Option<Captures>,
    solution: &Option<Captures>,
    bound: &Option<Captures>,
    gap: &Option<Captures>,
    rows: &schema::ProgressTable,
) -> (out: Bounds)
    requires
        rows.well_formed(),
    ensures
        out@ == bounds_from(
            matching::opt_groups(*lp),
            matching::opt_groups(*solution),
            matching::opt_groups(*bound),
            matching::opt_groups(*gap),
            rows@,
        ),
{
    let solved = match lp {
        Some(c) => {
            let s = c.part(1);
            classify_lp(s.as_slice()) == Status::Optimal
        },
        None => false,
    };
    let primal = if solution.is_some() {
        found_bound(solution)
    } else if solved {
        matching::found_real(lp, 2)
    } else {
        None
    };
    let dual = if bound.is_some() {
        found_bound(bound)
    } else if solved {
        matching::found_real(lp, 2)
    } else {
        None
    };
    let gap = if gap.is_some() {
        matching::found_percent(gap, 1)
    } else if solved {
        Some(Real::zero())
    } else {
        None
    };
    let mut first_primal: Option<Real> = None;
    let mut first_time: Option<Real> = None;
    if let Some(i) = find_first_incumbent(rows) {
        first_primal = quantity::copy_opt(&rows.primal[i]);
        first_time = Some(rows.time_seconds[i].copy());
    }
    Bounds {
        primal,
        dual,
        gap,
        root_dual: progress::find_first_dual(rows),
        first_primal,
        first_primal_time_seconds: first_time,
        primal_dual_integral: None,
    }
}

/// The times: of the summary, or else that of a pure LP run.
pub open spec fn timing_from(lp: Option<Groups>, solve: Option<Groups>) -> TimingView {
    TimingView {
        wall_seconds: if solve is Some {
            matching::real_at(solve, 1)
        } else {
            matching::real_at(lp, 4)
        },
        ..schema::no_timing()
    }
}

pub fn make_timing(lp: &Option<Captures>, solve: &Option<Captures>) -> (out: Timing)
    ensures
        out@ == timing_from(matching::opt_groups(*lp), matching::opt_groups(*solve)),
{
    let wall_seconds = if solve.is_some() {
        matching::found_real(solve, 1)
    } else {
        matching::found_real(lp, 4)
    };
    Timing {
        wall_seconds,
        cpu_seconds: None,
        reading_seconds: None,
        presolve_seconds: None,
        root_relaxation_seconds: None,
    }
}

/// How many rows report an event.
pub open spec fn event_rows(rows: Seq<RowView>) -> nat
    decreases rows.len(),
{
    if rows.len() == 0 {
        0
    } else {
        event_rows(rows.drop_last()) + if rows.last().event is Some {
            1nat
        } else {
            0nat
        }
    }
}

/// The counts of the search; each row with an event is a solution.
pub open spec fn tree_from(
    lp: Option<Groups>,
    nodes: Option<Groups>,
    rows: Seq<RowView>,
) -> TreeStats {
    TreeStats {
        nodes_explored: matching::count_at(nodes, 1),
        simplex_iterations: matching::u64_at(lp, 3),
        solutions_found: if event_rows(rows) > 0 {
            Some(event_rows(rows) as u64)
        } else {
            None
        },
        max_depth: None,
        restarts: None,
    }
}

pub fn make_tree(
    lp: &Option<Captures>,
    nodes: &Option<Captures>,
    rows: &schema::ProgressTable,
) -> (out: TreeStats)
    requires
        rows.well_formed(),
    ensures
        out == tree_from(matching::opt_groups(*lp), matching::opt_groups(*nodes), rows@),
{
    let mut n: u64 = 0;
    let mut i: usize = 0;
    while i < rows.event.len()
        invariant
            i <= rows.event@.len(),
            rows.well_formed(),
            n == event_rows(rows@.take(i as int)),
            n <= i,
        decreases rows.event@.len() - i,
    {
        assert(rows@.take(i + 1).drop_last() =~= rows@.take(i as int));
        if rows.event[i].is_some() {
            n = n + 1;
        }
        i = i + 1;
    }
    assert(rows@.take(i as int) =~= rows@);
    let solutions_found = if n > 0 {
        Some(n)
    } else {
        None
    };
    TreeStats {
        nodes_explored: matching::found_count(nodes, 1),
        simplex_iterations: matching::found_u64(lp, 3),
        solutions_found,
        max_depth: None,
        restarts: None,
    }
}

/// The dimensions of the original problem, and the last that were reported
/// for the presolved one.
pub open spec fn presolve_from(original: Option<Groups>, presolved: Seq<Groups>) -> PresolveStats {
    let last = entries::last_of(presolved);
    PresolveStats {
        rows_before: matching::count_at(original, 1),
        cols_before: matching::count_at(original, 2),
        nonzeros_before: matching::count_at(original, 3),
        rows_after: matching::count_at(last, 1),
        cols_after: matching::count_at(last, 2),
        nonzeros_after: matching::count_at(last, 3),
    }
}

pub fn make_presolve(original: &Option<Captures>, presolved: Vec<Captures>) -> (out: PresolveStats)
    ensures
        out == presolve_from(matching::opt_groups(*original), matching::all_groups(presolved@)),
{
    let last = entries::take_last(presolved);
    PresolveStats {
        rows_before: matching::found_count(original, 1),
        cols_before: matching::found_count(original, 2),
        nonzeros_before: matching::found_count(original, 3),
        rows_after: matching::found_count(&last, 1),
        cols_after: matching::found_count(&last, 2),
        nonzeros_after: matching::found_count(&last, 3),
    }
}

/// The number in a cell that holds dashes or an infinity where there is none.
pub open spec fn cell_of(tok: Seq<char>) -> Option<RealView> {
    let t = chars::trimmed(tok);
    if t == "--"@ || t == "-"@ || t.len() == 0 || chars::ascii_lowered(t) == "inf"@ || t == "+inf"@
        || t == "-inf"@ {
        None
    } else {
        quantity::real_of(t)
    }
}

pub fn parse_or_dash_inf(tok: &[char]) -> (out: Option<Real>)
    ensures
        quantity::opt_real(out) == cell_of(tok@),
{
    let t = chars::trim(tok);
    let low = chars::lower(t);
    if chars::same(t, "--") || chars::same(t, "-") || t.len() == 0 || chars::same(
        low.as_slice(),
        "inf",
    ) || chars::same(t, "+inf") || chars::same(t, "-inf") {
        None
    } else {
        Real::read(t)
    }
}

/// A row of the progress table: eight columns, behind a letter on rows with a
/// new incumbent. The time is the last of them.
pub open spec fn row_in(line: Seq<char>) -> Option<RowView> {
    if line.len() == 0 {
        None
    } else {
        let marked = chars::alphabetic(line[0]);
        let toks = chars::words(
            if marked {
                line.skip(1)
            } else {
                line
            },
        );
        if toks.len() < 8 {
            None
        } else {
            match progress::time_of(toks.last()) {
                Some(time) => Some(
                    RowView {
                        time_seconds: time,
                        nodes_explored: numbers::u64_of(chars::without(toks[0], ',')),
                        primal: cell_of(toks[5]),
                        dual: cell_of(toks[4]),
                        gap: progress::gap_of(toks[6]),
                        depth: None,
                        lp_iterations: None,
                        event: if marked {
                            progress::event_of(line[0])
                        } else {
                            None
                        },
                    },
                ),
                None => None,
            }
        }
    }
}

pub fn parse_row(line: &[char]) -> (out: Option<NodeSnapshot>)
    ensures
        schema::opt_row(out) == row_in(line@),
{
    if line.len() == 0 {
        return None;
    }
    let marked = chars::is_alphabetic(line[0]);
    let event = if marked {
        progress::event_from_marker(line[0])
    } else {
        None
    };
    let body = if marked {
        chars::from(line, 1)
    } else {
        line
    };
    let toks = chars::split_words(body);
    let ghost words = chars::words(body@);
    assert(words.len() == toks@.len());
    assert(forall|i: int| 0 <= i < toks@.len() ==> words[i] == (#[trigger] toks@[i])@);
    if toks.len() < 8 {
        return None;
    }
    let time = progress::parse_time_token(toks[toks.len() - 1])?;
    let nodes = chars::drop_char(toks[0], ',');
    Some(
        NodeSnapshot {
            time_seconds: time,
            nodes_explored: numbers::read_u64(nodes.as_slice()),
            primal: parse_or_dash_inf(toks[5]),
            dual: parse_or_dash_inf(toks[4]),
            gap: progress::parse_gap(toks[6]),
            depth: None,
            lp_iterations: None,
            event,
        },
    )
}

/// The COPT progress table. Its header may come again; the summary ends it.
pub struct CoptTable;

pub open spec fn ends_table(s: Seq<char>) -> bool {
    ||| chars::starts_with(s, "Best solution"@)
    ||| chars::starts_with(s, "Best bound"@)
    ||| chars::starts_with(s, "Solve "@)
    ||| chars::starts_with(s, "MIP status"@)
    ||| chars::starts_with(s, "Solution status"@)
    ||| chars::starts_with(s, "Violations"@)
    ||| chars::starts_with(s, "Writing"@)
    ||| chars::starts_with(s, "Exiting"@)
}

impl TableFormat for CoptTable {
    open spec fn meaning(&self, scan: ScanView, any: bool, line: Seq<char>) -> (
        ScanView,
        StepView,
    ) {
        let s = chars::trimmed(line);
        if scan.open == Open::No {
            if chars::contains(line, "Nodes"@) && chars::contains(line, "BestBound"@)
                && chars::contains(line, "BestSolution"@) {
                (ScanView { open: Open::Tree, ..scan }, StepView::Pass)
            } else {
                (scan, StepView::Pass)
            }
        } else if chars::blank(line) || (chars::starts_with(s, "Nodes"@) && chars::contains(
            s,
            "BestBound"@,
        )) {
            (scan, StepView::Pass)
        } else if ends_table(s) {
            (scan, StepView::Stop)
        } else {
            (scan, progress::row_or_pass(row_in(line)))
        }
    }

    fn step(&self, scan: Scan, any: bool, line: &[char]) -> (out: (Scan, Step)) {
        if scan.open == Open::No {
            if chars::has(line, "Nodes") && chars::has(line, "BestBound") && chars::has(
                line,
                "BestSolution",
            ) {
                return (Scan { open: Open::Tree, clock: scan.clock }, Step::Pass);
            }
            return (scan, Step::Pass);
        }
        let s = chars::trim(line);
        if chars::is_blank(line) || (chars::begins(s, "Nodes") && chars::has(s, "BestBound")) {
            return (scan, Step::Pass);
        }
        if chars::begins(s, "Best solution") || chars::begins(s, "Best bound") || chars::begins(
            s,
            "Solve ",
        ) || chars::begins(s, "MIP status") || chars::begins(s, "Solution status")
            || chars::begins(s, "Violations") || chars::begins(s, "Writing") || chars::begins(
            s,
            "Exiting",
        ) {
            return (scan, Step::Stop);
        }
        (scan, progress::step_of(parse_row(line)))
    }
}

/// The machine.
pub open spec fn machine_from(
    platform: Option<Groups>,
    cpu: Option<Groups>,
    hardware: Option<Groups>,
) -> Option<Json> {
    let e0 = entries::with_found(json::no_entries(), platform, 1, "platform"@, Kind::Trimmed);
    let e1 = entries::with_found(e0, cpu, 1, "cpu"@, Kind::Trimmed);
    let e2 = entries::with_found(e1, hardware, 1, "physical_cores"@, Kind::Value);
    let e3 = entries::with_found(e2, hardware, 2, "logical_cores"@, Kind::Value);
    json::object_of(entries::with_found(e3, hardware, 3, "instruction_set"@, Kind::Text))
}

pub fn make_machine(
    platform: &Option<Captures>,
    cpu: &Option<Captures>,
    hardware: &Option<Captures>,
) -> (out: Option<JsonValue>)
    ensures
        json::opt_json(out) == machine_from(
            matching::opt_groups(*platform),
            matching::opt_groups(*cpu),
            matching::opt_groups(*hardware),
        ),
{
    let mut e = Entries::new();
    entries::put_found(&mut e, platform, 1, "platform", Kind::Trimmed);
    entries::put_found(&mut e, cpu, 1, "cpu", Kind::Trimmed);
    entries::put_found(&mut e, hardware, 1, "physical_cores", Kind::Value);
    entries::put_found(&mut e, hardware, 2, "logical_cores", Kind::Value);
    entries::put_found(&mut e, hardware, 3, "instruction_set", Kind::Text);
    e.some_object()
}

/// The threads and tasks of the run.
pub open spec fn config_from(m: Option<Groups>) -> Option<Json> {
    let e = entries::with_found(json::no_entries(), m, 1, "threads"@, Kind::Value);
    json::object_of(entries::with_found(e, m, 2, "tasks"@, Kind::Value))
}

pub fn make_config(m: &Option<Captures>) -> (out: Option<JsonValue>)
    ensures
        json::opt_json(out) == config_from(matching::opt_groups(*m)),
{
    let mut e = Entries::new();
    entries::put_found(&mut e, m, 1, "threads", Kind::Value);
    entries::put_found(&mut e, m, 2, "tasks", Kind::Value);
    e.some_object()
}

/// Counts of variables, each under the type in group 2.
pub open spec fn types_of(ms: Seq<Groups>) -> Seq<(Seq<char>, Json)>
    decreases ms.len(),
{
    if ms.len() == 0 {
        json::no_entries()
    } else {
        entries::with_group(
            types_of(ms.drop_last()),
            ms.last(),
            1,
            matching::part(ms.last(), 2),
            Kind::Value,
        )
    }
}

pub fn collect_types(ms: &Vec<Captures>) -> (out: Option<JsonValue>)
    ensures
        json::opt_json(out) == json::object_of(types_of(matching::all_groups(ms@))),
{
    let mut e = Entries::new();
    let mut i: usize = 0;
    let ghost all = matching::all_groups(ms@);
    while i < ms.len()
        invariant
            i <= ms@.len(),
            all == matching::all_groups(ms@),
            e@ == types_of(all.take(i as int)),
        decreases ms@.len() - i,
    {
        assert(all.take(i + 1).drop_last() =~= all.take(i as int));
        assert(all.take(i + 1).last() == ms@[i as int]@);
        let name = ms[i].part(2);
        let name = chars::string_of(name.as_slice());
        entries::put_group(&mut e, &ms[i], 1, name.as_str(), Kind::Value);
        i = i + 1;
    }
    assert(all.take(i as int) =~= all);
    e.some_object()
}

/// The variables before presolve: the first line behind the header, within
/// six, that starts with a count of them.
pub open spec fn types_before(text: Seq<char>) -> Option<Json> {
    match matching::regex_find(ORIGINAL_HEADER@, text) {
        Some(hit) => {
            let ms = matching::line_matches(
                BEFORE_LINE@,
                matching::at_most(chars::lines(hit.1), 6),
            );
            json::object_of(types_of(matching::at_most(ms, 1)))
        },
        None => None,
    }
}

pub fn find_types_before(text: &str) -> (out: Option<JsonValue>)
    ensures
        json::opt_json(out) == types_before(text@),
{
    let hit = matching::find(ORIGINAL_HEADER, text)?;
    let rest = chars::chars_of(hit.1.as_str());
    let lines = matching::first_lines(rest.as_slice(), 6);
    let mut ms = matching::match_lines(BEFORE_LINE, &lines);
    let ghost all = matching::all_groups(ms@);
    if ms.len() > 1 {
        ms.truncate(1);
    }
    assert(matching::all_groups(ms@) =~= matching::at_most(all, 1));
    collect_types(&ms)
}

/// All matches of a pattern on the first of the lines that has any.
pub open spec fn first_matches(pattern: Seq<char>, lines: Seq<Seq<char>>) -> Seq<Groups>
    decreases lines.len(),
{
    if lines.len() == 0 {
        Seq::empty()
    } else {
        let ms = matching::regex_captures_iter(pattern, lines[0]);
        if ms.len() > 0 {
            ms
        } else {
            first_matches(pattern, lines.skip(1))
        }
    }
}

pub fn find_first_matches(pattern: &str, lines: &Vec<&[char]>) -> (out: Vec<Captures>)
    ensures
        matching::all_groups(out@) == first_matches(pattern@, chars::views(lines@)),
{
    let ghost all = chars::views(lines@);
    let mut i: usize = 0;
    assert(all.skip(0) =~= all);
    while i < lines.len()
        invariant
            i <= lines@.len(),
            all == chars::views(lines@),
            first_matches(pattern@, all) == first_matches(pattern@, all.skip(i as int)),
        decreases lines@.len() - i,
    {
        assert(all.skip(i as int)[0] == lines@[i as int]@);
        assert(all.skip(i as int).skip(1) =~= all.skip(i + 1));
        let line = chars::string_of(lines[i]);
        let ms = matching::captures_iter(pattern, line.as_str());
        assert(matching::all_groups(ms@).len() == ms@.len());
        if ms.len() > 0 {
            return ms;
        }
        i = i + 1;
    }
    assert(all.skip(i as int) =~= Seq::empty());
    let out: Vec<Captures> = Vec::new();
    assert(matching::all_groups(out@) =~= Seq::empty());
    out
}

/// The variables after presolve: the counts on the first line behind the
/// header, within six, that has any.
pub open spec fn types_after(text: Seq<char>) -> Option<Json> {
    match matching::regex_find(PRESOLVED_HEADER@, text) {
        Some(hit) => json::object_of(
            types_of(first_matches(AFTER_LINE@, matching::at_most(chars::lines(hit.1), 6))),
        ),
        None => None,
    }
}

pub fn find_types_after(text: &str) -> (out: Option<JsonValue>)
    ensures
        json::opt_json(out) == types_after(text@),
{
    let hit = matching::find(PRESOLVED_HEADER, text)?;
    let rest = chars::chars_of(hit.1.as_str());
    let lines = matching::first_lines(rest.as_slice(), 6);
    let ms = find_first_matches(AFTER_LINE, &lines);
    collect_types(&ms)
}

/// The violation of one kind, absolute and, where it is there, relative.
pub open spec fn violation_of(m: Groups) -> Json {
    let e = entries::with_group(json::no_entries(), m, 2, "absolute"@, Kind::Value);
    Json::Object(
        match matching::group(m, 3) {
            Some(s) => table::put(e, "relative"@, entries::value_of(s)),
            None => e,
        },
    )
}

/// The violations of the solution.
pub open spec fn violations_from(ms: Seq<Groups>) -> Seq<(Seq<char>, Json)>
    decreases ms.len(),
{
    if ms.len() == 0 {
        json::no_entries()
    } else {
        table::put(
            violations_from(ms.drop_last()),
            matching::part(ms.last(), 1),
            violation_of(ms.last()),
        )
    }
}

pub fn collect_violations(ms: &Vec<Captures>) -> (out: Option<JsonValue>)
    ensures
        json::opt_json(out) == json::object_of(violations_from(matching::all_groups(ms@))),
{
    let mut e = Entries::new();
    let mut i: usize = 0;
    let ghost all = matching::all_groups(ms@);
    while i < ms.len()
        invariant
            i <= ms@.len(),
            all == matching::all_groups(ms@),
            e@ == violations_from(all.take(i as int)),
        decreases ms@.len() - i,
    {
        assert(all.take(i + 1).drop_last() =~= all.take(i as int));
        assert(all.take(i + 1).last() == ms@[i as int]@);
        let name = ms[i].part(1);
        let name = chars::string_of(name.as_slice());
        let mut inner = Entries::new();
        entries::put_group(&mut inner, &ms[i], 2, "absolute", Kind::Value);
        if let Some(relative) = ms[i].group(3) {
            let relative = chars::chars_of(relative.as_str());
            inner.put("relative", entries::value(relative.as_slice()));
        }
        e.put(name.as_str(), inner.object());
        i = i + 1;
    }
    assert(all.take(i as int) =~= all);
    e.some_object()
}

/// What only COPT reports.
pub open spec fn others_in(text: Seq<char>) -> Seq<(Seq<char>, Json)> {
    let o0 = progress::with_other(
        Seq::empty(),
        "copt.machine"@,
        machine_from(
            matching::regex_captures(PLATFORM@, text),
            matching::regex_captures(CPU@, text),
            matching::regex_captures(HARDWARE@, text),
        ),
    );
    let o1 = progress::with_other(
        o0,
        "copt.run_config"@,
        config_from(matching::regex_captures(RUN_CONFIG@, text)),
    );
    let o2 = progress::with_other(
        o1,
        "copt.model_fingerprint"@,
        entries::text_entry_at(matching::regex_captures(FINGERPRINT@, text), 1),
    );
    let o3 = progress::with_other(
        o2,
        "copt.variable_types_before_presolve"@,
        types_before(text),
    );
    let o4 = progress::with_other(o3, "copt.variable_types_after_presolve"@, types_after(text));
    let o5 = progress::with_other(
        o4,
        "copt.coefficient_ranges"@,
        json::object_of(
            entries::ranges_of(matching::regex_captures_iter(RANGES@, text), false),
        ),
    );
    progress::with_other(
        o5,
        "copt.solution_quality"@,
        json::object_of(
            violations_from(
                matching::block_rows(
                    VIOLATIONS_HEADER@,
                    VIOLATIONS_ROW@,
                    4,
                    true,
                    Margin::Free,
                    text,
                ),
            ),
        ),
    )
}

pub fn collect_others(text: &str) -> (out: Vec<NamedValue>)
    ensures
        schema::others_of(out@) == others_in(text@),
{
    let mut out: Vec<NamedValue> = Vec::new();
    assert(schema::others_of(out@) =~= Seq::empty());
    let platform = matching::captures(PLATFORM, text);
    let cpu = matching::captures(CPU, text);
    let hardware = matching::captures(HARDWARE, text);
    progress::add_other(&mut out, "copt.machine", make_machine(&platform, &cpu, &hardware));
    let config = matching::captures(RUN_CONFIG, text);
    progress::add_other(&mut out, "copt.run_config", make_config(&config));
    let fingerprint = matching::captures(FINGERPRINT, text);
    progress::add_other(
        &mut out,
        "copt.model_fingerprint",
        entries::text_entry(&fingerprint, 1),
    );
    progress::add_other(&mut out, "copt.variable_types_before_presolve", find_types_before(text));
    progress::add_other(&mut out, "copt.variable_types_after_presolve", find_types_after(text));
    let ranges = matching::captures_iter(RANGES, text);
    progress::add_other(
        &mut out,
        "copt.coefficient_ranges",
        entries::collect_ranges(&ranges, false),
    );
    let violations = matching::match_block(
        VIOLATIONS_HEADER,
        VIOLATIONS_ROW,
        4,
        true,
        Margin::Free,
        text,
    );
    progress::add_other(&mut out, "copt.solution_quality", collect_violations(&violations));
    out
}

/// What is found in a COPT log.
#[verifier::opaque]
pub open spec fn log_in(text: Seq<char>) -> LogView {
    let lp = matching::regex_captures(LP_STATUS@, text);
    let rows = progress::table_rows(CoptTable, text);
    LogView {
        solver: Solver::Copt,
        version: matching::text_at(matching::regex_captures(VERSION@, text), 1),
        solver_git_hash: None,
        problem: progress::problem_in(
            matching::text_at(matching::regex_captures(READING@, text), 1),
        ),
        termination: termination_from(text, lp),
        timing: timing_from(lp, matching::regex_captures(SOLVE_TIME@, text)),
        bounds: bounds_from(
            lp,
            matching::regex_captures(BEST_SOLUTION@, text),
            matching::regex_captures(BEST_BOUND@, text),
            matching::regex_captures(BEST_GAP@, text),
            rows,
        ),
        tree: tree_from(lp, matching::regex_captures(SOLVE_NODE@, text), rows),
        presolve: presolve_from(
            matching::regex_captures(ORIGINAL@, text),
            matching::regex_captures_iter(PRESOLVED@, text),
        ),
        cuts: Seq::empty(),
        progress: rows,
        other_data: others_in(text),
    }
}

/// The log is one of this solver.
pub proof fn lemma_solver(text: Seq<char>)
    ensures
        log_in(text).solver == Solver::Copt,
{
    reveal(log_in);
}

pub struct CoptParser;

impl LogParser for CoptParser {
    open spec fn handles(&self) -> Solver {
        Solver::Copt
    }

    open spec fn recognizes(&self, text: Seq<char>) -> bool {
        looks_right(text)
    }

    open spec fn reading(&self, text: Seq<char>) -> LogView {
        log_in(text)
    }

    fn solver(&self) -> (out: Solver) {
        Solver::Copt
    }

    fn sniff(&self, text: &str) -> (out: bool) {
        let all = chars::chars_of(text);
        chars::has(all.as_slice(), "Cardinal Optimizer") || chars::has(
            all.as_slice(),
            "Exiting COPT",
        )
    }

    fn parse(&self, text: &str) -> (out: Result<SolverLog, ParseError>) {
        if !self.sniff(text) {
            return Err(ParseError::WrongSolver("copt"));
        }
        proof {
            reveal(log_in);
        }
        let all = chars::chars_of(text);
        let version = matching::captures(VERSION, text);
        let reading = matching::captures(READING, text);
        let original = matching::captures(ORIGINAL, text);
        let presolved = matching::captures_iter(PRESOLVED, text);
        let lp = matching::captures(LP_STATUS, text);
        let solution = matching::captures(BEST_SOLUTION, text);
        let bound = matching::captures(BEST_BOUND, text);
        let gap = matching::captures(BEST_GAP, text);
        let solve_time = matching::captures(SOLVE_TIME, text);
        let solve_node = matching::captures(SOLVE_NODE, text);
        let rows = progress::read_table(&CoptTable, all.as_slice());
        Ok(
            SolverLog {
                solver: Solver::Copt,
                parser: ParserInfo::current(),
                version: matching::found_text(&version, 1),
                solver_git_hash: None,
                problem: progress::problem_from_path(&reading, 1),
                termination: make_termination(all.as_slice(), &lp),
                timing: make_timing(&lp, &solve_time),
                bounds: make_bounds(&lp, &solution, &bound, &gap, &rows),
                tree: make_tree(&lp, &solve_node, &rows),
                presolve: make_presolve(&original, presolved),
                cuts: table::CutCounts::new(),
                progress: rows,
                other_data: collect_others(text),
            },
        )
    }
}

/// Without a summary of the bounds, the optimum of a solved LP is both of
/// them; and it closes the gap, unless the log reports one.
pub proof fn law_lp_optimum_is_both_bounds(text: Seq<char>)
    requires
        matching::regex_captures(BEST_SOLUTION@, text) is None,
        matching::regex_captures(BEST_BOUND@, text) is None,
    ensures
        log_in(text).bounds.primal == log_in(text).bounds.dual,
        matching::regex_captures(BEST_GAP@, text) is None && lp_solved(
            matching::regex_captures(LP_STATUS@, text),
        ) ==> log_in(text).bounds.gap == Some(quantity::zero_real()),
{
    reveal(log_in);
}

/// Of several reports on the presolved problem the last one counts.
pub proof fn law_last_presolve_counts(text: Seq<char>)
    requires
        matching::regex_captures_iter(PRESOLVED@, text).len() > 0,
    ensures
        ({
            let last = Some(matching::regex_captures_iter(PRESOLVED@, text).last());
            &&& log_in(text).presolve.rows_after == matching::count_at(last, 1)
            &&& log_in(text).presolve.cols_after == matching::count_at(last, 2)
            &&& log_in(text).presolve.nonzeros_after == matching::count_at(last, 3)
        }),
{
    reveal(log_in);
}

/// The first incumbent is that of the first row with an event and a primal
/// bound.
pub proof fn law_first_incumbent(rows: Seq<RowView>)
    ensures
        first_incumbent(rows) matches Some(row) ==> exists|i: int|
            {
                &&& 0 <= i < rows.len()
                &&& rows[i] == row
                &&& row.event is Some && row.primal is Some
                &&& forall|j: int|
                    0 <= j < i ==> (#[trigger] rows[j]).event is None || rows[j].primal is None
            },
        first_incumbent(rows) is None ==> forall|j: int|
            0 <= j < rows.len() ==> (#[trigger] rows[j]).event is None || rows[j].primal is None,
    decreases rows.len(),
{
    if rows.len() > 0 {
        let rest = rows.skip(1);
        law_first_incumbent(rest);
        if rows[0].event is Some && rows[0].primal is Some {
            assert(rows[0] == first_incumbent(rows)->Some_0);
        } else {
            if let Some(row) = first_incumbent(rest) {
                let i = choose|i: int|
                    {
                        &&& 0 <= i < rest.len()
                        &&& rest[i] == row
                        &&& row.event is Some && row.primal is Some
                        &&& forall|j: int|
                            0 <= j < i ==> (#[trigger] rest[j]).event is None
                                || rest[j].primal is None
                    };
                assert(rows[i + 1] == row);
                assert forall|j: int| 0 <= j < i + 1 implies (#[trigger] rows[j]).event is None
                    || rows[j].primal is None by {
                    if j > 0 {
                        assert(rows[j] == rest[j - 1]);
                    }
                }
            } else {
                assert forall|j: int| 0 <= j < rows.len() implies (
                #[trigger] rows[j]).event is None || rows[j].primal is None by {
                    if j > 0 {
                        assert(rows[j] == rest[j - 1]);
                    }
                }
            }
        }
    }
}

/// The names of the other data start with `copt.`, and none occurs twice.
pub proof fn lemma_other_names(text: Seq<char>)
    ensures
        progress::are_named(log_in(text).other_data, "copt"@),
{
    reveal(log_in);
    reveal_strlit("copt");
    let key = "copt"@;
    assert(progress::are_among(Seq::empty(), Set::empty(), key));
    reveal_strlit("copt.machine");
    reveal_strlit("copt.run_config");
    reveal_strlit("copt.model_fingerprint");
    reveal_strlit("copt.variable_types_before_presolve");
    reveal_strlit("copt.variable_types_after_presolve");
    reveal_strlit("copt.coefficient_ranges");
    reveal_strlit("copt.solution_quality");
    assert("copt.machine"@.subrange(0, 5) =~= key.push('.'));
    progress::lemma_new_name(Set::empty(), "copt.machine"@, key);
    let names0 = Set::empty().insert("copt.machine"@);
    assert("copt.run_config"@.subrange(0, 5) =~= key.push('.'));
    progress::lemma_new_name(names0, "copt.run_config"@, key);
    let names1 = names0.insert("copt.run_config"@);
    assert("copt.model_fingerprint"@.subrange(0, 5) =~= key.push('.'));
    progress::lemma_new_name(names1, "copt.model_fingerprint"@, key);
    let names2 = names1.insert("copt.model_fingerprint"@);
    assert("copt.variable_types_before_presolve"@.subrange(0, 5) =~= key.push('.'));
    progress::lemma_new_name(names2, "copt.variable_types_before_presolve"@, key);
    let names3 = names2.insert("copt.variable_types_before_presolve"@);
    assert("copt.variable_types_after_presolve"@.subrange(0, 5) =~= key.push('.'));
    progress::lemma_new_name(names3, "copt.variable_types_after_presolve"@, key);
    let names4 = names3.insert("copt.variable_types_after_presolve"@);
    assert("copt.coefficient_ranges"@.subrange(0, 5) =~= key.push('.'));
    progress::lemma_new_name(names4, "copt.coefficient_ranges"@, key);
    let names5 = names4.insert("copt.coefficient_ranges"@);
    assert("copt.solution_quality"@.subrange(0, 5) =~= key.push('.'));
    progress::lemma_new_name(names5, "copt.solution_quality"@, key);
}

pub proof fn lemma_cuts(text: Seq<char>)
    ensures
        table::counts_positive(log_in(text).cuts),
{
    reveal(log_in);
}

} // verus!
