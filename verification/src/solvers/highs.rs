//! HiGHS logs.

use crate::chars;
use crate::json;
use crate::json::{Entries, Json, JsonValue};
use crate::matching;
use crate::matching::{Captures, Groups, Margin};
use crate::numbers;
use crate::quantity;
use crate::quantity::{Real, RealView};
use crate::schema;
use crate::schema::{
    Bounds, BoundsView, EventView, LogView, NamedValue, NodeEvent, NodeSnapshot, ParserInfo, PresolveStats, RowView,
    Solver, SolverLog, Status, Termination, TerminationView, Timing, TimingView, TreeStats,
};
use crate::solvers::entries;
use crate::solvers::entries::Kind;
use crate::solvers::progress;
use crate::solvers::progress::{Open, Scan, ScanView, Step, StepView, TableFormat};
use crate::table;
use crate::{LogParser, ParseError};
use vstd::prelude::*;

verus! {

pub const VERSION: &'static str =
    r"Running HiGHS\s+(\d+\.\d+\.\d+)\s+\(git hash:\s*([0-9a-f]+)\)";
pub const PROBLEM: &'static str =
    r"(?:LP|MIP)\s+(\S+)\s+has\s+([\d,]+)\s+rows?;\s+([\d,]+)\s+cols?;\s+([\d,]+)\s+nonzeros";
pub const MODEL_NAME: &'static str = r"Model name\s*:\s*(\S+)";
pub const REDUCTIONS: &'static str =
    r"Presolve reductions:\s*rows\s+([\d,]+)\([^)]*\);\s*columns\s+([\d,]+)\([^)]*\);\s*nonzeros\s+([\d,]+)";
pub const PRIMAL_BOUND: &'static str = r"Primal bound\s+([-\d.eE+]+)";
pub const DUAL_BOUND: &'static str = r"Dual bound\s+([-\d.eE+]+)";
pub const LP_OBJECTIVE: &'static str = r"(?m)^Objective value\s*:\s*([-\d.eE+]+)";
pub const GAP: &'static str = r"Gap\s+([\d.]+)%";
pub const RUN_TIME: &'static str = r"HiGHS run time\s*:\s*([\d.]+)";
pub const TIMING: &'static str = r"(?m)^\s+Timing\s+([\d.]+)";
pub const NODES: &'static str = r"(?m)^\s+Nodes\s+([\d,]+)";
pub const SIMPLEX_ITERATIONS: &'static str = r"Simplex\s+iterations:\s*([\d,]+)";
pub const LP_ITERATIONS: &'static str = r"(?m)^\s+LP iterations\s+([\d,]+)";
pub const INTEGRAL: &'static str = r"P-D integral\s+([\d.eE+\-]+)";
pub const MAX_DEPTH: &'static str = r"Max sub-MIP depth\s+(\d+)";
pub const RANGES_HEADER: &'static str = r"(?m)^Coefficient ranges:";
pub const RANGES_ROW: &'static str = r"^\s+(Matrix|Cost|Bound|RHS)\s+\[([^,]+),\s*([^\]]+)\]";
pub const VARIABLE_TYPES: &'static str =
    r"(\d+)\s+cols\s+\((\d+)\s+binary,\s*(\d+)\s+integer,\s*(\d+)\s+implied int\.,\s*(\d+)\s+continuous,\s*(\d+)\s+domain fixed\)";
pub const QUALITY_HEADER: &'static str = r"(?m)^\s+Solution status\s+\S+";
pub const QUALITY_ROW: &'static str = r"^\s+(\S+)\s+\(([a-z. ]+)\)";
pub const BREAKDOWN_HEADER: &'static str = r"(?m)^\s+LP iterations\s+\d";
pub const BREAKDOWN_ROW: &'static str = r"^\s+(\d+)\s+\(([^)]+)\)";

/// Which texts look like a HiGHS log.
pub open spec fn looks_right(text: Seq<char>) -> bool {
    chars::contains(text, "Running HiGHS"@) || chars::contains(text, "HiGHS run time"@)
}

/// What the first line says that reports a status, be it that of the solving
/// report or that of the model.
pub open spec fn status_text(lines: Seq<Seq<char>>) -> Option<Seq<char>>
    decreases lines.len(),
{
    if lines.len() == 0 {
        None
    } else {
        let line = chars::trimmed(lines[0]);
        match chars::after_prefix(line, "Status"@) {
            Some(rest) => Some(chars::trimmed(rest)),
            None => match chars::after_prefix(line, "Model status"@) {
                Some(rest) => Some(
                    chars::trimmed(
                        chars::front_trimmed(
                            chars::front_trimmed(rest, ""@, true),
                            ":"@,
                            false,
                        ),
                    ),
                ),
                None => status_text(lines.skip(1)),
            },
        }
    }
}

/// The status that the words of the report stand for.
pub open spec fn status_of(s: Seq<char>) -> Status {
    let low = chars::lowercase(s);
    if chars::starts_with(s, "Optimal"@) {
        Status::Optimal
    } else if chars::starts_with(s, "Infeasible"@) {
        Status::Infeasible
    } else if chars::starts_with(s, "Unbounded"@) {
        Status::Unbounded
    } else if chars::contains(s, "Time limit"@) || chars::contains(s, "time limit"@) {
        Status::TimeLimit
    } else if chars::contains(low, "iteration limit"@) || chars::contains(low, "node limit"@)
        || chars::contains(low, "solution limit"@) || chars::contains(low, "objective limit"@)
        || chars::contains(low, "interrupt"@) {
        Status::OtherLimit
    } else {
        Status::Unknown
    }
}

/// Why the run stopped.
pub open spec fn termination_in(text: Seq<char>) -> TerminationView {
    match status_text(chars::lines(text)) {
        Some(s) => TerminationView { status: status_of(s), raw_reason: Some(s) },
        None => schema::no_termination(),
    }
}

pub fn classify(s: &[char]) -> (out: Status)
    ensures
        out == status_of(s@),
{
    let low = chars::to_lowercase(s);
    let low = low.as_slice();
    if chars::begins(s, "Optimal") {
        Status::Optimal
    } else if chars::begins(s, "Infeasible") {
        Status::Infeasible
    } else if chars::begins(s, "Unbounded") {
        Status::Unbounded
    } else if chars::has(s, "Time limit") || chars::has(s, "time limit") {
        Status::TimeLimit
    } else if chars::has(low, "iteration limit") || chars::has(low, "node limit") || chars::has(
        low,
        "solution limit",
    ) || chars::has(low, "objective limit") || chars::has(low, "interrupt") {
        Status::OtherLimit
    } else {
        Status::Unknown
    }
}

fn find_status<'a>(lines: &Vec<&'a [char]>) -> (out: Option<&'a [char]>)
    ensures
        chars::opt_view(out) == status_text(chars::views(lines@)),
{
    let mut i: usize = 0;
    let ghost all = chars::views(lines@);
    assert(all.skip(0) =~= all);
    while i < lines.len()
        invariant
            i <= lines@.len(),
            all == chars::views(lines@),
            status_text(all) == status_text(all.skip(i as int)),
        decreases lines@.len() - i,
    {
        assert(all.skip(i as int)[0] == lines@[i as int]@);
        assert(all.skip(i as int).skip(1) =~= all.skip(i + 1));
        let line = chars::trim(lines[i]);
        if let Some(rest) = chars::strip_front(line, "Status") {
            return Some(chars::trim(rest));
        }
        if let Some(rest) = chars::strip_front(line, "Model status") {
            let words = chars::trim_front(chars::trim_front(rest, "", true), ":", false);
            return Some(chars::trim(words));
        }
        i = i + 1;
    }
    assert(all.skip(i as int) =~= Seq::empty());
    None
}

pub fn read_termination(text: &[char]) -> (out: Termination)
    ensures
        out@ == termination_in(text@),
{
    let lines = chars::split_lines(text);
    match find_status(&lines) {
        Some(s) => Termination { status: classify(s), raw_reason: Some(chars::string_of(s)) },
        None => Termination::default(),
    }
}

/// The times: of the run, or else that of the solving report.
pub open spec fn timing_from(run: Option<Groups>, report: Option<Groups>) -> TimingView {
    TimingView {
        wall_seconds: if run is Some {
            matching::spaced_real_at(run, 1)
        } else {
            matching::spaced_real_at(report, 1)
        },
        ..schema::no_timing()
    }
}

pub fn make_timing(run: &Option<Captures>, report: &Option<Captures>) -> (out: Timing)
    ensures
        out@ == timing_from(matching::opt_groups(*run), matching::opt_groups(*report)),
{
    let wall_seconds = if run.is_some() {
        matching::found_spaced_real(run, 1)
    } else {
        matching::found_spaced_real(report, 1)
    };
    Timing {
        wall_seconds,
        cpu_seconds: None,
        reading_seconds: None,
        presolve_seconds: None,
        root_relaxation_seconds: None,
    }
}

/// The bounds of the solving report. Without a primal one the objective of a
/// pure LP run stands for both, and at an optimum closes the gap.
pub open spec fn bounds_from(
    primal: Option<Groups>,
    dual: Option<Groups>,
    lp: Option<Groups>,
    gap: Option<Groups>,
    integral: Option<Groups>,
    status: Status,
) -> BoundsView {
    let p = matching::real_at(primal, 1);
    let d = matching::real_at(dual, 1);
    BoundsView {
        primal: if p is Some {
            p
        } else {
            matching::real_at(lp, 1)
        },
        dual: if d is Some || p is Some {
            d
        } else {
            matching::real_at(lp, 1)
        },
        gap: if gap is Some {
            matching::percent_at(gap, 1)
        } else if p is None && lp is Some && status == Status::Optimal {
            Some(quantity::zero_real())
        } else {
            None
        },
        primal_dual_integral: matching::real_at(integral, 1),
        ..schema::no_bounds()
    }
}

pub fn make_bounds(
    primal: &Option<Captures>,
    dual: &Option<Captures>,
    lp: &Option<Captures>,
    gap: &Option<Captures>,
    integral: &Option<Captures>,
    status: Status,
) -> (out: Bounds)
    ensures
        out@ == bounds_from(
            matching::opt_groups(*primal),
            matching::opt_groups(*dual),
            matching::opt_groups(*lp),
            matching::opt_groups(*gap),
            matching::opt_groups(*integral),
            status,
        ),
{
    let mut p = matching::found_real(primal, 1);
    let mut d = matching::found_real(dual, 1);
    let mut g: Option<Real> = None;
    if p.is_none() && lp.is_some() {
        p = matching::found_real(lp, 1);
        if d.is_none() {
            d = matching::found_real(lp, 1);
        }
        if status == Status::Optimal {
            g = Some(Real::zero());
        }
    }
    if gap.is_some() {
        g = matching::found_percent(gap, 1);
    }
    Bounds {
        primal: p,
        dual: d,
        gap: g,
        root_dual: None,
        first_primal: None,
        first_primal_time_seconds: None,
        primal_dual_integral: matching::found_real(integral, 1),
    }
}

/// A line that tells of a restart; there are two for each.
pub open spec fn tells_restart(line: Seq<char>) -> bool {
    chars::contains(line, "restarting"@) || chars::starts_with(line, "Model after restart"@)
}

/// How many lines tell of a restart.
pub open spec fn restart_lines(lines: Seq<Seq<char>>) -> nat
    decreases lines.len(),
{
    if lines.len() == 0 {
        0
    } else {
        restart_lines(lines.drop_last()) + if tells_restart(lines.last()) {
            1nat
        } else {
            0nat
        }
    }
}

/// The restarts: half of the lines that tell of one, within 32 bits.
pub open spec fn restarts_in(text: Seq<char>) -> Option<u32> {
    let n = restart_lines(chars::lines(text));
    if n > 0 {
        Some(((n % 0x1_0000_0000) / 2) as u32)
    } else {
        None
    }
}

pub fn count_restarts(text: &[char]) -> (out: Option<u32>)
    ensures
        out == restarts_in(text@),
{
    let lines = chars::split_lines(text);
    let ghost all = chars::lines(text@);
    assert(chars::views(lines@).len() == lines@.len());
    let mut n: u64 = 0;
    let mut i: usize = 0;
    while i < lines.len()
        invariant
            i <= lines@.len(),
            chars::views(lines@) == all,
            n == restart_lines(all.take(i as int)),
            n <= i,
        decreases lines@.len() - i,
    {
        assert(all.take(i + 1).drop_last() =~= all.take(i as int));
        assert(all.take(i + 1).last() == lines@[i as int]@);
        if chars::has(lines[i], "restarting") || chars::begins(lines[i], "Model after restart") {
            n = n + 1;
        }
        i = i + 1;
    }
    assert(all.take(i as int) =~= all);
    if n > 0 {
        Some(((n % 0x1_0000_0000) / 2) as u32)
    } else {
        None
    }
}

/// How many incumbents the rows show: each that differs from the one before
/// it counts; and the last one that counted.
pub open spec fn incumbents(rows: Seq<RowView>) -> (nat, Option<RealView>)
    decreases rows.len(),
{
    if rows.len() == 0 {
        (0, None)
    } else {
        let before = incumbents(rows.drop_last());
        match rows.last().primal {
            Some(p) => {
                let fresh = match before.1 {
                    Some(last) => quantity::numbers_apart(last, p),
                    None => true,
                };
                if fresh {
                    (before.0 + 1, Some(p))
                } else {
                    before
                }
            },
            None => before,
        }
    }
}

pub open spec fn solutions_in(rows: Seq<RowView>) -> Option<u64> {
    let n = incumbents(rows).0;
    if n > 0 {
        Some(n as u64)
    } else {
        None
    }
}

pub fn count_solutions(rows: &schema::ProgressTable) -> (out: Option<u64>)
    requires
        rows.well_formed(),
    ensures
        out == solutions_in(rows@),
{
    let mut n: u64 = 0;
    let mut last: Option<Real> = None;
    let mut i: usize = 0;
    while i < rows.primal.len()
        invariant
            i <= rows.primal@.len(),
            rows.well_formed(),
            n <= i,
            (n as nat, quantity::opt_real(last)) == incumbents(rows@.take(i as int)),
        decreases rows.primal@.len() - i,
    {
        assert(rows@.take(i + 1).drop_last() =~= rows@.take(i as int));
        if let Some(p) = &rows.primal[i] {
            let fresh = match &last {
                Some(l) => l.apart(p),
                None => true,
            };
            if fresh {
                n = n + 1;
                last = Some(p.copy());
            }
        }
        i = i + 1;
    }
    assert(rows@.take(i as int) =~= rows@);
    if n > 0 {
        Some(n)
    } else {
        None
    }
}

/// The counts of the search.
pub open spec fn tree_from(
    nodes: Option<Groups>,
    lp: Option<Groups>,
    simplex: Option<Groups>,
    depth: Option<Groups>,
    restarts: Option<u32>,
    rows: Seq<RowView>,
) -> TreeStats {
    TreeStats {
        nodes_explored: matching::count_at(nodes, 1),
        simplex_iterations: if lp is Some {
            matching::count_at(lp, 1)
        } else {
            matching::count_at(simplex, 1)
        },
        solutions_found: solutions_in(rows),
        max_depth: matching::u32_at(depth, 1),
        restarts,
    }
}

pub fn make_tree(
    nodes: &Option<Captures>,
    lp: &Option<Captures>,
    simplex: &Option<Captures>,
    depth: &Option<Captures>,
    restarts: Option<u32>,
    rows: &schema::ProgressTable,
) -> (out: TreeStats)
    requires
        rows.well_formed(),
    ensures
        out == tree_from(
            matching::opt_groups(*nodes),
            matching::opt_groups(*lp),
            matching::opt_groups(*simplex),
            matching::opt_groups(*depth),
            restarts,
            rows@,
        ),
{
    let simplex_iterations = if lp.is_some() {
        matching::found_count(lp, 1)
    } else {
        matching::found_count(simplex, 1)
    };
    TreeStats {
        nodes_explored: matching::found_count(nodes, 1),
        simplex_iterations,
        solutions_found: count_solutions(rows),
        max_depth: matching::found_u32(depth, 1),
        restarts,
    }
}

/// The dimensions of the model, and after presolve.
pub open spec fn presolve_from(model: Option<Groups>, reduced: Option<Groups>) -> PresolveStats {
    PresolveStats {
        rows_before: matching::count_at(model, 2),
        cols_before: matching::count_at(model, 3),
        nonzeros_before: matching::count_at(model, 4),
        rows_after: matching::count_at(reduced, 1),
        cols_after: matching::count_at(reduced, 2),
        nonzeros_after: matching::count_at(reduced, 3),
    }
}

pub fn make_presolve(model: &Option<Captures>, reduced: &Option<Captures>) -> (out: PresolveStats)
    ensures
        out == presolve_from(matching::opt_groups(*model), matching::opt_groups(*reduced)),
{
    PresolveStats {
        rows_before: matching::found_count(model, 2),
        cols_before: matching::found_count(model, 3),
        nonzeros_before: matching::found_count(model, 4),
        rows_after: matching::found_count(reduced, 1),
        cols_after: matching::found_count(reduced, 2),
        nonzeros_after: matching::found_count(reduced, 3),
    }
}

/// The name of the problem: that of the final report, or else that of the
/// line with the dimensions.
pub open spec fn problem_from(model: Option<Groups>, name: Option<Groups>) -> Option<Seq<char>> {
    if name is Some {
        matching::trimmed_at(name, 1)
    } else {
        matching::text_at(model, 1)
    }
}

pub fn make_problem(model: &Option<Captures>, name: &Option<Captures>) -> (out: Option<String>)
    ensures
        chars::opt_text(out) == problem_from(
            matching::opt_groups(*model),
            matching::opt_groups(*name),
        ),
{
    if name.is_some() {
        matching::found_trimmed(name, 1)
    } else {
        matching::found_text(model, 1)
    }
}

/// The event that a source marker stands for.
pub open spec fn event_for(marker: Seq<char>) -> EventView {
    if marker == "H"@ || marker == "C"@ || marker == "F"@ || marker == "I"@ || marker == "J"@
        || marker == "L"@ || marker == "R"@ || marker == "Z"@ || marker == "l"@ || marker == "p"@
        || marker == "u"@ || marker == "z"@ {
        EventView::Heuristic
    } else if marker == "S"@ || marker == "T"@ || marker == "B"@ {
        EventView::BranchSolution
    } else {
        EventView::Other(marker)
    }
}

pub fn highs_event(marker: &[char]) -> (out: NodeEvent)
    ensures
        out@ == event_for(marker@),
{
    if chars::same(marker, "H") || chars::same(marker, "C") || chars::same(marker, "F")
        || chars::same(marker, "I") || chars::same(marker, "J") || chars::same(marker, "L")
        || chars::same(marker, "R") || chars::same(marker, "Z") || chars::same(marker, "l")
        || chars::same(marker, "p") || chars::same(marker, "u") || chars::same(marker, "z") {
        NodeEvent::Heuristic
    } else if chars::same(marker, "S") || chars::same(marker, "T") || chars::same(marker, "B") {
        NodeEvent::BranchSolution
    } else {
        NodeEvent::Other(chars::string_of(marker))
    }
}

/// The number in a cell that holds `-` or `inf` where there is none.
pub open spec fn bound_of(tok: Seq<char>) -> Option<RealView> {
    let t = chars::trimmed(tok);
    if t == "-"@ || t.len() == 0 || chars::ascii_lowered(t) == "inf"@ {
        None
    } else {
        quantity::real_of(t)
    }
}

pub fn parse_or_dash_or_inf(tok: &[char]) -> (out: Option<Real>)
    ensures
        quantity::opt_real(out) == bound_of(tok@),
{
    let t = chars::trim(tok);
    let low = chars::lower(t);
    if chars::same(t, "-") || t.len() == 0 || chars::same(low.as_slice(), "inf") {
        None
    } else {
        Real::read(t)
    }
}

/// A row of the progress table: twelve columns, behind a source marker on
/// rows with a new incumbent. The time is the last of them.
pub open spec fn row_in(line: Seq<char>) -> Option<RowView> {
    let marker = chars::trimmed(progress::margin_of(line));
    let toks = chars::words(line);
    let n = toks.len();
    if n < 12 {
        None
    } else {
        let k: int = if numbers::u64_of(toks[0]) is Some {
            0
        } else {
            1
        };
        match progress::time_of(toks[n - 1]) {
            Some(time) => if n < 12 + k {
                None
            } else {
                Some(
                    RowView {
                        time_seconds: time,
                        nodes_explored: numbers::u64_of(toks[k]),
                        primal: bound_of(toks[k + 5]),
                        dual: bound_of(toks[k + 4]),
                        gap: progress::gap_of(toks[k + 6]),
                        depth: None,
                        lp_iterations: numbers::u64_of(chars::without(toks[n - 2], ',')),
                        event: if marker.len() == 0 {
                            None
                        } else {
                            Some(event_for(marker))
                        },
                    },
                )
            },
            None => None,
        }
    }
}

pub fn parse_row(line: &[char]) -> (out: Option<NodeSnapshot>)
    ensures
        schema::opt_row(out) == row_in(line@),
{
    let marker = chars::trim(progress::read_margin(line));
    let toks = chars::split_words(line);
    let ghost words = chars::words(line@);
    assert(words.len() == toks@.len());
    assert(forall|i: int| 0 <= i < toks@.len() ==> words[i] == (#[trigger] toks@[i])@);
    let n: usize = toks.len();
    if n < 12 {
        return None;
    }
    let time = progress::parse_time_token(toks[n - 1])?;
    let k: usize = if numbers::read_u64(toks[0]).is_some() {
        0
    } else {
        1
    };
    if n < 12 + k {
        return None;
    }
    let event = if marker.len() == 0 {
        None
    } else {
        Some(highs_event(marker))
    };
    let iterations = chars::drop_char(toks[n - 2], ',');
    Some(
        NodeSnapshot {
            time_seconds: time,
            nodes_explored: numbers::read_u64(toks[k]),
            primal: parse_or_dash_or_inf(toks[k + 5]),
            dual: parse_or_dash_or_inf(toks[k + 4]),
            gap: progress::parse_gap(toks[k + 6]),
            depth: None,
            lp_iterations: numbers::read_u64(iterations.as_slice()),
            event,
        },
    )
}

/// The HiGHS progress table. It ends only at the solving report: what is told
/// of restarts stands between its rows.
pub struct HighsTable;

pub open spec fn is_aside(line: Seq<char>) -> bool {
    ||| chars::starts_with(line, "Model after restart"@)
    ||| chars::contains(line, "restarting"@)
    ||| chars::contains(line, "inactive integer columns"@)
}

impl TableFormat for HighsTable {
    open spec fn meaning(&self, scan: ScanView, any: bool, line: Seq<char>) -> (
        ScanView,
        StepView,
    ) {
        if scan.open == Open::No {
            if chars::contains(line, "Src  Proc. InQueue"@) {
                (ScanView { open: Open::Tree, ..scan }, StepView::Pass)
            } else {
                (scan, StepView::Pass)
            }
        } else if chars::blank(line) {
            (scan, StepView::Pass)
        } else if chars::starts_with(line, "Solving report"@) {
            (scan, StepView::Stop)
        } else if is_aside(line) {
            (scan, StepView::Pass)
        } else {
            (scan, progress::row_or_pass(row_in(line)))
        }
    }

    fn step(&self, scan: Scan, any: bool, line: &[char]) -> (out: (Scan, Step)) {
        if scan.open == Open::No {
            if chars::has(line, "Src  Proc. InQueue") {
                return (Scan { open: Open::Tree, clock: scan.clock }, Step::Pass);
            }
            return (scan, Step::Pass);
        }
        if chars::is_blank(line) {
            return (scan, Step::Pass);
        }
        if chars::begins(line, "Solving report") {
            return (scan, Step::Stop);
        }
        if chars::begins(line, "Model after restart") || chars::has(line, "restarting")
            || chars::has(line, "inactive integer columns") {
            return (scan, Step::Pass);
        }
        (scan, progress::step_of(parse_row(line)))
    }
}

/// The counts of variables by type.
pub open spec fn types_from(m: Option<Groups>) -> Option<Json> {
    let e0 = entries::with_found(json::no_entries(), m, 1, "total"@, Kind::CountOrNull);
    let e1 = entries::with_found(e0, m, 2, "binary"@, Kind::CountOrNull);
    let e2 = entries::with_found(e1, m, 3, "integer"@, Kind::CountOrNull);
    let e3 = entries::with_found(e2, m, 4, "implied_integer"@, Kind::CountOrNull);
    let e4 = entries::with_found(e3, m, 5, "continuous"@, Kind::CountOrNull);
    json::object_of(entries::with_found(e4, m, 6, "domain_fixed"@, Kind::CountOrNull))
}

pub fn make_types(m: &Option<Captures>) -> (out: Option<JsonValue>)
    ensures
        json::opt_json(out) == types_from(matching::opt_groups(*m)),
{
    let mut e = Entries::new();
    entries::put_found(&mut e, m, 1, "total", Kind::CountOrNull);
    entries::put_found(&mut e, m, 2, "binary", Kind::CountOrNull);
    entries::put_found(&mut e, m, 3, "integer", Kind::CountOrNull);
    entries::put_found(&mut e, m, 4, "implied_integer", Kind::CountOrNull);
    entries::put_found(&mut e, m, 5, "continuous", Kind::CountOrNull);
    entries::put_found(&mut e, m, 6, "domain_fixed", Kind::CountOrNull);
    e.some_object()
}

/// The name of a quality figure: what stands in brackets, with one `_` for
/// each run of points and blanks.
pub open spec fn quality_name(label: Seq<char>) -> Seq<char> {
    chars::back_trimmed(
        chars::pairs_merged(chars::replaced(chars::trimmed(label), ". "@, '_'), '_'),
        "_"@,
        false,
    )
}

/// The quality figures of the solution.
pub open spec fn quality_from(ms: Seq<Groups>) -> Seq<(Seq<char>, Json)>
    decreases ms.len(),
{
    if ms.len() == 0 {
        json::no_entries()
    } else {
        entries::with_group(
            quality_from(ms.drop_last()),
            ms.last(),
            1,
            quality_name(matching::part(ms.last(), 2)),
            Kind::Number,
        )
    }
}

pub fn collect_quality(ms: &Vec<Captures>) -> (out: Option<JsonValue>)
    ensures
        json::opt_json(out) == json::object_of(quality_from(matching::all_groups(ms@))),
{
    let mut e = Entries::new();
    let mut i: usize = 0;
    let ghost all = matching::all_groups(ms@);
    while i < ms.len()
        invariant
            i <= ms@.len(),
            all == matching::all_groups(ms@),
            e@ == quality_from(all.take(i as int)),
        decreases ms@.len() - i,
    {
        assert(all.take(i + 1).drop_last() =~= all.take(i as int));
        assert(all.take(i + 1).last() == ms@[i as int]@);
        let label = ms[i].part(2);
        let name = chars::replace_chars(chars::trim(label.as_slice()), ". ", '_');
        let name = chars::merge_pairs(name.as_slice(), '_');
        let name = chars::string_of(chars::trim_back(name.as_slice(), "_", false));
        entries::put_group(&mut e, &ms[i], 1, name.as_str(), Kind::Number);
        i = i + 1;
    }
    assert(all.take(i as int) =~= all);
    e.some_object()
}

/// The name of a share of the LP iterations.
pub open spec fn share_name(label: Seq<char>) -> Seq<char> {
    chars::replaced(chars::back_trimmed(chars::trimmed(label), "."@, false), ". "@, '_')
}

/// What the LP iterations were spent on.
pub open spec fn breakdown_from(ms: Seq<Groups>) -> Seq<(Seq<char>, Json)>
    decreases ms.len(),
{
    if ms.len() == 0 {
        json::no_entries()
    } else {
        entries::with_group(
            breakdown_from(ms.drop_last()),
            ms.last(),
            1,
            share_name(matching::part(ms.last(), 2)),
            Kind::CountOrNull,
        )
    }
}

pub fn collect_breakdown(ms: &Vec<Captures>) -> (out: Option<JsonValue>)
    ensures
        json::opt_json(out) == json::object_of(breakdown_from(matching::all_groups(ms@))),
{
    let mut e = Entries::new();
    let mut i: usize = 0;
    let ghost all = matching::all_groups(ms@);
    while i < ms.len()
        invariant
            i <= ms@.len(),
            all == matching::all_groups(ms@),
            e@ == breakdown_from(all.take(i as int)),
        decreases ms@.len() - i,
    {
        assert(all.take(i + 1).drop_last() =~= all.take(i as int));
        assert(all.take(i + 1).last() == ms@[i as int]@);
        let label = ms[i].part(2);
        let label = chars::trim_back(chars::trim(label.as_slice()), ".", false);
        let name = chars::replace_chars(label, ". ", '_');
        let name = chars::string_of(name.as_slice());
        entries::put_group(&mut e, &ms[i], 1, name.as_str(), Kind::CountOrNull);
        i = i + 1;
    }
    assert(all.take(i as int) =~= all);
    e.some_object()
}

/// What only HiGHS reports.
pub open spec fn others_in(text: Seq<char>) -> Seq<(Seq<char>, Json)> {
    let o0 = progress::with_other(
        Seq::empty(),
        "highs.coefficient_ranges"@,
        json::object_of(
            entries::ranges_of(
                matching::block_rows(
                    RANGES_HEADER@,
                    RANGES_ROW@,
                    8,
                    true,
                    Margin::TwoBlanks,
                    text,
                ),
                true,
            ),
        ),
    );
    let o1 = progress::with_other(
        o0,
        "highs.variable_types_after_presolve"@,
        types_from(matching::regex_captures(VARIABLE_TYPES@, text)),
    );
    let o2 = progress::with_other(
        o1,
        "highs.solution_quality"@,
        json::object_of(
            quality_from(
                matching::block_rows(QUALITY_HEADER@, QUALITY_ROW@, 6, true, Margin::Space, text),
            ),
        ),
    );
    progress::with_other(
        o2,
        "highs.lp_iteration_breakdown"@,
        json::object_of(
            breakdown_from(
                matching::block_rows(
                    BREAKDOWN_HEADER@,
                    BREAKDOWN_ROW@,
                    6,
                    true,
                    Margin::Space,
                    text,
                ),
            ),
        ),
    )
}

pub fn collect_others(text: &str) -> (out: Vec<NamedValue>)
    ensures
        schema::others_of(out@) == others_in(text@),
{
    let mut out: Vec<NamedValue> = Vec::new();
    assert(schema::others_of(out@) =~= Seq::empty());
    let ranges = matching::match_block(
        RANGES_HEADER,
        RANGES_ROW,
        8,
        true,
        Margin::TwoBlanks,
        text,
    );
    progress::add_other(
        &mut out,
        "highs.coefficient_ranges",
        entries::collect_ranges(&ranges, true),
    );
    let types = matching::captures(VARIABLE_TYPES, text);
    progress::add_other(&mut out, "highs.variable_types_after_presolve", make_types(&types));
    let quality = matching::match_block(QUALITY_HEADER, QUALITY_ROW, 6, true, Margin::Space, text);
    progress::add_other(&mut out, "highs.solution_quality", collect_quality(&quality));
    let shares = matching::match_block(
        BREAKDOWN_HEADER,
        BREAKDOWN_ROW,
        6,
        true,
        Margin::Space,
        text,
    );
    progress::add_other(&mut out, "highs.lp_iteration_breakdown", collect_breakdown(&shares));
    out
}

/// What is found in a HiGHS log.
#[verifier::opaque]
pub open spec fn log_in(text: Seq<char>) -> LogView {
    let version = matching::regex_captures(VERSION@, text);
    let model = matching::regex_captures(PROBLEM@, text);
    let termination = termination_in(text);
    let rows = progress::table_rows(HighsTable, text);
    LogView {
        solver: Solver::Highs,
        version: matching::text_at(version, 1),
        solver_git_hash: matching::text_at(version, 2),
        problem: problem_from(model, matching::regex_captures(MODEL_NAME@, text)),
        termination,
        timing: timing_from(
            matching::regex_captures(RUN_TIME@, text),
            matching::regex_captures(TIMING@, text),
        ),
        bounds: bounds_from(
            matching::regex_captures(PRIMAL_BOUND@, text),
            matching::regex_captures(DUAL_BOUND@, text),
            matching::regex_captures(LP_OBJECTIVE@, text),
            matching::regex_captures(GAP@, text),
            matching::regex_captures(INTEGRAL@, text),
            termination.status,
        ),
        tree: tree_from(
            matching::regex_captures(NODES@, text),
            matching::regex_captures(LP_ITERATIONS@, text),
            matching::regex_captures(SIMPLEX_ITERATIONS@, text),
            matching::regex_captures(MAX_DEPTH@, text),
            restarts_in(text),
            rows,
        ),
        presolve: presolve_from(model, matching::regex_captures(REDUCTIONS@, text)),
        cuts: Seq::empty(),
        progress: rows,
        other_data: others_in(text),
    }
}

/// The log is one of this solver.
pub proof fn lemma_solver(text: Seq<char>)
    ensures
        log_in(text).solver == Solver::Highs,
{
    reveal(log_in);
}

pub struct HighsParser;

impl LogParser for HighsParser {
    open spec fn handles(&self) -> Solver {
        Solver::Highs
    }

    open spec fn recognizes(&self, text: Seq<char>) -> bool {
        looks_right(text)
    }

    open spec fn reading(&self, text: Seq<char>) -> LogView {
        log_in(text)
    }

    fn solver(&self) -> (out: Solver) {
        Solver::Highs
    }

    fn sniff(&self, text: &str) -> (out: bool) {
        let all = chars::chars_of(text);
        chars::has(all.as_slice(), "Running HiGHS") || chars::has(all.as_slice(), "HiGHS run time")
    }

    fn parse(&self, text: &str) -> (out: Result<SolverLog, ParseError>) {
        if !self.sniff(text) {
            return Err(ParseError::WrongSolver("highs"));
        }
        proof {
            reveal(log_in);
        }
        let all = chars::chars_of(text);
        let version = matching::captures(VERSION, text);
        let model = matching::captures(PROBLEM, text);
        let name = matching::captures(MODEL_NAME, text);
        let run = matching::captures(RUN_TIME, text);
        let report = matching::captures(TIMING, text);
        let primal = matching::captures(PRIMAL_BOUND, text);
        let dual = matching::captures(DUAL_BOUND, text);
        let lp = matching::captures(LP_OBJECTIVE, text);
        let gap = matching::captures(GAP, text);
        let integral = matching::captures(INTEGRAL, text);
        let nodes = matching::captures(NODES, text);
        let lp_iterations = matching::captures(LP_ITERATIONS, text);
        let simplex = matching::captures(SIMPLEX_ITERATIONS, text);
        let depth = matching::captures(MAX_DEPTH, text);
        let reduced = matching::captures(REDUCTIONS, text);
        let termination = read_termination(all.as_slice());
        let restarts = count_restarts(all.as_slice());
        let rows = progress::read_table(&HighsTable, all.as_slice());
        Ok(
            SolverLog {
                solver: Solver::Highs,
                parser: ParserInfo::current(),
                version: matching::found_text(&version, 1),
                solver_git_hash: matching::found_text(&version, 2),
                problem: make_problem(&model, &name),
                timing: make_timing(&run, &report),
                bounds: make_bounds(&primal, &dual, &lp, &gap, &integral, termination.status),
                termination,
                tree: make_tree(&nodes, &lp_iterations, &simplex, &depth, restarts, &rows),
                presolve: make_presolve(&model, &reduced),
                cuts: table::CutCounts::new(),
                progress: rows,
                other_data: collect_others(text),
            },
        )
    }
}

/// Without bounds in the solving report, the objective of the LP is both of
/// them; at an optimum it closes the gap, unless the log reports one.
pub proof fn law_lp_optimum_is_both_bounds(text: Seq<char>)
    requires
        matching::real_at(matching::regex_captures(PRIMAL_BOUND@, text), 1) is None,
        matching::real_at(matching::regex_captures(DUAL_BOUND@, text), 1) is None,
    ensures
        log_in(text).bounds.primal == log_in(text).bounds.dual,
        matching::regex_captures(GAP@, text) is None && matching::regex_captures(
            LP_OBJECTIVE@,
            text,
        ) is Some && log_in(text).termination.status == Status::Optimal
            ==> log_in(text).bounds.gap == Some(quantity::zero_real()),
{
    reveal(log_in);
}

/// No more solutions are counted than there are rows with a primal bound, and
/// one is counted wherever there is such a row.
pub proof fn law_solutions_counted(rows: Seq<RowView>)
    ensures
        incumbents(rows).0 <= rows.len(),
        incumbents(rows).0 == 0 <==> forall|i: int|
            0 <= i < rows.len() ==> (#[trigger] rows[i]).primal is None,
        incumbents(rows).1 is None <==> incumbents(rows).0 == 0,
    decreases rows.len(),
{
    if rows.len() > 0 {
        let front = rows.drop_last();
        law_solutions_counted(front);
        assert(forall|i: int| 0 <= i < front.len() ==> front[i] == rows[i]);
        assert(rows[rows.len() - 1] == rows.last());
        if incumbents(front).0 != 0 {
            let i = choose|i: int| 0 <= i < front.len() && (#[trigger] front[i]).primal is Some;
            assert(rows[i].primal is Some);
        }
    }
}

/// The names of the other data start with `highs.`, and none occurs twice.
pub proof fn lemma_other_names(text: Seq<char>)
    ensures
        progress::are_named(log_in(text).other_data, "highs"@),
{
    reveal(log_in);
    reveal_strlit("highs");
    let key = "highs"@;
    assert(progress::are_among(Seq::empty(), Set::empty(), key));
    reveal_strlit("highs.coefficient_ranges");
    reveal_strlit("highs.variable_types_after_presolve");
    reveal_strlit("highs.solution_quality");
    reveal_strlit("highs.lp_iteration_breakdown");
    assert("highs.coefficient_ranges"@.subrange(0, 6) =~= key.push('.'));
    progress::lemma_new_name(Set::empty(), "highs.coefficient_ranges"@, key);
    let names0 = Set::empty().insert("highs.coefficient_ranges"@);
    assert("highs.variable_types_after_presolve"@.subrange(0, 6) =~= key.push('.'));
    progress::lemma_new_name(names0, "highs.variable_types_after_presolve"@, key);
    let names1 = names0.insert("highs.variable_types_after_presolve"@);
    assert("highs.solution_quality"@.subrange(0, 6) =~= key.push('.'));
    progress::lemma_new_name(names1, "highs.solution_quality"@, key);
    let names2 = names1.insert("highs.solution_quality"@);
    assert("highs.lp_iteration_breakdown"@.subrange(0, 6) =~= key.push('.'));
    progress::lemma_new_name(names2, "highs.lp_iteration_breakdown"@, key);
}

pub proof fn lemma_cuts(text: Seq<char>)
    ensures
        table::counts_positive(log_in(text).cuts),
{
    reveal(log_in);
}

} // verus!
