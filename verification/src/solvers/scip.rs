//! SCIP logs, of one run each.

use crate::chars;
use crate::json;
use crate::json::{Entries, Json, JsonValue};
use crate::matching;
use crate::matching::{Captures, Groups, Margin};
use crate::numbers;
use crate::quantity;
use crate::quantity::{Real, RealView};
use crate::schema;
use crate::schema::{
    Bounds, BoundsView, EventView, LogView, NamedValue, NodeEvent, NodeSnapshot, ParserInfo, PresolveStats, RowView,
    Solver, SolverLog, Status, Termination, TerminationView, Timing, TimingView, TreeStats,
};
use crate::solvers::entries;
use crate::solvers::entries::Kind;
use crate::solvers::progress;
use crate::solvers::progress::{Open, Scan, ScanView, Step, StepView, TableFormat};
use crate::table;
use crate::{LogParser, ParseError};
use vstd::prelude::*;

verus! {

pub const VERSION: &'static str = r"SCIP version (\d+\.\d+(?:\.\d+)?)";
pub const GIT_HASH: &'static str = r"SCIP version[^\n]*\[GitHash:\s*([^\]]+?)\s*\]";
pub const PROBLEM: &'static str = r"read problem <([^>]+)>";
pub const STATUS: &'static str = r"SCIP Status\s*:\s*[^\[\n]*\[([^\]]+)\]";
pub const SOLVING_TIME: &'static str = r"Solving Time \(sec\)\s*:\s*([\d.]+)";
pub const PRESOLVING_TIME: &'static str = r"Presolving Time\s*:\s*([\d.]+)";
pub const ROOT_LP_TIME: &'static str = r"First LP Time\s*:\s*([\d.]+)";
pub const PRIMAL: &'static str =
    r"Primal Bound\s*:\s*(\+?-?[\d.eE+\-]+|-)\s*(?:\((\d+) solutions\))?";
pub const DUAL: &'static str = r"(?:Final )?Dual Bound\s*:\s*(\+?-?[\d.eE+\-]+|-)";
pub const GAP: &'static str = r"Gap\s*:\s*([\d.]+ ?%|infinite|-)";
pub const SOLVING_NODES: &'static str = r"Solving Nodes\s*:\s*(\d+)";
pub const ORIGINAL: &'static str =
    r"original problem has (\d+) variables[^\n]* and (\d+) constraints";
pub const PRESOLVED: &'static str =
    r"presolved problem has (\d+) variables[^\n]* and (\d+) constraints";
pub const SIGNED_VALUE: &'static str = r"\s*:\s*(\+?-?[\d.eE+\-]+|-)";
pub const FIRST_SOLUTION: &'static str =
    r"First Solution\s*:\s*(\+?-?[\d.eE+\-]+|-)\s*\(in run \d+, after \d+ nodes?, ([\d.]+) seconds";
pub const INTEGRAL: &'static str = r"(?m)^\s*primal-dual\s*:\s*([\d.eE+\-]+)";
pub const RUNS: &'static str = r"number of runs\s*:\s*(\d+)";
pub const MAX_DEPTH: &'static str = r"(?m)^\s*max depth\s*:\s*(\d+)";
pub const LP_HEADER: &'static str = r"(?m)^LP\s*:\s+Time\s+Calls\s+Iterations";
pub const LP_ROW: &'static str = r"^  \S[^:]*:\s+[\d.]+\s+[\d,]+\s+([\d,]+)";
pub const CUTS_HEADER: &'static str = r"(?m)^Separators\s*:\s+ExecTime.*?Applied";
pub const CUTS_ROW: &'static str =
    r"^\s+([A-Za-z][A-Za-z0-9_]*)\s+:\s+[\d.-]+\s+[\d.-]+\s+[\d.-]+\s+[\d.-]+\s+[\d.-]+\s+[\d.-]+\s+[\d.-]+\s+[\d.-]+\s+[\d.-]+\s+(\d+)";
pub const ROOT_HEADER: &'static str = r"(?m)^Root Node\s*:";
pub const ROOT_ROW: &'static str = r"^\s+([A-Za-z][A-Za-z ]+?)\s*:\s+(\S+)";
pub const TREE_HEADER: &'static str = r"(?m)^B&B Tree\s*:";
pub const TREE_ROW: &'static str = r"^\s+([A-Za-z][A-Za-z. ]+?)\s*:\s+(\S.*)$";
pub const ATTRIBUTION: &'static str =
    r"\s*:\s*\+?-?[\d.eE+\-]+\s*\(in run (\d+), after (\d+) nodes?, ([\d.]+) seconds, depth (\d+), found by <([^>]+)>\)";
pub const TABLE_ROW: &'static str = r"^\s+([A-Za-z][A-Za-z0-9_ /()>.-]*?)\s*:\s+(.*)$";
pub const CONSTRAINTS: &'static str = r"(?m)^\s*(\d+) constraints? of type <([^>]+)>";
pub const INTEGRALS_HEADER: &'static str = r"(?m)^Integrals\s*:";
pub const INTEGRALS_ROW: &'static str = r"^\s+([a-z-]+)\s*:\s+(\S+)\s+(\S+)";

/// Which texts look like a SCIP log.
pub open spec fn looks_right(text: Seq<char>) -> bool {
    chars::contains(text, "SCIP version"@) || chars::contains(text, "SCIP Status"@)
}

/// The status that the words in the brackets of the status line stand for.
pub open spec fn status_of(reason: Seq<char>) -> Status {
    let r = chars::lowercase(reason);
    if chars::contains(r, "optimal solution"@) {
        Status::Optimal
    } else if chars::contains(r, "infeasible"@) && chars::contains(r, "unbounded"@) {
        Status::InfeasibleOrUnbounded
    } else if chars::contains(r, "infeasible"@) {
        Status::Infeasible
    } else if chars::contains(r, "unbounded"@) {
        Status::Unbounded
    } else if chars::contains(r, "time limit"@) {
        Status::TimeLimit
    } else if chars::contains(r, "memory limit"@) {
        Status::MemoryLimit
    } else if chars::contains(r, "user interrupt"@) || chars::contains(r, "interrupt"@) {
        Status::UserInterrupt
    } else if chars::contains(r, "gap limit"@) || chars::contains(r, "node limit"@)
        || chars::contains(r, "sol limit"@) {
        Status::OtherLimit
    } else {
        Status::Unknown
    }
}

pub fn classify_status(reason: &[char]) -> (out: Status)
    ensures
        out == status_of(reason@),
{
    let r = chars::to_lowercase(reason);
    let r = r.as_slice();
    if chars::has(r, "optimal solution") {
        Status::Optimal
    } else if chars::has(r, "infeasible") && chars::has(r, "unbounded") {
        Status::InfeasibleOrUnbounded
    } else if chars::has(r, "infeasible") {
        Status::Infeasible
    } else if chars::has(r, "unbounded") {
        Status::Unbounded
    } else if chars::has(r, "time limit") {
        Status::TimeLimit
    } else if chars::has(r, "memory limit") {
        Status::MemoryLimit
    } else if chars::has(r, "user interrupt") || chars::has(r, "interrupt") {
        Status::UserInterrupt
    } else if chars::has(r, "gap limit") || chars::has(r, "node limit") || chars::has(
        r,
        "sol limit",
    ) {
        Status::OtherLimit
    } else {
        Status::Unknown
    }
}

/// Why the run stopped.
pub open spec fn termination_from(status: Option<Groups>) -> TerminationView {
    match matching::text_at(status, 1) {
        Some(reason) => TerminationView { status: status_of(reason), raw_reason: Some(reason) },
        None => schema::no_termination(),
    }
}

pub fn make_termination(status: &Option<Captures>) -> (out: Termination)
    ensures
        out@ == termination_from(matching::opt_groups(*status)),
{
    match matching::found(status, 1) {
        Some(reason) => Termination {
            status: classify_status(reason.as_slice()),
            raw_reason: Some(chars::string_of(reason.as_slice())),
        },
        None => Termination::default(),
    }
}

/// The last part of a path that names something; none where that is the
/// directory above, or where there is none.
pub open spec fn file_name(parts: Seq<Seq<char>>) -> Option<Seq<char>>
    decreases parts.len(),
{
    if parts.len() == 0 {
        None
    } else {
        let p = parts.last();
        if p.len() == 0 || p == "."@ {
            file_name(parts.drop_last())
        } else if p == ".."@ {
            None
        } else {
            Some(p)
        }
    }
}

fn find_file_name<'a>(parts: &Vec<&'a [char]>) -> (out: Option<&'a [char]>)
    ensures
        chars::opt_view(out) == file_name(chars::views(parts@)),
{
    let ghost all = chars::views(parts@);
    let mut i: usize = parts.len();
    assert(all.take(i as int) =~= all);
    while i > 0
        invariant
            i <= parts@.len(),
            all == chars::views(parts@),
            file_name(all) == file_name(all.take(i as int)),
        decreases i,
    {
        let p = parts[i - 1];
        assert(all.take(i as int).last() == p@);
        assert(all.take(i as int).drop_last() =~= all.take(i - 1));
        if p.len() != 0 && !chars::same(p, ".") {
            return if chars::same(p, "..") {
                None
            } else {
                Some(p)
            };
        }
        i = i - 1;
    }
    None
}

/// The name of the problem: that of its file, without its endings.
pub open spec fn problem_from(m: Option<Groups>) -> Option<Seq<char>> {
    match matching::trimmed_at(m, 1) {
        Some(raw) => {
            let name = match file_name(chars::pieces(raw, '/')) {
                Some(n) => n,
                None => raw,
            };
            Some(
                chars::without_suffixes(
                    chars::without_suffixes(chars::without_suffixes(name, ".gz"@), ".mps"@),
                    ".lp"@,
                ),
            )
        },
        None => None,
    }
}

pub fn make_problem(m: &Option<Captures>) -> (out: Option<String>)
    ensures
        chars::opt_text(out) == problem_from(matching::opt_groups(*m)),
{
    match matching::found(m, 1) {
        Some(path) => {
            let raw = chars::trim(path.as_slice());
            let parts = chars::split_on(raw, '/');
            let name = match find_file_name(&parts) {
                Some(n) => n,
                None => raw,
            };
            let name = chars::trim_suffixes(name, ".gz");
            let name = chars::trim_suffixes(name, ".mps");
            Some(chars::string_of(chars::trim_suffixes(name, ".lp")))
        },
        None => None,
    }
}

/// A bound, which may have a plus sign; `-` stands for none.
pub open spec fn bound_of(s: Seq<char>) -> Option<RealView> {
    if s == "-"@ {
        None
    } else {
        quantity::real_of(chars::front_trimmed(s, "+"@, false))
    }
}

pub open spec fn bound_at(m: Option<Groups>, i: int) -> Option<RealView> {
    match matching::text_at(m, i) {
        Some(s) => bound_of(s),
        None => None,
    }
}

pub fn found_bound(m: &Option<Captures>, i: usize) -> (out: Option<Real>)
    ensures
        quantity::opt_real(out) == bound_at(matching::opt_groups(*m), i as int),
{
    match matching::found(m, i) {
        Some(s) => {
            if chars::same(s.as_slice(), "-") {
                None
            } else {
                Real::read(chars::trim_front(s.as_slice(), "+", false))
            }
        },
        None => None,
    }
}

/// The times.
pub open spec fn timing_from(
    solving: Option<Groups>,
    presolving: Option<Groups>,
    root: Option<Groups>,
) -> TimingView {
    TimingView {
        wall_seconds: matching::real_at(solving, 1),
        presolve_seconds: matching::real_at(presolving, 1),
        root_relaxation_seconds: matching::real_at(root, 1),
        ..schema::no_timing()
    }
}

pub fn make_timing(
    solving: &Option<Captures>,
    presolving: &Option<Captures>,
    root: &Option<Captures>,
) -> (out: Timing)
    ensures
        out@ == timing_from(
            matching::opt_groups(*solving),
            matching::opt_groups(*presolving),
            matching::opt_groups(*root),
        ),
{
    Timing {
        wall_seconds: matching::found_real(solving, 1),
        cpu_seconds: None,
        reading_seconds: None,
        presolve_seconds: matching::found_real(presolving, 1),
        root_relaxation_seconds: matching::found_real(root, 1),
    }
}

/// The bounds.
pub open spec fn bounds_from(
    primal: Option<Groups>,
    dual: Option<Groups>,
    gap: Option<Groups>,
    root: Option<Groups>,
    first: Option<Groups>,
    integral: Option<Groups>,
) -> BoundsView {
    BoundsView {
        primal: bound_at(primal, 1),
        dual: bound_at(dual, 1),
        gap: match matching::text_at(gap, 1) {
            Some(s) => progress::gap_of(s),
            None => None,
        },
        root_dual: bound_at(root, 1),
        first_primal: bound_at(first, 1),
        first_primal_time_seconds: matching::real_at(first, 2),
        primal_dual_integral: matching::real_at(integral, 1),
    }
}

pub fn make_bounds(
    primal: &Option<Captures>,
    dual: &Option<Captures>,
    gap: &Option<Captures>,
    root: &Option<Captures>,
    first: &Option<Captures>,
    integral: &Option<Captures>,
) -> (out: Bounds)
    ensures
        out@ == bounds_from(
            matching::opt_groups(*primal),
            matching::opt_groups(*dual),
            matching::opt_groups(*gap),
            matching::opt_groups(*root),
            matching::opt_groups(*first),
            matching::opt_groups(*integral),
        ),
{
    let gap = match matching::found(gap, 1) {
        Some(s) => progress::parse_gap(s.as_slice()),
        None => None,
    };
    Bounds {
        primal: found_bound(primal, 1),
        dual: found_bound(dual, 1),
        gap,
        root_dual: found_bound(root, 1),
        first_primal: found_bound(first, 1),
        first_primal_time_seconds: matching::found_real(first, 2),
        primal_dual_integral: matching::found_real(integral, 1),
    }
}

/// The sum of the iterations of all kinds of LPs; none where no row has any.
pub open spec fn iterations_of(ms: Seq<Groups>) -> Option<u64>
    decreases ms.len(),
{
    if ms.len() == 0 {
        None
    } else {
        let before = iterations_of(ms.drop_last());
        match numbers::u64_of(chars::without(matching::part(ms.last(), 1), ',')) {
            Some(n) => Some(
                numbers::wrapped_sum(
                    match before {
                        Some(t) => t,
                        None => 0,
                    },
                    n,
                ),
            ),
            None => before,
        }
    }
}

pub fn sum_iterations(ms: &Vec<Captures>) -> (out: Option<u64>)
    ensures
        out == iterations_of(matching::all_groups(ms@)),
{
    let mut total: Option<u64> = None;
    let mut i: usize = 0;
    let ghost all = matching::all_groups(ms@);
    while i < ms.len()
        invariant
            i <= ms@.len(),
            all == matching::all_groups(ms@),
            total == iterations_of(all.take(i as int)),
        decreases ms@.len() - i,
    {
        assert(all.take(i + 1).drop_last() =~= all.take(i as int));
        assert(all.take(i + 1).last() == ms@[i as int]@);
        let s = ms[i].part(1);
        let digits = chars::drop_char(s.as_slice(), ',');
        if let Some(n) = numbers::read_u64(digits.as_slice()) {
            let base: u64 = match total {
                Some(t) => t,
                None => 0,
            };
            total = Some(numbers::add_wrapping(base, n));
        }
        i = i + 1;
    }
    assert(all.take(i as int) =~= all);
    total
}

/// The counts of the search.
pub open spec fn tree_from(
    nodes: Option<Groups>,
    lps: Seq<Groups>,
    primal: Option<Groups>,
    depth: Option<Groups>,
    runs: Option<Groups>,
) -> TreeStats {
    TreeStats {
        nodes_explored: matching::u64_at(nodes, 1),
        simplex_iterations: iterations_of(lps),
        solutions_found: matching::u64_at(primal, 2),
        max_depth: matching::u32_at(depth, 1),
        restarts: matching::u32_at(runs, 1),
    }
}

pub fn make_tree(
    nodes: &Option<Captures>,
    lps: &Vec<Captures>,
    primal: &Option<Captures>,
    depth: &Option<Captures>,
    runs: &Option<Captures>,
) -> (out: TreeStats)
    ensures
        out == tree_from(
            matching::opt_groups(*nodes),
            matching::all_groups(lps@),
            matching::opt_groups(*primal),
            matching::opt_groups(*depth),
            matching::opt_groups(*runs),
        ),
{
    TreeStats {
        nodes_explored: matching::found_u64(nodes, 1),
        simplex_iterations: sum_iterations(lps),
        solutions_found: matching::found_u64(primal, 2),
        max_depth: matching::found_u32(depth, 1),
        restarts: matching::found_u32(runs, 1),
    }
}

/// The dimensions before and after presolve.
pub open spec fn presolve_from(original: Option<Groups>, presolved: Option<Groups>) -> PresolveStats {
    PresolveStats {
        rows_before: matching::u64_at(original, 2),
        cols_before: matching::u64_at(original, 1),
        rows_after: matching::u64_at(presolved, 2),
        cols_after: matching::u64_at(presolved, 1),
        ..schema::no_presolve()
    }
}

pub fn make_presolve(original: &Option<Captures>, presolved: &Option<Captures>) -> (out:
    PresolveStats)
    ensures
        out == presolve_from(matching::opt_groups(*original), matching::opt_groups(*presolved)),
{
    PresolveStats {
        rows_before: matching::found_u64(original, 2),
        cols_before: matching::found_u64(original, 1),
        nonzeros_before: None,
        rows_after: matching::found_u64(presolved, 2),
        cols_after: matching::found_u64(presolved, 1),
        nonzeros_after: None,
    }
}

/// A line that breaks down the one above it or, if `pool` says so, is on the cut pool.
pub open spec fn is_side_row(line: Seq<char>, pool: bool) -> bool {
    let s = chars::front_trimmed(line, ""@, true);
    chars::starts_with(s, ">"@) || (pool && chars::starts_with(s, "cut pool"@))
}

/// The lines of a table that count.
pub open spec fn main_rows(lines: Seq<Seq<char>>, pool: bool) -> Seq<Seq<char>>
    decreases lines.len(),
{
    if lines.len() == 0 {
        Seq::empty()
    } else if is_side_row(lines.last(), pool) {
        main_rows(lines.drop_last(), pool)
    } else {
        main_rows(lines.drop_last(), pool).push(lines.last())
    }
}

pub fn drop_side_rows<'a>(lines: &Vec<&'a [char]>, pool: bool) -> (out: Vec<&'a [char]>)
    ensures
        chars::views(out@) == main_rows(chars::views(lines@), pool),
{
    let ghost all = chars::views(lines@);
    let mut out: Vec<&[char]> = Vec::new();
    let mut i: usize = 0;
    assert(chars::views(out@) =~= Seq::empty());
    while i < lines.len()
        invariant
            i <= lines@.len(),
            all == chars::views(lines@),
            chars::views(out@) == main_rows(all.take(i as int), pool),
        decreases lines@.len() - i,
    {
        assert(all.take(i + 1).drop_last() =~= all.take(i as int));
        assert(all.take(i + 1).last() == lines@[i as int]@);
        let s = chars::trim_front(lines[i], "", true);
        if !(chars::begins(s, ">") || (pool && chars::begins(s, "cut pool"))) {
            let ghost before = chars::views(out@);
            out.push(lines[i]);
            assert(chars::views(out@) =~= before.push(lines@[i as int]@));
        }
        i = i + 1;
    }
    assert(all.take(i as int) =~= all);
    out
}

/// The rows of a table that count: those of the block behind the header, as
/// far as the row pattern matches them.
pub open spec fn table_matches(
    header: Seq<char>,
    row: Seq<char>,
    blank_ends: bool,
    pool: bool,
    text: Seq<char>,
) -> Seq<Groups> {
    match matching::regex_find(header, text) {
        Some(hit) => matching::line_matches(
            row,
            main_rows(
                matching::block(hit.1, usize::MAX as int, blank_ends, Margin::Space),
                pool,
            ),
        ),
        None => Seq::empty(),
    }
}

pub fn match_table(header: &str, row: &str, blank_ends: bool, pool: bool, text: &str) -> (out: Vec<
    Captures,
>)
    ensures
        matching::all_groups(out@) == table_matches(header@, row@, blank_ends, pool, text@),
{
    match matching::find(header, text) {
        Some(hit) => {
            let rest = chars::chars_of(hit.1.as_str());
            let lines = matching::read_block(
                rest.as_slice(),
                usize::MAX,
                blank_ends,
                Margin::Space,
            );
            let lines = drop_side_rows(&lines, pool);
            matching::match_lines(row, &lines)
        },
        None => {
            let out: Vec<Captures> = Vec::new();
            assert(matching::all_groups(out@) =~= Seq::empty());
            out
        },
    }
}

/// The event that the marker of a row stands for.
pub open spec fn event_for(marker: char) -> EventView {
    if marker == '*' {
        EventView::BranchSolution
    } else if marker == 'R' || marker == 'r' || marker == 'L' || marker == 'p' || marker == 'h'
        || marker == 'H' || marker == 'i' || marker == 'I' || marker == 'd' || marker == 'b'
        || marker == 'o' || marker == 's' {
        EventView::Heuristic
    } else {
        EventView::Other(seq![marker])
    }
}

/// The first cell of a row, taken apart: a marker, where it starts with
/// neither a digit nor a point, and the time behind it.
pub open spec fn marker_and_time(cell: Seq<char>) -> (Option<EventView>, Seq<char>) {
    if cell.len() == 0 || numbers::is_digit(cell[0]) || cell[0] == '.' {
        (None, cell)
    } else {
        (Some(event_for(cell[0])), chars::front_trimmed(cell.skip(1), ""@, true))
    }
}

pub fn split_marker(cell: &[char]) -> (out: (Option<NodeEvent>, &[char]))
    ensures
        (schema::opt_event(out.0), out.1@) == marker_and_time(cell@),
{
    if cell.len() == 0 || ('0' <= cell[0] && cell[0] <= '9') || cell[0] == '.' {
        return (None, cell);
    }
    let marker = cell[0];
    let rest = chars::trim_front(chars::from(cell, 1), "", true);
    let event = if marker == '*' {
        NodeEvent::BranchSolution
    } else if marker == 'R' || marker == 'r' || marker == 'L' || marker == 'p' || marker == 'h'
        || marker == 'H' || marker == 'i' || marker == 'I' || marker == 'd' || marker == 'b'
        || marker == 'o' || marker == 's' {
        NodeEvent::Heuristic
    } else {
        let one: Vec<char> = vec![marker];
        assert(one@ =~= seq![marker]);
        NodeEvent::Other(chars::string_of(one.as_slice()))
    };
    (Some(event), rest)
}

/// A bound in a cell, which may have a plus sign.
pub open spec fn cell_of(tok: Seq<char>) -> Option<RealView> {
    let t = chars::trimmed(tok);
    if t == "-"@ || t.len() == 0 {
        None
    } else {
        quantity::real_of(chars::front_trimmed(t, "+"@, false))
    }
}

pub fn parse_exp(tok: &[char]) -> (out: Option<Real>)
    ensures
        quantity::opt_real(out) == cell_of(tok@),
{
    let t = chars::trim(tok);
    if chars::same(t, "-") || t.len() == 0 {
        None
    } else {
        Real::read(chars::trim_front(t, "+", false))
    }
}

/// A row of the progress table: cells between bars, at least seventeen.
pub open spec fn row_in(line: Seq<char>) -> Option<RowView> {
    let cells = chars::pieces(line, '|');
    if cells.len() < 17 {
        None
    } else {
        let first = marker_and_time(chars::trimmed(cells[0]));
        match quantity::real_of(chars::back_trimmed(first.1, "s"@, false)) {
            Some(time) => Some(
                RowView {
                    time_seconds: time,
                    nodes_explored: numbers::u64_of(chars::trimmed(cells[1])),
                    primal: cell_of(chars::trimmed(cells[15])),
                    dual: cell_of(chars::trimmed(cells[14])),
                    gap: progress::gap_of(chars::trimmed(cells[16])),
                    depth: numbers::u32_of(chars::trimmed(cells[6])),
                    lp_iterations: numbers::u64_of(chars::trimmed(cells[3])),
                    event: first.0,
                },
            ),
            None => None,
        }
    }
}

pub fn parse_row(line: &[char]) -> (out: Option<NodeSnapshot>)
    ensures
        schema::opt_row(out) == row_in(line@),
{
    let cells = chars::split_on(line, '|');
    let ghost all = chars::pieces(line@, '|');
    assert(all.len() == cells@.len());
    assert(forall|i: int| 0 <= i < cells@.len() ==> all[i] == (#[trigger] cells@[i])@);
    if cells.len() < 17 {
        return None;
    }
    let (event, time) = split_marker(chars::trim(cells[0]));
    let time = Real::read(chars::trim_back(time, "s", false))?;
    Some(
        NodeSnapshot {
            time_seconds: time,
            nodes_explored: numbers::read_u64(chars::trim(cells[1])),
            primal: parse_exp(chars::trim(cells[15])),
            dual: parse_exp(chars::trim(cells[14])),
            gap: progress::parse_gap(chars::trim(cells[16])),
            depth: numbers::read_u32(chars::trim(cells[6])),
            lp_iterations: numbers::read_u64(chars::trim(cells[3])),
            event,
        },
    )
}

/// The SCIP progress table. Its header comes again every few rows; the
/// summary ends it.
pub struct ScipTable;

pub open spec fn is_header(line: Seq<char>) -> bool {
    &&& chars::contains(line, "| node"@)
    &&& chars::contains(line, "LP iter"@)
    &&& chars::contains(line, "dualbound"@)
}

pub open spec fn ends_table(s: Seq<char>) -> bool {
    ||| chars::starts_with(s, "SCIP Status"@)
    ||| chars::starts_with(s, "Solving Time"@)
    ||| chars::starts_with(s, "Solving Nodes"@)
    ||| chars::starts_with(s, "Primal Bound"@)
    ||| chars::starts_with(s, "Dual Bound"@)
}

impl TableFormat for ScipTable {
    open spec fn meaning(&self, scan: ScanView, any: bool, line: Seq<char>) -> (
        ScanView,
        StepView,
    ) {
        if is_header(line) {
            (ScanView { open: Open::Tree, ..scan }, StepView::Pass)
        } else if scan.open == Open::No || chars::blank(line) {
            (scan, StepView::Pass)
        } else if ends_table(chars::trimmed(line)) {
            (scan, StepView::Stop)
        } else if !chars::contains(line, "|"@) {
            (scan, StepView::Pass)
        } else {
            (scan, progress::row_or_pass(row_in(line)))
        }
    }

    fn step(&self, scan: Scan, any: bool, line: &[char]) -> (out: (Scan, Step)) {
        if chars::has(line, "| node") && chars::has(line, "LP iter") && chars::has(
            line,
            "dualbound",
        ) {
            return (Scan { open: Open::Tree, clock: scan.clock }, Step::Pass);
        }
        if scan.open == Open::No || chars::is_blank(line) {
            return (scan, Step::Pass);
        }
        let s = chars::trim(line);
        if chars::begins(s, "SCIP Status") || chars::begins(s, "Solving Time") || chars::begins(
            s,
            "Solving Nodes",
        ) || chars::begins(s, "Primal Bound") || chars::begins(s, "Dual Bound") {
            return (scan, Step::Stop);
        }
        if !chars::has(line, "|") {
            return (scan, Step::Pass);
        }
        (scan, progress::step_of(parse_row(line)))
    }
}

/// A scalar of the statistics: null for `-`, an integer, a finite number, or
/// else the text. Commas and percent signs around it are no part of it.
pub open spec fn scalar_of(tok: Seq<char>) -> Json {
    let s = chars::back_trimmed(chars::front_trimmed(tok, ",%"@, false), ",%"@, false);
    let unsigned = chars::front_trimmed(s, "+"@, false);
    if s == "-"@ || s.len() == 0 {
        Json::Null
    } else {
        match numbers::i64_of(s) {
            Some(n) => Json::Integer(n),
            None => if numbers::is_finite(unsigned) {
                Json::Real(unsigned)
            } else {
                Json::Text(tok)
            },
        }
    }
}

pub fn parse_json_scalar(tok: &[char]) -> (out: JsonValue)
    ensures
        json::json(out) == scalar_of(tok@),
{
    let s = chars::trim_back(chars::trim_front(tok, ",%", false), ",%", false);
    if chars::same(s, "-") || s.len() == 0 {
        return JsonValue::Null;
    }
    if let Some(n) = numbers::read_i64(s) {
        return JsonValue::Integer(n);
    }
    let unsigned = chars::trim_front(s, "+", false);
    if numbers::finite(unsigned) {
        return JsonValue::Real(chars::string_of(unsigned));
    }
    json::text(tok)
}

/// The entries with the scalar in group `i` under `name`.
pub open spec fn with_scalar(
    e: Seq<(Seq<char>, Json)>,
    m: Groups,
    i: int,
    name: Seq<char>,
) -> Seq<(Seq<char>, Json)> {
    table::put(e, name, scalar_of(matching::part(m, i)))
}

pub fn put_scalar(e: &mut Entries, m: &Captures, i: usize, name: &str)
    ensures
        final(e)@ == with_scalar(old(e)@, m@, i as int, name@),
{
    let s = m.part(i);
    e.put(name, parse_json_scalar(s.as_slice()));
}

/// The key of a line of statistics: its label in lower case, with `_` for
/// each of the characters `gaps`.
pub open spec fn key_for(label: Seq<char>, gaps: Seq<char>) -> Seq<char> {
    chars::replaced(chars::lowercase(chars::trimmed(label)), gaps, '_')
}

pub fn make_key(label: &[char], gaps: &str) -> (out: String)
    ensures
        out@ == key_for(label@, gaps@),
{
    let low = chars::to_lowercase(chars::trim(label));
    let key = chars::replace_chars(low.as_slice(), gaps, '_');
    chars::string_of(key.as_slice())
}

/// The figures of the root node.
pub open spec fn root_from(ms: Seq<Groups>) -> Seq<(Seq<char>, Json)>
    decreases ms.len(),
{
    if ms.len() == 0 {
        json::no_entries()
    } else {
        with_scalar(
            root_from(ms.drop_last()),
            ms.last(),
            2,
            key_for(matching::part(ms.last(), 1), " "@),
        )
    }
}

pub fn collect_root(ms: &Vec<Captures>) -> (out: Option<JsonValue>)
    ensures
        json::opt_json(out) == json::object_of(root_from(matching::all_groups(ms@))),
{
    let mut e = Entries::new();
    let mut i: usize = 0;
    let ghost all = matching::all_groups(ms@);
    while i < ms.len()
        invariant
            i <= ms@.len(),
            all == matching::all_groups(ms@),
            e@ == root_from(all.take(i as int)),
        decreases ms@.len() - i,
    {
        assert(all.take(i + 1).drop_last() =~= all.take(i as int));
        assert(all.take(i + 1).last() == ms@[i as int]@);
        let label = ms[i].part(1);
        let key = make_key(label.as_slice(), " ");
        put_scalar(&mut e, &ms[i], 2, key.as_str());
        i = i + 1;
    }
    assert(all.take(i as int) =~= all);
    e.some_object()
}

/// The first word of a text, without the spaces around it; nothing where it is blank.
pub open spec fn first_word(s: Seq<char>) -> Seq<char> {
    let words = chars::words(chars::trimmed(s));
    if words.len() > 0 {
        words[0]
    } else {
        chars::trimmed(s)
    }
}

/// The figures of the tree: of each line the first word.
pub open spec fn tree_figures(ms: Seq<Groups>) -> Seq<(Seq<char>, Json)>
    decreases ms.len(),
{
    if ms.len() == 0 {
        json::no_entries()
    } else {
        table::put(
            tree_figures(ms.drop_last()),
            key_for(matching::part(ms.last(), 1), " ."@),
            scalar_of(first_word(matching::part(ms.last(), 2))),
        )
    }
}

pub fn collect_tree(ms: &Vec<Captures>) -> (out: Option<JsonValue>)
    ensures
        json::opt_json(out) == json::object_of(tree_figures(matching::all_groups(ms@))),
{
    let mut e = Entries::new();
    let mut i: usize = 0;
    let ghost all = matching::all_groups(ms@);
    while i < ms.len()
        invariant
            i <= ms@.len(),
            all == matching::all_groups(ms@),
            e@ == tree_figures(all.take(i as int)),
        decreases ms@.len() - i,
    {
        assert(all.take(i + 1).drop_last() =~= all.take(i as int));
        assert(all.take(i + 1).last() == ms@[i as int]@);
        let label = ms[i].part(1);
        let key = make_key(label.as_slice(), " .");
        let value = ms[i].part(2);
        let raw = chars::trim(value.as_slice());
        let words = chars::split_words(raw);
        assert(chars::views(words@).len() == words@.len());
        let first = if words.len() > 0 {
            assert(words@[0]@ == chars::views(words@)[0]);
            words[0]
        } else {
            raw
        };
        e.put(key.as_str(), parse_json_scalar(first));
        i = i + 1;
    }
    assert(all.take(i as int) =~= all);
    e.some_object()
}

/// Where a solution came from.
pub open spec fn origin_of(m: Groups) -> Json {
    let e0 = with_scalar(json::no_entries(), m, 1, "run"@);
    let e1 = with_scalar(e0, m, 2, "nodes"@);
    let e2 = with_scalar(e1, m, 3, "time_seconds"@);
    let e3 = with_scalar(e2, m, 4, "depth"@);
    Json::Object(entries::with_group(e3, m, 5, "heuristic"@, Kind::Text))
}

pub fn make_origin(m: &Captures) -> (out: JsonValue)
    ensures
        json::json(out) == origin_of(m@),
{
    let mut e = Entries::new();
    put_scalar(&mut e, m, 1, "run");
    put_scalar(&mut e, m, 2, "nodes");
    put_scalar(&mut e, m, 3, "time_seconds");
    put_scalar(&mut e, m, 4, "depth");
    entries::put_group(&mut e, m, 5, "heuristic", Kind::Text);
    e.object()
}

/// Where the first and the best solution came from.
pub open spec fn attribution_from(first: Option<Groups>, best: Option<Groups>) -> Option<Json> {
    let e0 = match first {
        Some(m) => table::put(json::no_entries(), "first"@, origin_of(m)),
        None => json::no_entries(),
    };
    json::object_of(
        match best {
            Some(m) => table::put(e0, "best"@, origin_of(m)),
            None => e0,
        },
    )
}

pub fn make_attribution(first: &Option<Captures>, best: &Option<Captures>) -> (out: Option<
    JsonValue,
>)
    ensures
        json::opt_json(out) == attribution_from(
            matching::opt_groups(*first),
            matching::opt_groups(*best),
        ),
{
    let mut e = Entries::new();
    if let Some(m) = first {
        e.put("first", make_origin(m));
    }
    if let Some(m) = best {
        e.put("best", make_origin(m));
    }
    e.some_object()
}

/// The entries with one scalar per column, for the first `n` columns.
pub open spec fn filled(
    e: Seq<(Seq<char>, Json)>,
    columns: Seq<Seq<char>>,
    words: Seq<Seq<char>>,
    n: nat,
) -> Seq<(Seq<char>, Json)>
    decreases n,
{
    if n == 0 {
        e
    } else {
        table::put(
            filled(e, columns, words, (n - 1) as nat),
            columns[n - 1],
            scalar_of(words[n - 1]),
        )
    }
}

/// A row of a named table: its name, and a scalar for each column that there
/// is a word for.
pub open spec fn table_row(m: Groups, columns: Seq<Seq<char>>) -> Json {
    let words = chars::words(matching::part(m, 2));
    let n = if columns.len() <= words.len() {
        columns.len()
    } else {
        words.len()
    };
    Json::Object(
        filled(
            table::put(
                json::no_entries(),
                "name"@,
                Json::Text(chars::trimmed(matching::part(m, 1))),
            ),
            columns,
            words,
            n,
        ),
    )
}

pub fn make_table_row(m: &Captures, columns: &Vec<&'static str>) -> (out: JsonValue)
    ensures
        json::json(out) == table_row(m@, schema::strs(columns@)),
{
    let name = m.part(1);
    let list = m.part(2);
    let words = chars::split_words(list.as_slice());
    let ghost all = chars::words(list@);
    let ghost cols = schema::strs(columns@);
    assert(chars::views(words@).len() == words@.len());
    let n: usize = if columns.len() <= words.len() {
        columns.len()
    } else {
        words.len()
    };
    let mut e = Entries::new();
    e.put("name", json::text(chars::trim(name.as_slice())));
    let ghost start = e@;
    let mut i: usize = 0;
    while i < n
        invariant
            i <= n <= columns@.len(),
            n <= words@.len(),
            chars::views(words@) == all,
            cols == schema::strs(columns@),
            e@ == filled(start, cols, all, i as nat),
        decreases n - i,
    {
        assert(all[i as int] == words@[i as int]@);
        assert(cols[i as int] == columns@[i as int]@);
        e.put(columns[i], parse_json_scalar(words[i]));
        i = i + 1;
    }
    e.object()
}

/// The rows of a named table; one without a name is left out.
pub open spec fn table_rows_of(ms: Seq<Groups>, columns: Seq<Seq<char>>) -> Seq<Json>
    decreases ms.len(),
{
    if ms.len() == 0 {
        Seq::empty()
    } else {
        let before = table_rows_of(ms.drop_last(), columns);
        if chars::trimmed(matching::part(ms.last(), 1)).len() == 0 {
            before
        } else {
            before.push(table_row(ms.last(), columns))
        }
    }
}

pub fn collect_table(ms: &Vec<Captures>, columns: &Vec<&'static str>) -> (out: Option<JsonValue>)
    ensures
        json::opt_json(out) == json::array_of(
            table_rows_of(matching::all_groups(ms@), schema::strs(columns@)),
        ),
{
    let mut out: Vec<JsonValue> = Vec::new();
    let mut i: usize = 0;
    let ghost all = matching::all_groups(ms@);
    let ghost cols = schema::strs(columns@);
    assert(json::jsons(out@) =~= Seq::empty());
    while i < ms.len()
        invariant
            i <= ms@.len(),
            all == matching::all_groups(ms@),
            cols == schema::strs(columns@),
            json::jsons(out@) == table_rows_of(all.take(i as int), cols),
        decreases ms@.len() - i,
    {
        assert(all.take(i + 1).drop_last() =~= all.take(i as int));
        assert(all.take(i + 1).last() == ms@[i as int]@);
        let name = ms[i].part(1);
        if chars::trim(name.as_slice()).len() != 0 {
            let v = make_table_row(&ms[i], columns);
            proof {
                json::lemma_jsons_push(out@, v);
            }
            out.push(v);
        }
        i = i + 1;
    }
    assert(all.take(i as int) =~= all);
    json::some_array(out)
}

/// The pattern of the header of a section.
pub open spec fn section_header(section: Seq<char>) -> Seq<char> {
    "(?m)^"@ + matching::escaped(section) + r"\s*:"@
}

pub fn make_section_header(section: &str) -> (out: String)
    ensures
        out@ == section_header(section@),
{
    let start = chars::chars_of("(?m)^");
    let escaped = matching::escape(section);
    let pattern = chars::join(start.as_slice(), escaped.as_str());
    let pattern = chars::join(pattern.as_slice(), r"\s*:");
    chars::string_of(pattern.as_slice())
}

/// A section with a named table.
pub open spec fn named_table(text: Seq<char>, section: Seq<char>, columns: Seq<Seq<char>>) -> Option<
    Json,
> {
    json::array_of(
        table_rows_of(
            table_matches(section_header(section), TABLE_ROW@, false, false, text),
            columns,
        ),
    )
}

pub fn parse_named_table(text: &str, section: &str, columns: &Vec<&'static str>) -> (out: Option<
    JsonValue,
>)
    ensures
        json::opt_json(out) == named_table(text@, section@, schema::strs(columns@)),
{
    let header = make_section_header(section);
    let ms = match_table(header.as_str(), TABLE_ROW, false, false, text);
    collect_table(&ms, columns)
}

/// How many constraints there are of each type; nothing where a count is too large.
pub open spec fn constraints_from(ms: Seq<Groups>) -> Option<Seq<(Seq<char>, Json)>>
    decreases ms.len(),
{
    if ms.len() == 0 {
        Some(json::no_entries())
    } else {
        match (
            constraints_from(ms.drop_last()),
            numbers::u64_of(matching::part(ms.last(), 1)),
        ) {
            (Some(e), Some(n)) => Some(
                table::put(e, matching::part(ms.last(), 2), Json::Count(n)),
            ),
            _ => None,
        }
    }
}

pub open spec fn constraints_object(ms: Seq<Groups>) -> Option<Json> {
    match constraints_from(ms) {
        Some(e) => json::object_of(e),
        None => None,
    }
}

proof fn lemma_constraints_stay_none(ms: Seq<Groups>, i: int)
    requires
        0 <= i <= ms.len(),
        constraints_from(ms.take(i)) is None,
    ensures
        constraints_from(ms) is None,
    decreases ms.len(),
{
    if i == ms.len() {
        assert(ms.take(i) =~= ms);
    } else {
        assert(ms.drop_last().take(i) =~= ms.take(i));
        lemma_constraints_stay_none(ms.drop_last(), i);
    }
}

pub fn collect_constraints(ms: &Vec<Captures>) -> (out: Option<JsonValue>)
    ensures
        json::opt_json(out) == constraints_object(matching::all_groups(ms@)),
{
    let mut e = Entries::new();
    let mut i: usize = 0;
    let ghost all = matching::all_groups(ms@);
    while i < ms.len()
        invariant
            i <= ms@.len(),
            all == matching::all_groups(ms@),
            constraints_from(all.take(i as int)) == Some(e@),
        decreases ms@.len() - i,
    {
        assert(all.take(i + 1).drop_last() =~= all.take(i as int));
        assert(all.take(i + 1).last() == ms@[i as int]@);
        let count = ms[i].part(1);
        let name = ms[i].part(2);
        let name = chars::string_of(name.as_slice());
        match numbers::read_u64(count.as_slice()) {
            Some(n) => {
                e.put(name.as_str(), JsonValue::Count(n));
            },
            None => {
                proof {
                    lemma_constraints_stay_none(all, i + 1);
                }
                return None;
            },
        }
        i = i + 1;
    }
    assert(all.take(i as int) =~= all);
    e.some_object()
}

/// An integral: in total and on average.
pub open spec fn integral_of(m: Groups) -> Json {
    Json::Object(with_scalar(with_scalar(json::no_entries(), m, 2, "total"@), m, 3, "avg_pct"@))
}

/// The integrals.
pub open spec fn integrals_from(ms: Seq<Groups>) -> Seq<(Seq<char>, Json)>
    decreases ms.len(),
{
    if ms.len() == 0 {
        json::no_entries()
    } else {
        table::put(
            integrals_from(ms.drop_last()),
            chars::replaced(matching::part(ms.last(), 1), "-"@, '_'),
            integral_of(ms.last()),
        )
    }
}

pub fn collect_integrals(ms: &Vec<Captures>) -> (out: Option<JsonValue>)
    ensures
        json::opt_json(out) == json::object_of(integrals_from(matching::all_groups(ms@))),
{
    let mut e = Entries::new();
    let mut i: usize = 0;
    let ghost all = matching::all_groups(ms@);
    while i < ms.len()
        invariant
            i <= ms@.len(),
            all == matching::all_groups(ms@),
            e@ == integrals_from(all.take(i as int)),
        decreases ms@.len() - i,
    {
        assert(all.take(i + 1).drop_last() =~= all.take(i as int));
        assert(all.take(i + 1).last() == ms@[i as int]@);
        let label = ms[i].part(1);
        let key = chars::replace_chars(label.as_slice(), "-", '_');
        let key = chars::string_of(key.as_slice());
        let mut inner = Entries::new();
        put_scalar(&mut inner, &ms[i], 2, "total");
        put_scalar(&mut inner, &ms[i], 3, "avg_pct");
        e.put(key.as_str(), inner.object());
        i = i + 1;
    }
    assert(all.take(i as int) =~= all);
    e.some_object()
}

/// The columns on primal heuristics.
pub open spec fn heuristic_columns() -> Seq<Seq<char>> {
    seq![
        "exec_time"@,
        "setup_time"@,
        "calls"@,
        "found"@,
        "best"@,
    ]
}

fn make_heuristic_columns() -> (out: Vec<&'static str>)
    ensures
        schema::strs(out@) == heuristic_columns(),
{
    let out: Vec<&'static str> = vec![
        "exec_time",
        "setup_time",
        "calls",
        "found",
        "best",
    ];
    assert(schema::strs(out@) =~= heuristic_columns());
    out
}

/// The columns on separators.
pub open spec fn separator_columns() -> Seq<Seq<char>> {
    seq![
        "exec_time"@,
        "setup_time"@,
        "calls"@,
        "root_calls"@,
        "cutoffs"@,
        "dom_reds"@,
        "found_cuts"@,
        "via_pool_add"@,
        "direct_add"@,
        "applied"@,
        "via_pool_app"@,
        "direct_app"@,
        "conss"@,
    ]
}

fn make_separator_columns() -> (out: Vec<&'static str>)
    ensures
        schema::strs(out@) == separator_columns(),
{
    let out: Vec<&'static str> = vec![
        "exec_time",
        "setup_time",
        "calls",
        "root_calls",
        "cutoffs",
        "dom_reds",
        "found_cuts",
        "via_pool_add",
        "direct_add",
        "applied",
        "via_pool_app",
        "direct_app",
        "conss",
    ];
    assert(schema::strs(out@) =~= separator_columns());
    out
}

/// The columns on branching rules.
pub open spec fn branching_columns() -> Seq<Seq<char>> {
    seq![
        "exec_time"@,
        "setup_time"@,
        "branch_lp"@,
        "branch_ext"@,
        "branch_ps"@,
        "cutoffs"@,
        "dom_reds"@,
        "cuts"@,
        "conss"@,
        "children"@,
    ]
}

fn make_branching_columns() -> (out: Vec<&'static str>)
    ensures
        schema::strs(out@) == branching_columns(),
{
    let out: Vec<&'static str> = vec![
        "exec_time",
        "setup_time",
        "branch_lp",
        "branch_ext",
        "branch_ps",
        "cutoffs",
        "dom_reds",
        "cuts",
        "conss",
        "children",
    ];
    assert(schema::strs(out@) =~= branching_columns());
    out
}

/// The columns on LPs.
pub open spec fn lp_columns() -> Seq<Seq<char>> {
    seq![
        "time"@,
        "calls"@,
        "iterations"@,
        "iter_per_call"@,
        "iter_per_sec"@,
    ]
}

fn make_lp_columns() -> (out: Vec<&'static str>)
    ensures
        schema::strs(out@) == lp_columns(),
{
    let out: Vec<&'static str> = vec![
        "time",
        "calls",
        "iterations",
        "iter_per_call",
        "iter_per_sec",
    ];
    assert(schema::strs(out@) =~= lp_columns());
    out
}

/// The columns on conflict analysis.
pub open spec fn conflict_columns() -> Seq<Seq<char>> {
    seq![
        "time"@,
        "calls"@,
        "success"@,
        "dom_reds"@,
        "conflicts"@,
        "literals"@,
    ]
}

fn make_conflict_columns() -> (out: Vec<&'static str>)
    ensures
        schema::strs(out@) == conflict_columns(),
{
    let out: Vec<&'static str> = vec![
        "time",
        "calls",
        "success",
        "dom_reds",
        "conflicts",
        "literals",
    ];
    assert(schema::strs(out@) =~= conflict_columns());
    out
}

/// The pattern of the origin of a solution under a label.
pub open spec fn origin_pattern(label: Seq<char>) -> Seq<char> {
    matching::escaped(label) + ATTRIBUTION@
}

pub fn find_origin(label: &str, text: &str) -> (out: Option<Captures>)
    ensures
        matching::opt_groups(out) == matching::regex_captures(origin_pattern(label@), text@),
{
    let escaped = matching::escape(label);
    let escaped = chars::chars_of(escaped.as_str());
    let pattern = chars::join(escaped.as_slice(), ATTRIBUTION);
    let pattern = chars::string_of(pattern.as_slice());
    matching::captures(pattern.as_str(), text)
}

/// The pattern of a bound, which may have a plus sign, under a label.
pub open spec fn bound_pattern(label: Seq<char>) -> Seq<char> {
    matching::escaped(label) + SIGNED_VALUE@
}

pub fn find_bound(label: &str, text: &str) -> (out: Option<Captures>)
    ensures
        matching::opt_groups(out) == matching::regex_captures(bound_pattern(label@), text@),
{
    let escaped = matching::escape(label);
    let escaped = chars::chars_of(escaped.as_str());
    let pattern = chars::join(escaped.as_slice(), SIGNED_VALUE);
    let pattern = chars::string_of(pattern.as_slice());
    matching::captures(pattern.as_str(), text)
}

/// What only SCIP reports.
pub open spec fn others_in(text: Seq<char>) -> Seq<(Seq<char>, Json)> {
    let o0 = progress::with_other(
        Seq::empty(),
        "scip.root_node"@,
        json::object_of(
            root_from(
                matching::block_rows(ROOT_HEADER@, ROOT_ROW@, 10, false, Margin::Space, text),
            ),
        ),
    );
    let o1 = progress::with_other(
        o0,
        "scip.tree"@,
        json::object_of(
            tree_figures(
                matching::block_rows(TREE_HEADER@, TREE_ROW@, 20, false, Margin::Space, text),
            ),
        ),
    );
    let o2 = progress::with_other(
        o1,
        "scip.solution_attribution"@,
        attribution_from(
            matching::regex_captures(origin_pattern("First Solution"@), text),
            matching::regex_captures(origin_pattern("Primal Bound"@), text),
        ),
    );
    let o3 = progress::with_other(
        o2,
        "scip.heuristics"@,
        named_table(text, "Primal Heuristics"@, heuristic_columns()),
    );
    let o4 = progress::with_other(
        o3,
        "scip.separators"@,
        named_table(text, "Separators"@, separator_columns()),
    );
    let o5 = progress::with_other(
        o4,
        "scip.branching_rules"@,
        named_table(text, "Branching Rules"@, branching_columns()),
    );
    let o6 = progress::with_other(
        o5,
        "scip.lp_breakdown"@,
        named_table(text, "LP"@, lp_columns()),
    );
    let o7 = progress::with_other(
        o6,
        "scip.conflict_analysis"@,
        named_table(text, "Conflict Analysis"@, conflict_columns()),
    );
    let o8 = progress::with_other(
        o7,
        "scip.constraints_by_type"@,
        constraints_object(matching::regex_captures_iter(CONSTRAINTS@, text)),
    );
    progress::with_other(
        o8,
        "scip.integrals"@,
        json::object_of(
            integrals_from(
                matching::block_rows(
                    INTEGRALS_HEADER@,
                    INTEGRALS_ROW@,
                    5,
                    true,
                    Margin::Space,
                    text,
                ),
            ),
        ),
    )
}

pub fn collect_others(text: &str) -> (out: Vec<NamedValue>)
    ensures
        schema::others_of(out@) == others_in(text@),
{
    let mut out: Vec<NamedValue> = Vec::new();
    assert(schema::others_of(out@) =~= Seq::empty());
    let root = matching::match_block(ROOT_HEADER, ROOT_ROW, 10, false, Margin::Space, text);
    progress::add_other(&mut out, "scip.root_node", collect_root(&root));
    let tree = matching::match_block(TREE_HEADER, TREE_ROW, 20, false, Margin::Space, text);
    progress::add_other(&mut out, "scip.tree", collect_tree(&tree));
    let first = find_origin("First Solution", text);
    let best = find_origin("Primal Bound", text);
    progress::add_other(&mut out, "scip.solution_attribution", make_attribution(&first, &best));
    let columns = make_heuristic_columns();
    progress::add_other(
        &mut out,
        "scip.heuristics",
        parse_named_table(text, "Primal Heuristics", &columns),
    );
    let columns = make_separator_columns();
    progress::add_other(
        &mut out,
        "scip.separators",
        parse_named_table(text, "Separators", &columns),
    );
    let columns = make_branching_columns();
    progress::add_other(
        &mut out,
        "scip.branching_rules",
        parse_named_table(text, "Branching Rules", &columns),
    );
    let columns = make_lp_columns();
    progress::add_other(&mut out, "scip.lp_breakdown", parse_named_table(text, "LP", &columns));
    let columns = make_conflict_columns();
    progress::add_other(
        &mut out,
        "scip.conflict_analysis",
        parse_named_table(text, "Conflict Analysis", &columns),
    );
    let constraints = matching::captures_iter(CONSTRAINTS, text);
    progress::add_other(
        &mut out,
        "scip.constraints_by_type",
        collect_constraints(&constraints),
    );
    let integrals = matching::match_block(
        INTEGRALS_HEADER,
        INTEGRALS_ROW,
        5,
        true,
        Margin::Space,
        text,
    );
    progress::add_other(&mut out, "scip.integrals", collect_integrals(&integrals));
    out
}

/// What is found in a SCIP log.
#[verifier::opaque]
pub open spec fn log_in(text: Seq<char>) -> LogView {
    let primal = matching::regex_captures(PRIMAL@, text);
    LogView {
        solver: Solver::Scip,
        version: matching::text_at(matching::regex_captures(VERSION@, text), 1),
        solver_git_hash: matching::text_at(matching::regex_captures(GIT_HASH@, text), 1),
        problem: problem_from(matching::regex_captures(PROBLEM@, text)),
        termination: termination_from(matching::regex_captures(STATUS@, text)),
        timing: timing_from(
            matching::regex_captures(SOLVING_TIME@, text),
            matching::regex_captures(PRESOLVING_TIME@, text),
            matching::regex_captures(ROOT_LP_TIME@, text),
        ),
        bounds: bounds_from(
            primal,
            matching::regex_captures(DUAL@, text),
            matching::regex_captures(GAP@, text),
            matching::regex_captures(bound_pattern("Final Dual Bound"@), text),
            matching::regex_captures(FIRST_SOLUTION@, text),
            matching::regex_captures(INTEGRAL@, text),
        ),
        tree: tree_from(
            matching::regex_captures(SOLVING_NODES@, text),
            matching::block_rows(
                LP_HEADER@,
                LP_ROW@,
                usize::MAX as int,
                true,
                Margin::Space,
                text,
            ),
            primal,
            matching::regex_captures(MAX_DEPTH@, text),
            matching::regex_captures(RUNS@, text),
        ),
        presolve: presolve_from(
            matching::regex_captures(ORIGINAL@, text),
            matching::regex_captures(PRESOLVED@, text),
        ),
        cuts: progress::cuts_of(
            table_matches(CUTS_HEADER@, CUTS_ROW@, true, true, text),
            false,
            false,
        ),
        progress: progress::table_rows(ScipTable, text),
        other_data: others_in(text),
    }
}

/// The log is one of this solver.
pub proof fn lemma_solver(text: Seq<char>)
    ensures
        log_in(text).solver == Solver::Scip,
{
    reveal(log_in);
}

pub struct ScipParser;

impl LogParser for ScipParser {
    open spec fn handles(&self) -> Solver {
        Solver::Scip
    }

    open spec fn recognizes(&self, text: Seq<char>) -> bool {
        looks_right(text)
    }

    open spec fn reading(&self, text: Seq<char>) -> LogView {
        log_in(text)
    }

    fn solver(&self) -> (out: Solver) {
        Solver::Scip
    }

    fn sniff(&self, text: &str) -> (out: bool) {
        let all = chars::chars_of(text);
        chars::has(all.as_slice(), "SCIP version") || chars::has(all.as_slice(), "SCIP Status")
    }

    fn parse(&self, text: &str) -> (out: Result<SolverLog, ParseError>) {
        if !self.sniff(text) {
            return Err(ParseError::WrongSolver("scip"));
        }
        proof {
            reveal(log_in);
        }
        let all = chars::chars_of(text);
        let version = matching::captures(VERSION, text);
        let git_hash = matching::captures(GIT_HASH, text);
        let problem = matching::captures(PROBLEM, text);
        let status = matching::captures(STATUS, text);
        let solving = matching::captures(SOLVING_TIME, text);
        let presolving = matching::captures(PRESOLVING_TIME, text);
        let root_time = matching::captures(ROOT_LP_TIME, text);
        let primal = matching::captures(PRIMAL, text);
        let dual = matching::captures(DUAL, text);
        let gap = matching::captures(GAP, text);
        let root = find_bound("Final Dual Bound", text);
        let first = matching::captures(FIRST_SOLUTION, text);
        let integral = matching::captures(INTEGRAL, text);
        let nodes = matching::captures(SOLVING_NODES, text);
        let lps = matching::match_block(LP_HEADER, LP_ROW, usize::MAX, true, Margin::Space, text);
        let depth = matching::captures(MAX_DEPTH, text);
        let runs = matching::captures(RUNS, text);
        let original = matching::captures(ORIGINAL, text);
        let presolved = matching::captures(PRESOLVED, text);
        let cuts = match_table(CUTS_HEADER, CUTS_ROW, true, true, text);
        Ok(
            SolverLog {
                solver: Solver::Scip,
                parser: ParserInfo::current(),
                version: matching::found_text(&version, 1),
                solver_git_hash: matching::found_text(&git_hash, 1),
                problem: make_problem(&problem),
                termination: make_termination(&status),
                timing: make_timing(&solving, &presolving, &root_time),
                bounds: make_bounds(&primal, &dual, &gap, &root, &first, &integral),
                tree: make_tree(&nodes, &lps, &primal, &depth, &runs),
                presolve: make_presolve(&original, &presolved),
                cuts: progress::collect_cuts(&cuts, false, false),
                progress: progress::read_table(&ScipTable, all.as_slice()),
                other_data: collect_others(text),
            },
        )
    }
}

/// The names of the other data start with `scip.`, and none occurs twice.
pub proof fn lemma_other_names(text: Seq<char>)
    ensures
        progress::are_named(log_in(text).other_data, "scip"@),
{
    reveal(log_in);
    reveal_strlit("scip");
    let key = "scip"@;
    assert(progress::are_among(Seq::empty(), Set::empty(), key));
    reveal_strlit("scip.root_node");
    reveal_strlit("scip.tree");
    reveal_strlit("scip.solution_attribution");
    reveal_strlit("scip.heuristics");
    reveal_strlit("scip.separators");
    reveal_strlit("scip.branching_rules");
    reveal_strlit("scip.lp_breakdown");
    reveal_strlit("scip.conflict_analysis");
    reveal_strlit("scip.constraints_by_type");
    reveal_strlit("scip.integrals");
    assert("scip.root_node"@.subrange(0, 5) =~= key.push('.'));
    progress::lemma_new_name(Set::empty(), "scip.root_node"@, key);
    let names0 = Set::empty().insert("scip.root_node"@);
    assert("scip.tree"@.subrange(0, 5) =~= key.push('.'));
    progress::lemma_new_name(names0, "scip.tree"@, key);
    let names1 = names0.insert("scip.tree"@);
    assert("scip.solution_attribution"@.subrange(0, 5) =~= key.push('.'));
    progress::lemma_new_name(names1, "scip.solution_attribution"@, key);
    let names2 = names1.insert("scip.solution_attribution"@);
    assert("scip.heuristics"@.subrange(0, 5) =~= key.push('.'));
    progress::lemma_new_name(names2, "scip.heuristics"@, key);
    let names3 = names2.insert("scip.heuristics"@);
    assert("scip.separators"@.subrange(0, 5) =~= key.push('.'));
    assert("scip.heuristics"@[5] != "scip.separators"@[5]);
    progress::lemma_new_name(names3, "scip.separators"@, key);
    let names4 = names3.insert("scip.separators"@);
    assert("scip.branching_rules"@.subrange(0, 5) =~= key.push('.'));
    progress::lemma_new_name(names4, "scip.branching_rules"@, key);
    let names5 = names4.insert("scip.branching_rules"@);
    assert("scip.lp_breakdown"@.subrange(0, 5) =~= key.push('.'));
    progress::lemma_new_name(names5, "scip.lp_breakdown"@, key);
    let names6 = names5.insert("scip.lp_breakdown"@);
    assert("scip.conflict_analysis"@.subrange(0, 5) =~= key.push('.'));
    progress::lemma_new_name(names6, "scip.conflict_analysis"@, key);
    let names7 = names6.insert("scip.conflict_analysis"@);
    assert("scip.constraints_by_type"@.subrange(0, 5) =~= key.push('.'));
    progress::lemma_new_name(names7, "scip.constraints_by_type"@, key);
    let names8 = names7.insert("scip.constraints_by_type"@);
    assert("scip.integrals"@.subrange(0, 5) =~= key.push('.'));
    assert("scip.root_node"@[5] != "scip.integrals"@[5]);
    progress::lemma_new_name(names8, "scip.integrals"@, key);
}

pub proof fn lemma_cuts(text: Seq<char>)
    ensures
        table::counts_positive(log_in(text).cuts),
{
    reveal(log_in);
    progress::lemma_cuts_positive(
        table_matches(CUTS_HEADER@, CUTS_ROW@, true, true, text),
        false,
        false,
    );
}

} // verus!
