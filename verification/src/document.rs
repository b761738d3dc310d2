//! The text form of a log, which can be read back.
//!
//! A document has one line for each part of a log, the rows of the progress
//! table among them, and starts with the line `orlog-text 1`. A line is a tag
//! and values with their names. A value that is not there is written `-`.

use crate::chars;
use crate::fields;
use crate::fields::{Value, ValueView};
use crate::numbers;
use crate::quantity;
use crate::quantity::{Real, RealView};
use crate::schema;
use crate::schema::{
    Bounds, BoundsView, EventView, LogView, NodeEvent, NodeSnapshot, ParserInfo, PresolveStats,
    ProgressTable, RowView, Solver, SolverLog, Status, Termination, TerminationView, Timing,
    TimingView, TreeStats,
};
use crate::table;
use crate::table::CutCounts;
use vstd::prelude::*;

verus! {

/// The value that is not there.
pub open spec fn dash() -> ValueView {
    ValueView::Bare("-"@)
}

/// The text that a value holds, if it is there.
pub open spec fn text_in(v: ValueView) -> Option<Seq<char>> {
    if v == dash() {
        None
    } else {
        match v {
            ValueView::Bare(w) => Some(w),
            ValueView::Quoted(q) => Some(q),
        }
    }
}

/// The number that a value holds, if it is there: any real literal.
pub open spec fn number_in(v: ValueView) -> Option<Option<RealView>> {
    if v == dash() {
        Some(None)
    } else {
        match v {
            ValueView::Bare(w) => match quantity::real_of(w) {
                Some(r) => Some(Some(r)),
                None => None,
            },
            ValueView::Quoted(_) => None,
        }
    }
}

/// The count that a value holds, if it is there.
pub open spec fn count_in(v: ValueView) -> Option<Option<u64>> {
    if v == dash() {
        Some(None)
    } else {
        match v {
            ValueView::Bare(w) => match numbers::u64_of(w) {
                Some(n) => Some(Some(n)),
                None => None,
            },
            ValueView::Quoted(_) => None,
        }
    }
}

/// The depth that a value holds, if it is there.
pub open spec fn depth_in(v: ValueView) -> Option<Option<u32>> {
    match count_in(v) {
        Some(Some(n)) => if n <= u32::MAX {
            Some(Some(n as u32))
        } else {
            None
        },
        Some(None) => Some(None),
        None => None,
    }
}

/// The event that a value holds, if it is there. A marker of the solver's
/// own stands in quotes.
pub open spec fn event_in(v: ValueView) -> Option<Option<EventView>> {
    if v == dash() {
        Some(None)
    } else if v == ValueView::Bare("heuristic"@) {
        Some(Some(EventView::Heuristic))
    } else if v == ValueView::Bare("branch_solution"@) {
        Some(Some(EventView::BranchSolution))
    } else if v == ValueView::Bare("cutoff"@) {
        Some(Some(EventView::Cutoff))
    } else {
        match v {
            ValueView::Quoted(q) => Some(Some(EventView::Other(q))),
            ValueView::Bare(_) => None,
        }
    }
}

/// The name of a status.
pub open spec fn status_name(status: Status) -> Seq<char> {
    match status {
        Status::Unknown => "unknown"@,
        Status::Optimal => "optimal"@,
        Status::Infeasible => "infeasible"@,
        Status::Unbounded => "unbounded"@,
        Status::InfeasibleOrUnbounded => "infeasible_or_unbounded"@,
        Status::TimeLimit => "time_limit"@,
        Status::MemoryLimit => "memory_limit"@,
        Status::OtherLimit => "other_limit"@,
        Status::UserInterrupt => "user_interrupt"@,
        Status::NumericalError => "numerical_error"@,
    }
}

/// The status with this name.
pub open spec fn status_named(name: Seq<char>) -> Option<Status> {
    if name == "unknown"@ {
        Some(Status::Unknown)
    } else if name == "optimal"@ {
        Some(Status::Optimal)
    } else if name == "infeasible"@ {
        Some(Status::Infeasible)
    } else if name == "unbounded"@ {
        Some(Status::Unbounded)
    } else if name == "infeasible_or_unbounded"@ {
        Some(Status::InfeasibleOrUnbounded)
    } else if name == "time_limit"@ {
        Some(Status::TimeLimit)
    } else if name == "memory_limit"@ {
        Some(Status::MemoryLimit)
    } else if name == "other_limit"@ {
        Some(Status::OtherLimit)
    } else if name == "user_interrupt"@ {
        Some(Status::UserInterrupt)
    } else if name == "numerical_error"@ {
        Some(Status::NumericalError)
    } else {
        None
    }
}

fn is_bare(v: &Value, word: &str) -> (out: bool)
    ensures
        out == (v@ == ValueView::Bare(word@)),
{
    match v {
        Value::Bare(w) => {
            let all = chars::chars_of(w.as_str());
            chars::same(all.as_slice(), word)
        },
        Value::Quoted(_) => false,
    }
}

fn read_text(v: &Value) -> (out: Option<String>)
    ensures
        chars::opt_text(out) == text_in(v@),
{
    if is_bare(v, "-") {
        return None;
    }
    match v {
        Value::Bare(w) => Some(w.clone()),
        Value::Quoted(q) => Some(q.clone()),
    }
}

fn read_number(v: &Value) -> (out: Option<Option<Real>>)
    ensures
        number_in(v@) == (match out {
            Some(r) => Some(quantity::opt_real(r)),
            None => None,
        }),
{
    if is_bare(v, "-") {
        return Some(None);
    }
    match v {
        Value::Bare(w) => {
            let all = chars::chars_of(w.as_str());
            match Real::read(all.as_slice()) {
                Some(r) => Some(Some(r)),
                None => None,
            }
        },
        Value::Quoted(_) => None,
    }
}

fn read_count(v: &Value) -> (out: Option<Option<u64>>)
    ensures
        out == count_in(v@),
{
    if is_bare(v, "-") {
        return Some(None);
    }
    match v {
        Value::Bare(w) => {
            let all = chars::chars_of(w.as_str());
            match numbers::read_u64(all.as_slice()) {
                Some(n) => Some(Some(n)),
                None => None,
            }
        },
        Value::Quoted(_) => None,
    }
}

fn read_depth(v: &Value) -> (out: Option<Option<u32>>)
    ensures
        out == depth_in(v@),
{
    match read_count(v) {
        Some(Some(n)) => {
            if n <= u32::MAX as u64 {
                Some(Some(n as u32))
            } else {
                None
            }
        },
        Some(None) => Some(None),
        None => None,
    }
}

fn read_event(v: &Value) -> (out: Option<Option<NodeEvent>>)
    ensures
        event_in(v@) == (match out {
            Some(e) => Some(schema::opt_event(e)),
            None => None,
        }),
{
    if is_bare(v, "-") {
        Some(None)
    } else if is_bare(v, "heuristic") {
        Some(Some(NodeEvent::Heuristic))
    } else if is_bare(v, "branch_solution") {
        Some(Some(NodeEvent::BranchSolution))
    } else if is_bare(v, "cutoff") {
        Some(Some(NodeEvent::Cutoff))
    } else {
        match v {
            Value::Quoted(q) => Some(Some(NodeEvent::Other(q.clone()))),
            Value::Bare(_) => None,
        }
    }
}

fn read_status(name: &[char]) -> (out: Option<Status>)
    ensures
        out == status_named(name@),
{
    if chars::same(name, "unknown") {
        Some(Status::Unknown)
    } else if chars::same(name, "optimal") {
        Some(Status::Optimal)
    } else if chars::same(name, "infeasible") {
        Some(Status::Infeasible)
    } else if chars::same(name, "unbounded") {
        Some(Status::Unbounded)
    } else if chars::same(name, "infeasible_or_unbounded") {
        Some(Status::InfeasibleOrUnbounded)
    } else if chars::same(name, "time_limit") {
        Some(Status::TimeLimit)
    } else if chars::same(name, "memory_limit") {
        Some(Status::MemoryLimit)
    } else if chars::same(name, "other_limit") {
        Some(Status::OtherLimit)
    } else if chars::same(name, "user_interrupt") {
        Some(Status::UserInterrupt)
    } else if chars::same(name, "numerical_error") {
        Some(Status::NumericalError)
    } else {
        None
    }
}

pub open spec fn solver_labels() -> Seq<Seq<char>> {
    seq!["solver: name="@, " version="@, " git="@]
}

pub open spec fn problem_labels() -> Seq<Seq<char>> {
    seq!["problem: "@]
}

pub open spec fn status_labels() -> Seq<Seq<char>> {
    seq!["status: "@, " reason="@]
}

pub open spec fn timing_labels() -> Seq<Seq<char>> {
    seq!["timing: wall="@, " cpu="@, " reading="@, " presolve="@, " root_relax="@]
}

pub open spec fn bounds_labels() -> Seq<Seq<char>> {
    seq!["bounds: primal="@, " dual="@, " gap="@]
}

pub open spec fn tree_labels() -> Seq<Seq<char>> {
    seq!["tree: nodes="@, " simplex_iters="@, " sols="@]
}

pub open spec fn presolve_labels() -> Seq<Seq<char>> {
    seq!["presolve: rows="@, "/"@, " cols="@, "/"@, " nnz="@, "/"@]
}

pub open spec fn cut_labels() -> Seq<Seq<char>> {
    seq![" "@, "="@]
}

pub open spec fn progress_labels() -> Seq<Seq<char>> {
    seq!["progress: rows="@, " last_time="@]
}

pub open spec fn row_labels() -> Seq<Seq<char>> {
    seq!["  "@, " "@, " "@, " "@, " "@, " "@, " "@, " "@]
}

pub open spec fn parser_labels() -> Seq<Seq<char>> {
    seq!["parser: version="@, " git="@]
}

/// Who a solver is: the solver, its version and its git hash.
pub struct Identity {
    pub solver: Solver,
    pub version: Option<String>,
    pub git: Option<String>,
}

pub struct IdentityView {
    pub solver: Solver,
    pub version: Option<Seq<char>>,
    pub git: Option<Seq<char>>,
}

impl View for Identity {
    type V = IdentityView;

    open spec fn view(&self) -> IdentityView {
        IdentityView {
            solver: self.solver,
            version: chars::opt_text(self.version),
            git: chars::opt_text(self.git),
        }
    }
}

/// The solver that a line names.
pub open spec fn solver_in(line: Seq<char>) -> Option<IdentityView> {
    match fields::fields(line, solver_labels(), false) {
        Some(v) => match text_in(v[0]) {
            Some(key) => match schema::solver_with(key) {
                Some(solver) => Some(
                    IdentityView { solver, version: text_in(v[1]), git: text_in(v[2]) },
                ),
                None => None,
            },
            None => None,
        },
        None => None,
    }
}

/// The problem that a line names, if it is there.
pub open spec fn problem_in(line: Seq<char>) -> Option<Option<Seq<char>>> {
    match fields::fields(line, problem_labels(), false) {
        Some(v) => Some(text_in(v[0])),
        None => None,
    }
}

pub open spec fn status_in(line: Seq<char>) -> Option<TerminationView> {
    match fields::fields(line, status_labels(), false) {
        Some(v) => match text_in(v[0]) {
            Some(name) => match status_named(name) {
                Some(status) => Some(TerminationView { status, raw_reason: text_in(v[1]) }),
                None => None,
            },
            None => None,
        },
        None => None,
    }
}

pub open spec fn timing_in(line: Seq<char>) -> Option<TimingView> {
    match fields::fields(line, timing_labels(), false) {
        Some(v) => match (
            number_in(v[0]),
            number_in(v[1]),
            number_in(v[2]),
            number_in(v[3]),
            number_in(v[4]),
        ) {
            (
                Some(wall_seconds),
                Some(cpu_seconds),
                Some(reading_seconds),
                Some(presolve_seconds),
                Some(root_relaxation_seconds),
            ) => Some(
                TimingView {
                    wall_seconds,
                    cpu_seconds,
                    reading_seconds,
                    presolve_seconds,
                    root_relaxation_seconds,
                },
            ),
            _ => None,
        },
        None => None,
    }
}

pub open spec fn bounds_in(line: Seq<char>) -> Option<BoundsView> {
    match fields::fields(line, bounds_labels(), false) {
        Some(v) => match (number_in(v[0]), number_in(v[1]), number_in(v[2])) {
            (Some(primal), Some(dual), Some(gap)) => Some(
                BoundsView { primal, dual, gap, ..schema::no_bounds() },
            ),
            _ => None,
        },
        None => None,
    }
}

pub open spec fn tree_in(line: Seq<char>) -> Option<TreeStats> {
    match fields::fields(line, tree_labels(), false) {
        Some(v) => match (count_in(v[0]), count_in(v[1]), count_in(v[2])) {
            (Some(nodes_explored), Some(simplex_iterations), Some(solutions_found)) => Some(
                TreeStats {
                    nodes_explored,
                    simplex_iterations,
                    solutions_found,
                    ..schema::no_tree()
                },
            ),
            _ => None,
        },
        None => None,
    }
}

pub open spec fn presolve_in(line: Seq<char>) -> Option<PresolveStats> {
    match fields::fields(line, presolve_labels(), true) {
        Some(v) => match (
            count_in(v[0]),
            count_in(v[1]),
            count_in(v[2]),
            count_in(v[3]),
            count_in(v[4]),
            count_in(v[5]),
        ) {
            (
                Some(rows_before),
                Some(rows_after),
                Some(cols_before),
                Some(cols_after),
                Some(nonzeros_before),
                Some(nonzeros_after),
            ) => Some(
                PresolveStats {
                    rows_before,
                    cols_before,
                    nonzeros_before,
                    rows_after,
                    cols_after,
                    nonzeros_after,
                },
            ),
            _ => None,
        },
        None => None,
    }
}

/// The cut families and their counts, one behind the other.
pub open spec fn cut_list_in(s: Seq<char>) -> Option<Seq<(Seq<char>, u64)>>
    decreases s.len(),
{
    if s.len() == 0 {
        Some(Seq::empty())
    } else {
        match fields::fields_at(s, cut_labels(), false) {
            Some((v, rest)) => if rest.len() < s.len() {
                match (text_in(v[0]), count_in(v[1])) {
                    (Some(name), Some(Some(n))) => match cut_list_in(rest) {
                        Some(more) => Some(seq![(name, n)] + more),
                        None => None,
                    },
                    _ => None,
                }
            } else {
                None
            },
            None => None,
        }
    }
}

/// The counts by family: the last one of each.
pub open spec fn tallied(list: Seq<(Seq<char>, u64)>) -> Seq<(Seq<char>, u64)>
    decreases list.len(),
{
    if list.len() == 0 {
        Seq::empty()
    } else {
        table::put(tallied(list.drop_last()), list.last().0, list.last().1)
    }
}

pub open spec fn cuts_in(line: Seq<char>) -> Option<Seq<(Seq<char>, u64)>> {
    match chars::after_prefix(line, "cuts:"@) {
        Some(rest) => match cut_list_in(rest) {
            Some(list) => Some(tallied(list)),
            None => None,
        },
        None => None,
    }
}

/// How many rows a line announces.
pub open spec fn progress_in(line: Seq<char>) -> Option<u64> {
    match fields::fields(line, progress_labels(), false) {
        Some(v) => match (count_in(v[0]), number_in(v[1])) {
            (Some(Some(rows)), Some(_)) => Some(rows),
            _ => None,
        },
        None => None,
    }
}

pub open spec fn row_in(line: Seq<char>) -> Option<RowView> {
    match fields::fields(line, row_labels(), false) {
        Some(v) => match (
            number_in(v[0]),
            count_in(v[1]),
            number_in(v[2]),
            number_in(v[3]),
            number_in(v[4]),
            depth_in(v[5]),
            count_in(v[6]),
            event_in(v[7]),
        ) {
            (
                Some(Some(time_seconds)),
                Some(nodes_explored),
                Some(primal),
                Some(dual),
                Some(gap),
                Some(depth),
                Some(lp_iterations),
                Some(event),
            ) => Some(
                RowView {
                    time_seconds,
                    nodes_explored,
                    primal,
                    dual,
                    gap,
                    depth,
                    lp_iterations,
                    event,
                },
            ),
            _ => None,
        },
        None => None,
    }
}

/// The rows of some lines, one each.
pub open spec fn rows_in(lines: Seq<Seq<char>>) -> Option<Seq<RowView>>
    decreases lines.len(),
{
    if lines.len() == 0 {
        Some(Seq::empty())
    } else {
        match (rows_in(lines.drop_last()), row_in(lines.last())) {
            (Some(rows), Some(row)) => Some(rows.push(row)),
            _ => None,
        }
    }
}

/// Which version of the library wrote the document, and its git hash, empty
/// where it is not there.
pub open spec fn parser_in(line: Seq<char>) -> Option<(Seq<char>, Seq<char>)> {
    match fields::fields(line, parser_labels(), false) {
        Some(v) => match text_in(v[0]) {
            Some(version) => Some(
                (
                    version,
                    match text_in(v[1]) {
                        Some(git) => git,
                        None => Seq::empty(),
                    },
                ),
            ),
            None => None,
        },
        None => None,
    }
}

fn read_solver_line(line: &[char]) -> (out: Option<Identity>)
    ensures
        solver_in(line@) == (match out {
            Some(who) => Some(who@),
            None => None,
        }),
{
    let labels: [&'static str; 3] = ["solver: name=", " version=", " git="];
    assert(schema::strs(labels@) =~= solver_labels());
    let v = match fields::read_fields(line, labels.as_slice(), false) {
        Some(v) => v,
        None => {
            return None;
        },
    };
    let key = match read_text(&v[0]) {
        Some(key) => chars::chars_of(key.as_str()),
        None => {
            return None;
        },
    };
    match schema::find_solver(key.as_slice()) {
        Some(solver) => Some(Identity { solver, version: read_text(&v[1]), git: read_text(&v[2]) }),
        None => None,
    }
}

fn read_problem_line(line: &[char]) -> (out: Option<Option<String>>)
    ensures
        problem_in(line@) == (match out {
            Some(p) => Some(chars::opt_text(p)),
            None => None,
        }),
{
    let labels: [&'static str; 1] = ["problem: "];
    assert(schema::strs(labels@) =~= problem_labels());
    match fields::read_fields(line, labels.as_slice(), false) {
        Some(v) => Some(read_text(&v[0])),
        None => None,
    }
}

fn read_status_line(line: &[char]) -> (out: Option<Termination>)
    ensures
        status_in(line@) == (match out {
            Some(t) => Some(t@),
            None => None,
        }),
{
    let labels: [&'static str; 2] = ["status: ", " reason="];
    assert(schema::strs(labels@) =~= status_labels());
    let v = match fields::read_fields(line, labels.as_slice(), false) {
        Some(v) => v,
        None => {
            return None;
        },
    };
    let name = match read_text(&v[0]) {
        Some(name) => chars::chars_of(name.as_str()),
        None => {
            return None;
        },
    };
    match read_status(name.as_slice()) {
        Some(status) => Some(Termination { status, raw_reason: read_text(&v[1]) }),
        None => None,
    }
}

fn read_timing_line(line: &[char]) -> (out: Option<Timing>)
    ensures
        timing_in(line@) == (match out {
            Some(t) => Some(t@),
            None => None,
        }),
{
    let labels: [&'static str; 5] = [
        "timing: wall=",
        " cpu=",
        " reading=",
        " presolve=",
        " root_relax=",
    ];
    assert(schema::strs(labels@) =~= timing_labels());
    let v = match fields::read_fields(line, labels.as_slice(), false) {
        Some(v) => v,
        None => {
            return None;
        },
    };
    match (
        read_number(&v[0]),
        read_number(&v[1]),
        read_number(&v[2]),
        read_number(&v[3]),
        read_number(&v[4]),
    ) {
        (Some(wall), Some(cpu), Some(reading), Some(presolve), Some(root)) => Some(
            Timing {
                wall_seconds: wall,
                cpu_seconds: cpu,
                reading_seconds: reading,
                presolve_seconds: presolve,
                root_relaxation_seconds: root,
            },
        ),
        _ => None,
    }
}

fn read_bounds_line(line: &[char]) -> (out: Option<Bounds>)
    ensures
        bounds_in(line@) == (match out {
            Some(b) => Some(b@),
            None => None,
        }),
{
    let labels: [&'static str; 3] = ["bounds: primal=", " dual=", " gap="];
    assert(schema::strs(labels@) =~= bounds_labels());
    let v = match fields::read_fields(line, labels.as_slice(), false) {
        Some(v) => v,
        None => {
            return None;
        },
    };
    match (read_number(&v[0]), read_number(&v[1]), read_number(&v[2])) {
        (Some(primal), Some(dual), Some(gap)) => Some(
            Bounds {
                primal,
                dual,
                gap,
                root_dual: None,
                first_primal: None,
                first_primal_time_seconds: None,
                primal_dual_integral: None,
            },
        ),
        _ => None,
    }
}

fn read_tree_line(line: &[char]) -> (out: Option<TreeStats>)
    ensures
        out == tree_in(line@),
{
    let labels: [&'static str; 3] = ["tree: nodes=", " simplex_iters=", " sols="];
    assert(schema::strs(labels@) =~= tree_labels());
    let v = match fields::read_fields(line, labels.as_slice(), false) {
        Some(v) => v,
        None => {
            return None;
        },
    };
    match (read_count(&v[0]), read_count(&v[1]), read_count(&v[2])) {
        (Some(nodes), Some(simplex), Some(sols)) => Some(
            TreeStats {
                nodes_explored: nodes,
                simplex_iterations: simplex,
                solutions_found: sols,
                max_depth: None,
                restarts: None,
            },
        ),
        _ => None,
    }
}

fn read_presolve_line(line: &[char]) -> (out: Option<PresolveStats>)
    ensures
        out == presolve_in(line@),
{
    let labels: [&'static str; 6] = ["presolve: rows=", "/", " cols=", "/", " nnz=", "/"];
    assert(schema::strs(labels@) =~= presolve_labels());
    let v = match fields::read_fields(line, labels.as_slice(), true) {
        Some(v) => v,
        None => {
            return None;
        },
    };
    match (
        read_count(&v[0]),
        read_count(&v[1]),
        read_count(&v[2]),
        read_count(&v[3]),
        read_count(&v[4]),
        read_count(&v[5]),
    ) {
        (Some(a), Some(b), Some(c), Some(d), Some(e), Some(f)) => Some(
            PresolveStats {
                rows_before: a,
                cols_before: c,
                nonzeros_before: e,
                rows_after: b,
                cols_after: d,
                nonzeros_after: f,
            },
        ),
        _ => None,
    }
}

proof fn lemma_tallied_push(list: Seq<(Seq<char>, u64)>, name: Seq<char>, n: u64)
    ensures
        tallied(list.push((name, n))) == table::put(tallied(list), name, n),
{
    assert(list.push((name, n)).drop_last() =~= list);
}

fn read_cuts_line(line: &[char]) -> (out: Option<CutCounts>)
    ensures
        cuts_in(line@) == (match out {
            Some(c) => Some(c@),
            None => None,
        }),
        out matches Some(c) ==> c.well_formed(),
{
    let labels: [&'static str; 2] = [" ", "="];
    assert(schema::strs(labels@) =~= cut_labels());
    let rest = match chars::strip_front(line, "cuts:") {
        Some(rest) => rest,
        None => {
            return None;
        },
    };
    let ghost goal = cut_list_in(rest@);
    let ghost mut list: Seq<(Seq<char>, u64)> = Seq::empty();
    let mut cuts = CutCounts::new();
    let mut at: usize = 0;
    assert(rest@.skip(0) =~= rest@);
    proof {
        if let Some(more) = goal {
            assert(list + more =~= more);
        }
    }
    while at < rest.len()
        invariant
            at <= rest@.len(),
            schema::strs(labels@) == cut_labels(),
            goal == cut_list_in(rest@),
            goal == (match cut_list_in(rest@.skip(at as int)) {
                Some(more) => Some(list + more),
                None => None,
            }),
            cuts.well_formed(),
            cuts@ == tallied(list),
            chars::after_prefix(line@, "cuts:"@) == Some(rest@),
        decreases rest@.len() - at,
    {
        proof {
            fields::lemma_field_count(rest@.skip(at as int), cut_labels(), false);
        }
        let (v, end) = match fields::take_fields(rest, at, labels.as_slice(), false) {
            Some((v, end)) => (v, end),
            None => {
                return None;
            },
        };
        if end == at {
            return None;
        }
        match (read_text(&v[0]), read_count(&v[1])) {
            (Some(name), Some(Some(n))) => {
                let ghost before = list;
                let ghost key = name@;
                proof {
                    lemma_tallied_push(list, key, n);
                    list = list.push((key, n));
                    if let Some(more) = cut_list_in(rest@.skip(end as int)) {
                        assert(before + (seq![(key, n)] + more) =~= list + more);
                    }
                }
                cuts.insert(name, n);
            },
            _ => {
                return None;
            },
        }
        at = end;
    }
    assert(rest@.skip(at as int) =~= Seq::empty());
    assert(list + Seq::<(Seq<char>, u64)>::empty() =~= list);
    Some(cuts)
}

fn read_progress_line(line: &[char]) -> (out: Option<u64>)
    ensures
        out == progress_in(line@),
{
    let labels: [&'static str; 2] = ["progress: rows=", " last_time="];
    assert(schema::strs(labels@) =~= progress_labels());
    let v = match fields::read_fields(line, labels.as_slice(), false) {
        Some(v) => v,
        None => {
            return None;
        },
    };
    match (read_count(&v[0]), read_number(&v[1])) {
        (Some(Some(rows)), Some(_)) => Some(rows),
        _ => None,
    }
}

fn read_row_line(line: &[char]) -> (out: Option<NodeSnapshot>)
    ensures
        row_in(line@) == schema::opt_row(out),
{
    let labels: [&'static str; 8] = ["  ", " ", " ", " ", " ", " ", " ", " "];
    assert(schema::strs(labels@) =~= row_labels());
    let v = match fields::read_fields(line, labels.as_slice(), false) {
        Some(v) => v,
        None => {
            return None;
        },
    };
    match (
        read_number(&v[0]),
        read_count(&v[1]),
        read_number(&v[2]),
        read_number(&v[3]),
        read_number(&v[4]),
        read_depth(&v[5]),
        read_count(&v[6]),
        read_event(&v[7]),
    ) {
        (
            Some(Some(time)),
            Some(nodes),
            Some(primal),
            Some(dual),
            Some(gap),
            Some(depth),
            Some(lp),
            Some(event),
        ) => Some(
            NodeSnapshot {
                time_seconds: time,
                nodes_explored: nodes,
                primal,
                dual,
                gap,
                depth,
                lp_iterations: lp,
                event,
            },
        ),
        _ => None,
    }
}

fn read_parser_line(line: &[char]) -> (out: Option<ParserInfo>)
    ensures
        parser_in(line@) == (match out {
            Some(p) => Some((p.version@, p.git_hash@)),
            None => None,
        }),
{
    let labels: [&'static str; 2] = ["parser: version=", " git="];
    assert(schema::strs(labels@) =~= parser_labels());
    let v = match fields::read_fields(line, labels.as_slice(), false) {
        Some(v) => v,
        None => {
            return None;
        },
    };
    match read_text(&v[0]) {
        Some(version) => {
            let git_hash = match read_text(&v[1]) {
                Some(git) => git,
                None => String::new(),
            };
            Some(ParserInfo { version, git_hash })
        },
        None => None,
    }
}

/// The first line of a document.
pub const MAGIC: &'static str = "orlog-text 1";

/// The parts of a document.
#[derive(Debug, Clone, Copy, PartialEq, Eq, Structural)]
pub enum Part {
    Magic,
    Solver,
    Problem,
    Status,
    Timing,
    Bounds,
    Tree,
    Presolve,
    Cuts,
    Progress,
    Rows,
    Parser,
    End,
}

/// Why a text is no document: the part that is missing or cannot be read.
#[derive(Debug, Clone, Copy, PartialEq, Eq, Structural)]
pub struct TextError {
    pub part: Part,
}

/// What a document holds: a log, and the version and git hash of the library
/// that wrote it.
pub struct DocumentView {
    pub log: LogView,
    pub version: Seq<char>,
    pub git: Seq<char>,
}

/// A line with something in it that is no comment.
pub open spec fn counts(line: Seq<char>) -> bool {
    let t = chars::front_trimmed(line, Seq::empty(), true);
    t.len() > 0 && t[0] != '#'
}

/// A line without the spaces at its end.
pub open spec fn tidied(line: Seq<char>) -> Seq<char> {
    chars::back_trimmed(line, Seq::empty(), true)
}

/// The lines that count, without the spaces at their ends.
pub open spec fn lines_that_count(lines: Seq<Seq<char>>) -> Seq<Seq<char>>
    decreases lines.len(),
{
    if lines.len() == 0 {
        Seq::empty()
    } else {
        let before = lines_that_count(lines.drop_last());
        let line = tidied(lines.last());
        if counts(line) {
            before.push(line)
        } else {
            before
        }
    }
}

/// Line `i`, empty behind the last one.
pub open spec fn line_at(lines: Seq<Seq<char>>, i: int) -> Seq<char> {
    if 0 <= i < lines.len() {
        lines[i]
    } else {
        Seq::empty()
    }
}

/// The problem, where line `i` is there for it.
pub open spec fn has_problem(lines: Seq<Seq<char>>, i: int) -> bool {
    chars::starts_with(line_at(lines, i), "problem:"@)
}

/// What the lines from `k` on say of a run of `who` on `problem`.
pub open spec fn body_in(
    lines: Seq<Seq<char>>,
    k: int,
    who: IdentityView,
    problem: Option<Seq<char>>,
) -> Result<DocumentView, TextError> {
    let status = status_in(line_at(lines, k));
    let timing = timing_in(line_at(lines, k + 1));
    let bounds = bounds_in(line_at(lines, k + 2));
    let tree = tree_in(line_at(lines, k + 3));
    let presolve = presolve_in(line_at(lines, k + 4));
    let cuts = cuts_in(line_at(lines, k + 5));
    let count = progress_in(line_at(lines, k + 6));
    let first = k + 7;
    if status is None {
        Err(TextError { part: Part::Status })
    } else if timing is None {
        Err(TextError { part: Part::Timing })
    } else if bounds is None {
        Err(TextError { part: Part::Bounds })
    } else if tree is None {
        Err(TextError { part: Part::Tree })
    } else if presolve is None {
        Err(TextError { part: Part::Presolve })
    } else if cuts is None {
        Err(TextError { part: Part::Cuts })
    } else if count is None {
        Err(TextError { part: Part::Progress })
    } else if first + count->0 > lines.len() {
        Err(TextError { part: Part::Rows })
    } else {
        let after = first + count->0;
        let rows = rows_in(lines.subrange(first, after));
        let parser = parser_in(line_at(lines, after));
        if rows is None {
            Err(TextError { part: Part::Rows })
        } else if parser is None {
            Err(TextError { part: Part::Parser })
        } else if lines.len() > after + 1 {
            Err(TextError { part: Part::End })
        } else {
            let (version, git) = parser->0;
            Ok(
                DocumentView {
                    log: LogView {
                        solver: who.solver,
                        version: who.version,
                        solver_git_hash: who.git,
                        problem,
                        termination: status->0,
                        timing: timing->0,
                        bounds: bounds->0,
                        tree: tree->0,
                        presolve: presolve->0,
                        cuts: cuts->0,
                        progress: rows->0,
                        other_data: Seq::empty(),
                    },
                    version,
                    git,
                },
            )
        }
    }
}

/// What the lines of a document say.
pub open spec fn document_in(lines: Seq<Seq<char>>) -> Result<DocumentView, TextError> {
    if line_at(lines, 0) != MAGIC@ {
        Err(TextError { part: Part::Magic })
    } else {
        match solver_in(line_at(lines, 1)) {
            None => Err(TextError { part: Part::Solver }),
            Some(who) => if has_problem(lines, 2) {
                match problem_in(line_at(lines, 2)) {
                    None => Err(TextError { part: Part::Problem }),
                    Some(problem) => body_in(lines, 3, who, problem),
                }
            } else {
                body_in(lines, 2, who, None)
            },
        }
    }
}

/// What a text says.
pub open spec fn read_document(text: Seq<char>) -> Result<DocumentView, TextError> {
    document_in(lines_that_count(chars::lines(text)))
}

fn line_counts(line: &[char]) -> (out: bool)
    ensures
        out == counts(line@),
{
    let t = chars::trim_front(line, "", true);
    proof {
        reveal_strlit("");
        assert(""@ =~= Seq::<char>::empty());
    }
    t.len() > 0 && t[0] != '#'
}

fn split_document(s: &[char]) -> (out: Vec<&[char]>)
    ensures
        chars::views(out@) == lines_that_count(chars::lines(s@)),
{
    let all = chars::split_lines(s);
    let ghost lines = chars::lines(s@);
    let mut out: Vec<&[char]> = Vec::new();
    let mut i: usize = 0;
    proof {
        reveal_strlit("");
        assert(""@ =~= Seq::<char>::empty());
        assert(lines.take(0) =~= Seq::empty());
        assert(chars::views(out@) =~= Seq::empty());
    }
    while i < all.len()
        invariant
            i <= all@.len(),
            lines == chars::views(all@),
            ""@ == Seq::<char>::empty(),
            chars::views(out@) == lines_that_count(lines.take(i as int)),
        decreases all@.len() - i,
    {
        let line = chars::trim_back(all[i], "", true);
        assert(lines.take(i + 1).drop_last() =~= lines.take(i as int));
        assert(lines.take(i + 1).last() == all@[i as int]@);
        if line_counts(line) {
            let ghost before = chars::views(out@);
            out.push(line);
            assert(chars::views(out@) =~= before.push(line@));
        }
        i = i + 1;
    }
    assert(lines.take(i as int) =~= lines);
    out
}

fn nth<'a>(lines: &Vec<&'a [char]>, i: usize, none: &'a [char]) -> (out: &'a [char])
    requires
        none@.len() == 0,
    ensures
        out@ == line_at(chars::views(lines@), i as int),
{
    if i < lines.len() {
        lines[i]
    } else {
        assert(none@ =~= Seq::empty());
        none
    }
}

fn read_rows(lines: &Vec<&[char]>, first: usize, after: usize) -> (out: Option<ProgressTable>)
    requires
        first <= after <= lines@.len(),
    ensures
        rows_in(chars::views(lines@).subrange(first as int, after as int)) == (match out {
            Some(t) => Some(t@),
            None => None,
        }),
        out matches Some(t) ==> t.well_formed(),
{
    let ghost all = chars::views(lines@).subrange(first as int, after as int);
    let mut rows = ProgressTable::default();
    let mut i: usize = first;
    assert(all.take(0) =~= Seq::empty());
    while i < after
        invariant
            first <= i <= after,
            after <= lines@.len(),
            all == chars::views(lines@).subrange(first as int, after as int),
            rows_in(all.take(i - first)) == Some(rows@),
            rows.well_formed(),
        decreases after - i,
    {
        assert(all.take(i - first + 1).drop_last() =~= all.take(i - first));
        assert(all.take(i - first + 1).last() == lines@[i as int]@);
        match read_row_line(lines[i]) {
            Some(row) => rows.push(row),
            None => {
                proof {
                    lemma_bad_row(all, i - first);
                }
                return None;
            },
        }
        i = i + 1;
    }
    assert(all.take(i - first) =~= all);
    Some(rows)
}

/// One line that is no row is enough.
proof fn lemma_bad_row(lines: Seq<Seq<char>>, i: int)
    requires
        0 <= i < lines.len(),
        row_in(lines[i]) is None,
    ensures
        rows_in(lines) is None,
    decreases lines.len(),
{
    if i < lines.len() - 1 {
        assert(lines.drop_last()[i] == lines[i]);
        lemma_bad_row(lines.drop_last(), i);
    }
}

/// What a result of reading a document is, by its contents.
pub open spec fn reads(out: Result<SolverLog, TextError>, r: Result<DocumentView, TextError>) -> bool {
    match (out, r) {
        (Ok(log), Ok(d)) => {
            &&& log@ == d.log
            &&& log.parser.version@ == d.version
            &&& log.parser.git_hash@ == d.git
            &&& log.well_formed()
        },
        (Err(e), Err(f)) => e == f,
        _ => false,
    }
}

fn read_body(lines: &Vec<&[char]>, k: usize, who: Identity, problem: Option<String>) -> (out: Result<
    SolverLog,
    TextError,
>)
    requires
        k <= 3,
    ensures
        reads(out, body_in(chars::views(lines@), k as int, who@, chars::opt_text(problem))),
{
    let empty: Vec<char> = Vec::new();
    let none = empty.as_slice();
    let termination = match read_status_line(nth(lines, k, none)) {
        Some(t) => t,
        None => {
            return Err(TextError { part: Part::Status });
        },
    };
    let timing = match read_timing_line(nth(lines, k + 1, none)) {
        Some(t) => t,
        None => {
            return Err(TextError { part: Part::Timing });
        },
    };
    let bounds = match read_bounds_line(nth(lines, k + 2, none)) {
        Some(b) => b,
        None => {
            return Err(TextError { part: Part::Bounds });
        },
    };
    let tree = match read_tree_line(nth(lines, k + 3, none)) {
        Some(t) => t,
        None => {
            return Err(TextError { part: Part::Tree });
        },
    };
    let presolve = match read_presolve_line(nth(lines, k + 4, none)) {
        Some(p) => p,
        None => {
            return Err(TextError { part: Part::Presolve });
        },
    };
    let cuts = match read_cuts_line(nth(lines, k + 5, none)) {
        Some(c) => c,
        None => {
            return Err(TextError { part: Part::Cuts });
        },
    };
    let count: u64 = match read_progress_line(nth(lines, k + 6, none)) {
        Some(n) => n,
        None => {
            return Err(TextError { part: Part::Progress });
        },
    };
    let first: usize = k + 7;
    if first > lines.len() || count > (lines.len() - first) as u64 {
        return Err(TextError { part: Part::Rows });
    }
    let after: usize = first + count as usize;
    let progress = match read_rows(lines, first, after) {
        Some(t) => t,
        None => {
            return Err(TextError { part: Part::Rows });
        },
    };
    let parser = match read_parser_line(nth(lines, after, none)) {
        Some(p) => p,
        None => {
            return Err(TextError { part: Part::Parser });
        },
    };
    if lines.len() - after > 1 {
        return Err(TextError { part: Part::End });
    }
    let other_data: Vec<schema::NamedValue> = Vec::new();
    assert(schema::others_of(other_data@) =~= Seq::empty());
    Ok(
        SolverLog {
            solver: who.solver,
            parser,
            version: who.version,
            solver_git_hash: who.git,
            problem,
            termination,
            timing,
            bounds,
            tree,
            presolve,
            cuts,
            progress,
            other_data,
        },
    )
}

/// Reads a document. Comments, blank lines and spaces at the end of a line
/// are passed over; all else stands in its order.
pub fn from_text(text: &str) -> (out: Result<SolverLog, TextError>)
    ensures
        reads(out, read_document(text@)),
{
    let all = chars::chars_of(text);
    let lines = split_document(all.as_slice());
    let empty: Vec<char> = Vec::new();
    let none = empty.as_slice();
    if !chars::same(nth(&lines, 0, none), MAGIC) {
        return Err(TextError { part: Part::Magic });
    }
    let who = match read_solver_line(nth(&lines, 1, none)) {
        Some(who) => who,
        None => {
            return Err(TextError { part: Part::Solver });
        },
    };
    let second = nth(&lines, 2, none);
    if chars::begins(second, "problem:") {
        match read_problem_line(second) {
            Some(problem) => read_body(&lines, 3, who, problem),
            None => Err(TextError { part: Part::Problem }),
        }
    } else {
        read_body(&lines, 2, who, None)
    }
}

/// The name of a part.
pub open spec fn part_name(part: Part) -> Seq<char> {
    match part {
        Part::Magic => "magic"@,
        Part::Solver => "solver"@,
        Part::Problem => "problem"@,
        Part::Status => "status"@,
        Part::Timing => "timing"@,
        Part::Bounds => "bounds"@,
        Part::Tree => "tree"@,
        Part::Presolve => "presolve"@,
        Part::Cuts => "cuts"@,
        Part::Progress => "progress"@,
        Part::Rows => "rows"@,
        Part::Parser => "parser"@,
        Part::End => "end"@,
    }
}

impl TextError {
    /// The error in words.
    pub fn message(&self) -> (out: String)
        ensures
            out@ == "missing or malformed: "@ + part_name(self.part),
    {
        let mut out = chars::chars_of("missing or malformed: ");
        chars::append(
            &mut out,
            match self.part {
                Part::Magic => "magic",
                Part::Solver => "solver",
                Part::Problem => "problem",
                Part::Status => "status",
                Part::Timing => "timing",
                Part::Bounds => "bounds",
                Part::Tree => "tree",
                Part::Presolve => "presolve",
                Part::Cuts => "cuts",
                Part::Progress => "progress",
                Part::Rows => "rows",
                Part::Parser => "parser",
                Part::End => "end",
            },
        );
        chars::string_of(out.as_slice())
    }
}

} // verus!
