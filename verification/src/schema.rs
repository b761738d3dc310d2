//! The schema that every log is read into.
//!
//! Fields are optional because no single solver reports everything: a reader
//! fills in what it finds and leaves the rest empty. What only one solver
//! reports goes under [`SolverLog::other_data`].
//!
//! # Two tiers of fields
//!
//! 1. **Core** ([`SolverLog::verify_common`]): the solver, the status, the
//!    wall time, and both bounds of an optimal run. A log that reports them
//!    has them here.
//! 2. **Extended**: everything else, as far as the log makes it easy.

use crate::chars;
use crate::json;
use crate::json::{Json, JsonValue};
use crate::quantity;
use crate::quantity::{Real, RealView};
use crate::table::CutCounts;
use vstd::prelude::*;

verus! {

/// The solvers whose logs can be read.
#[derive(Debug, Clone, Copy, PartialEq, Eq, Hash, Structural)]
pub enum Solver {
    Gurobi,
    Xpress,
    Scip,
    Highs,
    Cplex,
    Cbc,
    Copt,
    Optverse,
    Mosek,
}

/// The short name of a solver.
pub open spec fn key_of(solver: Solver) -> Seq<char> {
    match solver {
        Solver::Gurobi => "gurobi"@,
        Solver::Xpress => "xpress"@,
        Solver::Scip => "scip"@,
        Solver::Highs => "highs"@,
        Solver::Cplex => "cplex"@,
        Solver::Cbc => "cbc"@,
        Solver::Copt => "copt"@,
        Solver::Optverse => "optverse"@,
        Solver::Mosek => "mosek"@,
    }
}

impl Solver {
    /// Short lowercase key. Stable: part of the public interface.
    pub fn key(self) -> (out: &'static str)
        ensures
            out@ == key_of(self),
    {
        match self {
            Solver::Gurobi => "gurobi",
            Solver::Xpress => "xpress",
            Solver::Scip => "scip",
            Solver::Highs => "highs",
            Solver::Cplex => "cplex",
            Solver::Cbc => "cbc",
            Solver::Copt => "copt",
            Solver::Optverse => "optverse",
            Solver::Mosek => "mosek",
        }
    }
}

/// Length and first letter tell the keys apart.
proof fn lemma_key_shape(solver: Solver)
    ensures
        key_of(solver).len() == (match solver {
            Solver::Gurobi => 6nat,
            Solver::Xpress => 6nat,
            Solver::Scip => 4nat,
            Solver::Highs => 5nat,
            Solver::Cplex => 5nat,
            Solver::Cbc => 3nat,
            Solver::Copt => 4nat,
            Solver::Optverse => 8nat,
            Solver::Mosek => 5nat,
        }),
        key_of(solver)[0] == (match solver {
            Solver::Gurobi => 'g',
            Solver::Xpress => 'x',
            Solver::Scip => 's',
            Solver::Highs => 'h',
            Solver::Cplex => 'c',
            Solver::Cbc => 'c',
            Solver::Copt => 'c',
            Solver::Optverse => 'o',
            Solver::Mosek => 'm',
        }),
{
    reveal_strlit("gurobi");
    reveal_strlit("xpress");
    reveal_strlit("scip");
    reveal_strlit("highs");
    reveal_strlit("cplex");
    reveal_strlit("cbc");
    reveal_strlit("copt");
    reveal_strlit("optverse");
    reveal_strlit("mosek");
}

/// No two solvers have the same key.
pub proof fn law_keys_differ(a: Solver, b: Solver)
    requires
        key_of(a) == key_of(b),
    ensures
        a == b,
{
    lemma_key_shape(a);
    lemma_key_shape(b);
}

/// The solver with this key.
pub open spec fn solver_with(key: Seq<char>) -> Option<Solver> {
    if key == "gurobi"@ {
        Some(Solver::Gurobi)
    } else if key == "xpress"@ {
        Some(Solver::Xpress)
    } else if key == "scip"@ {
        Some(Solver::Scip)
    } else if key == "highs"@ {
        Some(Solver::Highs)
    } else if key == "cplex"@ {
        Some(Solver::Cplex)
    } else if key == "cbc"@ {
        Some(Solver::Cbc)
    } else if key == "copt"@ {
        Some(Solver::Copt)
    } else if key == "optverse"@ {
        Some(Solver::Optverse)
    } else if key == "mosek"@ {
        Some(Solver::Mosek)
    } else {
        None
    }
}

/// The key of a solver finds that solver, whatever the case of its letters.
pub proof fn law_key_finds_solver(solver: Solver, key: Seq<char>)
    requires
        chars::ascii_lowered(key) == key_of(solver),
    ensures
        solver_with(chars::ascii_lowered(key)) == Some(solver),
{
    lemma_key_shape(Solver::Gurobi);
    lemma_key_shape(Solver::Xpress);
    lemma_key_shape(Solver::Scip);
    lemma_key_shape(Solver::Highs);
    lemma_key_shape(Solver::Cplex);
    lemma_key_shape(Solver::Cbc);
    lemma_key_shape(Solver::Copt);
    lemma_key_shape(Solver::Optverse);
    lemma_key_shape(Solver::Mosek);
}

/// The key of a solver is a line of its own and finds that solver.
pub proof fn lemma_key(solver: Solver)
    ensures
        solver_with(key_of(solver)) == Some(solver),
        forall|i: int| 0 <= i < key_of(solver).len() ==> #[trigger] key_of(solver)[i] != '\n',
{
    lemma_key_shape(Solver::Gurobi);
    lemma_key_shape(Solver::Xpress);
    lemma_key_shape(Solver::Scip);
    lemma_key_shape(Solver::Highs);
    lemma_key_shape(Solver::Cplex);
    lemma_key_shape(Solver::Cbc);
    lemma_key_shape(Solver::Copt);
    lemma_key_shape(Solver::Optverse);
    lemma_key_shape(Solver::Mosek);
    reveal_strlit("gurobi");
    reveal_strlit("xpress");
    reveal_strlit("scip");
    reveal_strlit("highs");
    reveal_strlit("cplex");
    reveal_strlit("cbc");
    reveal_strlit("copt");
    reveal_strlit("optverse");
    reveal_strlit("mosek");
}

/// Finds a solver by its key.
pub fn find_solver(key: &[char]) -> (out: Option<Solver>)
    ensures
        out == solver_with(key@),
{
    if chars::same(key, "gurobi") {
        Some(Solver::Gurobi)
    } else if chars::same(key, "xpress") {
        Some(Solver::Xpress)
    } else if chars::same(key, "scip") {
        Some(Solver::Scip)
    } else if chars::same(key, "highs") {
        Some(Solver::Highs)
    } else if chars::same(key, "cplex") {
        Some(Solver::Cplex)
    } else if chars::same(key, "cbc") {
        Some(Solver::Cbc)
    } else if chars::same(key, "copt") {
        Some(Solver::Copt)
    } else if chars::same(key, "optverse") {
        Some(Solver::Optverse)
    } else if chars::same(key, "mosek") {
        Some(Solver::Mosek)
    } else {
        None
    }
}

/// Finds a solver by its key, in upper or lower case. The error names the
/// text that is none.
pub fn solver_from_str(s: &str) -> (out: Result<Solver, String>)
    ensures
        (match out {
            Ok(solver) => Some(solver),
            Err(_) => None,
        }) == solver_with(chars::lowercase(s@)),
        chars::is_ascii(s@) ==> (match out {
            Ok(solver) => Some(solver),
            Err(_) => None,
        }) == solver_with(chars::ascii_lowered(s@)),
        out matches Err(why) ==> why@ == "unknown solver: "@ + chars::lowercase(s@),
{
    let all = chars::chars_of(s);
    let low = chars::to_lowercase(all.as_slice());
    match find_solver(low.as_slice()) {
        Some(solver) => Ok(solver),
        None => {
            let mut why = chars::chars_of("unknown solver: ");
            chars::extend(&mut why, low.as_slice());
            Err(chars::string_of(why.as_slice()))
        },
    }
}

/// Which version of this library read a log.
#[derive(Debug, Clone, PartialEq, Eq)]
pub struct ParserInfo {
    /// The version of the crate.
    pub version: String,
    /// Short git hash of the build, empty if unavailable.
    pub git_hash: String,
}

/// The version of this crate.
pub const VERSION: &'static str = "0.1.0";

/// The git hash of this build; there is none.
pub const GIT_HASH: &'static str = "";

impl ParserInfo {
    /// Version and git hash of the running crate.
    pub fn current() -> (out: ParserInfo)
        ensures
            out.version@ == VERSION@,
            out.git_hash@ == GIT_HASH@,
    {
        ParserInfo { version: VERSION.to_string(), git_hash: GIT_HASH.to_string() }
    }
}

/// Why the solver stopped.
#[derive(Debug, Clone, Copy, PartialEq, Eq, Structural)]
pub enum Status {
    /// Search finished and optimality was proved.
    Optimal,
    /// Problem proved infeasible.
    Infeasible,
    /// Problem proved unbounded.
    Unbounded,
    /// Problem either infeasible or unbounded.
    InfeasibleOrUnbounded,
    /// Stopped by wall-time limit.
    TimeLimit,
    /// Stopped by memory limit.
    MemoryLimit,
    /// Stopped by node or iteration limit or another numeric limit.
    OtherLimit,
    /// Stopped by user (signal, callback).
    UserInterrupt,
    /// Numerical failure.
    NumericalError,
    /// No terminal status could be determined.
    Unknown,
}

impl Default for Status {
    fn default() -> (out: Status)
        ensures
            out == Status::Unknown,
    {
        Status::Unknown
    }
}

#[derive(Debug, Clone, PartialEq)]
pub struct Termination {
    pub status: Status,
    /// What the solver said when it stopped.
    pub raw_reason: Option<String>,
}

pub struct TerminationView {
    pub status: Status,
    pub raw_reason: Option<Seq<char>>,
}

impl View for Termination {
    type V = TerminationView;

    open spec fn view(&self) -> TerminationView {
        TerminationView { status: self.status, raw_reason: chars::opt_text(self.raw_reason) }
    }
}

pub open spec fn no_termination() -> TerminationView {
    TerminationView { status: Status::Unknown, raw_reason: None }
}

impl Default for Termination {
    fn default() -> (out: Termination)
        ensures
            out@ == no_termination(),
    {
        Termination { status: Status::Unknown, raw_reason: None }
    }
}

/// The statuses that answer the question the solver was asked.
pub open spec fn is_answer(status: Status) -> bool {
    status == Status::Optimal || status == Status::Infeasible || status == Status::Unbounded
        || status == Status::InfeasibleOrUnbounded
}

impl Termination {
    pub fn solved_to_completion(&self) -> (out: bool)
        ensures
            out == is_answer(self.status),
    {
        match self.status {
            Status::Optimal
            | Status::Infeasible
            | Status::Unbounded
            | Status::InfeasibleOrUnbounded => true,
            _ => false,
        }
    }
}

/// Seconds, of wall time unless said otherwise.
#[derive(Debug, Clone, PartialEq)]
pub struct Timing {
    pub wall_seconds: Option<Real>,
    pub cpu_seconds: Option<Real>,
    /// Time spent reading the problem file.
    pub reading_seconds: Option<Real>,
    pub presolve_seconds: Option<Real>,
    pub root_relaxation_seconds: Option<Real>,
}

pub struct TimingView {
    pub wall_seconds: Option<RealView>,
    pub cpu_seconds: Option<RealView>,
    pub reading_seconds: Option<RealView>,
    pub presolve_seconds: Option<RealView>,
    pub root_relaxation_seconds: Option<RealView>,
}

impl View for Timing {
    type V = TimingView;

    open spec fn view(&self) -> TimingView {
        TimingView {
            wall_seconds: quantity::opt_real(self.wall_seconds),
            cpu_seconds: quantity::opt_real(self.cpu_seconds),
            reading_seconds: quantity::opt_real(self.reading_seconds),
            presolve_seconds: quantity::opt_real(self.presolve_seconds),
            root_relaxation_seconds: quantity::opt_real(self.root_relaxation_seconds),
        }
    }
}

pub open spec fn no_timing() -> TimingView {
    TimingView {
        wall_seconds: None,
        cpu_seconds: None,
        reading_seconds: None,
        presolve_seconds: None,
        root_relaxation_seconds: None,
    }
}

impl Default for Timing {
    fn default() -> (out: Timing)
        ensures
            out@ == no_timing(),
    {
        Timing {
            wall_seconds: None,
            cpu_seconds: None,
            reading_seconds: None,
            presolve_seconds: None,
            root_relaxation_seconds: None,
        }
    }
}

/// Objective bounds at termination.
#[derive(Debug, Clone, PartialEq)]
pub struct Bounds {
    pub primal: Option<Real>,
    pub dual: Option<Real>,
    /// The gap that the solver reported, as a fraction.
    pub gap: Option<Real>,
    /// Dual bound after the root LP, before branching.
    pub root_dual: Option<Real>,
    /// Value of the first feasible solution, and when it was found.
    pub first_primal: Option<Real>,
    pub first_primal_time_seconds: Option<Real>,
    /// Primal-dual integral at termination.
    pub primal_dual_integral: Option<Real>,
}

pub struct BoundsView {
    pub primal: Option<RealView>,
    pub dual: Option<RealView>,
    pub gap: Option<RealView>,
    pub root_dual: Option<RealView>,
    pub first_primal: Option<RealView>,
    pub first_primal_time_seconds: Option<RealView>,
    pub primal_dual_integral: Option<RealView>,
}

impl View for Bounds {
    type V = BoundsView;

    open spec fn view(&self) -> BoundsView {
        BoundsView {
            primal: quantity::opt_real(self.primal),
            dual: quantity::opt_real(self.dual),
            gap: quantity::opt_real(self.gap),
            root_dual: quantity::opt_real(self.root_dual),
            first_primal: quantity::opt_real(self.first_primal),
            first_primal_time_seconds: quantity::opt_real(self.first_primal_time_seconds),
            primal_dual_integral: quantity::opt_real(self.primal_dual_integral),
        }
    }
}

pub open spec fn no_bounds() -> BoundsView {
    BoundsView {
        primal: None,
        dual: None,
        gap: None,
        root_dual: None,
        first_primal: None,
        first_primal_time_seconds: None,
        primal_dual_integral: None,
    }
}

impl Default for Bounds {
    fn default() -> (out: Bounds)
        ensures
            out@ == no_bounds(),
    {
        Bounds {
            primal: None,
            dual: None,
            gap: None,
            root_dual: None,
            first_primal: None,
            first_primal_time_seconds: None,
            primal_dual_integral: None,
        }
    }
}

/// A gap: reported, still to be computed from the bounds as
/// `|primal - dual| / max(1e-10, |primal|)`, or open.
#[derive(Debug, Clone, PartialEq)]
pub enum Gap {
    Reported(Real),
    Derived { primal: Real, dual: Real },
    /// Only one of the bounds is known: the gap is infinite.
    Open,
}

pub enum GapView {
    Reported(RealView),
    Derived { primal: RealView, dual: RealView },
    Open,
}

impl View for Gap {
    type V = GapView;

    open spec fn view(&self) -> GapView {
        match self {
            Gap::Reported(r) => GapView::Reported(r@),
            Gap::Derived { primal, dual } => GapView::Derived { primal: primal@, dual: dual@ },
            Gap::Open => GapView::Open,
        }
    }
}

/// The reported gap; else the one that the bounds give, which is open where
/// one of them is missing. Without a gap and without bounds there is none.
pub open spec fn gap_of(b: BoundsView) -> Option<GapView> {
    match (b.gap, b.primal, b.dual) {
        (Some(g), _, _) => Some(GapView::Reported(g)),
        (None, Some(primal), Some(dual)) => Some(GapView::Derived { primal, dual }),
        (None, None, None) => None,
        _ => Some(GapView::Open),
    }
}

impl Bounds {
    /// The reported gap if there is one, otherwise the gap that the primal
    /// and the dual bound give: an open one where one of the two is missing.
    /// `None` only where both are.
    pub fn effective_gap(&self) -> (out: Option<Gap>)
        ensures
            (match out {
                Some(g) => Some(g@),
                None => None,
            }) == gap_of(self@),
    {
        if let Some(g) = &self.gap {
            return Some(Gap::Reported(g.copy()));
        }
        match (&self.primal, &self.dual) {
            (Some(p), Some(d)) => Some(Gap::Derived { primal: p.copy(), dual: d.copy() }),
            (None, None) => None,
            _ => Some(Gap::Open),
        }
    }
}

#[derive(Debug, Clone, Copy, PartialEq, Eq)]
pub struct TreeStats {
    pub nodes_explored: Option<u64>,
    pub simplex_iterations: Option<u64>,
    pub solutions_found: Option<u64>,
    /// Maximum depth reached in the tree.
    pub max_depth: Option<u32>,
    /// Number of restarts.
    pub restarts: Option<u32>,
}

pub open spec fn no_tree() -> TreeStats {
    TreeStats {
        nodes_explored: None,
        simplex_iterations: None,
        solutions_found: None,
        max_depth: None,
        restarts: None,
    }
}

impl Default for TreeStats {
    fn default() -> (out: TreeStats)
        ensures
            out == no_tree(),
    {
        TreeStats {
            nodes_explored: None,
            simplex_iterations: None,
            solutions_found: None,
            max_depth: None,
            restarts: None,
        }
    }
}

#[derive(Debug, Clone, Copy, PartialEq, Eq)]
pub struct PresolveStats {
    pub rows_before: Option<u64>,
    pub cols_before: Option<u64>,
    pub nonzeros_before: Option<u64>,
    pub rows_after: Option<u64>,
    pub cols_after: Option<u64>,
    pub nonzeros_after: Option<u64>,
}

pub open spec fn no_presolve() -> PresolveStats {
    PresolveStats {
        rows_before: None,
        cols_before: None,
        nonzeros_before: None,
        rows_after: None,
        cols_after: None,
        nonzeros_after: None,
    }
}

impl Default for PresolveStats {
    fn default() -> (out: PresolveStats)
        ensures
            out == no_presolve(),
    {
        PresolveStats {
            rows_before: None,
            cols_before: None,
            nonzeros_before: None,
            rows_after: None,
            cols_after: None,
            nonzeros_after: None,
        }
    }
}

#[derive(Debug, Clone, PartialEq, Eq)]
pub enum NodeEvent {
    /// New incumbent found by a primal heuristic.
    Heuristic,
    /// New incumbent found during branching.
    BranchSolution,
    /// Node cut off by bound.
    Cutoff,
    /// A marker of one solver that has no common meaning.
    Other(String),
}

pub enum EventView {
    Heuristic,
    BranchSolution,
    Cutoff,
    Other(Seq<char>),
}

impl View for NodeEvent {
    type V = EventView;

    open spec fn view(&self) -> EventView {
        match self {
            NodeEvent::Heuristic => EventView::Heuristic,
            NodeEvent::BranchSolution => EventView::BranchSolution,
            NodeEvent::Cutoff => EventView::Cutoff,
            NodeEvent::Other(s) => EventView::Other(s@),
        }
    }
}

pub open spec fn opt_event(o: Option<NodeEvent>) -> Option<EventView> {
    match o {
        Some(e) => Some(e@),
        None => None,
    }
}

impl NodeEvent {
    /// Another value that holds the same event.
    pub fn copy(&self) -> (out: NodeEvent)
        ensures
            out@ == self@,
    {
        match self {
            NodeEvent::Heuristic => NodeEvent::Heuristic,
            NodeEvent::BranchSolution => NodeEvent::BranchSolution,
            NodeEvent::Cutoff => NodeEvent::Cutoff,
            NodeEvent::Other(s) => NodeEvent::Other(s.clone()),
        }
    }
}

pub fn copy_event(o: &Option<NodeEvent>) -> (out: Option<NodeEvent>)
    ensures
        opt_event(out) == opt_event(*o),
{
    match o {
        Some(e) => Some(e.copy()),
        None => None,
    }
}

/// One row of the progress table. Solvers name the same columns differently;
/// here they have one vocabulary.
#[derive(Debug, Clone, PartialEq)]
pub struct NodeSnapshot {
    /// Elapsed wall time at this row.
    pub time_seconds: Real,
    /// Nodes explored so far.
    pub nodes_explored: Option<u64>,
    /// Best integer-feasible objective so far.
    pub primal: Option<Real>,
    /// Best dual bound.
    pub dual: Option<Real>,
    /// Relative gap as a fraction.
    pub gap: Option<Real>,
    /// Current search depth.
    pub depth: Option<u32>,
    /// Simplex iterations.
    pub lp_iterations: Option<u64>,
    /// The marker of a noteworthy row.
    pub event: Option<NodeEvent>,
}

pub struct RowView {
    pub time_seconds: RealView,
    pub nodes_explored: Option<u64>,
    pub primal: Option<RealView>,
    pub dual: Option<RealView>,
    pub gap: Option<RealView>,
    pub depth: Option<u32>,
    pub lp_iterations: Option<u64>,
    pub event: Option<EventView>,
}

impl View for NodeSnapshot {
    type V = RowView;

    open spec fn view(&self) -> RowView {
        RowView {
            time_seconds: self.time_seconds@,
            nodes_explored: self.nodes_explored,
            primal: quantity::opt_real(self.primal),
            dual: quantity::opt_real(self.dual),
            gap: quantity::opt_real(self.gap),
            depth: self.depth,
            lp_iterations: self.lp_iterations,
            event: opt_event(self.event),
        }
    }
}

pub open spec fn opt_row(o: Option<NodeSnapshot>) -> Option<RowView> {
    match o {
        Some(r) => Some(r@),
        None => None,
    }
}

/// What a list of rows holds.
pub open spec fn rows_of(v: Seq<NodeSnapshot>) -> Seq<RowView> {
    Seq::new(v.len(), |i: int| v[i]@)
}

/// A row at time zero with nothing in it.
pub open spec fn empty_row() -> RowView {
    RowView {
        time_seconds: quantity::zero_real(),
        nodes_explored: None,
        primal: None,
        dual: None,
        gap: None,
        depth: None,
        lp_iterations: None,
        event: None,
    }
}

impl Default for NodeSnapshot {
    fn default() -> (out: NodeSnapshot)
        ensures
            out@ == empty_row(),
    {
        NodeSnapshot {
            time_seconds: Real::zero(),
            nodes_explored: None,
            primal: None,
            dual: None,
            gap: None,
            depth: None,
            lp_iterations: None,
            event: None,
        }
    }
}

/// The rows of the progress table, stored by column. All columns have the
/// same length; rows are appended with [`ProgressTable::push`].
#[derive(Debug, Clone, PartialEq)]
pub struct ProgressTable {
    pub time_seconds: Vec<Real>,
    pub nodes_explored: Vec<Option<u64>>,
    pub primal: Vec<Option<Real>>,
    pub dual: Vec<Option<Real>>,
    pub gap: Vec<Option<Real>>,
    pub depth: Vec<Option<u32>>,
    pub lp_iterations: Vec<Option<u64>>,
    pub event: Vec<Option<NodeEvent>>,
}

impl View for ProgressTable {
    type V = Seq<RowView>;

    open spec fn view(&self) -> Seq<RowView> {
        Seq::new(
            self.time_seconds@.len(),
            |i: int|
                RowView {
                    time_seconds: self.time_seconds@[i]@,
                    nodes_explored: self.nodes_explored@[i],
                    primal: quantity::opt_real(self.primal@[i]),
                    dual: quantity::opt_real(self.dual@[i]),
                    gap: quantity::opt_real(self.gap@[i]),
                    depth: self.depth@[i],
                    lp_iterations: self.lp_iterations@[i],
                    event: opt_event(self.event@[i]),
                },
        )
    }
}

impl Default for ProgressTable {
    fn default() -> (out: ProgressTable)
        ensures
            out.well_formed(),
            out@ == Seq::<RowView>::empty(),
    {
        let out = ProgressTable {
            time_seconds: Vec::new(),
            nodes_explored: Vec::new(),
            primal: Vec::new(),
            dual: Vec::new(),
            gap: Vec::new(),
            depth: Vec::new(),
            lp_iterations: Vec::new(),
            event: Vec::new(),
        };
        assert(out@ =~= Seq::empty());
        out
    }
}

impl ProgressTable {
    /// All columns have the same length.
    pub open spec fn well_formed(&self) -> bool {
        let n = self.time_seconds@.len();
        &&& self.nodes_explored@.len() == n
        &&& self.primal@.len() == n
        &&& self.dual@.len() == n
        &&& self.gap@.len() == n
        &&& self.depth@.len() == n
        &&& self.lp_iterations@.len() == n
        &&& self.event@.len() == n
    }

    pub fn len(&self) -> (out: usize)
        ensures
            out == self@.len(),
    {
        self.time_seconds.len()
    }

    pub fn is_empty(&self) -> (out: bool)
        ensures
            out == (self@.len() == 0),
    {
        self.time_seconds.len() == 0
    }

    /// Appends one row.
    pub fn push(&mut self, row: NodeSnapshot)
        requires
            old(self).well_formed(),
        ensures
            final(self).well_formed(),
            final(self)@ == old(self)@.push(row@),
    {
        let ghost before = self@;
        let ghost added = row@;
        self.time_seconds.push(row.time_seconds);
        self.nodes_explored.push(row.nodes_explored);
        self.primal.push(row.primal);
        self.dual.push(row.dual);
        self.gap.push(row.gap);
        self.depth.push(row.depth);
        self.lp_iterations.push(row.lp_iterations);
        self.event.push(row.event);
        assert(self@ =~= before.push(added));
    }

    /// Row `i`.
    pub fn row(&self, i: usize) -> (out: NodeSnapshot)
        requires
            self.well_formed(),
            i < self@.len(),
        ensures
            out@ == self@[i as int],
    {
        NodeSnapshot {
            time_seconds: self.time_seconds[i].copy(),
            nodes_explored: self.nodes_explored[i],
            primal: quantity::copy_opt(&self.primal[i]),
            dual: quantity::copy_opt(&self.dual[i]),
            gap: quantity::copy_opt(&self.gap[i]),
            depth: self.depth[i],
            lp_iterations: self.lp_iterations[i],
            event: copy_event(&self.event[i]),
        }
    }

    /// The rows, in order.
    pub fn iter(&self) -> (out: Vec<NodeSnapshot>)
        requires
            self.well_formed(),
        ensures
            rows_of(out@) == self@,
    {
        let mut out: Vec<NodeSnapshot> = Vec::new();
        let mut i: usize = 0;
        while i < self.len()
            invariant
                i <= self@.len(),
                self.well_formed(),
                rows_of(out@) == self@.take(i as int),
            decreases self@.len() - i,
        {
            let next = self.row(i);
            let ghost before = rows_of(out@);
            out.push(next);
            assert(rows_of(out@) =~= before.push(next@));
            assert(self@.take(i + 1) =~= self@.take(i as int).push(self@[i as int]));
            i = i + 1;
        }
        assert(self@.take(i as int) =~= self@);
        out
    }

    /// The last recorded time.
    pub fn last_time(&self) -> (out: Option<Real>)
        ensures
            quantity::opt_real(out) == (if self@.len() > 0 {
                Some(self@.last().time_seconds)
            } else {
                None
            }),
    {
        if self.time_seconds.len() == 0 {
            None
        } else {
            Some(self.time_seconds[self.time_seconds.len() - 1].copy())
        }
    }
}

/// A named value of free form.
#[derive(Debug, Clone, PartialEq)]
pub struct NamedValue {
    pub name: String,
    pub value: JsonValue,
}

impl View for NamedValue {
    type V = (Seq<char>, Json);

    open spec fn view(&self) -> (Seq<char>, Json) {
        (self.name@, json::json(self.value))
    }
}

impl NamedValue {
    pub fn new(name: &str, value: JsonValue) -> (out: NamedValue)
        ensures
            out@ == (name@, json::json(value)),
    {
        NamedValue { name: name.to_string(), value }
    }
}

/// What a list of named values holds.
pub open spec fn others_of(v: Seq<NamedValue>) -> Seq<(Seq<char>, Json)> {
    Seq::new(v.len(), |i: int| v[i]@)
}

/// A log as it was read.
#[derive(Debug, Clone, PartialEq)]
pub struct SolverLog {
    pub solver: Solver,
    pub parser: ParserInfo,
    /// The version that the log reports.
    pub version: Option<String>,
    /// Git hash of the solver, where it prints one.
    pub solver_git_hash: Option<String>,
    /// The name of the problem.
    pub problem: Option<String>,
    pub termination: Termination,
    pub timing: Timing,
    pub bounds: Bounds,
    pub tree: TreeStats,
    pub presolve: PresolveStats,
    /// Counts of cuts, by the name of the family.
    pub cuts: CutCounts,
    /// The rows of the progress table, in the order of the log.
    pub progress: ProgressTable,
    /// What the common schema has no field for.
    pub other_data: Vec<NamedValue>,
}

/// What a [`SolverLog`] holds.
pub struct LogView {
    pub solver: Solver,
    pub version: Option<Seq<char>>,
    pub solver_git_hash: Option<Seq<char>>,
    pub problem: Option<Seq<char>>,
    pub termination: TerminationView,
    pub timing: TimingView,
    pub bounds: BoundsView,
    pub tree: TreeStats,
    pub presolve: PresolveStats,
    pub cuts: Seq<(Seq<char>, u64)>,
    pub progress: Seq<RowView>,
    pub other_data: Seq<(Seq<char>, Json)>,
}

impl View for SolverLog {
    type V = LogView;

    open spec fn view(&self) -> LogView {
        LogView {
            solver: self.solver,
            version: chars::opt_text(self.version),
            solver_git_hash: chars::opt_text(self.solver_git_hash),
            problem: chars::opt_text(self.problem),
            termination: self.termination@,
            timing: self.timing@,
            bounds: self.bounds@,
            tree: self.tree,
            presolve: self.presolve,
            cuts: self.cuts@,
            progress: self.progress@,
            other_data: others_of(self.other_data@),
        }
    }
}

/// A log in which nothing was found.
pub open spec fn empty_log(solver: Solver) -> LogView {
    LogView {
        solver,
        version: None,
        solver_git_hash: None,
        problem: None,
        termination: no_termination(),
        timing: no_timing(),
        bounds: no_bounds(),
        tree: no_tree(),
        presolve: no_presolve(),
        cuts: Seq::empty(),
        progress: Seq::empty(),
        other_data: Seq::empty(),
    }
}

/// The names of the core fields that a log lacks.
pub open spec fn lacking(log: LogView) -> Seq<Seq<char>> {
    let status: Seq<Seq<char>> = if log.termination.status == Status::Unknown {
        seq!["termination.status"@]
    } else {
        seq![]
    };
    let wall: Seq<Seq<char>> = if log.timing.wall_seconds is None {
        seq!["timing.wall_seconds"@]
    } else {
        seq![]
    };
    let optimal = log.termination.status == Status::Optimal;
    let primal: Seq<Seq<char>> = if optimal && log.bounds.primal is None {
        seq!["bounds.primal"@]
    } else {
        seq![]
    };
    let dual: Seq<Seq<char>> = if optimal && log.bounds.dual is None {
        seq!["bounds.dual"@]
    } else {
        seq![]
    };
    status + wall + primal + dual
}

/// The contents of a list of string slices.
pub open spec fn strs(v: Seq<&'static str>) -> Seq<Seq<char>> {
    Seq::new(v.len(), |i: int| v[i]@)
}

impl SolverLog {
    /// The columns of the progress table have one length, and the cut
    /// families stand in order, each once.
    pub open spec fn well_formed(&self) -> bool {
        self.progress.well_formed() && self.cuts.well_formed()
    }

    /// An empty log for a solver.
    pub fn new(solver: Solver) -> (out: SolverLog)
        ensures
            out@ == empty_log(solver),
            out.parser.version@ == VERSION@,
            out.parser.git_hash@ == GIT_HASH@,
            out.well_formed(),
    {
        let out = SolverLog {
            solver,
            parser: ParserInfo::current(),
            version: None,
            solver_git_hash: None,
            problem: None,
            termination: Termination::default(),
            timing: Timing::default(),
            bounds: Bounds::default(),
            tree: TreeStats::default(),
            presolve: PresolveStats::default(),
            cuts: CutCounts::new(),
            progress: ProgressTable::default(),
            other_data: Vec::new(),
        };
        assert(others_of(out.other_data@) =~= Seq::empty());
        out
    }

    /// Checks that the core fields are there. The error lists the names of
    /// those that are not.
    pub fn verify_common(&self) -> (out: Result<(), Vec<&'static str>>)
        ensures
            out is Ok <==> lacking(self@).len() == 0,
            out matches Err(names) ==> strs(names@) == lacking(self@),
    {
        let mut missing: Vec<&'static str> = Vec::new();
        if self.termination.status == Status::Unknown {
            missing.push("termination.status");
        }
        if self.timing.wall_seconds.is_none() {
            missing.push("timing.wall_seconds");
        }
        if self.termination.status == Status::Optimal {
            if self.bounds.primal.is_none() {
                missing.push("bounds.primal");
            }
            if self.bounds.dual.is_none() {
                missing.push("bounds.dual");
            }
        }
        assert(strs(missing@) =~= lacking(self@));
        if missing.len() == 0 {
            Ok(())
        } else {
            Err(missing)
        }
    }
}

/// The core fields are all there exactly where the status is known, the wall
/// time is there, and an optimal run has both bounds.
pub proof fn law_core_fields(log: LogView)
    ensures
        lacking(log).len() == 0 <==> {
            &&& log.termination.status != Status::Unknown
            &&& log.timing.wall_seconds is Some
            &&& log.termination.status == Status::Optimal ==> log.bounds.primal is Some
                && log.bounds.dual is Some
        },
{
}

/// A gap that the log reports is the one that counts. Otherwise it follows
/// from the bounds, and there is none only where both of them are missing.
pub proof fn law_reported_gap_counts(b: BoundsView)
    ensures
        b.gap matches Some(g) ==> gap_of(b) == Some(GapView::Reported(g)),
        b.gap is None ==> (gap_of(b) is None <==> b.primal is None && b.dual is None),
{
}

} // verus!
