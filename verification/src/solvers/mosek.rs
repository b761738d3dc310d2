//! Mosek logs.

use crate::chars;
use crate::matching;
use crate::matching::{Captures, Groups};
use crate::numbers;
use crate::quantity;
use crate::quantity::{Real, RealView};
use crate::schema;
use crate::schema::{
    Bounds, BoundsView, LogView, PresolveStats, Solver, SolverLog, Status, Termination,
    TerminationView, TimingView, TreeStats,
};
use crate::solvers::progress;
use crate::table;
use crate::{LogParser, ParseError};
use vstd::prelude::*;

verus! {

pub const VERSION: &'static str = r"MOSEK Version\s+(\d+\.\d+\.\d+)";
pub const NAME: &'static str = r"(?m)^\s+Name\s+:\s+(\S+)";
pub const CONSTRAINTS: &'static str = r"(?m)^\s+Constraints\s+:\s+([\d,]+)";
pub const VARIABLES: &'static str = r"(?m)^\s+Scalar variables\s+:\s+([\d,]+)";
pub const SUMMARY: &'static str =
    r"(Basic|Interior-point) solution summary\n\s+Problem status\s*:\s*\S+\n\s+Solution status\s*:\s*(\S+)\n\s+Primal\.\s+obj:\s*([-\d.eE+]+).*\n\s+Dual\.\s+obj:\s*([-\d.eE+]+)";
pub const OPTIMIZER_TIME: &'static str = r"(?m)^\s+Optimizer\s+-\s+time:\s*([\d.]+)";
pub const INTERIOR_ITERATIONS: &'static str =
    r"Interior-point\s+-\s+iterations\s*:\s*([\d,]+)";
pub const SIMPLEX_ITERATIONS: &'static str = r"Simplex\s+-\s+iterations\s*:\s*([\d,]+)";
pub const RETURN_CODE: &'static str = r"Return code\s+-\s+(\d+)\s+\[(\w+)\]";

/// Which texts look like a Mosek log.
pub open spec fn looks_right(text: Seq<char>) -> bool {
    chars::contains(text, "MOSEK Version"@) || chars::contains(text, "mosek.com"@)
}

/// A summary of the basic solution.
pub open spec fn is_basic(m: Groups) -> bool {
    matching::part(m, 1) == "Basic"@
}

/// The summary that counts: the last of a basic solution, or else the last.
pub open spec fn best_summary(ms: Seq<Groups>) -> Option<Groups>
    decreases ms.len(),
{
    if ms.len() == 0 {
        None
    } else {
        match best_summary(ms.drop_last()) {
            Some(best) => if is_basic(ms.last()) || !is_basic(best) {
                Some(ms.last())
            } else {
                Some(best)
            },
            None => Some(ms.last()),
        }
    }
}

/// The place of the summary that counts.
pub fn find_summary(ms: &Vec<Captures>) -> (out: Option<usize>)
    ensures
        out matches Some(i) ==> i < ms@.len() && best_summary(matching::all_groups(ms@)) == Some(
            ms@[i as int]@,
        ),
        out is None ==> best_summary(matching::all_groups(ms@)) is None,
{
    let ghost all = matching::all_groups(ms@);
    let mut best: Option<usize> = None;
    let mut i: usize = 0;
    while i < ms.len()
        invariant
            i <= ms@.len(),
            all == matching::all_groups(ms@),
            best matches Some(b) ==> b < i && best_summary(all.take(i as int)) == Some(
                ms@[b as int]@,
            ),
            best is None ==> best_summary(all.take(i as int)) is None,
        decreases ms@.len() - i,
    {
        assert(all.take(i + 1).drop_last() =~= all.take(i as int));
        assert(all.take(i + 1).last() == ms@[i as int]@);
        let kind = ms[i].part(1);
        let take = match best {
            Some(b) => {
                let held = ms[b].part(1);
                chars::same(kind.as_slice(), "Basic") || !chars::same(held.as_slice(), "Basic")
            },
            None => true,
        };
        if take {
            best = Some(i);
        }
        i = i + 1;
    }
    assert(all.take(i as int) =~= all);
    best
}

/// The status that the solution status stands for.
pub open spec fn status_of(s: Seq<char>) -> Status {
    if s == "OPTIMAL"@ {
        Status::Optimal
    } else if s == "UNKNOWN"@ || s == "UNDEFINED"@ {
        Status::Unknown
    } else if chars::contains(s, "INFEASIBLE"@) {
        Status::Infeasible
    } else {
        Status::Unknown
    }
}

pub fn classify(s: &[char]) -> (out: Status)
    ensures
        out == status_of(s@),
{
    if chars::same(s, "OPTIMAL") {
        Status::Optimal
    } else if chars::same(s, "UNKNOWN") || chars::same(s, "UNDEFINED") {
        Status::Unknown
    } else if chars::has(s, "INFEASIBLE") {
        Status::Infeasible
    } else {
        Status::Unknown
    }
}

/// Why the run stopped: the solution status, or else the return code.
pub open spec fn termination_from(summary: Option<Groups>, code: Option<Groups>) -> TerminationView {
    match (summary, code) {
        (Some(m), _) => TerminationView {
            status: status_of(matching::part(m, 2)),
            raw_reason: Some(matching::part(m, 2)),
        },
        (None, Some(c)) => TerminationView {
            status: Status::Unknown,
            raw_reason: Some(matching::part(c, 1) + " ["@ + matching::part(c, 2) + "]"@),
        },
        (None, None) => schema::no_termination(),
    }
}

pub fn make_termination(summary: Option<&Captures>, code: &Option<Captures>) -> (out: Termination)
    ensures
        out@ == termination_from(
            match summary {
                Some(c) => Some(c@),
                None => None,
            },
            matching::opt_groups(*code),
        ),
{
    if let Some(m) = summary {
        let s = m.part(2);
        return Termination {
            status: classify(s.as_slice()),
            raw_reason: Some(chars::string_of(s.as_slice())),
        };
    }
    match code {
        Some(c) => {
            let number = c.part(1);
            let name = c.part(2);
            let name = chars::string_of(name.as_slice());
            let reason = chars::join(number.as_slice(), " [");
            let reason = chars::join(reason.as_slice(), name.as_str());
            let reason = chars::join(reason.as_slice(), "]");
            Termination {
                status: Status::Unknown,
                raw_reason: Some(chars::string_of(reason.as_slice())),
            }
        },
        None => Termination::default(),
    }
}

/// An objective of a summary; zero where it is no number.
pub open spec fn objective_of(s: Seq<char>) -> RealView {
    match quantity::real_of(s) {
        Some(r) => r,
        None => quantity::zero_real(),
    }
}

/// The bounds: both objectives of the summary.
pub open spec fn bounds_from(summary: Option<Groups>) -> BoundsView {
    match summary {
        Some(m) => BoundsView {
            primal: Some(objective_of(matching::part(m, 3))),
            dual: Some(objective_of(matching::part(m, 4))),
            ..schema::no_bounds()
        },
        None => schema::no_bounds(),
    }
}

fn read_objective(m: &Captures, i: usize) -> (out: Real)
    ensures
        out@ == objective_of(matching::part(m@, i as int)),
{
    let s = m.part(i);
    match Real::read(s.as_slice()) {
        Some(r) => r,
        None => Real::zero(),
    }
}

pub fn make_bounds(summary: Option<&Captures>) -> (out: Bounds)
    ensures
        out@ == bounds_from(
            match summary {
                Some(c) => Some(c@),
                None => None,
            },
        ),
{
    match summary {
        Some(m) => Bounds {
            primal: Some(read_objective(m, 3)),
            dual: Some(read_objective(m, 4)),
            gap: None,
            root_dual: None,
            first_primal: None,
            first_primal_time_seconds: None,
            primal_dual_integral: None,
        },
        None => Bounds::default(),
    }
}

/// The iterations: those of the interior-point method, and those of the
/// simplex method added, where there are any.
pub open spec fn iterations_from(interior: Option<Groups>, simplex: Option<Groups>) -> Option<u64> {
    let n = matching::spaced_count_at(interior, 1);
    match matching::spaced_count_at(simplex, 1) {
        Some(k) => if k > 0 {
            Some(
                numbers::wrapped_sum(
                    match n {
                        Some(n) => n,
                        None => 0,
                    },
                    k,
                ),
            )
        } else {
            n
        },
        None => n,
    }
}

pub fn make_iterations(interior: &Option<Captures>, simplex: &Option<Captures>) -> (out: Option<u64>)
    ensures
        out == iterations_from(matching::opt_groups(*interior), matching::opt_groups(*simplex)),
{
    let n = matching::found_spaced_count(interior, 1);
    if let Some(k) = matching::found_spaced_count(simplex, 1) {
        if k > 0 {
            let base: u64 = match n {
                Some(n) => n,
                None => 0,
            };
            return Some(numbers::add_wrapping(base, k));
        }
    }
    n
}

/// The name of the problem, without the ending of a model file.
pub open spec fn problem_from(name: Option<Groups>) -> Option<Seq<char>> {
    match matching::trimmed_at(name, 1) {
        Some(s) => Some(progress::model_stem(s, false)),
        None => None,
    }
}

pub fn make_problem(name: &Option<Captures>) -> (out: Option<String>)
    ensures
        chars::opt_text(out) == problem_from(matching::opt_groups(*name)),
{
    match matching::found(name, 1) {
        Some(s) => Some(
            chars::string_of(progress::drop_model_ending(chars::trim(s.as_slice()), false)),
        ),
        None => None,
    }
}

/// What is found in a Mosek log.
#[verifier::opaque]
pub open spec fn log_in(text: Seq<char>) -> LogView {
    let summary = best_summary(matching::regex_captures_iter(SUMMARY@, text));
    LogView {
        version: matching::text_at(matching::regex_captures(VERSION@, text), 1),
        problem: problem_from(matching::regex_captures(NAME@, text)),
        termination: termination_from(summary, matching::regex_captures(RETURN_CODE@, text)),
        timing: TimingView {
            wall_seconds: matching::spaced_real_at(
                matching::regex_captures(OPTIMIZER_TIME@, text),
                1,
            ),
            ..schema::no_timing()
        },
        bounds: bounds_from(summary),
        tree: TreeStats {
            simplex_iterations: iterations_from(
                matching::regex_captures(INTERIOR_ITERATIONS@, text),
                matching::regex_captures(SIMPLEX_ITERATIONS@, text),
            ),
            ..schema::no_tree()
        },
        presolve: PresolveStats {
            rows_before: matching::spaced_count_at(
                matching::regex_captures(CONSTRAINTS@, text),
                1,
            ),
            cols_before: matching::spaced_count_at(matching::regex_captures(VARIABLES@, text), 1),
            ..schema::no_presolve()
        },
        ..schema::empty_log(Solver::Mosek)
    }
}

/// The log is one of this solver.
pub proof fn lemma_solver(text: Seq<char>)
    ensures
        log_in(text).solver == Solver::Mosek,
{
    reveal(log_in);
}

pub struct MosekParser;

impl LogParser for MosekParser {
    open spec fn handles(&self) -> Solver {
        Solver::Mosek
    }

    open spec fn recognizes(&self, text: Seq<char>) -> bool {
        looks_right(text)
    }

    open spec fn reading(&self, text: Seq<char>) -> LogView {
        log_in(text)
    }

    fn solver(&self) -> (out: Solver) {
        Solver::Mosek
    }

    fn sniff(&self, text: &str) -> (out: bool) {
        let all = chars::chars_of(text);
        chars::has(all.as_slice(), "MOSEK Version") || chars::has(all.as_slice(), "mosek.com")
    }

    fn parse(&self, text: &str) -> (out: Result<SolverLog, ParseError>) {
        if !self.sniff(text) {
            return Err(ParseError::WrongSolver("mosek"));
        }
        proof {
            reveal(log_in);
        }
        let version = matching::captures(VERSION, text);
        let name = matching::captures(NAME, text);
        let constraints = matching::captures(CONSTRAINTS, text);
        let variables = matching::captures(VARIABLES, text);
        let summaries = matching::captures_iter(SUMMARY, text);
        let code = matching::captures(RETURN_CODE, text);
        let time = matching::captures(OPTIMIZER_TIME, text);
        let interior = matching::captures(INTERIOR_ITERATIONS, text);
        let simplex = matching::captures(SIMPLEX_ITERATIONS, text);
        let summary = match find_summary(&summaries) {
            Some(i) => Some(&summaries[i]),
            None => None,
        };
        let mut log = SolverLog::new(Solver::Mosek);
        log.version = matching::found_text(&version, 1);
        log.problem = make_problem(&name);
        log.termination = make_termination(summary, &code);
        log.timing.wall_seconds = matching::found_spaced_real(&time, 1);
        log.bounds = make_bounds(summary);
        log.tree.simplex_iterations = make_iterations(&interior, &simplex);
        log.presolve.rows_before = matching::found_spaced_count(&constraints, 1);
        log.presolve.cols_before = matching::found_spaced_count(&variables, 1);
        Ok(log)
    }
}

/// Where there is a summary of a basic solution, the last of these counts;
/// else the last summary of any kind does.
pub proof fn law_basic_summary_counts(ms: Seq<Groups>)
    ensures
        ms.len() > 0 <==> best_summary(ms) is Some,
        best_summary(ms) matches Some(best) ==> exists|i: int|
            {
                &&& 0 <= i < ms.len()
                &&& ms[i] == best
                &&& forall|j: int| i < j < ms.len() ==> !is_basic(#[trigger] ms[j])
                &&& is_basic(best) || (i == ms.len() - 1 && forall|j: int|
                    0 <= j < ms.len() ==> !is_basic(#[trigger] ms[j]))
            },
    decreases ms.len(),
{
    if ms.len() > 0 {
        let front = ms.drop_last();
        let n = ms.len() - 1;
        law_basic_summary_counts(front);
        assert(forall|i: int| 0 <= i < n ==> front[i] == ms[i]);
        let best = best_summary(ms)->Some_0;
        if front.len() == 0 || is_basic(ms.last()) || !is_basic(best_summary(front)->Some_0) {
            assert(ms[n] == best);
            if !is_basic(best) {
                assert forall|j: int| 0 <= j < ms.len() implies !is_basic(#[trigger] ms[j]) by {
                    if j < n {
                        assert(front[j] == ms[j]);
                    }
                }
            }
        } else {
            let i = choose|i: int|
                {
                    &&& 0 <= i < front.len()
                    &&& front[i] == best
                    &&& forall|j: int| i < j < front.len() ==> !is_basic(#[trigger] front[j])
                    &&& is_basic(best) || (i == front.len() - 1 && forall|j: int|
                        0 <= j < front.len() ==> !is_basic(#[trigger] front[j]))
                };
            assert(ms[i] == best);
            assert forall|j: int| i < j < ms.len() implies !is_basic(#[trigger] ms[j]) by {
                if j < n {
                    assert(front[j] == ms[j]);
                }
            }
        }
    }
}

/// There are no other data.
pub proof fn lemma_other_names(text: Seq<char>)
    ensures
        log_in(text).other_data.len() == 0,
{
    reveal(log_in);
}

pub proof fn lemma_cuts(text: Seq<char>)
    ensures
        table::counts_positive(log_in(text).cuts),
{
    reveal(log_in);
}

} // verus!
