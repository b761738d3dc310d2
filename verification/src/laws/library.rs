//! The names that the library goes by, which solver a text is taken for, and
//! how files are told apart.

use crate::chars;
use crate::input;
use crate::input::DecodeErrorView;
use crate::output;
use crate::output::OutputFormat;
use crate::printed;
use crate::printed::PrintedView;
use crate::quantity;
use crate::quantity::{RealView, Unit};
use crate::schema;
use crate::schema::{
    BoundsView, EventView, GapView, LogView, NodeEvent, NodeSnapshot, Solver, SolverLog, Status,
};
use crate::solvers;
use crate::ParseError;
use vstd::prelude::*;

verus! {

/// Each solver has its key, and each key its solver; no other text is a key.
pub proof fn law_keys_of_the_solvers(key: Seq<char>)
    ensures
        schema::key_of(Solver::Gurobi) == "gurobi"@,
        schema::key_of(Solver::Xpress) == "xpress"@,
        schema::key_of(Solver::Scip) == "scip"@,
        schema::key_of(Solver::Highs) == "highs"@,
        schema::key_of(Solver::Cplex) == "cplex"@,
        schema::key_of(Solver::Cbc) == "cbc"@,
        schema::key_of(Solver::Copt) == "copt"@,
        schema::key_of(Solver::Optverse) == "optverse"@,
        schema::key_of(Solver::Mosek) == "mosek"@,
        schema::solver_with(key) matches Some(s) ==> schema::key_of(s) == key,
        schema::solver_with(key) is None ==> forall|s: Solver| #[trigger] schema::key_of(s) != key,
{
    if schema::solver_with(key) is None {
        assert forall|s: Solver| #[trigger] schema::key_of(s) != key by {
            schema::lemma_key(s);
        }
    }
}

/// A run that is optimal, infeasible, unbounded or one of the last two has
/// answered the question; one that stopped at a limit, was interrupted, ran
/// into errors or ended nobody knows how has not.
pub proof fn law_answers()
    ensures
        schema::is_answer(Status::Optimal),
        schema::is_answer(Status::Infeasible),
        schema::is_answer(Status::Unbounded),
        schema::is_answer(Status::InfeasibleOrUnbounded),
        !schema::is_answer(Status::TimeLimit),
        !schema::is_answer(Status::MemoryLimit),
        !schema::is_answer(Status::OtherLimit),
        !schema::is_answer(Status::UserInterrupt),
        !schema::is_answer(Status::NumericalError),
        !schema::is_answer(Status::Unknown),
{
}

/// Where no gap is reported it follows from the primal and the dual bound, and
/// is open where only one of them is there.
pub proof fn law_gap_of_two_bounds(b: BoundsView)
    requires
        b.gap is None,
    ensures
        b.primal is Some && b.dual is Some ==> (schema::gap_of(b) matches Some(
            GapView::Derived { primal, dual },
        ) && Some(primal) == b.primal && Some(dual) == b.dual),
        (b.primal is Some) != (b.dual is Some) ==> schema::gap_of(b) == Some(GapView::Open),
{
}

/// A log lacks its status where that is unknown, its wall time where it has
/// none, and the bounds only of an optimal run; it lacks nothing else.
pub proof fn law_what_a_log_lacks(log: LogView, name: Seq<char>)
    ensures
        ({
            let optimal = log.termination.status is Optimal;
            schema::lacking(log).contains(name) <==> {
                ||| name == "termination.status"@ && log.termination.status is Unknown
                ||| name == "timing.wall_seconds"@ && log.timing.wall_seconds is None
                ||| name == "bounds.primal"@ && optimal && log.bounds.primal is None
                ||| name == "bounds.dual"@ && optimal && log.bounds.dual is None
            }
        }),
{
    let all = schema::lacking(log);
    let status: int = if log.termination.status == Status::Unknown {
        1
    } else {
        0
    };
    let wall: int = if log.timing.wall_seconds is None {
        1
    } else {
        0
    };
    let optimal = log.termination.status == Status::Optimal;
    let primal: int = if optimal && log.bounds.primal is None {
        1
    } else {
        0
    };
    if status == 1 {
        assert(all[0] == "termination.status"@);
    }
    if wall == 1 {
        assert(all[status] == "timing.wall_seconds"@);
    }
    if primal == 1 {
        assert(all[status + wall] == "bounds.primal"@);
    }
    if optimal && log.bounds.dual is None {
        assert(all[status + wall + primal] == "bounds.dual"@);
    }
    if all.contains(name) {
        let i = all.index_of(name);
        assert(all[i] == name);
    }
}

/// A file whose name ends in `.json` is to hold JSON, one in `.json.gz` gzipped
/// JSON, and any other, like the terminal, a summary.
pub proof fn law_format_of_a_file(stem: Seq<char>, name: Seq<char>)
    ensures
        output::format_for(Some(stem + ".json"@)) == OutputFormat::Json,
        output::format_for(Some(stem + ".json.gz"@)) == OutputFormat::JsonGz,
        !chars::ends_with(name, ".json"@) && !chars::ends_with(name, ".json.gz"@)
            ==> output::format_for(Some(name)) == OutputFormat::Summary,
        output::format_for(None) == OutputFormat::Summary,
{
    reveal_strlit(".json");
    reveal_strlit(".json.gz");
    let plain = stem + ".json"@;
    let zipped = stem + ".json.gz"@;
    assert(plain.subrange(stem.len() as int, plain.len() as int) =~= ".json"@);
    assert(zipped.subrange(stem.len() as int, zipped.len() as int) =~= ".json.gz"@);
    assert(plain.last() == 'n');
    if chars::ends_with(plain, ".json.gz"@) {
        let end = plain.subrange(plain.len() - 8, plain.len() as int);
        assert(end[7] == 'z');
        assert(end[7] == plain.last());
    }
}

/// What the errors say.
pub proof fn law_words_of_the_errors(key: &'static str, why: String)
    ensures
        crate::message_of(ParseError::Empty) == "log appears empty or truncated"@,
        crate::message_of(ParseError::WrongSolver(key)) == "log does not look like a "@ + key@
            + " log"@,
        crate::message_of(ParseError::Other(why)) == why@,
{
}

/// Each solver has its own reader.
pub proof fn law_readers(text: Seq<char>)
    ensures
        crate::recognizes(Solver::Gurobi, text) == solvers::gurobi::looks_right(text),
        crate::recognizes(Solver::Xpress, text) == solvers::xpress::looks_right(text),
        crate::recognizes(Solver::Scip, text) == solvers::scip::looks_right(text),
        crate::recognizes(Solver::Highs, text) == solvers::highs::looks_right(text),
        crate::recognizes(Solver::Cplex, text) == solvers::cplex::looks_right(text),
        crate::recognizes(Solver::Cbc, text) == solvers::cbc::looks_right(text),
        crate::recognizes(Solver::Copt, text) == solvers::copt::looks_right(text),
        crate::recognizes(Solver::Optverse, text) == solvers::optverse::looks_right(text),
        crate::recognizes(Solver::Mosek, text) == solvers::mosek::looks_right(text),
{
}

/// Reading gives the log of a text that is recognized, with the version of the
/// library, and else an error that names the solver, never another one.
pub proof fn law_what_reading_gives(
    log: SolverLog,
    e: ParseError,
    recognized: bool,
    solver: Solver,
    wanted: LogView,
)
    ensures
        crate::read_as(Ok(log), recognized, solver, wanted) ==> recognized && log@ == wanted
            && log.parser.version@ == "0.1.0"@ && log.well_formed(),
        crate::read_as(Err(e), recognized, solver, wanted) ==> !recognized && (
        e matches ParseError::WrongSolver(key) && key@ == schema::key_of(solver)),
{
}

/// The turn of a solver: Gurobi comes first, MOSEK last.
pub open spec fn turn(solver: Solver) -> int {
    match solver {
        Solver::Gurobi => 0,
        Solver::Xpress => 1,
        Solver::Scip => 2,
        Solver::Highs => 3,
        Solver::Cplex => 4,
        Solver::Cbc => 5,
        Solver::Copt => 6,
        Solver::Optverse => 7,
        Solver::Mosek => 8,
    }
}

/// Of the solvers whose log a text looks like, the one that comes first is
/// detected.
pub proof fn law_first_in_turn_is_detected(text: Seq<char>, solver: Solver)
    requires
        crate::recognizes(solver, text),
        forall|s: Solver| turn(s) < turn(solver) ==> !#[trigger] crate::recognizes(s, text),
    ensures
        crate::detected(text) == Some(solver),
{
    let order = crate::trial_order();
    assert forall|i: int| 0 <= i < 9 implies turn(#[trigger] order[i]) == i by {
    }
    lemma_first(order, text, solver, turn(solver));
}

proof fn lemma_first(order: Seq<Solver>, text: Seq<char>, solver: Solver, k: int)
    requires
        0 <= k < order.len(),
        order[k] == solver,
        crate::recognizes(solver, text),
        forall|i: int| 0 <= i < k ==> !crate::recognizes(#[trigger] order[i], text),
    ensures
        crate::first_match(order, text) == Some(solver),
    decreases k,
{
    if k > 0 {
        assert(!crate::recognizes(order[0], text));
        assert forall|i: int| 0 <= i < k - 1 implies !crate::recognizes(
            #[trigger] order.skip(1)[i],
            text,
        ) by {
            assert(order.skip(1)[i] == order[i + 1]);
        }
        lemma_first(order.skip(1), text, solver, k - 1);
    }
}

/// A file with the extension `gz` holds what gzip makes of its bytes, and any
/// other its bytes. Bytes that are not UTF-8 hold no text.
pub proof fn law_text_of_a_file(
    extension: Option<Seq<char>>,
    bytes: Seq<u8>,
    plain: Seq<u8>,
    why: Seq<char>,
)
    ensures
        extension != Some("gz"@) ==> input::text_in(extension, bytes, Ok(plain)) == input::text_in(
            None,
            bytes,
            Err(why),
        ),
        input::text_in(Some("gz"@), bytes, Ok(plain)) == input::text_in(None, plain, Err(why)),
        input::text_in(Some("gz"@), bytes, Err(why)) == Err::<Seq<char>, DecodeErrorView>(
            DecodeErrorView::Gzip(why),
        ),
        input::utf8_text(bytes) matches Some(t) ==> input::text_in(None, bytes, Ok(plain)) == Ok::<
            Seq<char>,
            DecodeErrorView,
        >(t),
        input::utf8_text(bytes) is None ==> input::text_in(None, bytes, Ok(plain)) == Err::<
            Seq<char>,
            DecodeErrorView,
        >(DecodeErrorView::NotUtf8),
{
}

/// No equals sign and no blank at either end.
pub open spec fn is_name(s: Seq<char>) -> bool {
    &&& s.len() > 0
    &&& !chars::is_space(s[0])
    &&& !chars::is_space(s.last())
    &&& s.last() != '='
}

/// The line that starts a run names its instance between the marker and the
/// equals signs.
pub proof fn law_instance_of_a_run(name: Seq<char>, signs: Seq<char>)
    requires
        is_name(name),
        forall|i: int| 0 <= i < signs.len() ==> #[trigger] signs[i] == '=' || signs[i] == ' ',
    ensures
        input::is_marker("@01 "@ + name + signs + seq!['\n']),
        input::instance_of("@01 "@ + name + signs + seq!['\n']) == name,
        input::instance_of("@01 "@ + name + signs) == name,
{
    reveal_strlit("@01 ");
    reveal_strlit("\n");
    reveal_strlit("=");
    let line = "@01 "@ + name + signs + seq!['\n'];
    let bare = "@01 "@ + name + signs;
    assert(line.subrange(0, 4) =~= "@01 "@);
    assert(line.skip(4) =~= (name + signs).push('\n'));
    assert(bare.skip(4) =~= name + signs);
    assert("\n"@[0] == '\n');
    assert("="@[0] == '=');
    assert((name + signs).push('\n').drop_last() =~= name + signs);
    let all = name + signs;
    assert(all.last() != '\n') by {
        if signs.len() > 0 {
            assert(all.last() == signs[signs.len() - 1]);
        } else {
            assert(all =~= name);
        }
    }
    assert(!"\n"@.contains(all.last()));
    assert("\n"@.contains('\n'));
    reveal_with_fuel(chars::back_trimmed, 2);
    assert(chars::back_trimmed(all, "\n"@, false) == all);
    assert(chars::back_trimmed(all.push('\n'), "\n"@, false) == all);
    lemma_signs_go(name, signs);
    assert(chars::front_trimmed(name, Seq::empty(), true) == name);
    assert(chars::back_trimmed(name, Seq::empty(), true) == name);
}

proof fn lemma_signs_go(name: Seq<char>, signs: Seq<char>)
    requires
        is_name(name),
        forall|i: int| 0 <= i < signs.len() ==> #[trigger] signs[i] == '=' || signs[i] == ' ',
    ensures
        chars::back_trimmed(name + signs, "="@, true) == name,
    decreases signs.len(),
{
    reveal_strlit("=");
    if signs.len() == 0 {
        assert(name + signs =~= name);
        assert(!"="@.contains(name.last()));
    } else {
        let c = signs.last();
        assert((name + signs).drop_last() =~= name + signs.drop_last());
        assert((name + signs).last() == c);
        assert(c == signs[signs.len() - 1]);
        assert("="@[0] == '=');
        lemma_signs_go(name, signs.drop_last());
    }
}

/// A number that was printed as a literal.
pub open spec fn as_printed(l: Option<Seq<char>>) -> Option<RealView> {
    match l {
        Some(s) => Some(RealView { literals: seq![s], unit: Unit::One }),
        None => None,
    }
}

/// In a document each printed number stands in the place of the one it was
/// printed for, and nothing else changes.
pub proof fn law_places_of_printed_numbers(log: LogView, p: PrintedView, i: int)
    requires
        0 <= i < log.progress.len(),
        p.rows.len() == log.progress.len(),
    ensures
        ({
            let shown = printed::printed_log(log, p);
            let row = shown.progress[i];
            let was = log.progress[i];
            &&& shown.timing.wall_seconds == as_printed(p.wall)
            &&& shown.timing.cpu_seconds == as_printed(p.cpu)
            &&& shown.timing.reading_seconds == as_printed(p.reading)
            &&& shown.timing.presolve_seconds == as_printed(p.presolve)
            &&& shown.timing.root_relaxation_seconds == as_printed(p.root_relaxation)
            &&& shown.bounds.primal == as_printed(p.primal)
            &&& shown.bounds.dual == as_printed(p.dual)
            &&& shown.bounds.gap == as_printed(p.gap)
            &&& shown.progress.len() == log.progress.len()
            &&& Some(row.time_seconds) == as_printed(Some(p.rows[i].time))
            &&& row.primal == as_printed(p.rows[i].primal)
            &&& row.dual == as_printed(p.rows[i].dual)
            &&& row.gap == as_printed(p.rows[i].gap)
            &&& row.nodes_explored == was.nodes_explored
            &&& row.depth == was.depth
            &&& row.lp_iterations == was.lp_iterations
            &&& row.event == was.event
            &&& shown.solver == log.solver
            &&& shown.version == log.version
            &&& shown.problem == log.problem
            &&& shown.termination == log.termination
            &&& shown.tree == log.tree
            &&& shown.presolve == log.presolve
            &&& shown.cuts == log.cuts
        }),
{
}

/// The literals of a log are those of its numbers, each in its place.
pub proof fn law_literals_of_a_log(log: LogView, i: int)
    requires
        0 <= i < log.progress.len(),
    ensures
        ({
            let own = printed::own_literals(log);
            let row = log.progress[i];
            &&& (log.timing.wall_seconds matches Some(r) ==> own.wall == Some(r.literals[0]))
            &&& (log.timing.cpu_seconds matches Some(r) ==> own.cpu == Some(r.literals[0]))
            &&& (log.timing.reading_seconds matches Some(r) ==> own.reading == Some(r.literals[0]))
            &&& (log.timing.presolve_seconds matches Some(r) ==> own.presolve == Some(r.literals[0]))
            &&& (log.timing.root_relaxation_seconds matches Some(r) ==> own.root_relaxation == Some(
                r.literals[0],
            ))
            &&& (log.bounds.primal matches Some(r) ==> own.primal == Some(r.literals[0]))
            &&& (log.bounds.dual matches Some(r) ==> own.dual == Some(r.literals[0]))
            &&& (log.bounds.gap matches Some(r) ==> own.gap == Some(r.literals[0]))
            &&& own.rows[i].time == row.time_seconds.literals[0]
            &&& (row.primal matches Some(r) ==> own.rows[i].primal == Some(r.literals[0]))
            &&& (row.dual matches Some(r) ==> own.rows[i].dual == Some(r.literals[0]))
            &&& (row.gap matches Some(r) ==> own.rows[i].gap == Some(r.literals[0]))
        }),
{
}

/// Nothing is known of a new log but its solver.
pub proof fn law_new_log(solver: Solver)
    ensures
        ({
            let log = schema::empty_log(solver);
            &&& log.solver == solver
            &&& log.version is None && log.solver_git_hash is None && log.problem is None
            &&& log.termination.status is Unknown && log.termination.raw_reason is None
            &&& log.timing.wall_seconds is None && log.timing.cpu_seconds is None
            &&& log.timing.reading_seconds is None && log.timing.presolve_seconds is None
            &&& log.timing.root_relaxation_seconds is None
            &&& log.bounds.primal is None && log.bounds.dual is None && log.bounds.gap is None
            &&& log.bounds.root_dual is None && log.bounds.first_primal is None
            &&& log.bounds.first_primal_time_seconds is None
            &&& log.bounds.primal_dual_integral is None
            &&& log.tree.nodes_explored is None && log.tree.simplex_iterations is None
            &&& log.tree.solutions_found is None && log.tree.max_depth is None
            &&& log.tree.restarts is None
            &&& log.presolve.rows_before is None && log.presolve.cols_before is None
            &&& log.presolve.nonzeros_before is None && log.presolve.rows_after is None
            &&& log.presolve.cols_after is None && log.presolve.nonzeros_after is None
            &&& log.cuts.len() == 0 && log.progress.len() == 0 && log.other_data.len() == 0
        }),
{
}

/// A log is seen through its own fields, each as what it is.
pub proof fn law_view_of_a_log(log: SolverLog)
    ensures
        log@.solver == log.solver,
        log@.version == chars::opt_text(log.version),
        log@.solver_git_hash == chars::opt_text(log.solver_git_hash),
        log@.problem == chars::opt_text(log.problem),
        log@.termination.status == log.termination.status,
        log@.termination.raw_reason == chars::opt_text(log.termination.raw_reason),
        log@.timing.wall_seconds == quantity::opt_real(log.timing.wall_seconds),
        log@.timing.cpu_seconds == quantity::opt_real(log.timing.cpu_seconds),
        log@.timing.reading_seconds == quantity::opt_real(log.timing.reading_seconds),
        log@.timing.presolve_seconds == quantity::opt_real(log.timing.presolve_seconds),
        log@.timing.root_relaxation_seconds == quantity::opt_real(
            log.timing.root_relaxation_seconds,
        ),
        log@.bounds.primal == quantity::opt_real(log.bounds.primal),
        log@.bounds.dual == quantity::opt_real(log.bounds.dual),
        log@.bounds.gap == quantity::opt_real(log.bounds.gap),
        log@.bounds.root_dual == quantity::opt_real(log.bounds.root_dual),
        log@.bounds.first_primal == quantity::opt_real(log.bounds.first_primal),
        log@.bounds.first_primal_time_seconds == quantity::opt_real(
            log.bounds.first_primal_time_seconds,
        ),
        log@.bounds.primal_dual_integral == quantity::opt_real(log.bounds.primal_dual_integral),
        log@.tree == log.tree,
        log@.presolve == log.presolve,
        log@.cuts == log.cuts@,
        log@.progress == log.progress@,
{
}

/// A row is seen through its own fields, and an event by its kind.
pub proof fn law_view_of_a_row(row: NodeSnapshot, s: String)
    ensures
        row@.time_seconds == row.time_seconds@,
        row@.nodes_explored == row.nodes_explored,
        row@.primal == quantity::opt_real(row.primal),
        row@.dual == quantity::opt_real(row.dual),
        row@.gap == quantity::opt_real(row.gap),
        row@.depth == row.depth,
        row@.lp_iterations == row.lp_iterations,
        row@.event == schema::opt_event(row.event),
        NodeEvent::Heuristic@ == EventView::Heuristic,
        NodeEvent::BranchSolution@ == EventView::BranchSolution,
        NodeEvent::Cutoff@ == EventView::Cutoff,
        NodeEvent::Other(s)@ == EventView::Other(s@),
{
}

} // verus!
