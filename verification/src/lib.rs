//! `miplog` reads MIP and LP solver logs into one schema, whatever the solver.

pub mod chars;
pub mod document;
pub mod doubles;
pub mod fields;
pub mod input;
pub mod json;
pub mod laws;
pub mod matching;
pub mod numbers;
pub mod output;
pub mod printed;
pub mod quantity;
pub mod roundtrip;
pub mod schema;
pub mod solvers;
pub mod table;
pub mod text;
pub mod writing;

pub use crate::document::{from_text, TextError};
pub use crate::schema::{
    Bounds, Gap, LogView, NamedValue, NodeEvent, NodeSnapshot, ParserInfo, PresolveStats,
    ProgressTable, Solver, SolverLog, Status, Termination, Timing, TreeStats,
};
use vstd::prelude::*;

verus! {

/// Why a text could not be read.
#[derive(Debug, PartialEq)]
pub enum ParseError {
    /// There is nothing in it.
    Empty,
    /// It is no log of this solver.
    WrongSolver(&'static str),
    Other(String),
}

/// What an error says.
pub open spec fn message_of(e: ParseError) -> Seq<char> {
    match e {
        ParseError::Empty => "log appears empty or truncated"@,
        ParseError::WrongSolver(key) => "log does not look like a "@ + key@ + " log"@,
        ParseError::Other(why) => why@,
    }
}

impl ParseError {
    /// The error in words.
    pub fn message(&self) -> (out: String)
        ensures
            out@ == message_of(*self),
    {
        match self {
            ParseError::Empty => "log appears empty or truncated".to_string(),
            ParseError::WrongSolver(key) => {
                let mut out = chars::chars_of("log does not look like a ");
                chars::append(&mut out, key);
                chars::append(&mut out, " log");
                chars::string_of(out.as_slice())
            },
            ParseError::Other(why) => why.clone(),
        }
    }
}

/// What reading a text gives: the log, if the text is recognized, and else
/// the error that names the solver.
pub open spec fn read_as(
    out: Result<SolverLog, ParseError>,
    recognized: bool,
    solver: Solver,
    log: LogView,
) -> bool {
    match out {
        Ok(l) => {
            &&& recognized
            &&& l@ == log
            &&& l.parser.version@ == schema::VERSION@
            &&& l.parser.git_hash@ == schema::GIT_HASH@
            &&& l.well_formed()
        },
        Err(e) => !recognized && (e matches ParseError::WrongSolver(key) && key@
            == schema::key_of(solver)),
    }
}

/// A reader of the logs of one solver.
///
/// A reader keeps no state. It reads whatever it recognizes: a log that is
/// cut off gives what could be found in it, never an error.
pub trait LogParser {
    /// The solver whose logs are read.
    spec fn handles(&self) -> Solver;

    /// Which texts look like a log of that solver.
    spec fn recognizes(&self, text: Seq<char>) -> bool;

    /// What is found in a text.
    spec fn reading(&self, text: Seq<char>) -> LogView;

    /// The [`Solver`] this reader handles.
    fn solver(&self) -> (out: Solver)
        ensures
            out == self.handles(),
    ;

    /// Whether the text looks like a log that this reader handles.
    fn sniff(&self, text: &str) -> (out: bool)
        ensures
            out == self.recognizes(text@),
    ;

    /// Reads a log.
    fn parse(&self, text: &str) -> (out: Result<SolverLog, ParseError>)
        ensures
            read_as(out, self.recognizes(text@), self.handles(), self.reading(text@)),
    ;
}

/// Which texts look like a log of a solver.
pub open spec fn recognizes(solver: Solver, text: Seq<char>) -> bool {
    match solver {
        Solver::Gurobi => solvers::gurobi::looks_right(text),
        Solver::Xpress => solvers::xpress::looks_right(text),
        Solver::Scip => solvers::scip::looks_right(text),
        Solver::Highs => solvers::highs::looks_right(text),
        Solver::Cplex => solvers::cplex::looks_right(text),
        Solver::Cbc => solvers::cbc::looks_right(text),
        Solver::Copt => solvers::copt::looks_right(text),
        Solver::Optverse => solvers::optverse::looks_right(text),
        Solver::Mosek => solvers::mosek::looks_right(text),
    }
}

/// What is found in a log of a solver.
pub open spec fn reading(solver: Solver, text: Seq<char>) -> LogView {
    match solver {
        Solver::Gurobi => solvers::gurobi::log_in(text),
        Solver::Xpress => solvers::xpress::log_in(text),
        Solver::Scip => solvers::scip::log_in(text),
        Solver::Highs => solvers::highs::log_in(text),
        Solver::Cplex => solvers::cplex::log_in(text),
        Solver::Cbc => solvers::cbc::log_in(text),
        Solver::Copt => solvers::copt::log_in(text),
        Solver::Optverse => solvers::optverse::log_in(text),
        Solver::Mosek => solvers::mosek::log_in(text),
    }
}

/// Reads a log of a given solver. A blank text is empty; any other is read,
/// if it looks like a log of the solver.
pub fn parse(text: &str, solver: Solver) -> (out: Result<SolverLog, ParseError>)
    ensures
        chars::blank(text@) ==> out == Err::<SolverLog, ParseError>(ParseError::Empty),
        !chars::blank(text@) ==> read_as(
            out,
            recognizes(solver, text@),
            solver,
            reading(solver, text@),
        ),
{
    let all = chars::chars_of(text);
    if chars::is_blank(all.as_slice()) {
        return Err(ParseError::Empty);
    }
    match solver {
        Solver::Gurobi => solvers::gurobi::GurobiParser.parse(text),
        Solver::Xpress => solvers::xpress::XpressParser.parse(text),
        Solver::Scip => solvers::scip::ScipParser.parse(text),
        Solver::Highs => solvers::highs::HighsParser.parse(text),
        Solver::Cplex => solvers::cplex::CplexParser.parse(text),
        Solver::Cbc => solvers::cbc::CbcParser.parse(text),
        Solver::Copt => solvers::copt::CoptParser.parse(text),
        Solver::Optverse => solvers::optverse::OptverseParser.parse(text),
        Solver::Mosek => solvers::mosek::MosekParser.parse(text),
    }
}

/// The order in which the solvers are tried.
pub open spec fn trial_order() -> Seq<Solver> {
    seq![
        Solver::Gurobi,
        Solver::Xpress,
        Solver::Scip,
        Solver::Highs,
        Solver::Cplex,
        Solver::Cbc,
        Solver::Copt,
        Solver::Optverse,
        Solver::Mosek,
    ]
}

/// The first of the solvers whose log the text looks like.
pub open spec fn first_match(order: Seq<Solver>, text: Seq<char>) -> Option<Solver>
    decreases order.len(),
{
    if order.len() == 0 {
        None
    } else if recognizes(order[0], text) {
        Some(order[0])
    } else {
        first_match(order.skip(1), text)
    }
}

/// The solver whose log a text is taken for.
pub open spec fn detected(text: Seq<char>) -> Option<Solver> {
    first_match(trial_order(), text)
}

/// The first solver that matches does match, and none before it does; where
/// none matches, there is none in the whole order.
proof fn lemma_first_match(order: Seq<Solver>, text: Seq<char>)
    ensures
        first_match(order, text) matches Some(s) ==> exists|i: int|
            {
                &&& 0 <= i < order.len()
                &&& order[i] == s
                &&& recognizes(s, text)
                &&& forall|j: int| 0 <= j < i ==> !recognizes(#[trigger] order[j], text)
            },
        first_match(order, text) is None <==> forall|j: int|
            0 <= j < order.len() ==> !recognizes(#[trigger] order[j], text),
    decreases order.len(),
{
    if order.len() > 0 {
        lemma_first_match(order.skip(1), text);
        if recognizes(order[0], text) {
            assert(order[0] == first_match(order, text)->Some_0);
        } else {
            let rest = order.skip(1);
            assert(forall|j: int| 0 < j < order.len() ==> order[j] == rest[j - 1]);
            if let Some(s) = first_match(rest, text) {
                let i = choose|i: int|
                    {
                        &&& 0 <= i < rest.len()
                        &&& rest[i] == s
                        &&& recognizes(s, text)
                        &&& forall|j: int| 0 <= j < i ==> !recognizes(#[trigger] rest[j], text)
                    };
                assert(order[i + 1] == s);
                assert forall|j: int| 0 <= j < i + 1 implies !recognizes(
                    #[trigger] order[j],
                    text,
                ) by {
                    if j > 0 {
                        assert(order[j] == rest[j - 1]);
                    }
                }
            } else {
                assert forall|j: int| 0 <= j < order.len() implies !recognizes(
                    #[trigger] order[j],
                    text,
                ) by {
                    if j > 0 {
                        assert(order[j] == rest[j - 1]);
                    }
                }
            }
            if forall|j: int| 0 <= j < order.len() ==> !recognizes(#[trigger] order[j], text) {
                assert forall|j: int| 0 <= j < rest.len() implies !recognizes(
                    #[trigger] rest[j],
                    text,
                ) by {
                    assert(rest[j] == order[j + 1]);
                }
            }
        }
    }
}

/// The detected solver is one whose log the text looks like; and if the text
/// looks like a log of any solver, one is detected.
pub proof fn law_detection(text: Seq<char>)
    ensures
        detected(text) matches Some(s) ==> recognizes(s, text),
        detected(text) is None ==> forall|s: Solver| !recognizes(s, text),
{
    lemma_first_match(trial_order(), text);
    let order = trial_order();
    if detected(text) is None {
        assert forall|s: Solver| !recognizes(s, text) by {
            let i: int = match s {
                Solver::Gurobi => 0,
                Solver::Xpress => 1,
                Solver::Scip => 2,
                Solver::Highs => 3,
                Solver::Cplex => 4,
                Solver::Cbc => 5,
                Solver::Copt => 6,
                Solver::Optverse => 7,
                Solver::Mosek => 8,
            };
            assert(order[i] == s);
        }
    }
}

/// A log says of which solver it is: the one it was read as.
pub proof fn law_log_names_solver(solver: Solver, text: Seq<char>)
    ensures
        reading(solver, text).solver == solver,
{
    solvers::gurobi::lemma_solver(text);
    solvers::xpress::lemma_solver(text);
    solvers::scip::lemma_solver(text);
    solvers::highs::lemma_solver(text);
    solvers::cplex::lemma_solver(text);
    solvers::cbc::lemma_solver(text);
    solvers::copt::lemma_solver(text);
    solvers::optverse::lemma_solver(text);
    solvers::mosek::lemma_solver(text);
}

/// Each name of the other data of a log starts with the key of the solver and
/// a dot, and none occurs twice.
pub proof fn law_other_names(solver: Solver, text: Seq<char>)
    ensures
        solvers::progress::are_named(reading(solver, text).other_data, schema::key_of(solver)),
{
    match solver {
        Solver::Gurobi => solvers::gurobi::lemma_other_names(text),
        Solver::Xpress => solvers::xpress::lemma_other_names(text),
        Solver::Scip => solvers::scip::lemma_other_names(text),
        Solver::Highs => solvers::highs::lemma_other_names(text),
        Solver::Cplex => solvers::cplex::lemma_other_names(text),
        Solver::Cbc => solvers::cbc::lemma_other_names(text),
        Solver::Copt => solvers::copt::lemma_other_names(text),
        Solver::Optverse => solvers::optverse::lemma_other_names(text),
        Solver::Mosek => solvers::mosek::lemma_other_names(text),
    }
}

/// No cut family of a log has a count of zero.
pub proof fn law_cut_counts_are_positive(solver: Solver, text: Seq<char>)
    ensures
        table::counts_positive(reading(solver, text).cuts),
{
    match solver {
        Solver::Gurobi => solvers::gurobi::lemma_cuts(text),
        Solver::Xpress => solvers::xpress::lemma_cuts(text),
        Solver::Scip => solvers::scip::lemma_cuts(text),
        Solver::Highs => solvers::highs::lemma_cuts(text),
        Solver::Cplex => solvers::cplex::lemma_cuts(text),
        Solver::Cbc => solvers::cbc::lemma_cuts(text),
        Solver::Copt => solvers::copt::lemma_cuts(text),
        Solver::Optverse => solvers::optverse::lemma_cuts(text),
        Solver::Mosek => solvers::mosek::lemma_cuts(text),
    }
}

/// Tries each solver in turn.
fn detect(text: &str) -> (out: Option<Solver>)
    ensures
        out == detected(text@),
{
    proof {
        reveal_with_fuel(first_match, 10);
        let o = trial_order();
        assert(o.skip(1).skip(1) =~= o.skip(2));
        assert(o.skip(2).skip(1) =~= o.skip(3));
        assert(o.skip(3).skip(1) =~= o.skip(4));
        assert(o.skip(4).skip(1) =~= o.skip(5));
        assert(o.skip(5).skip(1) =~= o.skip(6));
        assert(o.skip(6).skip(1) =~= o.skip(7));
        assert(o.skip(7).skip(1) =~= o.skip(8));
        assert(o.skip(8).skip(1) =~= Seq::empty());
    }
    if solvers::gurobi::GurobiParser.sniff(text) {
        Some(Solver::Gurobi)
    } else if solvers::xpress::XpressParser.sniff(text) {
        Some(Solver::Xpress)
    } else if solvers::scip::ScipParser.sniff(text) {
        Some(Solver::Scip)
    } else if solvers::highs::HighsParser.sniff(text) {
        Some(Solver::Highs)
    } else if solvers::cplex::CplexParser.sniff(text) {
        Some(Solver::Cplex)
    } else if solvers::cbc::CbcParser.sniff(text) {
        Some(Solver::Cbc)
    } else if solvers::copt::CoptParser.sniff(text) {
        Some(Solver::Copt)
    } else if solvers::optverse::OptverseParser.sniff(text) {
        Some(Solver::Optverse)
    } else if solvers::mosek::MosekParser.sniff(text) {
        Some(Solver::Mosek)
    } else {
        None
    }
}

/// Reads a log with the first reader that recognizes it.
pub fn autodetect(text: &str) -> (out: Result<SolverLog, ParseError>)
    ensures
        chars::blank(text@) ==> out == Err::<SolverLog, ParseError>(ParseError::Empty),
        !chars::blank(text@) ==> match detected(text@) {
            Some(s) => out is Ok && read_as(out, true, s, reading(s, text@)),
            None => out matches Err(e) && (e matches ParseError::Other(why) && why@
                == "no parser recognized the log"@),
        },
{
    let all = chars::chars_of(text);
    if chars::is_blank(all.as_slice()) {
        return Err(ParseError::Empty);
    }
    match detect(text) {
        Some(s) => {
            proof {
                law_detection(text@);
            }
            parse(text, s)
        },
        None => Err(ParseError::Other("no parser recognized the log".to_string())),
    }
}

} // verus!
