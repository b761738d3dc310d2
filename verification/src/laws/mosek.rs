//! What a Mosek log says, and where.

use crate::chars;
use crate::laws::layout;
use crate::matching::Groups;
use crate::matching;
use crate::quantity::Unit;
use crate::schema::Status;
use crate::solvers::mosek;
use crate::solvers::progress;
use vstd::prelude::*;

verus! {

/// What a Mosek log is known by.
pub proof fn law_recognized(text: Seq<char>)
    ensures
        mosek::looks_right(text)
            <==> chars::contains(text, "MOSEK Version"@) || chars::contains(text, "mosek.com"@),
{
}

/// The sizes, times and counts are those written behind their words.
pub proof fn law_figures(text: Seq<char>)
    ensures
        ({
            let log = mosek::log_in(text);
            let constraints = r"(?m)^\s+Constraints\s+:\s+([\d,]+)"@;
            let variables = r"(?m)^\s+Scalar variables\s+:\s+([\d,]+)"@;
            let optimizer_time = r"(?m)^\s+Optimizer\s+-\s+time:\s*([\d.]+)"@;
            &&& log.presolve.rows_before
                == layout::count(layout::trimmed_text(layout::said(constraints, text, 1)))
            &&& log.presolve.cols_before
                == layout::count(layout::trimmed_text(layout::said(variables, text, 1)))
            &&& log.presolve.nonzeros_before is None
            &&& log.presolve.rows_after is None
            &&& log.presolve.cols_after is None
            &&& log.presolve.nonzeros_after is None
            &&& log.timing.wall_seconds
                == layout::number(
                    layout::trimmed_text(layout::said(optimizer_time, text, 1)),
                    Unit::One,
                )
            &&& log.timing.cpu_seconds is None
            &&& log.timing.presolve_seconds is None
            &&& log.tree.nodes_explored is None
            &&& log.tree.solutions_found is None
            &&& log.progress.len() == 0
            &&& log.cuts.len() == 0
        }),
{
    reveal(mosek::log_in);
    layout::lemma_commas();
}

/// The iterations are those of the interior point and of the simplex
/// together.
pub proof fn law_iterations(text: Seq<char>)
    ensures
        ({
            let log = mosek::log_in(text);
            let interior_iterations = r"Interior-point\s+-\s+iterations\s*:\s*([\d,]+)"@;
            let simplex_iterations = r"Simplex\s+-\s+iterations\s*:\s*([\d,]+)"@;
            let interior = layout::count(layout::trimmed_text(layout::said(interior_iterations, text, 1)));
            let simplex = layout::count(layout::trimmed_text(layout::said(simplex_iterations, text, 1)));
            let n = log.tree.simplex_iterations;
            &&& interior is None && simplex is None ==> n is None
            &&& interior is Some && (simplex is None || simplex == Some(0u64)) ==> n == interior
            &&& interior is None && simplex is Some && simplex->Some_0 > 0 ==> n == simplex
            &&& interior is Some && simplex is Some && simplex->Some_0 > 0
                && interior->Some_0 + simplex->Some_0 <= u64::MAX
                ==> n == Some((interior->Some_0 + simplex->Some_0) as u64)
        }),
{
    reveal(mosek::log_in);
    layout::lemma_commas();
}

/// The version is the one that the log names, and the problem is the name
/// without the ending of a model file.
pub proof fn law_identity(text: Seq<char>)
    ensures
        ({
            let log = mosek::log_in(text);
            let version = r"MOSEK Version\s+(\d+\.\d+\.\d+)"@;
            let name = r"(?m)^\s+Name\s+:\s+(\S+)"@;
            &&& log.version == layout::said(version, text, 1)
            &&& log.problem
                == (
                    match layout::said(name, text, 1) {
                        Some(p) => Some(progress::model_stem(chars::trimmed(p), false)),
                        None => None,
                    }
                )
            &&& log.solver_git_hash is None
        }),
{
    reveal(mosek::log_in);
    layout::lemma_commas();
}

/// The summary that counts, which is the last of the basic solution or else the
/// last of all, tells status and bounds: the primal objective is the primal
/// bound and the dual objective the dual one.
pub proof fn law_summary_tells_all(text: Seq<char>, m: Groups)
    requires
        mosek::best_summary(
            matching::regex_captures_iter(
                r"(Basic|Interior-point) solution summary\n\s+Problem status\s*:\s*\S+\n\s+Solution status\s*:\s*(\S+)\n\s+Primal\.\s+obj:\s*([-\d.eE+]+).*\n\s+Dual\.\s+obj:\s*([-\d.eE+]+)"@,
                text,
            ),
        ) == Some(m),
        layout::in_match(Some(m), 2) is Some,
    ensures
        ({
            let log = mosek::log_in(text);
            let word = layout::in_match(Some(m), 2)->Some_0;
            &&& log.termination.raw_reason == Some(word)
            &&& log.termination.status == Status::Optimal <==> word == "OPTIMAL"@
            &&& log.termination.status == Status::Infeasible
                <==> chars::contains(word, "INFEASIBLE"@) && word != "OPTIMAL"@
                    && word != "UNKNOWN"@ && word != "UNDEFINED"@
            &&& log.termination.status == Status::Optimal
                || log.termination.status == Status::Infeasible
                || log.termination.status == Status::Unknown
            &&& layout::number(layout::in_match(Some(m), 3), Unit::One) is Some
                ==> log.bounds.primal == layout::number(layout::in_match(Some(m), 3), Unit::One)
            &&& layout::number(layout::in_match(Some(m), 4), Unit::One) is Some
                ==> log.bounds.dual == layout::number(layout::in_match(Some(m), 4), Unit::One)
            &&& layout::in_match(Some(m), 3) is Some
                && layout::number(layout::in_match(Some(m), 3), Unit::One) is None
                ==> log.bounds.primal == Some(layout::number_in("0"@, Unit::One))
            &&& layout::in_match(Some(m), 4) is Some
                && layout::number(layout::in_match(Some(m), 4), Unit::One) is None
                ==> log.bounds.dual == Some(layout::number_in("0"@, Unit::One))
            &&& log.bounds.gap is None
        }),
{
    reveal(mosek::log_in);
}

/// Without a summary the return code is the reason, and the status is open.
pub proof fn law_without_a_summary(text: Seq<char>)
    requires
        matching::regex_captures_iter(
            r"(Basic|Interior-point) solution summary\n\s+Problem status\s*:\s*\S+\n\s+Solution status\s*:\s*(\S+)\n\s+Primal\.\s+obj:\s*([-\d.eE+]+).*\n\s+Dual\.\s+obj:\s*([-\d.eE+]+)"@,
            text,
        ).len() == 0,
    ensures
        ({
            let log = mosek::log_in(text);
            let return_code = r"Return code\s+-\s+(\d+)\s+\[(\w+)\]"@;
            &&& log.termination.status == Status::Unknown
            &&& layout::said(return_code, text, 1) is Some && layout::said(return_code, text, 2) is Some
                ==> log.termination.raw_reason
                    == Some(
                        layout::said(return_code, text, 1)->Some_0 + " ["@
                            + layout::said(return_code, text, 2)->Some_0 + "]"@,
                    )
            &&& !layout::matches_in(return_code, text) ==> log.termination.raw_reason is None
            &&& log.bounds.primal is None
            &&& log.bounds.dual is None
        }),
{
    reveal(mosek::log_in);
}

/// Of several summaries the last one of a basic solution counts, and without
/// one the last of all.
pub proof fn law_which_summary_counts(ms: Seq<Groups>, i: int)
    requires
        0 <= i < ms.len(),
        forall|j: int| i < j < ms.len()
            ==> layout::in_match(Some(#[trigger] ms[j]), 1) != Some("Basic"@),
        layout::in_match(Some(ms[i]), 1) == Some("Basic"@),
    ensures
        mosek::best_summary(ms) == Some(ms[i]),
    decreases ms.len(),
{
    reveal_strlit("Basic");
    let front = ms.drop_last();
    if i < front.len() {
        assert forall|j: int| i < j < front.len() implies layout::in_match(
            Some(#[trigger] front[j]),
            1,
        )
            != Some("Basic"@) by {
            assert(front[j] == ms[j]);
        }
        law_which_summary_counts(front, i);
        let last = ms[ms.len() - 1];
        assert(layout::in_match(Some(last), 1) != Some("Basic"@));
        assert("Basic"@.len() == 5);
        assert(!mosek::is_basic(last));
    }
    assert(mosek::is_basic(ms[i]));
}

/// A log of MOSEK says nothing else of the run.
pub proof fn law_what_is_left_open(text: Seq<char>)
    ensures
        ({
            let log = mosek::log_in(text);
            &&& log.timing.reading_seconds is None && log.timing.root_relaxation_seconds is None
            &&& log.bounds.root_dual is None && log.bounds.first_primal is None
            &&& log.bounds.first_primal_time_seconds is None && log.bounds.primal_dual_integral is None
            &&& log.tree.max_depth is None && log.tree.restarts is None
            &&& log.other_data.len() == 0
        }),
{
    reveal(mosek::log_in);
}

} // verus!
