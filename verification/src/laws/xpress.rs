//! What a Xpress log says, and where.

use crate::chars;
use crate::json::Json;
use crate::json;
use crate::laws::layout;
use crate::matching::Margin;
use crate::matching;
use crate::numbers;
use crate::quantity::Unit;
use crate::schema::{EventView, RowView, Status};
use crate::solvers::progress::{Open, ScanView};
use crate::solvers::progress;
use crate::solvers::xpress;
use vstd::prelude::*;

verus! {

/// What an Xpress log is known by.
pub proof fn law_recognized(text: Seq<char>)
    ensures
        xpress::looks_right(text) <==> chars::contains(text, "FICO Xpress"@),
{
}

/// The words of an Xpress log tell why the run stopped. An infeasible model
/// comes before a completed search, and that before the reason for stopping.
pub proof fn law_words_tell_the_end(text: Seq<char>)
    ensures
        ({
            let log = xpress::log_in(text);
            let stopping = r"STOPPING - (\S+)"@;
            let t = log.termination;
            let infeasible = chars::contains(text, "Problem is integer infeasible"@)
                || chars::contains(text, "Problem is infeasible"@)
                || chars::contains(text, "The problem is infeasible"@);
            let lp = !chars::contains(text, "MILP"@) && !chars::contains(text, "Final MIP"@)
                && !chars::contains(text, "Starting root cutting"@)
                && (
                    chars::contains(text, "Dual solved problem"@)
                        || chars::contains(text, "Optimal solution found"@)
                );
            let done = chars::contains(text, "*** Search completed ***"@) || lp;
            let stop = layout::said(stopping, text, 1);
            let time = stop matches Some(r) && chars::contains(r, "MAXTIME"@);
            &&& t.status == Status::Infeasible <==> infeasible
            &&& t.status == Status::Optimal <==> !infeasible && done
            &&& t.status == Status::TimeLimit
                <==> !infeasible && !done
                    && (
                        time
                            || (stop is None && chars::contains(text, "*** Search unfinished ***"@))
                    )
            &&& t.status == Status::OtherLimit <==> !infeasible && !done && stop is Some && !time
            &&& t.status == Status::Unknown
                <==> !infeasible && !done && stop is None
                    && !chars::contains(text, "*** Search unfinished ***"@)
            &&& infeasible || done ==> t.raw_reason is None
            &&& !infeasible && !done && stop is Some ==> t.raw_reason == stop
            &&& t.status == Status::TimeLimit && stop is None
                ==> t.raw_reason == Some("Search unfinished"@)
        }),
{
    reveal(xpress::log_in);
    layout::lemma_commas();
}

/// The times are those written behind their words.
pub proof fn law_times(text: Seq<char>)
    ensures
        ({
            let log = xpress::log_in(text);
            let solution_time = r"Solution time\s*/.*?:\s*([\d.]+)s"@;
            let lp_summary = r"(\d+) simplex iterations? in ([\d.]+) seconds"@;
            let presolve_time = r"Presolve finished in (\d+) seconds"@;
            &&& log.timing.wall_seconds
                == (
                    if layout::number(layout::said(solution_time, text, 1), Unit::One) is Some {
                        layout::number(layout::said(solution_time, text, 1), Unit::One)
                    } else {
                        layout::number(layout::said(lp_summary, text, 2), Unit::One)
                    }
                )
            &&& log.timing.presolve_seconds
                == layout::number(layout::said(presolve_time, text, 1), Unit::One)
            &&& log.timing.cpu_seconds is None
            &&& log.timing.reading_seconds is None
            &&& log.timing.root_relaxation_seconds is None
        }),
{
    reveal(xpress::log_in);
    layout::lemma_commas();
}

/// The final objective is the primal bound and the final bound the dual one;
/// the integral is in percent.
pub proof fn law_bounds(text: Seq<char>)
    ensures
        ({
            let log = xpress::log_in(text);
            let final_objective = r"Final MIP objective\s*:\s*([\d.eE+\-]+)"@;
            let final_bound = r"Final MIP bound\s*:\s*([\d.eE+\-]+)"@;
            let lp_objective = r"(?m)^Final objective\s*:\s*([\d.eE+\-]+)"@;
            let root_objective = r"(?ms)Final objective\s*:\s*([\d.eE+\-]+)"@;
            let first_solution = r"\*\*\* Solution found:\s+([\d.eE+\-]+)\s+Time:\s+([\d.]+)"@;
            let integral = r"Solution time\s*/\s*primaldual integral\s*:\s*[\d.]+s/\s*([\d.]+)%"@;
            &&& layout::number(layout::said(final_objective, text, 1), Unit::One) is Some
                ==> log.bounds.primal
                    == layout::number(layout::said(final_objective, text, 1), Unit::One)
                    && log.bounds.dual
                        == layout::number(layout::said(final_bound, text, 1), Unit::One)
            &&& layout::number(layout::said(final_bound, text, 1), Unit::One) is Some
                ==> log.bounds.dual == layout::number(layout::said(final_bound, text, 1), Unit::One)
            &&& layout::number(layout::said(final_objective, text, 1), Unit::One) is None
                ==> log.bounds.primal
                    == layout::number(layout::said(lp_objective, text, 1), Unit::One)
            &&& layout::number(layout::said(final_objective, text, 1), Unit::One) is None
                && layout::number(layout::said(final_bound, text, 1), Unit::One) is None
                ==> log.bounds.dual
                    == layout::number(layout::said(lp_objective, text, 1), Unit::One)
            &&& layout::number(layout::said(final_objective, text, 1), Unit::One) is Some
                || layout::number(layout::said(final_bound, text, 1), Unit::One) is Some
                ==> log.bounds.gap is None
            &&& log.bounds.root_dual == layout::number(layout::said(root_objective, text, 1), Unit::One)
            &&& log.bounds.first_primal
                == layout::number(layout::said(first_solution, text, 1), Unit::One)
            &&& log.bounds.first_primal_time_seconds
                == layout::number(layout::said(first_solution, text, 2), Unit::One)
            &&& log.bounds.primal_dual_integral
                == layout::number(layout::said(integral, text, 1), Unit::Percent)
        }),
{
    reveal(xpress::log_in);
    layout::lemma_commas();
}

/// The counts of the search are those beside their words.
pub proof fn law_counts(text: Seq<char>)
    ensures
        ({
            let log = xpress::log_in(text);
            let solutions_nodes = r"Number of solutions found\s*/\s*nodes\s*:\s*(\d+)\s*/\s*(\d+)"@;
            let solution_time = r"Solution time\s*/.*?:\s*([\d.]+)s"@;
            let lp_summary = r"(\d+) simplex iterations? in ([\d.]+) seconds"@;
            &&& log.tree.solutions_found == layout::digits(layout::said(solutions_nodes, text, 1))
            &&& log.tree.nodes_explored == layout::digits(layout::said(solutions_nodes, text, 2))
            &&& log.tree.simplex_iterations
                == (
                    if layout::number(layout::said(solution_time, text, 1), Unit::One) is None {
                        layout::digits(layout::said(lp_summary, text, 1))
                    } else {
                        None
                    }
                )
            &&& log.tree.restarts is None
        }),
{
    reveal(xpress::log_in);
    layout::lemma_commas();
}

/// The sizes of the model are the numbers before `rows`, `cols` and
/// `elements`.
pub proof fn law_sizes(text: Seq<char>)
    ensures
        ({
            let log = xpress::log_in(text);
            let statistics = r"(?ms)Problem Statistics\s*\n\s*(\d+)\s+.*?rows\s*\n\s*(\d+)\s+.*?structural columns\s*\n\s*(\d+)\s+.*?non-zero elements"@;
            let original = r"(?ms)Original problem has:\s*(\d+)\s+rows?\s+(\d+)\s+cols?\s+(\d+)\s+elements"@;
            let presolved = r"Presolved problem has:\s+(\d+)\s+rows\s+(\d+)\s+cols\s+(\d+)\s+elements"@;
            &&& layout::matches_in(statistics, text)
                ==> log.presolve.rows_before == layout::digits(layout::said(statistics, text, 1))
                    && log.presolve.cols_before == layout::digits(layout::said(statistics, text, 2))
                    && log.presolve.nonzeros_before
                        == layout::digits(layout::said(statistics, text, 3))
            &&& !layout::matches_in(statistics, text)
                ==> log.presolve.rows_before == layout::digits(layout::said(original, text, 1))
                    && log.presolve.cols_before == layout::digits(layout::said(original, text, 2))
                    && log.presolve.nonzeros_before
                        == layout::digits(layout::said(original, text, 3))
            &&& log.presolve.rows_after == layout::digits(layout::said(presolved, text, 1))
            &&& log.presolve.cols_after == layout::digits(layout::said(presolved, text, 2))
            &&& log.presolve.nonzeros_after == layout::digits(layout::said(presolved, text, 3))
        }),
{
    reveal(xpress::log_in);
    layout::lemma_commas();
}

/// The version and the problem are those that the log names.
pub proof fn law_identity(text: Seq<char>)
    ensures
        ({
            let log = xpress::log_in(text);
            let version = r"FICO Xpress(?:\s+Solver\s+\S+)?\s+v(\d+\.\d+\.\d+)"@;
            let problem = r"Reading Problem\s+(\S+)"@;
            &&& log.version == layout::said(version, text, 1)
            &&& log.problem
                == (
                    match layout::said(problem, text, 1) {
                        Some(p) => Some(chars::trimmed(p)),
                        None => None,
                    }
                )
            &&& log.solver_git_hash is None
        }),
{
    reveal(xpress::log_in);
    layout::lemma_commas();
}

/// The cuts are one total; a total of zero is none.
pub proof fn law_cuts(text: Seq<char>)
    ensures
        ({
            let log = xpress::log_in(text);
            let cuts_total = r"Cuts in the matrix\s*:\s*(\d+)"@;
            &&& layout::digits(layout::said(cuts_total, text, 1)) is Some
                && layout::digits(layout::said(cuts_total, text, 1))->Some_0 > 0
                ==> log.cuts
                    == seq![("total"@, layout::digits(layout::said(cuts_total, text, 1))->Some_0)]
            &&& (
                layout::digits(layout::said(cuts_total, text, 1)) is None
                    || layout::digits(layout::said(cuts_total, text, 1)) == Some(0u64)
            ) ==> log.cuts.len() == 0
        }),
{
    reveal(xpress::log_in);
    layout::lemma_commas();
}

/// Each column of a row of the tree search is read for what its heading says:
/// the best solution is the primal bound and the best bound the dual one.
pub proof fn law_tree_row(
    gaps: Seq<Seq<char>>,
    node: Seq<char>,
    best_soln: Seq<char>,
    best_bound: Seq<char>,
    sols: Seq<char>,
    active: Seq<char>,
    depth: Seq<char>,
    gap: Seq<char>,
    g_inf: Seq<char>,
    time: Seq<char>,
    marker: char,
)
    requires
        layout::are_gaps(gaps, 9),
        layout::are_words(seq![node, best_soln, best_bound, sols, active, depth, gap, g_inf, time]),
        numbers::is_digit(node[0]),
        numbers::u64_of(node) is Some,
        numbers::is_real(time),
        'a' <= marker <= 'z' || 'A' <= marker <= 'Z',
    ensures
        xpress::tree_row_in(
            layout::laid_out(
                gaps,
                seq![node, best_soln, best_bound, sols, active, depth, gap, g_inf, time],
            ),
        ) == Some(
            RowView {
                time_seconds: layout::number_in(time, Unit::One),
                nodes_explored: numbers::u64_of(node),
                primal: progress::cell_of(best_soln),
                dual: progress::cell_of(best_bound),
                gap: progress::gap_of(gap),
                depth: numbers::u32_of(depth),
                lp_iterations: None,
                event: None,
            },
        ),
        xpress::tree_row_in(
            seq![marker]
                + layout::laid_out(
                    gaps,
                    seq![node, best_soln, best_bound, sols, active, depth, gap, g_inf, time],
                ),
        ) == Some(
            RowView {
                time_seconds: layout::number_in(time, Unit::One),
                nodes_explored: numbers::u64_of(node),
                primal: progress::cell_of(best_soln),
                dual: progress::cell_of(best_bound),
                gap: progress::gap_of(gap),
                depth: numbers::u32_of(depth),
                lp_iterations: None,
                event: progress::event_of(marker),
            },
        ),
{
    let words = seq![node, best_soln, best_bound, sols, active, depth, gap, g_inf, time];
    let line = layout::laid_out(gaps, words);
    layout::law_words_are_found(gaps, words);
    layout::lemma_starts(gaps, words);
    assert((seq![marker] + line).skip(1) =~= line);
    assert((seq![marker] + line)[0] == marker);
}

/// Without a solution a row has neither the column of it nor that of the gap.
pub proof fn law_tree_row_without_solution(
    gaps: Seq<Seq<char>>,
    node: Seq<char>,
    best_bound: Seq<char>,
    sols: Seq<char>,
    active: Seq<char>,
    depth: Seq<char>,
    g_inf: Seq<char>,
    time: Seq<char>,
    marker: char,
)
    requires
        layout::are_gaps(gaps, 7),
        layout::are_words(seq![node, best_bound, sols, active, depth, g_inf, time]),
        numbers::is_digit(node[0]),
        numbers::u64_of(node) is Some,
        numbers::is_real(time),
        'a' <= marker <= 'z' || 'A' <= marker <= 'Z',
    ensures
        xpress::tree_row_in(
            layout::laid_out(gaps, seq![node, best_bound, sols, active, depth, g_inf, time]),
        ) == Some(
            RowView {
                time_seconds: layout::number_in(time, Unit::One),
                nodes_explored: numbers::u64_of(node),
                primal: None,
                dual: progress::cell_of(best_bound),
                gap: None,
                depth: numbers::u32_of(depth),
                lp_iterations: None,
                event: None,
            },
        ),
        xpress::tree_row_in(
            seq![marker]
                + layout::laid_out(gaps, seq![node, best_bound, sols, active, depth, g_inf, time]),
        ) == Some(
            RowView {
                time_seconds: layout::number_in(time, Unit::One),
                nodes_explored: numbers::u64_of(node),
                primal: None,
                dual: progress::cell_of(best_bound),
                gap: None,
                depth: numbers::u32_of(depth),
                lp_iterations: None,
                event: progress::event_of(marker),
            },
        ),
{
    let words = seq![node, best_bound, sols, active, depth, g_inf, time];
    let line = layout::laid_out(gaps, words);
    layout::law_words_are_found(gaps, words);
    layout::lemma_starts(gaps, words);
    assert((seq![marker] + line).skip(1) =~= line);
    assert((seq![marker] + line)[0] == marker);
}

/// So is each column of a row of the root cutting.
pub proof fn law_root_row(
    gaps: Seq<Seq<char>>,
    its: Seq<char>,
    kind: Seq<char>,
    best_soln: Seq<char>,
    best_bound: Seq<char>,
    sols: Seq<char>,
    adds: Seq<char>,
    dels: Seq<char>,
    gap: Seq<char>,
    g_inf: Seq<char>,
    time: Seq<char>,
)
    requires
        layout::are_gaps(gaps, 10),
        layout::are_words(
            seq![its, kind, best_soln, best_bound, sols, adds, dels, gap, g_inf, time],
        ),
        its[0] != 'P',
        numbers::is_real(time),
    ensures
        xpress::root_row_in(
            layout::laid_out(
                gaps,
                seq![its, kind, best_soln, best_bound, sols, adds, dels, gap, g_inf, time],
            ),
        ) == Some(
            RowView {
                time_seconds: layout::number_in(time, Unit::One),
                nodes_explored: None,
                primal: progress::cell_of(best_soln),
                dual: progress::cell_of(best_bound),
                gap: progress::gap_of(gap),
                depth: None,
                lp_iterations: numbers::u64_of(its),
                event: None,
            },
        ),
{
    let words = seq![its, kind, best_soln, best_bound, sols, adds, dels, gap, g_inf, time];
    let line = layout::laid_out(gaps, words);
    layout::law_words_are_found(gaps, words);
    layout::lemma_starts(gaps, words);
}

/// A row of the root cutting that starts with `P` reports a solution.
pub proof fn law_root_solution_row(
    gaps: Seq<Seq<char>>,
    marker_word: Seq<char>,
    best_soln: Seq<char>,
    best_bound: Seq<char>,
    sols: Seq<char>,
    gap: Seq<char>,
    g_inf: Seq<char>,
    time: Seq<char>,
)
    requires
        layout::are_gaps(gaps, 7),
        layout::are_words(seq![marker_word, best_soln, best_bound, sols, gap, g_inf, time]),
        gaps[0].len() == 0,
        marker_word[0] == 'P',
        numbers::is_real(time),
    ensures
        xpress::root_row_in(
            layout::laid_out(
                gaps,
                seq![marker_word, best_soln, best_bound, sols, gap, g_inf, time],
            ),
        ) == Some(
            RowView {
                time_seconds: layout::number_in(time, Unit::One),
                nodes_explored: None,
                primal: progress::cell_of(best_soln),
                dual: progress::cell_of(best_bound),
                gap: progress::gap_of(gap),
                depth: None,
                lp_iterations: None,
                event: Some(EventView::BranchSolution),
            },
        ),
{
    let words = seq![marker_word, best_soln, best_bound, sols, gap, g_inf, time];
    let line = layout::laid_out(gaps, words);
    layout::law_words_are_found(gaps, words);
    layout::lemma_starts(gaps, words);
}

/// The rows are the lines below the first header, in their order, up to a
/// line of the summary or a blank one: those of the tree search below its
/// header.
pub proof fn law_tree_table(
    text: Seq<char>,
    before: Seq<Seq<char>>,
    header: Seq<char>,
    body: Seq<Seq<char>>,
    rows: Seq<RowView>,
    after: Seq<Seq<char>>,
)
    requires
        chars::lines(text) == before + (seq![header] + (body + after)),
        forall|i: int| 0 <= i < before.len()
            ==> !(
                (
                    chars::contains((#[trigger] before[i]), "Node"@)
                        && chars::contains(before[i], "BestBound"@)
                        && chars::contains(before[i], "Active"@)
                        && chars::ends_with(chars::back_trimmed(before[i], ""@, true), "Time"@)
                )
                    || (
                        chars::contains(before[i], "Its"@)
                            && chars::contains(before[i], "BestBound"@)
                            && chars::contains(before[i], "Add"@)
                            && chars::contains(before[i], "Del"@)
                    )
            ),
        chars::contains(header, "Node"@),
        chars::contains(header, "BestBound"@),
        chars::contains(header, "Active"@),
        chars::ends_with(chars::back_trimmed(header, ""@, true), "Time"@),
        !(
            chars::contains(header, "Its"@) && chars::contains(header, "BestBound"@)
                && chars::contains(header, "Add"@) && chars::contains(header, "Del"@)
        ),
        body.len() == rows.len(),
        forall|i: int|
            0 <= i < body.len()
                ==> !chars::blank(#[trigger] body[i])
                    && !(
                        chars::starts_with(chars::front_trimmed(body[i], ""@, true), "***"@)
                            || chars::starts_with(
                                chars::front_trimmed(body[i], ""@, true),
                                "Final MIP"@,
                            )
                            || chars::starts_with(
                                chars::front_trimmed(body[i], ""@, true),
                                "Uncrunching"@,
                            )
                            || chars::starts_with(
                                chars::front_trimmed(body[i], ""@, true),
                                "Heap usage"@,
                            )
                            || chars::starts_with(
                                chars::front_trimmed(body[i], ""@, true),
                                "Cuts in the matrix"@,
                            )
                            || chars::starts_with(
                                chars::front_trimmed(body[i], ""@, true),
                                "STOPPING"@,
                            )
                    ) && xpress::tree_row_in(body[i]) == Some(rows[i]),
        after.len() > 0
            ==> (chars::blank(after[0]) && rows.len() > 0)
                || (
                    !chars::blank(after[0])
                        && (
                            chars::starts_with(chars::front_trimmed(after[0], ""@, true), "***"@)
                                || chars::starts_with(
                                    chars::front_trimmed(after[0], ""@, true),
                                    "Final MIP"@,
                                )
                                || chars::starts_with(
                                    chars::front_trimmed(after[0], ""@, true),
                                    "Uncrunching"@,
                                )
                                || chars::starts_with(
                                    chars::front_trimmed(after[0], ""@, true),
                                    "Heap usage"@,
                                )
                                || chars::starts_with(
                                    chars::front_trimmed(after[0], ""@, true),
                                    "Cuts in the matrix"@,
                                )
                                || chars::starts_with(
                                    chars::front_trimmed(after[0], ""@, true),
                                    "STOPPING"@,
                                )
                        )
                ),
    ensures
        xpress::log_in(text).progress == rows,
{
    reveal(xpress::log_in);
    let format = xpress::XpressTable;
    let start = progress::at_start();
    let open = ScanView { open: Open::Tree, ..start };
    let more = body + after;
    layout::lemma_closed(format, before, seq![header] + more);
    assert((seq![header] + more).skip(1) =~= more);
    layout::lemma_rows(format, open, body, rows, after, false);
    assert(rows + Seq::<RowView>::empty() =~= rows);
}

/// Below the header of the root cutting they are those of the root cutting.
pub proof fn law_root_table(
    text: Seq<char>,
    before: Seq<Seq<char>>,
    header: Seq<char>,
    body: Seq<Seq<char>>,
    rows: Seq<RowView>,
    after: Seq<Seq<char>>,
)
    requires
        chars::lines(text) == before + (seq![header] + (body + after)),
        forall|i: int| 0 <= i < before.len()
            ==> !(
                (
                    chars::contains((#[trigger] before[i]), "Node"@)
                        && chars::contains(before[i], "BestBound"@)
                        && chars::contains(before[i], "Active"@)
                        && chars::ends_with(chars::back_trimmed(before[i], ""@, true), "Time"@)
                )
                    || (
                        chars::contains(before[i], "Its"@)
                            && chars::contains(before[i], "BestBound"@)
                            && chars::contains(before[i], "Add"@)
                            && chars::contains(before[i], "Del"@)
                    )
            ),
        chars::contains(header, "Its"@),
        chars::contains(header, "BestBound"@),
        chars::contains(header, "Add"@),
        chars::contains(header, "Del"@),
        body.len() == rows.len(),
        forall|i: int|
            0 <= i < body.len()
                ==> !chars::blank(#[trigger] body[i])
                    && !(
                        chars::starts_with(chars::front_trimmed(body[i], ""@, true), "***"@)
                            || chars::starts_with(
                                chars::front_trimmed(body[i], ""@, true),
                                "Final MIP"@,
                            )
                            || chars::starts_with(
                                chars::front_trimmed(body[i], ""@, true),
                                "Uncrunching"@,
                            )
                            || chars::starts_with(
                                chars::front_trimmed(body[i], ""@, true),
                                "Heap usage"@,
                            )
                            || chars::starts_with(
                                chars::front_trimmed(body[i], ""@, true),
                                "Cuts in the matrix"@,
                            )
                            || chars::starts_with(
                                chars::front_trimmed(body[i], ""@, true),
                                "STOPPING"@,
                            )
                    ) && xpress::root_row_in(body[i]) == Some(rows[i]),
        after.len() > 0
            ==> (chars::blank(after[0]) && rows.len() > 0)
                || (
                    !chars::blank(after[0])
                        && (
                            chars::starts_with(chars::front_trimmed(after[0], ""@, true), "***"@)
                                || chars::starts_with(
                                    chars::front_trimmed(after[0], ""@, true),
                                    "Final MIP"@,
                                )
                                || chars::starts_with(
                                    chars::front_trimmed(after[0], ""@, true),
                                    "Uncrunching"@,
                                )
                                || chars::starts_with(
                                    chars::front_trimmed(after[0], ""@, true),
                                    "Heap usage"@,
                                )
                                || chars::starts_with(
                                    chars::front_trimmed(after[0], ""@, true),
                                    "Cuts in the matrix"@,
                                )
                                || chars::starts_with(
                                    chars::front_trimmed(after[0], ""@, true),
                                    "STOPPING"@,
                                )
                        )
                ),
    ensures
        xpress::log_in(text).progress == rows,
{
    reveal(xpress::log_in);
    let format = xpress::XpressTable;
    let start = progress::at_start();
    let open = ScanView { open: Open::Root, ..start };
    let more = body + after;
    layout::lemma_closed(format, before, seq![header] + more);
    assert((seq![header] + more).skip(1) =~= more);
    layout::lemma_rows(format, open, body, rows, after, false);
    assert(rows + Seq::<RowView>::empty() =~= rows);
}

/// The work and its rate stand under their names.
pub proof fn law_work(text: Seq<char>)
    ensures
        ({
            let others = xpress::log_in(text).other_data;
            let work = matching::regex_captures(
                r"Work\s*/\s*work units per second\s*:\s*([\d.]+)\s*/\s*([\d.]+)"@,
                text,
            );
            &&& layout::field(others, "xpress.work"@, "work"@)
                == (if work is Some { Some(layout::told(layout::part_of(work, 1))) } else { None })
            &&& layout::field(others, "xpress.work"@, "work_units_per_second"@)
                == (if work is Some { Some(layout::told(layout::part_of(work, 2))) } else { None })
        }),
{
    let made = xpress::work_from(matching::regex_captures(xpress::WORK@, text));
    assert(layout::entry(xpress::log_in(text).other_data, "xpress.work"@) == made) by {
        reveal(xpress::log_in);
        layout::lemma_no_fields();
        reveal_strlit("xpress.coefficient_ranges");
        reveal_strlit("xpress.symmetry");
        reveal_strlit("xpress.run_config");
        reveal_strlit("xpress.pre_bb_heuristic_solutions");
        reveal_strlit("xpress.work");
        reveal_strlit("xpress.stopping_reason");
        reveal_strlit("xpress.solution_quality");
        assert("xpress.work"@.len() != "xpress.coefficient_ranges"@.len());
        assert("xpress.work"@.len() != "xpress.symmetry"@.len());
        assert("xpress.work"@.len() != "xpress.run_config"@.len());
        assert("xpress.work"@.len() != "xpress.pre_bb_heuristic_solutions"@.len());
        assert("xpress.work"@.len() != "xpress.stopping_reason"@.len());
        assert("xpress.work"@.len() != "xpress.solution_quality"@.len());
        layout::lemma_other("xpress.coefficient_ranges"@, "xpress.work"@);
        layout::lemma_other("xpress.symmetry"@, "xpress.work"@);
        layout::lemma_other("xpress.run_config"@, "xpress.work"@);
        layout::lemma_other("xpress.pre_bb_heuristic_solutions"@, "xpress.work"@);
        layout::lemma_other("xpress.work"@, "xpress.work"@);
        layout::lemma_other("xpress.stopping_reason"@, "xpress.work"@);
        layout::lemma_other("xpress.solution_quality"@, "xpress.work"@);
    }
    reveal_strlit("work");
    reveal_strlit("work_units_per_second");
    assert("work"@.len() != "work_units_per_second"@.len());
    layout::lemma_put("work"@);
    layout::lemma_put("work_units_per_second"@);
    layout::lemma_no_fields();
}

/// The violations stand under the names of what is violated.
pub proof fn law_solution_quality(text: Seq<char>)
    ensures
        ({
            let others = xpress::log_in(text).other_data;
            let primal_violation = matching::regex_captures(
                r"Max primal violation\s+\(abs/rel\)\s*:\s+([\d.eE+\-]+)"@,
                text,
            );
            let dual_violation = matching::regex_captures(r"Max dual violation\s+\(abs/rel\)\s*:\s+([\d.eE+\-]+)"@, text);
            let integer_violation = matching::regex_captures(
                r"Max integer violation\s+\(abs\s*\)\s*:\s+([\d.eE+\-]+)"@,
                text,
            );
            let complementarity_violation = matching::regex_captures(
                r"Max complementarity viol\.\s+\(abs/rel\)\s*:\s+([\d.eE+\-]+)"@,
                text,
            );
            &&& layout::field(others, "xpress.solution_quality"@, "max_primal_violation"@)
                == (
                    if primal_violation is Some {
                        Some(layout::told(layout::part_of(primal_violation, 1)))
                    } else {
                        None
                    }
                )
            &&& layout::field(others, "xpress.solution_quality"@, "max_dual_violation"@)
                == (
                    if dual_violation is Some {
                        Some(layout::told(layout::part_of(dual_violation, 1)))
                    } else {
                        None
                    }
                )
            &&& layout::field(others, "xpress.solution_quality"@, "max_integer_violation"@)
                == (
                    if integer_violation is Some {
                        Some(layout::told(layout::part_of(integer_violation, 1)))
                    } else {
                        None
                    }
                )
            &&& layout::field(others, "xpress.solution_quality"@, "max_complementarity_violation"@)
                == (
                    if complementarity_violation is Some {
                        Some(layout::told(layout::part_of(complementarity_violation, 1)))
                    } else {
                        None
                    }
                )
        }),
{
    let made = xpress::quality_from(
        matching::regex_captures(xpress::PRIMAL_VIOLATION@, text),
        matching::regex_captures(xpress::DUAL_VIOLATION@, text),
        matching::regex_captures(xpress::INTEGER_VIOLATION@, text),
        matching::regex_captures(xpress::COMPLEMENTARITY_VIOLATION@, text),
    );
    assert(layout::entry(xpress::log_in(text).other_data, "xpress.solution_quality"@) == made) by {
        reveal(xpress::log_in);
        layout::lemma_no_fields();
        reveal_strlit("xpress.coefficient_ranges");
        reveal_strlit("xpress.symmetry");
        reveal_strlit("xpress.run_config");
        reveal_strlit("xpress.pre_bb_heuristic_solutions");
        reveal_strlit("xpress.work");
        reveal_strlit("xpress.stopping_reason");
        reveal_strlit("xpress.solution_quality");
        assert("xpress.solution_quality"@.len() != "xpress.coefficient_ranges"@.len());
        assert("xpress.solution_quality"@.len() != "xpress.symmetry"@.len());
        assert("xpress.solution_quality"@.len() != "xpress.run_config"@.len());
        assert("xpress.solution_quality"@.len() != "xpress.pre_bb_heuristic_solutions"@.len());
        assert("xpress.solution_quality"@.len() != "xpress.work"@.len());
        assert("xpress.solution_quality"@.len() != "xpress.stopping_reason"@.len());
        layout::lemma_other("xpress.coefficient_ranges"@, "xpress.solution_quality"@);
        layout::lemma_other("xpress.symmetry"@, "xpress.solution_quality"@);
        layout::lemma_other("xpress.run_config"@, "xpress.solution_quality"@);
        layout::lemma_other("xpress.pre_bb_heuristic_solutions"@, "xpress.solution_quality"@);
        layout::lemma_other("xpress.work"@, "xpress.solution_quality"@);
        layout::lemma_other("xpress.stopping_reason"@, "xpress.solution_quality"@);
        layout::lemma_other("xpress.solution_quality"@, "xpress.solution_quality"@);
    }
    reveal_strlit("max_primal_violation");
    reveal_strlit("max_dual_violation");
    reveal_strlit("max_integer_violation");
    reveal_strlit("max_complementarity_violation");
    assert("max_primal_violation"@.len() != "max_dual_violation"@.len());
    assert("max_primal_violation"@.len() != "max_integer_violation"@.len());
    assert("max_primal_violation"@.len() != "max_complementarity_violation"@.len());
    assert("max_dual_violation"@.len() != "max_integer_violation"@.len());
    assert("max_dual_violation"@.len() != "max_complementarity_violation"@.len());
    assert("max_integer_violation"@.len() != "max_complementarity_violation"@.len());
    layout::lemma_put("max_primal_violation"@);
    layout::lemma_put("max_dual_violation"@);
    layout::lemma_put("max_integer_violation"@);
    layout::lemma_put("max_complementarity_violation"@);
    layout::lemma_no_fields();
}

/// Each solution of a heuristic has an item, with its value, its time and the
/// heuristic.
pub proof fn law_heuristic_solutions(text: Seq<char>, i: int)
    requires
        0 <= i < matching::regex_captures_iter(
            r"\*\*\* Solution found:\s+([\d.eE+\-]+)\s+Time:\s+([\d.]+)\s+Heuristic:\s+(\S+)\s*\*\*\*"@,
            text,
        ).len(),
    ensures
        ({
            let others = xpress::log_in(text).other_data;
            let found = matching::regex_captures_iter(
                r"\*\*\* Solution found:\s+([\d.eE+\-]+)\s+Time:\s+([\d.]+)\s+Heuristic:\s+(\S+)\s*\*\*\*"@,
                text,
            );
            &&& layout::items(others, "xpress.pre_bb_heuristic_solutions"@) == found.len()
            &&& layout::item_field(others, "xpress.pre_bb_heuristic_solutions"@, i, "value"@)
                == Some(layout::told(layout::part_of(Some(found[i]), 1)))
            &&& layout::item_field(others, "xpress.pre_bb_heuristic_solutions"@, i, "time"@)
                == Some(layout::told(layout::part_of(Some(found[i]), 2)))
            &&& layout::item_field(others, "xpress.pre_bb_heuristic_solutions"@, i, "heuristic"@)
                == Some(Json::Text(layout::part_of(Some(found[i]), 3)))
        }),
{
    let made = json::array_of(xpress::solutions_from(matching::regex_captures_iter(xpress::HEURISTIC@, text)));
    assert(
        layout::entry(xpress::log_in(text).other_data, "xpress.pre_bb_heuristic_solutions"@) == made
    ) by {
        reveal(xpress::log_in);
        layout::lemma_no_fields();
        reveal_strlit("xpress.coefficient_ranges");
        reveal_strlit("xpress.symmetry");
        reveal_strlit("xpress.run_config");
        reveal_strlit("xpress.pre_bb_heuristic_solutions");
        reveal_strlit("xpress.work");
        reveal_strlit("xpress.stopping_reason");
        reveal_strlit("xpress.solution_quality");
        assert("xpress.pre_bb_heuristic_solutions"@.len() != "xpress.coefficient_ranges"@.len());
        assert("xpress.pre_bb_heuristic_solutions"@.len() != "xpress.symmetry"@.len());
        assert("xpress.pre_bb_heuristic_solutions"@.len() != "xpress.run_config"@.len());
        assert("xpress.pre_bb_heuristic_solutions"@.len() != "xpress.work"@.len());
        assert("xpress.pre_bb_heuristic_solutions"@.len() != "xpress.stopping_reason"@.len());
        assert("xpress.pre_bb_heuristic_solutions"@.len() != "xpress.solution_quality"@.len());
        layout::lemma_other("xpress.coefficient_ranges"@, "xpress.pre_bb_heuristic_solutions"@);
        layout::lemma_other("xpress.symmetry"@, "xpress.pre_bb_heuristic_solutions"@);
        layout::lemma_other("xpress.run_config"@, "xpress.pre_bb_heuristic_solutions"@);
        layout::lemma_other(
            "xpress.pre_bb_heuristic_solutions"@,
            "xpress.pre_bb_heuristic_solutions"@,
        );
        layout::lemma_other("xpress.work"@, "xpress.pre_bb_heuristic_solutions"@);
        layout::lemma_other("xpress.stopping_reason"@, "xpress.pre_bb_heuristic_solutions"@);
        layout::lemma_other("xpress.solution_quality"@, "xpress.pre_bb_heuristic_solutions"@);
    }
    reveal_strlit("value");
    reveal_strlit("time");
    reveal_strlit("heuristic");
    assert("value"@.len() != "time"@.len());
    assert("value"@.len() != "heuristic"@.len());
    assert("time"@.len() != "heuristic"@.len());
    layout::lemma_put("value"@);
    layout::lemma_put("time"@);
    layout::lemma_put("heuristic"@);
    layout::lemma_no_fields();
}

/// The threads and the memory of the run stand under their names.
pub proof fn law_run_config(text: Seq<char>)
    ensures
        ({
            let others = xpress::log_in(text).other_data;
            let m = matching::regex_captures(
                r"using up to (\d+) threads? and up to (\d+)(GB|MB|KB) memory"@,
                text,
            );
            &&& m is Some
                ==> layout::field(others, "xpress.run_config"@, "threads"@)
                    == Some(layout::told(layout::part_of(m, 1)))
            &&& m is Some
                ==> layout::field(others, "xpress.run_config"@, "memory_limit"@)
                    == Some(Json::Text(layout::part_of(m, 2) + layout::part_of(m, 3)))
            &&& m is None ==> layout::entry(others, "xpress.run_config"@) is None
        }),
{
    let made = xpress::config_from(matching::regex_captures(xpress::RUN_CONFIG@, text));
    assert(layout::entry(xpress::log_in(text).other_data, "xpress.run_config"@) == made) by {
        reveal(xpress::log_in);
        layout::lemma_no_fields();
        reveal_strlit("xpress.coefficient_ranges");
        reveal_strlit("xpress.symmetry");
        reveal_strlit("xpress.run_config");
        reveal_strlit("xpress.pre_bb_heuristic_solutions");
        reveal_strlit("xpress.work");
        reveal_strlit("xpress.stopping_reason");
        reveal_strlit("xpress.solution_quality");
        assert("xpress.run_config"@.len() != "xpress.coefficient_ranges"@.len());
        assert("xpress.run_config"@.len() != "xpress.symmetry"@.len());
        assert("xpress.run_config"@.len() != "xpress.pre_bb_heuristic_solutions"@.len());
        assert("xpress.run_config"@.len() != "xpress.work"@.len());
        assert("xpress.run_config"@.len() != "xpress.stopping_reason"@.len());
        assert("xpress.run_config"@.len() != "xpress.solution_quality"@.len());
        layout::lemma_other("xpress.coefficient_ranges"@, "xpress.run_config"@);
        layout::lemma_other("xpress.symmetry"@, "xpress.run_config"@);
        layout::lemma_other("xpress.run_config"@, "xpress.run_config"@);
        layout::lemma_other("xpress.pre_bb_heuristic_solutions"@, "xpress.run_config"@);
        layout::lemma_other("xpress.work"@, "xpress.run_config"@);
        layout::lemma_other("xpress.stopping_reason"@, "xpress.run_config"@);
        layout::lemma_other("xpress.solution_quality"@, "xpress.run_config"@);
    }
    reveal_strlit("threads");
    reveal_strlit("memory_limit");
    assert("threads"@.len() != "memory_limit"@.len());
    layout::lemma_put("threads"@);
    layout::lemma_put("memory_limit"@);
    layout::lemma_no_fields();
}

/// The reason for stopping and its detail stand under their names.
pub proof fn law_stopping_reason(text: Seq<char>)
    ensures
        ({
            let others = xpress::log_in(text).other_data;
            let m = matching::regex_captures(r"STOPPING - ([^(\n]+)(?:\(([^)]+)\))?\.?"@, text);
            &&& m is Some
                ==> layout::field(others, "xpress.stopping_reason"@, "reason"@)
                    == Some(Json::Text(chars::trimmed(layout::part_of(m, 1))))
            &&& m is Some
                ==> layout::field(others, "xpress.stopping_reason"@, "detail"@)
                    == (
                        match layout::in_match(m, 2) {
                            Some(d) => Some(Json::Text(d)),
                            None => None,
                        }
                    )
            &&& m is None ==> layout::entry(others, "xpress.stopping_reason"@) is None
        }),
{
    let made = xpress::stopping_from(matching::regex_captures(xpress::STOPPING_DETAIL@, text));
    assert(layout::entry(xpress::log_in(text).other_data, "xpress.stopping_reason"@) == made) by {
        reveal(xpress::log_in);
        layout::lemma_no_fields();
        reveal_strlit("xpress.coefficient_ranges");
        reveal_strlit("xpress.symmetry");
        reveal_strlit("xpress.run_config");
        reveal_strlit("xpress.pre_bb_heuristic_solutions");
        reveal_strlit("xpress.work");
        reveal_strlit("xpress.stopping_reason");
        reveal_strlit("xpress.solution_quality");
        assert("xpress.stopping_reason"@.len() != "xpress.coefficient_ranges"@.len());
        assert("xpress.stopping_reason"@.len() != "xpress.symmetry"@.len());
        assert("xpress.stopping_reason"@.len() != "xpress.run_config"@.len());
        assert("xpress.stopping_reason"@.len() != "xpress.pre_bb_heuristic_solutions"@.len());
        assert("xpress.stopping_reason"@.len() != "xpress.work"@.len());
        assert("xpress.stopping_reason"@.len() != "xpress.solution_quality"@.len());
        layout::lemma_other("xpress.coefficient_ranges"@, "xpress.stopping_reason"@);
        layout::lemma_other("xpress.symmetry"@, "xpress.stopping_reason"@);
        layout::lemma_other("xpress.run_config"@, "xpress.stopping_reason"@);
        layout::lemma_other("xpress.pre_bb_heuristic_solutions"@, "xpress.stopping_reason"@);
        layout::lemma_other("xpress.work"@, "xpress.stopping_reason"@);
        layout::lemma_other("xpress.stopping_reason"@, "xpress.stopping_reason"@);
        layout::lemma_other("xpress.solution_quality"@, "xpress.stopping_reason"@);
    }
    reveal_strlit("reason");
    reveal_strlit("detail");
    assert("reason"@[0] != "detail"@[0]);
    layout::lemma_put("reason"@);
    layout::lemma_put("detail"@);
    layout::lemma_no_fields();
}

/// What the symmetry of the problem is stands under the names of its figures,
/// read from the line of its heading and the three behind it.
pub proof fn law_symmetry(text: Seq<char>)
    requires
        matching::regex_find(r"(?m)^Symmetric problem:"@, text) is Some,
    ensures
        ({
            let others = xpress::log_in(text).other_data;
            let hit = matching::regex_find(r"(?m)^Symmetric problem:"@, text)->Some_0;
            let body = xpress::symmetry_block(hit.0, hit.1);
            &&& layout::field(others, "xpress.symmetry"@, "generators"@)
                == (
                    if layout::matches_in(r"generators:\s+(\d+)"@, body) {
                        Some(
                            layout::told(
                                layout::part_of(
                                    matching::regex_captures(r"generators:\s+(\d+)"@, body),
                                    1,
                                ),
                            ),
                        )
                    } else {
                        None
                    }
                )
            &&& layout::field(others, "xpress.symmetry"@, "support_set"@)
                == (
                    if layout::matches_in(r"support set:\s+(\d+)"@, body) {
                        Some(
                            layout::told(
                                layout::part_of(
                                    matching::regex_captures(r"support set:\s+(\d+)"@, body),
                                    1,
                                ),
                            ),
                        )
                    } else {
                        None
                    }
                )
            &&& layout::field(others, "xpress.symmetry"@, "orbits"@)
                == (
                    if layout::matches_in(r"Number of orbits:\s+(\d+)"@, body) {
                        Some(
                            layout::told(
                                layout::part_of(
                                    matching::regex_captures(r"Number of orbits:\s+(\d+)"@, body),
                                    1,
                                ),
                            ),
                        )
                    } else {
                        None
                    }
                )
            &&& layout::field(others, "xpress.symmetry"@, "largest_orbit"@)
                == (
                    if layout::matches_in(r"largest orbit:\s+(\d+)"@, body) {
                        Some(
                            layout::told(
                                layout::part_of(
                                    matching::regex_captures(r"largest orbit:\s+(\d+)"@, body),
                                    1,
                                ),
                            ),
                        )
                    } else {
                        None
                    }
                )
            &&& layout::field(others, "xpress.symmetry"@, "row_orbits"@)
                == (
                    if layout::matches_in(r"Row orbits:\s+(\d+)"@, body) {
                        Some(
                            layout::told(
                                layout::part_of(
                                    matching::regex_captures(r"Row orbits:\s+(\d+)"@, body),
                                    1,
                                ),
                            ),
                        )
                    } else {
                        None
                    }
                )
            &&& layout::field(others, "xpress.symmetry"@, "row_support"@)
                == (
                    if layout::matches_in(r"row support:\s+(\d+)"@, body) {
                        Some(
                            layout::told(
                                layout::part_of(
                                    matching::regex_captures(r"row support:\s+(\d+)"@, body),
                                    1,
                                ),
                            ),
                        )
                    } else {
                        None
                    }
                )
        }),
{
    let made = xpress::symmetry_in(text);
    assert(layout::entry(xpress::log_in(text).other_data, "xpress.symmetry"@) == made) by {
        reveal(xpress::log_in);
        layout::lemma_no_fields();
        reveal_strlit("xpress.coefficient_ranges");
        reveal_strlit("xpress.symmetry");
        reveal_strlit("xpress.run_config");
        reveal_strlit("xpress.pre_bb_heuristic_solutions");
        reveal_strlit("xpress.work");
        reveal_strlit("xpress.stopping_reason");
        reveal_strlit("xpress.solution_quality");
        assert("xpress.symmetry"@.len() != "xpress.coefficient_ranges"@.len());
        assert("xpress.symmetry"@.len() != "xpress.run_config"@.len());
        assert("xpress.symmetry"@.len() != "xpress.pre_bb_heuristic_solutions"@.len());
        assert("xpress.symmetry"@.len() != "xpress.work"@.len());
        assert("xpress.symmetry"@.len() != "xpress.stopping_reason"@.len());
        assert("xpress.symmetry"@.len() != "xpress.solution_quality"@.len());
        layout::lemma_other("xpress.coefficient_ranges"@, "xpress.symmetry"@);
        layout::lemma_other("xpress.symmetry"@, "xpress.symmetry"@);
        layout::lemma_other("xpress.run_config"@, "xpress.symmetry"@);
        layout::lemma_other("xpress.pre_bb_heuristic_solutions"@, "xpress.symmetry"@);
        layout::lemma_other("xpress.work"@, "xpress.symmetry"@);
        layout::lemma_other("xpress.stopping_reason"@, "xpress.symmetry"@);
        layout::lemma_other("xpress.solution_quality"@, "xpress.symmetry"@);
    }
    reveal_strlit("generators");
    reveal_strlit("support_set");
    reveal_strlit("orbits");
    reveal_strlit("largest_orbit");
    reveal_strlit("row_orbits");
    reveal_strlit("row_support");
    assert("generators"@.len() != "support_set"@.len());
    assert("generators"@.len() != "orbits"@.len());
    assert("generators"@.len() != "largest_orbit"@.len());
    assert("generators"@[0] != "row_orbits"@[0]);
    assert("generators"@.len() != "row_support"@.len());
    assert("support_set"@.len() != "orbits"@.len());
    assert("support_set"@.len() != "largest_orbit"@.len());
    assert("support_set"@.len() != "row_orbits"@.len());
    assert("support_set"@[0] != "row_support"@[0]);
    assert("orbits"@.len() != "largest_orbit"@.len());
    assert("orbits"@.len() != "row_orbits"@.len());
    assert("orbits"@.len() != "row_support"@.len());
    assert("largest_orbit"@.len() != "row_orbits"@.len());
    assert("largest_orbit"@.len() != "row_support"@.len());
    assert("row_orbits"@.len() != "row_support"@.len());
    layout::lemma_put("generators"@);
    layout::lemma_put("support_set"@);
    layout::lemma_put("orbits"@);
    layout::lemma_put("largest_orbit"@);
    layout::lemma_put("row_orbits"@);
    layout::lemma_put("row_support"@);
    layout::lemma_no_fields();
}

/// What the rest of the other data is read from.
pub proof fn law_sources_of_the_other_data(text: Seq<char>)
    ensures
        layout::entry(xpress::log_in(text).other_data, "xpress.coefficient_ranges"@)
            == json::object_of(
                xpress::ranges_from(
                    matching::block_rows(
                        r"(?m)^Coefficient range\s"@,
                        r"^\s+(Coefficients|RHS and bounds|Objective)\s+\[min,max\]\s*:\s*\[\s*([^\],]+?),\s*([^\]]+?)\]\s*/\s*\[\s*([^\],]+?),\s*([^\]]+?)\]"@,
                        6,
                        true,
                        Margin::Free,
                        text,
                    ),
                ),
            ),
{
    assert(
        layout::entry(xpress::log_in(text).other_data, "xpress.coefficient_ranges"@)
            == json::object_of(
                xpress::ranges_from(
                    matching::block_rows(
                        xpress::RANGES_HEADER@,
                        xpress::RANGES_ROW@,
                        6,
                        true,
                        Margin::Free,
                        text,
                    ),
                ),
            )
    ) by {
        reveal(xpress::log_in);
        layout::lemma_no_fields();
        reveal_strlit("xpress.coefficient_ranges");
        reveal_strlit("xpress.symmetry");
        reveal_strlit("xpress.run_config");
        reveal_strlit("xpress.pre_bb_heuristic_solutions");
        reveal_strlit("xpress.work");
        reveal_strlit("xpress.stopping_reason");
        reveal_strlit("xpress.solution_quality");
        assert("xpress.coefficient_ranges"@.len() != "xpress.symmetry"@.len());
        assert("xpress.coefficient_ranges"@.len() != "xpress.run_config"@.len());
        assert("xpress.coefficient_ranges"@.len() != "xpress.pre_bb_heuristic_solutions"@.len());
        assert("xpress.coefficient_ranges"@.len() != "xpress.work"@.len());
        assert("xpress.coefficient_ranges"@.len() != "xpress.stopping_reason"@.len());
        assert("xpress.coefficient_ranges"@.len() != "xpress.solution_quality"@.len());
        layout::lemma_other("xpress.coefficient_ranges"@, "xpress.coefficient_ranges"@);
        layout::lemma_other("xpress.symmetry"@, "xpress.coefficient_ranges"@);
        layout::lemma_other("xpress.run_config"@, "xpress.coefficient_ranges"@);
        layout::lemma_other("xpress.pre_bb_heuristic_solutions"@, "xpress.coefficient_ranges"@);
        layout::lemma_other("xpress.work"@, "xpress.coefficient_ranges"@);
        layout::lemma_other("xpress.stopping_reason"@, "xpress.coefficient_ranges"@);
        layout::lemma_other("xpress.solution_quality"@, "xpress.coefficient_ranges"@);
    }
}

/// The depth of the search is that of its deepest row.
pub proof fn law_depth(text: Seq<char>)
    ensures
        xpress::log_in(text).tree.max_depth == progress::deepest(xpress::log_in(text).progress),
{
    reveal(xpress::log_in);
}

/// The gap of a solved LP is zero, where its optimum is both bounds; no other
/// run has one.
pub proof fn law_gap(text: Seq<char>)
    ensures
        ({
            let lp = !chars::contains(text, "MILP"@) && !chars::contains(text, "Final MIP"@)
                && !chars::contains(text, "Starting root cutting"@)
                && (
                    chars::contains(text, "Dual solved problem"@)
                        || chars::contains(text, "Optimal solution found"@)
                );
            let objective = layout::number(
                layout::said(r"Final MIP objective\s*:\s*([\d.eE+\-]+)"@, text, 1),
                Unit::One,
            );
            let bound = layout::number(
                layout::said(r"Final MIP bound\s*:\s*([\d.eE+\-]+)"@, text, 1),
                Unit::One,
            );
            let optimum = layout::number(
                layout::said(r"(?m)^Final objective\s*:\s*([\d.eE+\-]+)"@, text, 1),
                Unit::One,
            );
            xpress::log_in(text).bounds.gap
                == (
                    if lp && objective is None && bound is None && optimum is Some {
                        Some(layout::number_in("0"@, Unit::One))
                    } else {
                        None
                    }
                )
        }),
{
    reveal(xpress::log_in);
}

} // verus!
