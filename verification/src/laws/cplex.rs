//! What a CPLEX log says, and where.

use crate::chars;
use crate::json::Json;
use crate::json;
use crate::laws::layout;
use crate::laws::tallies;
use crate::matching::Groups;
use crate::matching;
use crate::quantity::RealView;
use crate::quantity::Unit;
use crate::quantity;
use crate::schema::{EventView, RowView, Status, TerminationView};
use crate::schema;
use crate::solvers::cplex;
use crate::solvers::progress::{Open, ScanView};
use crate::solvers::progress;
use crate::table;
use vstd::prelude::*;

verus! {

/// The first words of the lines that come behind the table: the cuts, and what
/// the log says of the search as a whole.
pub open spec fn ends_the_table(line: Seq<char>) -> bool {
    let s = chars::trimmed(line);
    ||| chars::starts_with(s, "Clique"@)
    ||| chars::starts_with(s, "Cover"@)
    ||| chars::starts_with(s, "Implied"@)
    ||| chars::starts_with(s, "Flow"@)
    ||| chars::starts_with(s, "Mixed"@)
    ||| chars::starts_with(s, "Zero-half"@)
    ||| chars::starts_with(s, "Gomory"@)
    ||| chars::starts_with(s, "Lift"@)
    ||| chars::starts_with(s, "GUB"@)
    ||| chars::contains(line, "cuts applied"@)
    ||| chars::starts_with(s, "Root node"@)
    ||| chars::starts_with(s, "MIP -"@)
    ||| chars::starts_with(s, "Solution pool"@)
    ||| chars::starts_with(s, "Repeating presolve"@)
}

/// What a CPLEX log is known by.
pub proof fn law_recognized(text: Seq<char>)
    ensures
        cplex::looks_right(text)
            <==> (chars::contains(text, "CPLEX"@) || chars::contains(text, "CPXPARAM"@))
                && (
                    chars::contains(text, "Interactive Optimizer"@)
                        || chars::contains(text, "CPXPARAM"@) || chars::contains(text, "MIP - "@)
                ),
{
}

/// The times are those written behind their words; the wall time is the first
/// that is known and not zero: that of the solution, the total, the last
/// elapsed time.
pub proof fn law_times(text: Seq<char>)
    ensures
        ({
            let log = cplex::log_in(text);
            let root_time = r"Root relaxation solution time\s*=\s*([\d.]+)\s+sec"@;
            let solution_time = r"Solution time\s*=\s*([\d.]+)\s+sec\.\s+Iterations\s*=\s*([\d,]+)\s+Nodes\s*=\s*([\d,]+)"@;
            let total_time = r"Total\s*\(root\+branch&cut\)\s*=\s*([\d.]+)\s+sec"@;
            let elapsed = r"Elapsed time\s*=\s*([\d.]+)\s+sec"@;
            &&& log.timing.root_relaxation_seconds
                == layout::number(layout::said(root_time, text, 1), Unit::One)
            &&& (
                layout::number(layout::said(solution_time, text, 1), Unit::One) matches Some(t)
                    && !quantity::reads_zero(t)
            )
                ==> log.timing.wall_seconds
                    == layout::number(layout::said(solution_time, text, 1), Unit::One)
            &&& layout::number(layout::said(solution_time, text, 1), Unit::One) is None
                && (
                    layout::number(layout::said(total_time, text, 1), Unit::One) matches Some(t)
                        && !quantity::reads_zero(t)
                )
                ==> log.timing.wall_seconds
                    == layout::number(layout::said(total_time, text, 1), Unit::One)
            &&& layout::number(layout::said(solution_time, text, 1), Unit::One) is None
                && layout::number(layout::said(total_time, text, 1), Unit::One) is None
                && (
                    layout::number(
                        layout::in_match(layout::last_match(elapsed, text), 1),
                        Unit::One,
                    ) matches Some(t) && quantity::reads_positive(t)
                )
                ==> log.timing.wall_seconds
                    == layout::number(
                        layout::in_match(layout::last_match(elapsed, text), 1),
                        Unit::One,
                    )
            &&& log.timing.cpu_seconds is None
            &&& log.timing.reading_seconds is None
        }),
{
    reveal(cplex::log_in);
    layout::lemma_commas();
}

/// The objective is the primal bound, and the first incumbent is the first
/// that was found.
pub proof fn law_bounds(text: Seq<char>)
    ensures
        ({
            let log = cplex::log_in(text);
            let objective = r"MIP - [^:]+:\s+Objective\s*=\s*([-\d.eE+]+)"@;
            let incumbent = r"Found incumbent of value\s+([\d.eE+\-]+)\s+after\s+([\d.]+)\s+sec"@;
            &&& log.bounds.primal == layout::number(layout::said(objective, text, 1), Unit::One)
            &&& log.bounds.first_primal == layout::number(layout::said(incumbent, text, 1), Unit::One)
            &&& log.bounds.first_primal_time_seconds
                == layout::number(layout::said(incumbent, text, 2), Unit::One)
            &&& log.bounds.primal_dual_integral is None
        }),
{
    reveal(cplex::log_in);
    layout::lemma_commas();
}

/// The counts of the search are those behind their words.
pub proof fn law_counts(text: Seq<char>)
    ensures
        ({
            let log = cplex::log_in(text);
            let solution_time = r"Solution time\s*=\s*([\d.]+)\s+sec\.\s+Iterations\s*=\s*([\d,]+)\s+Nodes\s*=\s*([\d,]+)"@;
            let solution_pool = r"Solution pool:\s+(\d+)\s+solutions? saved"@;
            &&& log.tree.simplex_iterations == layout::count(layout::said(solution_time, text, 2))
            &&& log.tree.nodes_explored == layout::count(layout::said(solution_time, text, 3))
            &&& log.tree.solutions_found == layout::digits(layout::said(solution_pool, text, 1))
            &&& log.tree.max_depth is None
            &&& log.tree.restarts is None
        }),
{
    reveal(cplex::log_in);
    layout::lemma_commas();
}

/// The sizes after presolve are the numbers before `rows`, `columns` and
/// `nonzeros` of the last reduced model.
pub proof fn law_sizes(text: Seq<char>)
    ensures
        ({
            let log = cplex::log_in(text);
            let reduced = r"Reduced MIP has\s+([\d,]+)\s+rows,\s+([\d,]+)\s+columns,\s+and\s+([\d,]+)\s+nonzeros"@;
            &&& log.presolve.rows_after
                == layout::count(layout::in_match(layout::last_match(reduced, text), 1))
            &&& log.presolve.cols_after
                == layout::count(layout::in_match(layout::last_match(reduced, text), 2))
            &&& log.presolve.nonzeros_after
                == layout::count(layout::in_match(layout::last_match(reduced, text), 3))
            &&& log.presolve.rows_before is None
            &&& log.presolve.cols_before is None
            &&& log.presolve.nonzeros_before is None
        }),
{
    reveal(cplex::log_in);
    layout::lemma_commas();
}

/// The version is the one that the log names, and the problem is the file
/// without its directories and its ending.
pub proof fn law_identity(text: Seq<char>)
    ensures
        ({
            let log = cplex::log_in(text);
            let version = r"(?:CPLEX[^I]*Interactive Optimizer\s+|Version identifier:\s+)(\d+\.\d+\.\d+(?:\.\d+)?)"@;
            let problem = r"Problem '([^']+)' read\."@;
            &&& log.version == layout::said(version, text, 1)
            &&& log.problem
                == (
                    match layout::said(problem, text, 1) {
                        Some(p) => Some(progress::model_stem(progress::last_piece(p), true)),
                        None => None,
                    }
                )
            &&& log.solver_git_hash is None
        }),
{
    reveal(cplex::log_in);
    layout::lemma_commas();
}

/// Each column of a full row is read for what its heading says: the best
/// integer is the primal bound and the best bound the dual one.
pub proof fn law_full_row(
    gaps: Seq<Seq<char>>,
    node: Seq<char>,
    left: Seq<char>,
    objective: Seq<char>,
    i_inf: Seq<char>,
    best_integer: Seq<char>,
    best_bound: Seq<char>,
    it_cnt: Seq<char>,
    gap: Seq<char>,
    clock: RealView,
)
    requires
        layout::are_gaps(gaps, 8),
        layout::are_words(
            seq![node, left, objective, i_inf, best_integer, best_bound, it_cnt, gap],
        ),
        gaps[0].len() > 0,
        !chars::contains(
            layout::laid_out(
                gaps,
                seq![node, left, objective, i_inf, best_integer, best_bound, it_cnt, gap],
            ),
            "Cuts:"@,
        ),
    ensures
        cplex::row_in(
            layout::laid_out(
                gaps,
                seq![node, left, objective, i_inf, best_integer, best_bound, it_cnt, gap],
            ),
            clock,
        ) == Some(
            RowView {
                time_seconds: clock,
                nodes_explored: cplex::node_of(node),
                primal: progress::cell_of(best_integer),
                dual: progress::cell_of(best_bound),
                gap: progress::gap_of(gap),
                depth: None,
                lp_iterations: layout::count(Some(it_cnt)),
                event: None,
            },
        ),
{
    let words = seq![node, left, objective, i_inf, best_integer, best_bound, it_cnt, gap];
    let line = layout::laid_out(gaps, words);
    layout::law_words_are_found(gaps, words);
    layout::lemma_starts(gaps, words);
    layout::lemma_commas();
    assert(chars::is_space(gaps[0][0]));
}

/// Each column of a full row is read for what its heading says: the best
/// integer is the primal bound and the best bound the dual one. The star
/// before it says that a heuristic found the solution.
pub proof fn law_full_row_marked(
    gaps: Seq<Seq<char>>,
    node: Seq<char>,
    left: Seq<char>,
    objective: Seq<char>,
    i_inf: Seq<char>,
    best_integer: Seq<char>,
    best_bound: Seq<char>,
    it_cnt: Seq<char>,
    gap: Seq<char>,
    clock: RealView,
    marker: char,
)
    requires
        layout::are_gaps(gaps, 8),
        layout::are_words(
            seq![node, left, objective, i_inf, best_integer, best_bound, it_cnt, gap],
        ),
        marker == '*',
        !chars::contains(
            seq![marker]
                + layout::laid_out(
                    gaps,
                    seq![node, left, objective, i_inf, best_integer, best_bound, it_cnt, gap],
                ),
            "Cuts:"@,
        ),
    ensures
        cplex::row_in(
            seq![marker]
                + layout::laid_out(
                    gaps,
                    seq![node, left, objective, i_inf, best_integer, best_bound, it_cnt, gap],
                ),
            clock,
        ) == Some(
            RowView {
                time_seconds: clock,
                nodes_explored: cplex::node_of(node),
                primal: progress::cell_of(best_integer),
                dual: progress::cell_of(best_bound),
                gap: progress::gap_of(gap),
                depth: None,
                lp_iterations: layout::count(Some(it_cnt)),
                event: Some(EventView::Heuristic),
            },
        ),
{
    let words = seq![node, left, objective, i_inf, best_integer, best_bound, it_cnt, gap];
    let line = layout::laid_out(gaps, words);
    layout::law_words_are_found(gaps, words);
    layout::lemma_starts(gaps, words);
    layout::lemma_commas();
    assert((seq![marker] + line).skip(1) =~= line);
    assert((seq![marker] + line)[0] == marker);
}

/// A row without infeasibilities is read the same way.
pub proof fn law_row_of_a_leaf(
    gaps: Seq<Seq<char>>,
    node: Seq<char>,
    left: Seq<char>,
    objective: Seq<char>,
    best_integer: Seq<char>,
    best_bound: Seq<char>,
    it_cnt: Seq<char>,
    gap: Seq<char>,
    clock: RealView,
)
    requires
        layout::are_gaps(gaps, 7),
        layout::are_words(seq![node, left, objective, best_integer, best_bound, it_cnt, gap]),
        gaps[0].len() > 0,
        !chars::contains(
            layout::laid_out(
                gaps,
                seq![node, left, objective, best_integer, best_bound, it_cnt, gap],
            ),
            "Cuts:"@,
        ),
    ensures
        cplex::row_in(
            layout::laid_out(
                gaps,
                seq![node, left, objective, best_integer, best_bound, it_cnt, gap],
            ),
            clock,
        ) == Some(
            RowView {
                time_seconds: clock,
                nodes_explored: cplex::node_of(node),
                primal: progress::cell_of(best_integer),
                dual: progress::cell_of(best_bound),
                gap: progress::gap_of(gap),
                depth: None,
                lp_iterations: layout::count(Some(it_cnt)),
                event: None,
            },
        ),
{
    let words = seq![node, left, objective, best_integer, best_bound, it_cnt, gap];
    let line = layout::laid_out(gaps, words);
    layout::law_words_are_found(gaps, words);
    layout::lemma_starts(gaps, words);
    layout::lemma_commas();
    assert(chars::is_space(gaps[0][0]));
}

/// A row that reports a solution is read the same way. The star before it
/// says that a heuristic found the solution.
pub proof fn law_incumbent_row(
    gaps: Seq<Seq<char>>,
    node: Seq<char>,
    left: Seq<char>,
    best_integer: Seq<char>,
    best_bound: Seq<char>,
    it_cnt: Seq<char>,
    gap: Seq<char>,
    clock: RealView,
    marker: char,
)
    requires
        layout::are_gaps(gaps, 6),
        layout::are_words(seq![node, left, best_integer, best_bound, it_cnt, gap]),
        marker == '*',
        !chars::contains(
            seq![marker]
                + layout::laid_out(gaps, seq![node, left, best_integer, best_bound, it_cnt, gap]),
            "Cuts:"@,
        ),
    ensures
        cplex::row_in(
            seq![marker]
                + layout::laid_out(gaps, seq![node, left, best_integer, best_bound, it_cnt, gap]),
            clock,
        ) == Some(
            RowView {
                time_seconds: clock,
                nodes_explored: cplex::node_of(node),
                primal: progress::cell_of(best_integer),
                dual: progress::cell_of(best_bound),
                gap: progress::gap_of(gap),
                depth: None,
                lp_iterations: layout::count(Some(it_cnt)),
                event: Some(EventView::Heuristic),
            },
        ),
{
    let words = seq![node, left, best_integer, best_bound, it_cnt, gap];
    let line = layout::laid_out(gaps, words);
    layout::law_words_are_found(gaps, words);
    layout::lemma_starts(gaps, words);
    layout::lemma_commas();
    assert((seq![marker] + line).skip(1) =~= line);
    assert((seq![marker] + line)[0] == marker);
}

/// Before there is a solution a row has neither the best integer nor the gap.
pub proof fn law_row_without_solution(
    gaps: Seq<Seq<char>>,
    node: Seq<char>,
    left: Seq<char>,
    objective: Seq<char>,
    i_inf: Seq<char>,
    best_bound: Seq<char>,
    it_cnt: Seq<char>,
    clock: RealView,
)
    requires
        layout::are_gaps(gaps, 6),
        layout::are_words(seq![node, left, objective, i_inf, best_bound, it_cnt]),
        gaps[0].len() > 0,
        !chars::contains(
            layout::laid_out(gaps, seq![node, left, objective, i_inf, best_bound, it_cnt]),
            "Cuts:"@,
        ),
    ensures
        cplex::row_in(
            layout::laid_out(gaps, seq![node, left, objective, i_inf, best_bound, it_cnt]),
            clock,
        ) == Some(
            RowView {
                time_seconds: clock,
                nodes_explored: cplex::node_of(node),
                primal: None,
                dual: progress::cell_of(best_bound),
                gap: None,
                depth: None,
                lp_iterations: layout::count(Some(it_cnt)),
                event: None,
            },
        ),
{
    let words = seq![node, left, objective, i_inf, best_bound, it_cnt];
    let line = layout::laid_out(gaps, words);
    layout::law_words_are_found(gaps, words);
    layout::lemma_starts(gaps, words);
    layout::lemma_commas();
    assert(chars::is_space(gaps[0][0]));
}

/// A row that reports a solution may leave out the iterations. The star
/// before it says that a heuristic found the solution.
pub proof fn law_short_incumbent_row(
    gaps: Seq<Seq<char>>,
    node: Seq<char>,
    left: Seq<char>,
    best_integer: Seq<char>,
    best_bound: Seq<char>,
    gap: Seq<char>,
    clock: RealView,
    marker: char,
)
    requires
        layout::are_gaps(gaps, 5),
        layout::are_words(seq![node, left, best_integer, best_bound, gap]),
        marker == '*',
        !chars::contains(
            seq![marker] + layout::laid_out(gaps, seq![node, left, best_integer, best_bound, gap]),
            "Cuts:"@,
        ),
    ensures
        cplex::row_in(
            seq![marker] + layout::laid_out(gaps, seq![node, left, best_integer, best_bound, gap]),
            clock,
        ) == Some(
            RowView {
                time_seconds: clock,
                nodes_explored: cplex::node_of(node),
                primal: progress::cell_of(best_integer),
                dual: progress::cell_of(best_bound),
                gap: progress::gap_of(gap),
                depth: None,
                lp_iterations: None,
                event: Some(EventView::Heuristic),
            },
        ),
{
    let words = seq![node, left, best_integer, best_bound, gap];
    let line = layout::laid_out(gaps, words);
    layout::law_words_are_found(gaps, words);
    layout::lemma_starts(gaps, words);
    layout::lemma_commas();
    assert((seq![marker] + line).skip(1) =~= line);
    assert((seq![marker] + line)[0] == marker);
}

/// A row before there is a solution may leave out the iterations.
pub proof fn law_short_row(
    gaps: Seq<Seq<char>>,
    node: Seq<char>,
    left: Seq<char>,
    objective: Seq<char>,
    i_inf: Seq<char>,
    best_bound: Seq<char>,
    clock: RealView,
)
    requires
        layout::are_gaps(gaps, 5),
        layout::are_words(seq![node, left, objective, i_inf, best_bound]),
        gaps[0].len() > 0,
        !chars::contains(
            layout::laid_out(gaps, seq![node, left, objective, i_inf, best_bound]),
            "Cuts:"@,
        ),
    ensures
        cplex::row_in(layout::laid_out(gaps, seq![node, left, objective, i_inf, best_bound]), clock)
            == Some(
            RowView {
                time_seconds: clock,
                nodes_explored: cplex::node_of(node),
                primal: None,
                dual: progress::cell_of(best_bound),
                gap: None,
                depth: None,
                lp_iterations: None,
                event: None,
            },
        ),
{
    let words = seq![node, left, objective, i_inf, best_bound];
    let line = layout::laid_out(gaps, words);
    layout::law_words_are_found(gaps, words);
    layout::lemma_starts(gaps, words);
    layout::lemma_commas();
    assert(chars::is_space(gaps[0][0]));
}

/// A row that reports a solution may leave out the gap too. The star before
/// it says that a heuristic found the solution.
pub proof fn law_first_incumbent_row(
    gaps: Seq<Seq<char>>,
    node: Seq<char>,
    left: Seq<char>,
    best_integer: Seq<char>,
    best_bound: Seq<char>,
    clock: RealView,
    marker: char,
)
    requires
        layout::are_gaps(gaps, 4),
        layout::are_words(seq![node, left, best_integer, best_bound]),
        marker == '*',
        !chars::contains(
            seq![marker] + layout::laid_out(gaps, seq![node, left, best_integer, best_bound]),
            "Cuts:"@,
        ),
    ensures
        cplex::row_in(
            seq![marker] + layout::laid_out(gaps, seq![node, left, best_integer, best_bound]),
            clock,
        ) == Some(
            RowView {
                time_seconds: clock,
                nodes_explored: cplex::node_of(node),
                primal: progress::cell_of(best_integer),
                dual: progress::cell_of(best_bound),
                gap: None,
                depth: None,
                lp_iterations: None,
                event: Some(EventView::Heuristic),
            },
        ),
{
    let words = seq![node, left, best_integer, best_bound];
    let line = layout::laid_out(gaps, words);
    layout::law_words_are_found(gaps, words);
    layout::lemma_starts(gaps, words);
    layout::lemma_commas();
    assert((seq![marker] + line).skip(1) =~= line);
    assert((seq![marker] + line)[0] == marker);
}

/// A line that says how the run ended.
pub open spec fn tells_end(line: Seq<char>) -> bool {
    let l = chars::trimmed(line);
    chars::starts_with(l, "MIP - "@) || chars::starts_with(l, "Optimal:"@) || chars::starts_with(
        l,
        "LP status = optimal"@,
    )
}

proof fn lemma_termination_after(
    before: Seq<Seq<char>>,
    more: Seq<Seq<char>>,
    so_far: TerminationView,
)
    requires
        forall|i: int| 0 <= i < before.len() ==> !tells_end(#[trigger] before[i]),
    ensures
        cplex::termination_after(before + more, so_far) == cplex::termination_after(more, so_far),
    decreases before.len(),
{
    if before.len() == 0 {
        assert(before + more =~= more);
    } else {
        let rest = before.skip(1);
        assert(!tells_end(before[0]));
        assert((before + more)[0] == before[0]);
        assert((before + more).skip(1) =~= rest + more);
        assert forall|i: int| 0 <= i < rest.len() implies !tells_end(#[trigger] rest[i]) by {
            assert(rest[i] == before[i + 1]);
        }
        lemma_termination_after(rest, more, so_far);
    }
}

/// The first line that starts with `MIP - ` says how the run ended, in the
/// words behind it: an answer before a limit.
pub proof fn law_mip_line_tells_the_end(
    text: Seq<char>,
    before: Seq<Seq<char>>,
    line: Seq<char>,
    after: Seq<Seq<char>>,
    words: Seq<char>,
)
    requires
        chars::lines(text) == before + seq![line] + after,
        forall|i: int| 0 <= i < before.len() ==> !tells_end(#[trigger] before[i]),
        chars::trimmed(line) == "MIP - "@ + words,
    ensures
        ({
            let t = cplex::log_in(text).termination;
            let optimal = chars::contains(words, "nteger optimal"@);
            let infeasible = chars::contains(words, "infeasible"@) || chars::contains(words, "Infeasible"@);
            let unbounded = chars::contains(words, "unbounded"@) || chars::contains(words, "Unbounded"@);
            let answered = optimal || infeasible || unbounded;
            let time = chars::contains(words, "Time limit"@) || chars::contains(words, "time limit"@);
            let nodes = chars::contains(words, "Node limit"@) || chars::contains(words, "node limit"@);
            &&& t.raw_reason == Some(words)
            &&& t.status == Status::Optimal <==> optimal
            &&& t.status == Status::Infeasible <==> !optimal && infeasible
            &&& t.status == Status::Unbounded <==> !optimal && !infeasible && unbounded
            &&& t.status == Status::TimeLimit <==> !answered && time
            &&& t.status == Status::OtherLimit <==> !answered && !time && nodes
            &&& t.status == Status::Unknown <==> !answered && !time && !nodes
        }),
{
    reveal(cplex::log_in);
    reveal_strlit("MIP - ");
    reveal_strlit("CPLEX>");
    let more = seq![line] + after;
    assert(before + seq![line] + after =~= before + more);
    lemma_termination_after(before, more, schema::no_termination());
    let l = "MIP - "@ + words;
    assert(l.subrange(0, 6) =~= "MIP - "@);
    assert(l.skip(6) =~= words);
    assert(!chars::starts_with(l, "CPLEX>"@)) by {
        if chars::starts_with(l, "CPLEX>"@) {
            assert(l.subrange(0, 6)[0] == "CPLEX>"@[0]);
        }
    }
}

/// Where no other line says how the run ended, one that reports the optimum of
/// an LP does.
pub proof fn law_lp_line_tells_the_end(
    text: Seq<char>,
    before: Seq<Seq<char>>,
    line: Seq<char>,
    after: Seq<Seq<char>>,
)
    requires
        chars::lines(text) == before + seq![line] + after,
        forall|i: int| 0 <= i < before.len() ==> !tells_end(#[trigger] before[i]),
        forall|i: int| 0 <= i < after.len() ==> !tells_end(#[trigger] after[i]),
        chars::starts_with(chars::trimmed(line), "Optimal:"@) || chars::starts_with(
            chars::trimmed(line),
            "LP status = optimal"@,
        ),
    ensures
        cplex::log_in(text).termination.status == Status::Optimal,
        cplex::log_in(text).termination.raw_reason == Some(chars::trimmed(line)),
{
    reveal(cplex::log_in);
    reveal_strlit("MIP - ");
    reveal_strlit("CPLEX>");
    reveal_strlit("Optimal:");
    reveal_strlit("LP status = optimal");
    let more = seq![line] + after;
    let l = chars::trimmed(line);
    assert(before + seq![line] + after =~= before + more);
    lemma_termination_after(before, more, schema::no_termination());
    assert(more.skip(1) =~= after);
    let found = TerminationView { status: Status::Optimal, raw_reason: Some(l) };
    assert(after + Seq::<Seq<char>>::empty() =~= after);
    lemma_termination_after(after, Seq::empty(), found);
    if chars::starts_with(l, "Optimal:"@) {
        assert(l.subrange(0, 8)[0] == "Optimal:"@[0]);
    } else {
        assert(l.subrange(0, 19)[0] == "LP status = optimal"@[0]);
    }
    if chars::starts_with(l, "MIP - "@) {
        assert(l.subrange(0, 6)[0] == "MIP - "@[0]);
    }
    if chars::starts_with(l, "CPLEX>"@) {
        assert(l.subrange(0, 6)[0] == "CPLEX>"@[0]);
    }
}

/// The rows are the lines below the header, in their order, up to the cuts or
/// the report. Their time is zero as long as no line tells the time.
#[verifier::rlimit(60)]
#[verifier::spinoff_prover]
pub proof fn law_table(
    text: Seq<char>,
    before: Seq<Seq<char>>,
    header: Seq<char>,
    body: Seq<Seq<char>>,
    rows: Seq<RowView>,
    after: Seq<Seq<char>>,
)
    requires
        chars::lines(text) == before + (seq![header] + (body + after)),
        forall|i: int| 0 <= i < before.len()
            ==> !(
                chars::contains((#[trigger] before[i]), "Node  Left"@)
                    && chars::contains(before[i], "Best Integer"@)
            ),
        chars::contains(header, "Node  Left"@),
        chars::contains(header, "Best Integer"@),
        body.len() == rows.len(),
        forall|i: int|
            0 <= i < body.len()
                ==> !chars::blank(#[trigger] body[i]) && !chars::contains(body[i], "Elapsed time"@)
                    && !ends_the_table(body[i])
                    && cplex::row_in(body[i], layout::number_in("0"@, Unit::One)) == Some(rows[i]),
        after.len() > 0
            ==> !chars::blank(after[0]) && !chars::contains(after[0], "Elapsed time"@)
                && ends_the_table(after[0]),
    ensures
        cplex::log_in(text).progress == rows,
{
    reveal(cplex::log_in);
    let format = cplex::CplexTable;
    let start = progress::at_start();
    let open = ScanView { open: Open::Tree, ..start };
    let more = body + after;
    layout::lemma_closed(format, before, seq![header] + more);
    assert((seq![header] + more).skip(1) =~= more);
    layout::lemma_rows(format, open, body, rows, after, false);
    assert(rows + Seq::<RowView>::empty() =~= rows);
}

/// How the search was set up stands under the names of its settings.
pub proof fn law_search_config(text: Seq<char>)
    ensures
        ({
            let others = cplex::log_in(text).other_data;
            let emphasis = matching::regex_captures(r"MIP emphasis:\s+(.+?)\."@, text);
            let search_method = matching::regex_captures(r"MIP search method:\s+(.+?)\."@, text);
            let parallel_mode = matching::regex_captures(
                r"Parallel mode:\s+([^,]+),\s+using up to (\d+) threads?"@,
                text,
            );
            &&& layout::field(others, "cplex.search_config"@, "mip_emphasis"@)
                == (
                    if emphasis is Some {
                        Some(Json::Text(chars::trimmed(layout::part_of(emphasis, 1))))
                    } else {
                        None
                    }
                )
            &&& layout::field(others, "cplex.search_config"@, "search_method"@)
                == (
                    if search_method is Some {
                        Some(Json::Text(chars::trimmed(layout::part_of(search_method, 1))))
                    } else {
                        None
                    }
                )
            &&& layout::field(others, "cplex.search_config"@, "parallel_mode"@)
                == (
                    if parallel_mode is Some {
                        Some(Json::Text(chars::trimmed(layout::part_of(parallel_mode, 1))))
                    } else {
                        None
                    }
                )
            &&& layout::field(others, "cplex.search_config"@, "threads"@)
                == (
                    if parallel_mode is Some {
                        Some(layout::told(layout::part_of(parallel_mode, 2)))
                    } else {
                        None
                    }
                )
        }),
{
    let made = cplex::config_from(
        matching::regex_captures(cplex::EMPHASIS@, text),
        matching::regex_captures(cplex::SEARCH_METHOD@, text),
        matching::regex_captures(cplex::PARALLEL_MODE@, text),
    );
    assert(layout::entry(cplex::log_in(text).other_data, "cplex.search_config"@) == made) by {
        reveal(cplex::log_in);
        layout::lemma_no_fields();
        reveal_strlit("cplex.search_config");
        reveal_strlit("cplex.variable_types_after_presolve");
        reveal_strlit("cplex.presolve_details");
        reveal_strlit("cplex.probing");
        reveal_strlit("cplex.clique_table_members");
        reveal_strlit("cplex.incumbents");
        reveal_strlit("cplex.deterministic_ticks");
        reveal_strlit("cplex.timing_breakdown");
        assert("cplex.search_config"@.len() != "cplex.variable_types_after_presolve"@.len());
        assert("cplex.search_config"@.len() != "cplex.presolve_details"@.len());
        assert("cplex.search_config"@.len() != "cplex.probing"@.len());
        assert("cplex.search_config"@.len() != "cplex.clique_table_members"@.len());
        assert("cplex.search_config"@.len() != "cplex.incumbents"@.len());
        assert("cplex.search_config"@.len() != "cplex.deterministic_ticks"@.len());
        assert("cplex.search_config"@.len() != "cplex.timing_breakdown"@.len());
        layout::lemma_other("cplex.search_config"@, "cplex.search_config"@);
        layout::lemma_other("cplex.variable_types_after_presolve"@, "cplex.search_config"@);
        layout::lemma_other("cplex.presolve_details"@, "cplex.search_config"@);
        layout::lemma_other("cplex.probing"@, "cplex.search_config"@);
        layout::lemma_other("cplex.clique_table_members"@, "cplex.search_config"@);
        layout::lemma_other("cplex.incumbents"@, "cplex.search_config"@);
        layout::lemma_other("cplex.deterministic_ticks"@, "cplex.search_config"@);
        layout::lemma_other("cplex.timing_breakdown"@, "cplex.search_config"@);
    }
    reveal_strlit("mip_emphasis");
    reveal_strlit("search_method");
    reveal_strlit("parallel_mode");
    reveal_strlit("threads");
    assert("mip_emphasis"@.len() != "search_method"@.len());
    assert("mip_emphasis"@.len() != "parallel_mode"@.len());
    assert("mip_emphasis"@.len() != "threads"@.len());
    assert("search_method"@[0] != "parallel_mode"@[0]);
    assert("search_method"@.len() != "threads"@.len());
    assert("parallel_mode"@.len() != "threads"@.len());
    layout::lemma_put("mip_emphasis"@);
    layout::lemma_put("search_method"@);
    layout::lemma_put("parallel_mode"@);
    layout::lemma_put("threads"@);
    layout::lemma_no_fields();
}

/// The kinds of variables of the last reduced model stand under their names.
pub proof fn law_variable_types(text: Seq<char>)
    ensures
        ({
            let others = cplex::log_in(text).other_data;
            let breakdown = layout::last_match(
                r"Reduced MIP has (\d+) binaries,\s+(\d+) generals,\s+(\d+) SOSs,\s+and\s+(\d+) indicators"@,
                text,
            );
            &&& layout::field(others, "cplex.variable_types_after_presolve"@, "binaries"@)
                == (
                    if breakdown is Some {
                        Some(layout::told(layout::part_of(breakdown, 1)))
                    } else {
                        None
                    }
                )
            &&& layout::field(others, "cplex.variable_types_after_presolve"@, "generals"@)
                == (
                    if breakdown is Some {
                        Some(layout::told(layout::part_of(breakdown, 2)))
                    } else {
                        None
                    }
                )
            &&& layout::field(others, "cplex.variable_types_after_presolve"@, "sos"@)
                == (
                    if breakdown is Some {
                        Some(layout::told(layout::part_of(breakdown, 3)))
                    } else {
                        None
                    }
                )
            &&& layout::field(others, "cplex.variable_types_after_presolve"@, "indicators"@)
                == (
                    if breakdown is Some {
                        Some(layout::told(layout::part_of(breakdown, 4)))
                    } else {
                        None
                    }
                )
        }),
{
    let made = cplex::types_from(matching::regex_captures_iter(cplex::BREAKDOWN@, text));
    assert(
        layout::entry(cplex::log_in(text).other_data, "cplex.variable_types_after_presolve"@)
            == made
    ) by {
        reveal(cplex::log_in);
        layout::lemma_no_fields();
        reveal_strlit("cplex.search_config");
        reveal_strlit("cplex.variable_types_after_presolve");
        reveal_strlit("cplex.presolve_details");
        reveal_strlit("cplex.probing");
        reveal_strlit("cplex.clique_table_members");
        reveal_strlit("cplex.incumbents");
        reveal_strlit("cplex.deterministic_ticks");
        reveal_strlit("cplex.timing_breakdown");
        assert("cplex.variable_types_after_presolve"@.len() != "cplex.search_config"@.len());
        assert("cplex.variable_types_after_presolve"@.len() != "cplex.presolve_details"@.len());
        assert("cplex.variable_types_after_presolve"@.len() != "cplex.probing"@.len());
        assert("cplex.variable_types_after_presolve"@.len() != "cplex.clique_table_members"@.len());
        assert("cplex.variable_types_after_presolve"@.len() != "cplex.incumbents"@.len());
        assert("cplex.variable_types_after_presolve"@.len() != "cplex.deterministic_ticks"@.len());
        assert("cplex.variable_types_after_presolve"@.len() != "cplex.timing_breakdown"@.len());
        layout::lemma_other("cplex.search_config"@, "cplex.variable_types_after_presolve"@);
        layout::lemma_other(
            "cplex.variable_types_after_presolve"@,
            "cplex.variable_types_after_presolve"@,
        );
        layout::lemma_other("cplex.presolve_details"@, "cplex.variable_types_after_presolve"@);
        layout::lemma_other("cplex.probing"@, "cplex.variable_types_after_presolve"@);
        layout::lemma_other("cplex.clique_table_members"@, "cplex.variable_types_after_presolve"@);
        layout::lemma_other("cplex.incumbents"@, "cplex.variable_types_after_presolve"@);
        layout::lemma_other("cplex.deterministic_ticks"@, "cplex.variable_types_after_presolve"@);
        layout::lemma_other("cplex.timing_breakdown"@, "cplex.variable_types_after_presolve"@);
    }
    reveal_strlit("binaries");
    reveal_strlit("generals");
    reveal_strlit("sos");
    reveal_strlit("indicators");
    assert("binaries"@[0] != "generals"@[0]);
    assert("binaries"@.len() != "sos"@.len());
    assert("binaries"@.len() != "indicators"@.len());
    assert("generals"@.len() != "sos"@.len());
    assert("generals"@.len() != "indicators"@.len());
    assert("sos"@.len() != "indicators"@.len());
    layout::lemma_put("binaries"@);
    layout::lemma_put("generals"@);
    layout::lemma_put("sos"@);
    layout::lemma_put("indicators"@);
    layout::lemma_no_fields();
}

/// The last time of probing and the changes of sense stand under their names.
pub proof fn law_probing(text: Seq<char>)
    ensures
        ({
            let others = cplex::log_in(text).other_data;
            let probing_time = layout::last_match(r"Probing time\s*=\s*([\d.]+)\s+sec"@, text);
            let probing_sense = matching::regex_captures(r"Probing changed sense of (\d+) constraints?"@, text);
            &&& layout::field(others, "cplex.probing"@, "time_seconds"@)
                == (
                    if probing_time is Some {
                        Some(layout::told(layout::part_of(probing_time, 1)))
                    } else {
                        None
                    }
                )
            &&& layout::field(others, "cplex.probing"@, "constraints_sense_changed"@)
                == (
                    if probing_sense is Some {
                        Some(layout::told(layout::part_of(probing_sense, 1)))
                    } else {
                        None
                    }
                )
        }),
{
    let made = cplex::probing_from(
        matching::regex_captures_iter(cplex::PROBING_TIME@, text),
        matching::regex_captures(cplex::PROBING_SENSE@, text),
    );
    assert(layout::entry(cplex::log_in(text).other_data, "cplex.probing"@) == made) by {
        reveal(cplex::log_in);
        layout::lemma_no_fields();
        reveal_strlit("cplex.search_config");
        reveal_strlit("cplex.variable_types_after_presolve");
        reveal_strlit("cplex.presolve_details");
        reveal_strlit("cplex.probing");
        reveal_strlit("cplex.clique_table_members");
        reveal_strlit("cplex.incumbents");
        reveal_strlit("cplex.deterministic_ticks");
        reveal_strlit("cplex.timing_breakdown");
        assert("cplex.probing"@.len() != "cplex.search_config"@.len());
        assert("cplex.probing"@.len() != "cplex.variable_types_after_presolve"@.len());
        assert("cplex.probing"@.len() != "cplex.presolve_details"@.len());
        assert("cplex.probing"@.len() != "cplex.clique_table_members"@.len());
        assert("cplex.probing"@.len() != "cplex.incumbents"@.len());
        assert("cplex.probing"@.len() != "cplex.deterministic_ticks"@.len());
        assert("cplex.probing"@.len() != "cplex.timing_breakdown"@.len());
        layout::lemma_other("cplex.search_config"@, "cplex.probing"@);
        layout::lemma_other("cplex.variable_types_after_presolve"@, "cplex.probing"@);
        layout::lemma_other("cplex.presolve_details"@, "cplex.probing"@);
        layout::lemma_other("cplex.probing"@, "cplex.probing"@);
        layout::lemma_other("cplex.clique_table_members"@, "cplex.probing"@);
        layout::lemma_other("cplex.incumbents"@, "cplex.probing"@);
        layout::lemma_other("cplex.deterministic_ticks"@, "cplex.probing"@);
        layout::lemma_other("cplex.timing_breakdown"@, "cplex.probing"@);
    }
    reveal_strlit("time_seconds");
    reveal_strlit("constraints_sense_changed");
    assert("time_seconds"@.len() != "constraints_sense_changed"@.len());
    layout::lemma_put("time_seconds"@);
    layout::lemma_put("constraints_sense_changed"@);
    layout::lemma_no_fields();
}

/// The times of the root and of the parallel search stand under their names.
pub proof fn law_timing_breakdown(text: Seq<char>)
    ensures
        ({
            let others = cplex::log_in(text).other_data;
            let root_node_time = matching::regex_captures(
                r"Root node processing \(before b&c\):\s*Real time\s*=\s*([\d.]+)"@,
                text,
            );
            let parallel_time = matching::regex_captures(
                r"Parallel b&c,\s+\d+\s+threads?:\s*Real time\s*=\s*([\d.]+)"@,
                text,
            );
            &&& layout::field(others, "cplex.timing_breakdown"@, "root_node_time"@)
                == (
                    if root_node_time is Some {
                        Some(layout::told(layout::part_of(root_node_time, 1)))
                    } else {
                        None
                    }
                )
            &&& layout::field(others, "cplex.timing_breakdown"@, "parallel_bc_time"@)
                == (
                    if parallel_time is Some {
                        Some(layout::told(layout::part_of(parallel_time, 1)))
                    } else {
                        None
                    }
                )
        }),
{
    let made = cplex::breakdown_from(
        matching::regex_captures(cplex::ROOT_NODE_TIME@, text),
        matching::regex_captures(cplex::PARALLEL_TIME@, text),
    );
    assert(layout::entry(cplex::log_in(text).other_data, "cplex.timing_breakdown"@) == made) by {
        reveal(cplex::log_in);
        layout::lemma_no_fields();
        reveal_strlit("cplex.search_config");
        reveal_strlit("cplex.variable_types_after_presolve");
        reveal_strlit("cplex.presolve_details");
        reveal_strlit("cplex.probing");
        reveal_strlit("cplex.clique_table_members");
        reveal_strlit("cplex.incumbents");
        reveal_strlit("cplex.deterministic_ticks");
        reveal_strlit("cplex.timing_breakdown");
        assert("cplex.timing_breakdown"@.len() != "cplex.search_config"@.len());
        assert("cplex.timing_breakdown"@.len() != "cplex.variable_types_after_presolve"@.len());
        assert("cplex.timing_breakdown"@[6] != "cplex.presolve_details"@[6]);
        assert("cplex.timing_breakdown"@.len() != "cplex.probing"@.len());
        assert("cplex.timing_breakdown"@.len() != "cplex.clique_table_members"@.len());
        assert("cplex.timing_breakdown"@.len() != "cplex.incumbents"@.len());
        assert("cplex.timing_breakdown"@.len() != "cplex.deterministic_ticks"@.len());
        layout::lemma_other("cplex.search_config"@, "cplex.timing_breakdown"@);
        layout::lemma_other("cplex.variable_types_after_presolve"@, "cplex.timing_breakdown"@);
        layout::lemma_other("cplex.presolve_details"@, "cplex.timing_breakdown"@);
        layout::lemma_other("cplex.probing"@, "cplex.timing_breakdown"@);
        layout::lemma_other("cplex.clique_table_members"@, "cplex.timing_breakdown"@);
        layout::lemma_other("cplex.incumbents"@, "cplex.timing_breakdown"@);
        layout::lemma_other("cplex.deterministic_ticks"@, "cplex.timing_breakdown"@);
        layout::lemma_other("cplex.timing_breakdown"@, "cplex.timing_breakdown"@);
    }
    reveal_strlit("root_node_time");
    reveal_strlit("parallel_bc_time");
    assert("root_node_time"@.len() != "parallel_bc_time"@.len());
    layout::lemma_put("root_node_time"@);
    layout::lemma_put("parallel_bc_time"@);
    layout::lemma_no_fields();
}

/// Each incumbent has an item, with its value and its time.
pub proof fn law_incumbents(text: Seq<char>, i: int)
    requires
        0 <= i < matching::regex_captures_iter(
            r"Found incumbent of value\s+([\d.eE+\-]+)\s+after\s+([\d.]+)\s+sec"@,
            text,
        ).len(),
    ensures
        ({
            let others = cplex::log_in(text).other_data;
            let found = matching::regex_captures_iter(
                r"Found incumbent of value\s+([\d.eE+\-]+)\s+after\s+([\d.]+)\s+sec"@,
                text,
            );
            &&& layout::items(others, "cplex.incumbents"@) == found.len()
            &&& layout::item_field(others, "cplex.incumbents"@, i, "value"@)
                == Some(layout::told(layout::part_of(Some(found[i]), 1)))
            &&& layout::item_field(others, "cplex.incumbents"@, i, "time_seconds"@)
                == Some(layout::told(layout::part_of(Some(found[i]), 2)))
        }),
{
    let made = json::array_of(cplex::incumbents_from(matching::regex_captures_iter(cplex::INCUMBENT@, text)));
    assert(layout::entry(cplex::log_in(text).other_data, "cplex.incumbents"@) == made) by {
        reveal(cplex::log_in);
        layout::lemma_no_fields();
        reveal_strlit("cplex.search_config");
        reveal_strlit("cplex.variable_types_after_presolve");
        reveal_strlit("cplex.presolve_details");
        reveal_strlit("cplex.probing");
        reveal_strlit("cplex.clique_table_members");
        reveal_strlit("cplex.incumbents");
        reveal_strlit("cplex.deterministic_ticks");
        reveal_strlit("cplex.timing_breakdown");
        assert("cplex.incumbents"@.len() != "cplex.search_config"@.len());
        assert("cplex.incumbents"@.len() != "cplex.variable_types_after_presolve"@.len());
        assert("cplex.incumbents"@.len() != "cplex.presolve_details"@.len());
        assert("cplex.incumbents"@.len() != "cplex.probing"@.len());
        assert("cplex.incumbents"@.len() != "cplex.clique_table_members"@.len());
        assert("cplex.incumbents"@.len() != "cplex.deterministic_ticks"@.len());
        assert("cplex.incumbents"@.len() != "cplex.timing_breakdown"@.len());
        layout::lemma_other("cplex.search_config"@, "cplex.incumbents"@);
        layout::lemma_other("cplex.variable_types_after_presolve"@, "cplex.incumbents"@);
        layout::lemma_other("cplex.presolve_details"@, "cplex.incumbents"@);
        layout::lemma_other("cplex.probing"@, "cplex.incumbents"@);
        layout::lemma_other("cplex.clique_table_members"@, "cplex.incumbents"@);
        layout::lemma_other("cplex.incumbents"@, "cplex.incumbents"@);
        layout::lemma_other("cplex.deterministic_ticks"@, "cplex.incumbents"@);
        layout::lemma_other("cplex.timing_breakdown"@, "cplex.incumbents"@);
    }
    reveal_strlit("value");
    reveal_strlit("time_seconds");
    assert("value"@.len() != "time_seconds"@.len());
    layout::lemma_put("value"@);
    layout::lemma_put("time_seconds"@);
    layout::lemma_no_fields();
}

/// The members of the clique table and the ticks are the numbers beside their
/// words.
pub proof fn law_single_figures(text: Seq<char>)
    ensures
        layout::entry(cplex::log_in(text).other_data, "cplex.clique_table_members"@)
            == (
                if layout::matches_in(r"Clique table members:\s+(\d+)"@, text) {
                    Some(
                        layout::told(
                            layout::part_of(
                                matching::regex_captures(r"Clique table members:\s+(\d+)"@, text),
                                1,
                            ),
                        ),
                    )
                } else {
                    None
                }
            ),
        layout::entry(cplex::log_in(text).other_data, "cplex.deterministic_ticks"@)
            == (
                if layout::matches_in(r"Total \(root\+branch&cut\)\s*=\s*[\d.]+\s+sec\.\s+\(([\d.]+)\s+ticks\)"@, text) {
                    Some(
                        layout::told(
                            layout::part_of(
                                matching::regex_captures(
                                    r"Total \(root\+branch&cut\)\s*=\s*[\d.]+\s+sec\.\s+\(([\d.]+)\s+ticks\)"@,
                                    text,
                                ),
                                1,
                            ),
                        ),
                    )
                } else {
                    None
                }
            ),
{
    reveal(cplex::log_in);
    layout::lemma_no_fields();
    reveal_strlit("cplex.search_config");
    reveal_strlit("cplex.variable_types_after_presolve");
    reveal_strlit("cplex.presolve_details");
    reveal_strlit("cplex.probing");
    reveal_strlit("cplex.clique_table_members");
    reveal_strlit("cplex.incumbents");
    reveal_strlit("cplex.deterministic_ticks");
    reveal_strlit("cplex.timing_breakdown");
    assert("cplex.clique_table_members"@.len() != "cplex.search_config"@.len());
    assert("cplex.clique_table_members"@.len() != "cplex.variable_types_after_presolve"@.len());
    assert("cplex.clique_table_members"@.len() != "cplex.presolve_details"@.len());
    assert("cplex.clique_table_members"@.len() != "cplex.probing"@.len());
    assert("cplex.clique_table_members"@.len() != "cplex.incumbents"@.len());
    assert("cplex.clique_table_members"@.len() != "cplex.deterministic_ticks"@.len());
    assert("cplex.clique_table_members"@.len() != "cplex.timing_breakdown"@.len());
    layout::lemma_other("cplex.search_config"@, "cplex.clique_table_members"@);
    layout::lemma_other("cplex.variable_types_after_presolve"@, "cplex.clique_table_members"@);
    layout::lemma_other("cplex.presolve_details"@, "cplex.clique_table_members"@);
    layout::lemma_other("cplex.probing"@, "cplex.clique_table_members"@);
    layout::lemma_other("cplex.clique_table_members"@, "cplex.clique_table_members"@);
    layout::lemma_other("cplex.incumbents"@, "cplex.clique_table_members"@);
    layout::lemma_other("cplex.deterministic_ticks"@, "cplex.clique_table_members"@);
    layout::lemma_other("cplex.timing_breakdown"@, "cplex.clique_table_members"@);
    assert("cplex.deterministic_ticks"@.len() != "cplex.search_config"@.len());
    assert("cplex.deterministic_ticks"@.len() != "cplex.variable_types_after_presolve"@.len());
    assert("cplex.deterministic_ticks"@.len() != "cplex.presolve_details"@.len());
    assert("cplex.deterministic_ticks"@.len() != "cplex.probing"@.len());
    assert("cplex.deterministic_ticks"@.len() != "cplex.clique_table_members"@.len());
    assert("cplex.deterministic_ticks"@.len() != "cplex.incumbents"@.len());
    assert("cplex.deterministic_ticks"@.len() != "cplex.timing_breakdown"@.len());
    layout::lemma_other("cplex.search_config"@, "cplex.deterministic_ticks"@);
    layout::lemma_other("cplex.variable_types_after_presolve"@, "cplex.deterministic_ticks"@);
    layout::lemma_other("cplex.presolve_details"@, "cplex.deterministic_ticks"@);
    layout::lemma_other("cplex.probing"@, "cplex.deterministic_ticks"@);
    layout::lemma_other("cplex.clique_table_members"@, "cplex.deterministic_ticks"@);
    layout::lemma_other("cplex.incumbents"@, "cplex.deterministic_ticks"@);
    layout::lemma_other("cplex.deterministic_ticks"@, "cplex.deterministic_ticks"@);
    layout::lemma_other("cplex.timing_breakdown"@, "cplex.deterministic_ticks"@);
}

/// What the rest of the other data is read from.
pub proof fn law_sources_of_the_other_data(text: Seq<char>)
    ensures
        layout::entry(cplex::log_in(text).other_data, "cplex.presolve_details"@)
            == cplex::details_from(
                matching::regex_captures_iter(
                    r"MIP Presolve eliminated (\d+) rows? and (\d+) columns?"@,
                    text,
                ),
                matching::regex_captures_iter(r"MIP Presolve modified (\d+) coefficients?"@, text),
            ),
{
    assert(
        layout::entry(cplex::log_in(text).other_data, "cplex.presolve_details"@)
            == cplex::details_from(
                matching::regex_captures_iter(cplex::ELIMINATED@, text),
                matching::regex_captures_iter(cplex::MODIFIED@, text),
            )
    ) by {
        reveal(cplex::log_in);
        layout::lemma_no_fields();
        reveal_strlit("cplex.search_config");
        reveal_strlit("cplex.variable_types_after_presolve");
        reveal_strlit("cplex.presolve_details");
        reveal_strlit("cplex.probing");
        reveal_strlit("cplex.clique_table_members");
        reveal_strlit("cplex.incumbents");
        reveal_strlit("cplex.deterministic_ticks");
        reveal_strlit("cplex.timing_breakdown");
        assert("cplex.presolve_details"@.len() != "cplex.search_config"@.len());
        assert("cplex.presolve_details"@.len() != "cplex.variable_types_after_presolve"@.len());
        assert("cplex.presolve_details"@.len() != "cplex.probing"@.len());
        assert("cplex.presolve_details"@.len() != "cplex.clique_table_members"@.len());
        assert("cplex.presolve_details"@.len() != "cplex.incumbents"@.len());
        assert("cplex.presolve_details"@.len() != "cplex.deterministic_ticks"@.len());
        assert("cplex.presolve_details"@[6] != "cplex.timing_breakdown"@[6]);
        layout::lemma_other("cplex.search_config"@, "cplex.presolve_details"@);
        layout::lemma_other("cplex.variable_types_after_presolve"@, "cplex.presolve_details"@);
        layout::lemma_other("cplex.presolve_details"@, "cplex.presolve_details"@);
        layout::lemma_other("cplex.probing"@, "cplex.presolve_details"@);
        layout::lemma_other("cplex.clique_table_members"@, "cplex.presolve_details"@);
        layout::lemma_other("cplex.incumbents"@, "cplex.presolve_details"@);
        layout::lemma_other("cplex.deterministic_ticks"@, "cplex.presolve_details"@);
        layout::lemma_other("cplex.timing_breakdown"@, "cplex.presolve_details"@);
    }
}

/// The cuts are those of all their lines. The time of presolve is the sum of
/// those given for it. The dual bound and the gap are those of the last row,
/// and the root bound is the first dual bound.
pub proof fn law_what_is_gathered(text: Seq<char>)
    ensures
        ({
            let log = cplex::log_in(text);
            &&& log.cuts
                == progress::cuts_of(
                    matching::regex_captures_iter(
                        r"(?m)^\s*(.+?)\s+cuts applied:\s+([\d,]+)"@,
                        text,
                    ),
                    true,
                    true,
                )
            &&& log.timing.presolve_seconds
                == cplex::sum_from(
                    matching::regex_captures_iter(r"Presolve time\s*=\s*([\d.]+)\s+sec"@, text),
                )
            &&& log.progress.len() > 0
                ==> log.bounds.dual == log.progress.last().dual
                    && log.bounds.gap == log.progress.last().gap
            &&& log.progress.len() == 0 ==> log.bounds.dual is None && log.bounds.gap is None
            &&& log.bounds.root_dual == progress::first_dual(log.progress)
        }),
{
    reveal(cplex::log_in);
}

/// A node is a count, with commas or without; a plus sign behind it says
/// nothing of it.
pub proof fn law_node(n: Seq<char>)
    requires
        n.len() > 0,
        n.last() != '+',
    ensures
        cplex::node_of(n) == layout::count(Some(n)),
        cplex::node_of(n + "+"@) == layout::count(Some(n)),
{
    reveal_strlit("+");
    assert("+"@[0] == '+');
    layout::lemma_commas();
    tallies::lemma_suffix(n, "+"@);
    tallies::lemma_other_suffix(n, "+"@);
}

/// The coefficients that were modified are those that the last such line
/// counts.
pub proof fn law_modified_coefficients(eliminated: Seq<Groups>, modified: Seq<Groups>)
    requires
        modified.len() > 0,
    ensures
        cplex::details_from(eliminated, modified) matches Some(Json::Object(e))
            && table::get(e, "modified_coefficients"@)
                == Some(layout::told(layout::part_of(Some(modified.last()), 1))),
{
    reveal_strlit("eliminated_rows");
    reveal_strlit("eliminated_cols");
    reveal_strlit("modified_coefficients");
    assert("eliminated_rows"@.len() != "modified_coefficients"@.len());
    assert("eliminated_cols"@.len() != "modified_coefficients"@.len());
    layout::lemma_put("eliminated_rows"@);
    layout::lemma_put("eliminated_cols"@);
    layout::lemma_put("modified_coefficients"@);
    layout::lemma_no_fields();
}

/// The run took the time of its solution; where that is none or zero, the time
/// of all solving; and where that is none or zero too, the last elapsed time,
/// if it is positive.
pub proof fn law_time_of_the_run(text: Seq<char>)
    ensures
        ({
            let wall = cplex::log_in(text).timing.wall_seconds;
            let solution = layout::number(
                layout::said(
                    r"Solution time\s*=\s*([\d.]+)\s+sec\.\s+Iterations\s*=\s*([\d,]+)\s+Nodes\s*=\s*([\d,]+)"@,
                    text,
                    1,
                ),
                Unit::One,
            );
            let total = layout::number(
                layout::said(r"Total\s*\(root\+branch&cut\)\s*=\s*([\d.]+)\s+sec"@, text, 1),
                Unit::One,
            );
            let elapsed = layout::number(
                layout::in_match(
                    layout::last_match(r"Elapsed time\s*=\s*([\d.]+)\s+sec"@, text),
                    1,
                ),
                Unit::One,
            );
            let told = layout::matches_in(r"Total\s*\(root\+branch&cut\)\s*=\s*([\d.]+)\s+sec"@, text);
            let no_solution = solution is None || quantity::reads_zero(solution->Some_0);
            let no_total = total is None || quantity::reads_zero(total->Some_0);
            let went_on = elapsed is Some && quantity::reads_positive(elapsed->Some_0);
            &&& !no_solution ==> wall == solution
            &&& no_solution && told && !no_total ==> wall == total
            &&& no_solution && (!told || no_total) && went_on ==> wall == elapsed
            &&& no_solution && told && no_total && !went_on ==> wall == total
            &&& no_solution && !told && !went_on ==> wall == solution
        }),
{
    reveal(cplex::log_in);
}

} // verus!
