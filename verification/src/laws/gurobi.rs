//! What a Gurobi log says, and where.

use crate::chars;
use crate::json::Json;
use crate::json;
use crate::laws::layout;
use crate::matching::Margin;
use crate::matching;
use crate::numbers;
use crate::quantity::Unit;
use crate::schema::{EventView, RowView, Status};
use crate::solvers::entries;
use crate::solvers::gurobi;
use crate::solvers::progress::{Open, ScanView};
use crate::solvers::progress;
use vstd::prelude::*;

verus! {

/// What a Gurobi log is known by.
pub proof fn law_recognized(text: Seq<char>)
    ensures
        gurobi::looks_right(text)
            <==> chars::contains(text, "Gurobi Optimizer"@) || chars::contains(text, "gurobi_cl"@),
{
}

/// The words of a Gurobi log tell why the run stopped. A solution found to be
/// optimal settles it, and so does the optimum of an LP; after that
/// infeasible and unbounded models, and only then limits.
pub proof fn law_words_tell_the_end(text: Seq<char>)
    ensures
        ({
            let log = gurobi::log_in(text);
            let t = log.termination;
            let optimal = chars::contains(text, "Optimal solution found"@)
                || (
                    chars::contains(text, "Optimal objective"@)
                        && !chars::contains(text, "Solution count"@)
                );
            let either = chars::contains(text, "Model is infeasible and unbounded"@)
                || chars::contains(text, "Model is infeasible or unbounded"@);
            let infeasible = chars::contains(text, "Model is infeasible"@);
            let unbounded = chars::contains(text, "Model is unbounded"@);
            let answered = optimal || either || infeasible || unbounded;
            let time = chars::contains(text, "Time limit reached"@);
            let memory = chars::contains(text, "Out of memory"@);
            let limit = chars::contains(text, "Node limit reached"@)
                || chars::contains(text, "Solution limit reached"@)
                || chars::contains(text, "Iteration limit reached"@)
                || chars::contains(text, "Work limit reached"@);
            &&& t.status == Status::Optimal <==> optimal
            &&& t.status == Status::InfeasibleOrUnbounded <==> !optimal && either
            &&& t.status == Status::Infeasible <==> !optimal && !either && infeasible
            &&& t.status == Status::Unbounded <==> !optimal && !either && !infeasible && unbounded
            &&& t.status == Status::TimeLimit <==> !answered && time
            &&& t.status == Status::MemoryLimit <==> !answered && !time && memory
            &&& t.status == Status::OtherLimit <==> !answered && !time && !memory && limit
            &&& t.status == Status::Unknown <==> !answered && !time && !memory && !limit
            &&& t.status == Status::TimeLimit ==> t.raw_reason == Some("Time limit reached"@)
            &&& t.status == Status::OtherLimit
                ==> t.raw_reason
                    == Some(
                        if chars::contains(text, "Node limit reached"@) {
                            "Node limit reached"@
                        } else if chars::contains(text, "Solution limit reached"@) {
                            "Solution limit reached"@
                        } else if chars::contains(text, "Iteration limit reached"@) {
                            "Iteration limit reached"@
                        } else {
                            "Work limit reached"@
                        },
                    )
            &&& t.status != Status::TimeLimit && t.status != Status::OtherLimit ==> t.raw_reason is None
        }),
{
    reveal(gurobi::log_in);
    layout::lemma_commas();
}

/// The times are those written behind their words.
pub proof fn law_times(text: Seq<char>)
    ensures
        ({
            let log = gurobi::log_in(text);
            let explored = r"Explored\s+([\d,]+)\s+nodes?\s+\(([\d,]+)\s+simplex iterations\)\s+in\s+([\d.]+)\s+seconds"@;
            let lp_solved = r"Solved in\s+([\d,]+)\s+iterations? and\s+([\d.]+)\s+seconds"@;
            let presolve_time = r"Presolve time:\s+([\d.]+)s"@;
            let root_relaxation = r"Root relaxation:\s+objective\s+([-\d.eE+]+),\s+[\d,]+\s+iterations,\s+([\d.]+)\s+seconds"@;
            &&& log.timing.wall_seconds
                == (
                    if layout::number(layout::said(explored, text, 3), Unit::One) is Some {
                        layout::number(layout::said(explored, text, 3), Unit::One)
                    } else {
                        layout::number(layout::said(lp_solved, text, 2), Unit::One)
                    }
                )
            &&& log.timing.presolve_seconds
                == layout::number(layout::said(presolve_time, text, 1), Unit::One)
            &&& log.timing.root_relaxation_seconds
                == layout::number(layout::said(root_relaxation, text, 2), Unit::One)
            &&& log.timing.cpu_seconds is None
            &&& log.timing.reading_seconds is None
        }),
{
    reveal(gurobi::log_in);
    layout::lemma_commas();
}

/// The best objective is the primal bound, the best bound the dual one, and
/// the gap beside them is in percent. A pure LP run has its optimum as both.
pub proof fn law_bounds(text: Seq<char>)
    ensures
        ({
            let log = gurobi::log_in(text);
            let best = r"Best objective\s+(-|[\d.eE+\-]+)\s*,\s*best bound\s+(-|[\d.eE+\-]+)\s*,\s*gap\s+(-|[\d.]+)%?"@;
            let lp_objective = r"Optimal objective\s+([-\d.eE+]+)"@;
            let root_relaxation = r"Root relaxation:\s+objective\s+([-\d.eE+]+),\s+[\d,]+\s+iterations,\s+([\d.]+)\s+seconds"@;
            let heuristic = r"Found heuristic solution:\s+objective\s+([-\d.eE+]+)"@;
            &&& layout::matches_in(best, text)
                ==> log.bounds.primal == layout::number(layout::said(best, text, 1), Unit::One)
                    && log.bounds.dual == layout::number(layout::said(best, text, 2), Unit::One)
                    && log.bounds.gap == layout::number(layout::said(best, text, 3), Unit::Percent)
            &&& !layout::matches_in(best, text)
                ==> log.bounds.primal
                    == layout::number(layout::said(lp_objective, text, 1), Unit::One)
                    && log.bounds.dual
                        == layout::number(layout::said(lp_objective, text, 1), Unit::One)
            &&& !layout::matches_in(best, text)
                ==> log.bounds.gap
                    == (
                        if layout::matches_in(lp_objective, text) {
                            Some(layout::number_in("0"@, Unit::One))
                        } else {
                            None
                        }
                    )
            &&& log.bounds.root_dual
                == layout::number(layout::said(root_relaxation, text, 1), Unit::One)
            &&& log.bounds.first_primal == layout::number(layout::said(heuristic, text, 1), Unit::One)
            &&& log.bounds.first_primal_time_seconds is None
            &&& log.bounds.primal_dual_integral is None
        }),
{
    reveal(gurobi::log_in);
    layout::lemma_commas();
}

/// The counts of the search are those written before their words.
pub proof fn law_counts(text: Seq<char>)
    ensures
        ({
            let log = gurobi::log_in(text);
            let explored = r"Explored\s+([\d,]+)\s+nodes?\s+\(([\d,]+)\s+simplex iterations\)\s+in\s+([\d.]+)\s+seconds"@;
            let lp_solved = r"Solved in\s+([\d,]+)\s+iterations? and\s+([\d.]+)\s+seconds"@;
            let solution_count = r"Solution count\s+(\d+)"@;
            &&& log.tree.nodes_explored == layout::count(layout::said(explored, text, 1))
            &&& log.tree.simplex_iterations
                == (
                    if layout::number(layout::said(explored, text, 3), Unit::One) is None && layout::matches_in(lp_solved, text) {
                        layout::count(layout::said(lp_solved, text, 1))
                    } else {
                        layout::count(layout::said(explored, text, 2))
                    }
                )
            &&& log.tree.solutions_found == layout::digits(layout::said(solution_count, text, 1))
            &&& log.tree.restarts is None
        }),
{
    reveal(gurobi::log_in);
    layout::lemma_commas();
}

/// The sizes of the model are the numbers before `rows`, `columns` and
/// `nonzeros`.
pub proof fn law_sizes(text: Seq<char>)
    ensures
        ({
            let log = gurobi::log_in(text);
            let original = r"Optimize a model with ([\d,]+) rows?, ([\d,]+) columns? and ([\d,]+) nonzeros"@;
            let presolved = r"Presolved:\s+([\d,]+)\s+rows,\s+([\d,]+)\s+columns,\s+([\d,]+)\s+nonzeros"@;
            &&& log.presolve.rows_before == layout::count(layout::said(original, text, 1))
            &&& log.presolve.cols_before == layout::count(layout::said(original, text, 2))
            &&& log.presolve.nonzeros_before == layout::count(layout::said(original, text, 3))
            &&& log.presolve.rows_after == layout::count(layout::said(presolved, text, 1))
            &&& log.presolve.cols_after == layout::count(layout::said(presolved, text, 2))
            &&& log.presolve.nonzeros_after == layout::count(layout::said(presolved, text, 3))
        }),
{
    reveal(gurobi::log_in);
    layout::lemma_commas();
}

/// The version is the one that the log names.
pub proof fn law_identity(text: Seq<char>)
    ensures
        ({
            let log = gurobi::log_in(text);
            let version = r"Gurobi(?:\s+Optimizer)?\s+(?:version\s+)?(\d+\.\d+(?:\.\d+)?)"@;
            &&& log.version == layout::said(version, text, 1)
            &&& log.problem is None
            &&& log.solver_git_hash is None
        }),
{
    reveal(gurobi::log_in);
    layout::lemma_commas();
}

/// Each column of a row of the table is read for what its heading says: the
/// incumbent is the primal bound and the best bound the dual one. The marker
/// before the row is its event.
pub proof fn law_row(
    gaps: Seq<Seq<char>>,
    expl: Seq<char>,
    unexpl: Seq<char>,
    obj: Seq<char>,
    depth: Seq<char>,
    int_inf: Seq<char>,
    incumbent: Seq<char>,
    best_bd: Seq<char>,
    gap: Seq<char>,
    it_node: Seq<char>,
    time: Seq<char>,
    marker: char,
)
    requires
        layout::are_gaps(gaps, 10),
        layout::are_words(
            seq![expl, unexpl, obj, depth, int_inf, incumbent, best_bd, gap, it_node, time],
        ),
        numbers::is_digit(expl[0]),
        numbers::u64_of(expl) is Some,
        progress::time_of(time) is Some,
        marker == 'H' || marker == 'h' || marker == '*',
    ensures
        gurobi::row_in(
            layout::laid_out(
                gaps,
                seq![expl, unexpl, obj, depth, int_inf, incumbent, best_bd, gap, it_node, time],
            ),
        ) == Some(
            RowView {
                time_seconds: progress::time_of(time)->Some_0,
                nodes_explored: numbers::u64_of(expl),
                primal: progress::cell_of(incumbent),
                dual: progress::cell_of(best_bd),
                gap: progress::gap_of(gap),
                depth: numbers::u32_of(depth),
                lp_iterations: numbers::u64_of(it_node),
                event: None,
            },
        ),
        gurobi::row_in(
            seq![marker]
                + layout::laid_out(
                    gaps,
                    seq![expl, unexpl, obj, depth, int_inf, incumbent, best_bd, gap, it_node, time],
                ),
        ) == Some(
            RowView {
                time_seconds: progress::time_of(time)->Some_0,
                nodes_explored: numbers::u64_of(expl),
                primal: progress::cell_of(incumbent),
                dual: progress::cell_of(best_bd),
                gap: progress::gap_of(gap),
                depth: numbers::u32_of(depth),
                lp_iterations: numbers::u64_of(it_node),
                event: (
                    if marker == '*' {
                        Some(EventView::BranchSolution)
                    } else {
                        Some(EventView::Heuristic)
                    }
                ),
            },
        ),
{
    let words = seq![expl, unexpl, obj, depth, int_inf, incumbent, best_bd, gap, it_node, time];
    let line = layout::laid_out(gaps, words);
    layout::law_words_are_found(gaps, words);
    layout::lemma_starts(gaps, words);
    assert((seq![marker] + line).skip(1) =~= line);
    assert((seq![marker] + line)[0] == marker);
}

/// A row that leaves out the columns of the current node is read the same
/// way.
pub proof fn law_incumbent_row(
    gaps: Seq<Seq<char>>,
    expl: Seq<char>,
    unexpl: Seq<char>,
    incumbent: Seq<char>,
    best_bd: Seq<char>,
    gap: Seq<char>,
    it_node: Seq<char>,
    time: Seq<char>,
    marker: char,
)
    requires
        layout::are_gaps(gaps, 7),
        layout::are_words(seq![expl, unexpl, incumbent, best_bd, gap, it_node, time]),
        numbers::is_digit(expl[0]),
        numbers::u64_of(expl) is Some,
        progress::time_of(time) is Some,
        marker == 'H' || marker == 'h' || marker == '*',
    ensures
        gurobi::row_in(
            layout::laid_out(gaps, seq![expl, unexpl, incumbent, best_bd, gap, it_node, time]),
        ) == Some(
            RowView {
                time_seconds: progress::time_of(time)->Some_0,
                nodes_explored: numbers::u64_of(expl),
                primal: progress::cell_of(incumbent),
                dual: progress::cell_of(best_bd),
                gap: progress::gap_of(gap),
                depth: None,
                lp_iterations: numbers::u64_of(it_node),
                event: None,
            },
        ),
        gurobi::row_in(
            seq![marker]
                + layout::laid_out(gaps, seq![expl, unexpl, incumbent, best_bd, gap, it_node, time]),
        ) == Some(
            RowView {
                time_seconds: progress::time_of(time)->Some_0,
                nodes_explored: numbers::u64_of(expl),
                primal: progress::cell_of(incumbent),
                dual: progress::cell_of(best_bd),
                gap: progress::gap_of(gap),
                depth: None,
                lp_iterations: numbers::u64_of(it_node),
                event: (
                    if marker == '*' {
                        Some(EventView::BranchSolution)
                    } else {
                        Some(EventView::Heuristic)
                    }
                ),
            },
        ),
{
    let words = seq![expl, unexpl, incumbent, best_bd, gap, it_node, time];
    let line = layout::laid_out(gaps, words);
    layout::law_words_are_found(gaps, words);
    layout::lemma_starts(gaps, words);
    assert((seq![marker] + line).skip(1) =~= line);
    assert((seq![marker] + line)[0] == marker);
}

/// The rows are the lines below the header, in their order, up to the summary
/// or a blank line.
pub proof fn law_table(
    text: Seq<char>,
    before: Seq<Seq<char>>,
    header: Seq<char>,
    body: Seq<Seq<char>>,
    rows: Seq<RowView>,
    after: Seq<Seq<char>>,
)
    requires
        chars::lines(text) == before + (seq![header] + (body + after)),
        forall|i: int| 0 <= i < before.len()
            ==> !(
                chars::contains((#[trigger] before[i]), "Incumbent"@)
                    && chars::contains(before[i], "BestBd"@)
            ),
        chars::contains(header, "Incumbent"@),
        chars::contains(header, "BestBd"@),
        body.len() == rows.len(),
        forall|i: int|
            0 <= i < body.len()
                ==> !chars::blank(#[trigger] body[i])
                    && gurobi::row_in(body[i]) == Some(rows[i]),
        after.len() > 0
            ==> (chars::blank(after[0]) && rows.len() > 0)
                || (!chars::blank(after[0]) && gurobi::row_in(after[0]) is None && (
            chars::starts_with(after[0], "Cutting planes:"@)
                || chars::starts_with(after[0], "Cutting Planes:"@)
                || chars::starts_with(after[0], "Explored "@)
                || chars::contains(after[0], "Time limit reached"@)
                || chars::starts_with(after[0], "Optimal solution"@))),
    ensures
        gurobi::log_in(text).progress == rows,
{
    reveal(gurobi::log_in);
    let format = gurobi::GurobiTable;
    let start = progress::at_start();
    let open = ScanView { open: Open::Tree, ..start };
    let more = body + after;
    layout::lemma_closed(format, before, seq![header] + more);
    assert((seq![header] + more).skip(1) =~= more);
    layout::lemma_rows(format, open, body, rows, after, false);
    assert(rows + Seq::<RowView>::empty() =~= rows);
}

/// What the machine is stands under the names of its parts.
pub proof fn law_machine(text: Seq<char>)
    ensures
        ({
            let others = gurobi::log_in(text).other_data;
            let cpu = matching::regex_captures(r"CPU model:\s+(.+)"@, text);
            let threads = matching::regex_captures(
                r"Thread count:\s+(\d+)\s+physical cores?,\s+(\d+)\s+logical processors?, using up to (\d+) threads?"@,
                text,
            );
            &&& layout::field(others, "gurobi.machine"@, "cpu"@)
                == (
                    if cpu is Some {
                        Some(Json::Text(chars::trimmed(layout::part_of(cpu, 1))))
                    } else {
                        None
                    }
                )
            &&& layout::field(others, "gurobi.machine"@, "physical_cores"@)
                == (
                    if threads is Some {
                        Some(layout::count_or(layout::part_of(threads, 1), Json::Count(0)))
                    } else {
                        None
                    }
                )
            &&& layout::field(others, "gurobi.machine"@, "logical_processors"@)
                == (
                    if threads is Some {
                        Some(layout::count_or(layout::part_of(threads, 2), Json::Count(0)))
                    } else {
                        None
                    }
                )
            &&& layout::field(others, "gurobi.machine"@, "threads_used"@)
                == (
                    if threads is Some {
                        Some(layout::count_or(layout::part_of(threads, 3), Json::Count(0)))
                    } else {
                        None
                    }
                )
        }),
{
    let made = gurobi::machine_from(
        matching::regex_captures(gurobi::CPU@, text),
        matching::regex_captures(gurobi::THREADS@, text),
    );
    assert(layout::entry(gurobi::log_in(text).other_data, "gurobi.machine"@) == made) by {
        reveal(gurobi::log_in);
        layout::lemma_no_fields();
        reveal_strlit("gurobi.coefficient_ranges");
        reveal_strlit("gurobi.variable_types_before_presolve");
        reveal_strlit("gurobi.variable_types_after_presolve");
        reveal_strlit("gurobi.machine");
        reveal_strlit("gurobi.pre_bb_heuristic_solutions");
        reveal_strlit("gurobi.solution_pool");
        reveal_strlit("gurobi.model_fingerprint");
        reveal_strlit("gurobi.optimality_tolerance");
        reveal_strlit("gurobi.work_units");
        assert("gurobi.machine"@.len() != "gurobi.coefficient_ranges"@.len());
        assert("gurobi.machine"@.len() != "gurobi.variable_types_before_presolve"@.len());
        assert("gurobi.machine"@.len() != "gurobi.variable_types_after_presolve"@.len());
        assert("gurobi.machine"@.len() != "gurobi.pre_bb_heuristic_solutions"@.len());
        assert("gurobi.machine"@.len() != "gurobi.solution_pool"@.len());
        assert("gurobi.machine"@.len() != "gurobi.model_fingerprint"@.len());
        assert("gurobi.machine"@.len() != "gurobi.optimality_tolerance"@.len());
        assert("gurobi.machine"@.len() != "gurobi.work_units"@.len());
        layout::lemma_other("gurobi.coefficient_ranges"@, "gurobi.machine"@);
        layout::lemma_other("gurobi.variable_types_before_presolve"@, "gurobi.machine"@);
        layout::lemma_other("gurobi.variable_types_after_presolve"@, "gurobi.machine"@);
        layout::lemma_other("gurobi.machine"@, "gurobi.machine"@);
        layout::lemma_other("gurobi.pre_bb_heuristic_solutions"@, "gurobi.machine"@);
        layout::lemma_other("gurobi.solution_pool"@, "gurobi.machine"@);
        layout::lemma_other("gurobi.model_fingerprint"@, "gurobi.machine"@);
        layout::lemma_other("gurobi.optimality_tolerance"@, "gurobi.machine"@);
        layout::lemma_other("gurobi.work_units"@, "gurobi.machine"@);
    }
    reveal_strlit("cpu");
    reveal_strlit("physical_cores");
    reveal_strlit("logical_processors");
    reveal_strlit("threads_used");
    assert("cpu"@.len() != "physical_cores"@.len());
    assert("cpu"@.len() != "logical_processors"@.len());
    assert("cpu"@.len() != "threads_used"@.len());
    assert("physical_cores"@.len() != "logical_processors"@.len());
    assert("physical_cores"@.len() != "threads_used"@.len());
    assert("logical_processors"@.len() != "threads_used"@.len());
    layout::lemma_put("cpu"@);
    layout::lemma_put("physical_cores"@);
    layout::lemma_put("logical_processors"@);
    layout::lemma_put("threads_used"@);
    layout::lemma_no_fields();
}

/// The fingerprint, the tolerance and the work are those that the log writes.
pub proof fn law_single_figures(text: Seq<char>)
    ensures
        layout::entry(gurobi::log_in(text).other_data, "gurobi.model_fingerprint"@)
            == (
                { let s = layout::said(r"Model fingerprint:\s+(\S+)"@, text, 1); match s { Some(t) => Some(Json::Text(t)), None => None } }
            ),
        layout::entry(gurobi::log_in(text).other_data, "gurobi.optimality_tolerance"@)
            == (
                { let s = layout::said(r"Optimal solution found \(tolerance\s+([0-9.eE+\-]+)\)"@, text, 1); match s { Some(t) => if numbers::is_finite(t) { Some(Json::Real(t)) } else { None }, None => None } }
            ),
        layout::entry(gurobi::log_in(text).other_data, "gurobi.work_units"@)
            == (
                { let s = layout::said(r"\(([\d.]+)\s+work units\)"@, text, 1); match s { Some(t) => if numbers::is_finite(t) { Some(Json::Real(t)) } else { None }, None => None } }
            ),
{
    reveal(gurobi::log_in);
    layout::lemma_no_fields();
    reveal_strlit("gurobi.coefficient_ranges");
    reveal_strlit("gurobi.variable_types_before_presolve");
    reveal_strlit("gurobi.variable_types_after_presolve");
    reveal_strlit("gurobi.machine");
    reveal_strlit("gurobi.pre_bb_heuristic_solutions");
    reveal_strlit("gurobi.solution_pool");
    reveal_strlit("gurobi.model_fingerprint");
    reveal_strlit("gurobi.optimality_tolerance");
    reveal_strlit("gurobi.work_units");
    assert("gurobi.model_fingerprint"@.len() != "gurobi.coefficient_ranges"@.len());
    assert("gurobi.model_fingerprint"@.len() != "gurobi.variable_types_before_presolve"@.len());
    assert("gurobi.model_fingerprint"@.len() != "gurobi.variable_types_after_presolve"@.len());
    assert("gurobi.model_fingerprint"@.len() != "gurobi.machine"@.len());
    assert("gurobi.model_fingerprint"@.len() != "gurobi.pre_bb_heuristic_solutions"@.len());
    assert("gurobi.model_fingerprint"@.len() != "gurobi.solution_pool"@.len());
    assert("gurobi.model_fingerprint"@.len() != "gurobi.optimality_tolerance"@.len());
    assert("gurobi.model_fingerprint"@.len() != "gurobi.work_units"@.len());
    layout::lemma_other("gurobi.coefficient_ranges"@, "gurobi.model_fingerprint"@);
    layout::lemma_other("gurobi.variable_types_before_presolve"@, "gurobi.model_fingerprint"@);
    layout::lemma_other("gurobi.variable_types_after_presolve"@, "gurobi.model_fingerprint"@);
    layout::lemma_other("gurobi.machine"@, "gurobi.model_fingerprint"@);
    layout::lemma_other("gurobi.pre_bb_heuristic_solutions"@, "gurobi.model_fingerprint"@);
    layout::lemma_other("gurobi.solution_pool"@, "gurobi.model_fingerprint"@);
    layout::lemma_other("gurobi.model_fingerprint"@, "gurobi.model_fingerprint"@);
    layout::lemma_other("gurobi.optimality_tolerance"@, "gurobi.model_fingerprint"@);
    layout::lemma_other("gurobi.work_units"@, "gurobi.model_fingerprint"@);
    assert("gurobi.optimality_tolerance"@.len() != "gurobi.coefficient_ranges"@.len());
    assert("gurobi.optimality_tolerance"@.len() != "gurobi.variable_types_before_presolve"@.len());
    assert("gurobi.optimality_tolerance"@.len() != "gurobi.variable_types_after_presolve"@.len());
    assert("gurobi.optimality_tolerance"@.len() != "gurobi.machine"@.len());
    assert("gurobi.optimality_tolerance"@.len() != "gurobi.pre_bb_heuristic_solutions"@.len());
    assert("gurobi.optimality_tolerance"@.len() != "gurobi.solution_pool"@.len());
    assert("gurobi.optimality_tolerance"@.len() != "gurobi.model_fingerprint"@.len());
    assert("gurobi.optimality_tolerance"@.len() != "gurobi.work_units"@.len());
    layout::lemma_other("gurobi.coefficient_ranges"@, "gurobi.optimality_tolerance"@);
    layout::lemma_other("gurobi.variable_types_before_presolve"@, "gurobi.optimality_tolerance"@);
    layout::lemma_other("gurobi.variable_types_after_presolve"@, "gurobi.optimality_tolerance"@);
    layout::lemma_other("gurobi.machine"@, "gurobi.optimality_tolerance"@);
    layout::lemma_other("gurobi.pre_bb_heuristic_solutions"@, "gurobi.optimality_tolerance"@);
    layout::lemma_other("gurobi.solution_pool"@, "gurobi.optimality_tolerance"@);
    layout::lemma_other("gurobi.model_fingerprint"@, "gurobi.optimality_tolerance"@);
    layout::lemma_other("gurobi.optimality_tolerance"@, "gurobi.optimality_tolerance"@);
    layout::lemma_other("gurobi.work_units"@, "gurobi.optimality_tolerance"@);
    assert("gurobi.work_units"@.len() != "gurobi.coefficient_ranges"@.len());
    assert("gurobi.work_units"@.len() != "gurobi.variable_types_before_presolve"@.len());
    assert("gurobi.work_units"@.len() != "gurobi.variable_types_after_presolve"@.len());
    assert("gurobi.work_units"@.len() != "gurobi.machine"@.len());
    assert("gurobi.work_units"@.len() != "gurobi.pre_bb_heuristic_solutions"@.len());
    assert("gurobi.work_units"@.len() != "gurobi.solution_pool"@.len());
    assert("gurobi.work_units"@.len() != "gurobi.model_fingerprint"@.len());
    assert("gurobi.work_units"@.len() != "gurobi.optimality_tolerance"@.len());
    layout::lemma_other("gurobi.coefficient_ranges"@, "gurobi.work_units"@);
    layout::lemma_other("gurobi.variable_types_before_presolve"@, "gurobi.work_units"@);
    layout::lemma_other("gurobi.variable_types_after_presolve"@, "gurobi.work_units"@);
    layout::lemma_other("gurobi.machine"@, "gurobi.work_units"@);
    layout::lemma_other("gurobi.pre_bb_heuristic_solutions"@, "gurobi.work_units"@);
    layout::lemma_other("gurobi.solution_pool"@, "gurobi.work_units"@);
    layout::lemma_other("gurobi.model_fingerprint"@, "gurobi.work_units"@);
    layout::lemma_other("gurobi.optimality_tolerance"@, "gurobi.work_units"@);
    layout::lemma_other("gurobi.work_units"@, "gurobi.work_units"@);
}

/// The kinds of variables before presolve are those of the first such line.
pub proof fn law_variable_types_before(text: Seq<char>)
    ensures
        ({
            let others = gurobi::log_in(text).other_data;
            let all = matching::regex_captures_iter(
                r"Variable types:\s+(\d+)\s+continuous,\s+(\d+)\s+integer\s+\((\d+)\s+binary\)"@,
                text,
            );
            &&& all.len() > 0
                ==> layout::field(others, "gurobi.variable_types_before_presolve"@, "continuous"@)
                    == Some(layout::count_or(layout::part_of(Some(all[0]), 1), Json::Count(0)))
            &&& all.len() > 0
                ==> layout::field(others, "gurobi.variable_types_before_presolve"@, "integer"@)
                    == Some(layout::count_or(layout::part_of(Some(all[0]), 2), Json::Count(0)))
            &&& all.len() > 0
                ==> layout::field(others, "gurobi.variable_types_before_presolve"@, "binary"@)
                    == Some(layout::count_or(layout::part_of(Some(all[0]), 3), Json::Count(0)))
            &&& !(all.len() > 0)
                ==> layout::entry(others, "gurobi.variable_types_before_presolve"@) is None
        }),
{
    let made = gurobi::types_before(matching::regex_captures_iter(gurobi::VARIABLE_TYPES@, text));
    assert(
        layout::entry(gurobi::log_in(text).other_data, "gurobi.variable_types_before_presolve"@)
            == made
    ) by {
        reveal(gurobi::log_in);
        layout::lemma_no_fields();
        reveal_strlit("gurobi.coefficient_ranges");
        reveal_strlit("gurobi.variable_types_before_presolve");
        reveal_strlit("gurobi.variable_types_after_presolve");
        reveal_strlit("gurobi.machine");
        reveal_strlit("gurobi.pre_bb_heuristic_solutions");
        reveal_strlit("gurobi.solution_pool");
        reveal_strlit("gurobi.model_fingerprint");
        reveal_strlit("gurobi.optimality_tolerance");
        reveal_strlit("gurobi.work_units");
        assert(
            "gurobi.variable_types_before_presolve"@.len() != "gurobi.coefficient_ranges"@.len()
        );
        assert(
            "gurobi.variable_types_before_presolve"@.len() != "gurobi.variable_types_after_presolve"@.len()
        );
        assert("gurobi.variable_types_before_presolve"@.len() != "gurobi.machine"@.len());
        assert(
            "gurobi.variable_types_before_presolve"@.len() != "gurobi.pre_bb_heuristic_solutions"@.len()
        );
        assert("gurobi.variable_types_before_presolve"@.len() != "gurobi.solution_pool"@.len());
        assert("gurobi.variable_types_before_presolve"@.len() != "gurobi.model_fingerprint"@.len());
        assert(
            "gurobi.variable_types_before_presolve"@.len() != "gurobi.optimality_tolerance"@.len()
        );
        assert("gurobi.variable_types_before_presolve"@.len() != "gurobi.work_units"@.len());
        layout::lemma_other("gurobi.coefficient_ranges"@, "gurobi.variable_types_before_presolve"@);
        layout::lemma_other(
            "gurobi.variable_types_before_presolve"@,
            "gurobi.variable_types_before_presolve"@,
        );
        layout::lemma_other(
            "gurobi.variable_types_after_presolve"@,
            "gurobi.variable_types_before_presolve"@,
        );
        layout::lemma_other("gurobi.machine"@, "gurobi.variable_types_before_presolve"@);
        layout::lemma_other(
            "gurobi.pre_bb_heuristic_solutions"@,
            "gurobi.variable_types_before_presolve"@,
        );
        layout::lemma_other("gurobi.solution_pool"@, "gurobi.variable_types_before_presolve"@);
        layout::lemma_other("gurobi.model_fingerprint"@, "gurobi.variable_types_before_presolve"@);
        layout::lemma_other(
            "gurobi.optimality_tolerance"@,
            "gurobi.variable_types_before_presolve"@,
        );
        layout::lemma_other("gurobi.work_units"@, "gurobi.variable_types_before_presolve"@);
    }
    reveal_strlit("continuous");
    reveal_strlit("integer");
    reveal_strlit("binary");
    assert("continuous"@.len() != "integer"@.len());
    assert("continuous"@.len() != "binary"@.len());
    assert("integer"@.len() != "binary"@.len());
    layout::lemma_put("continuous"@);
    layout::lemma_put("integer"@);
    layout::lemma_put("binary"@);
    layout::lemma_no_fields();
}

/// Those behind presolve are those of the last such line, where there is more
/// than one.
pub proof fn law_variable_types_after(text: Seq<char>)
    ensures
        ({
            let others = gurobi::log_in(text).other_data;
            let all = matching::regex_captures_iter(
                r"Variable types:\s+(\d+)\s+continuous,\s+(\d+)\s+integer\s+\((\d+)\s+binary\)"@,
                text,
            );
            &&& all.len() > 1
                ==> layout::field(others, "gurobi.variable_types_after_presolve"@, "continuous"@)
                    == Some(
                        layout::count_or(
                            layout::part_of(Some(all[all.len() - 1]), 1),
                            Json::Count(0),
                        ),
                    )
            &&& all.len() > 1
                ==> layout::field(others, "gurobi.variable_types_after_presolve"@, "integer"@)
                    == Some(
                        layout::count_or(
                            layout::part_of(Some(all[all.len() - 1]), 2),
                            Json::Count(0),
                        ),
                    )
            &&& all.len() > 1
                ==> layout::field(others, "gurobi.variable_types_after_presolve"@, "binary"@)
                    == Some(
                        layout::count_or(
                            layout::part_of(Some(all[all.len() - 1]), 3),
                            Json::Count(0),
                        ),
                    )
            &&& !(all.len() > 1)
                ==> layout::entry(others, "gurobi.variable_types_after_presolve"@) is None
        }),
{
    let made = gurobi::types_after(matching::regex_captures_iter(gurobi::VARIABLE_TYPES@, text));
    assert(
        layout::entry(gurobi::log_in(text).other_data, "gurobi.variable_types_after_presolve"@)
            == made
    ) by {
        reveal(gurobi::log_in);
        layout::lemma_no_fields();
        reveal_strlit("gurobi.coefficient_ranges");
        reveal_strlit("gurobi.variable_types_before_presolve");
        reveal_strlit("gurobi.variable_types_after_presolve");
        reveal_strlit("gurobi.machine");
        reveal_strlit("gurobi.pre_bb_heuristic_solutions");
        reveal_strlit("gurobi.solution_pool");
        reveal_strlit("gurobi.model_fingerprint");
        reveal_strlit("gurobi.optimality_tolerance");
        reveal_strlit("gurobi.work_units");
        assert("gurobi.variable_types_after_presolve"@.len() != "gurobi.coefficient_ranges"@.len());
        assert(
            "gurobi.variable_types_after_presolve"@.len() != "gurobi.variable_types_before_presolve"@.len()
        );
        assert("gurobi.variable_types_after_presolve"@.len() != "gurobi.machine"@.len());
        assert(
            "gurobi.variable_types_after_presolve"@.len() != "gurobi.pre_bb_heuristic_solutions"@.len()
        );
        assert("gurobi.variable_types_after_presolve"@.len() != "gurobi.solution_pool"@.len());
        assert("gurobi.variable_types_after_presolve"@.len() != "gurobi.model_fingerprint"@.len());
        assert(
            "gurobi.variable_types_after_presolve"@.len() != "gurobi.optimality_tolerance"@.len()
        );
        assert("gurobi.variable_types_after_presolve"@.len() != "gurobi.work_units"@.len());
        layout::lemma_other("gurobi.coefficient_ranges"@, "gurobi.variable_types_after_presolve"@);
        layout::lemma_other(
            "gurobi.variable_types_before_presolve"@,
            "gurobi.variable_types_after_presolve"@,
        );
        layout::lemma_other(
            "gurobi.variable_types_after_presolve"@,
            "gurobi.variable_types_after_presolve"@,
        );
        layout::lemma_other("gurobi.machine"@, "gurobi.variable_types_after_presolve"@);
        layout::lemma_other(
            "gurobi.pre_bb_heuristic_solutions"@,
            "gurobi.variable_types_after_presolve"@,
        );
        layout::lemma_other("gurobi.solution_pool"@, "gurobi.variable_types_after_presolve"@);
        layout::lemma_other("gurobi.model_fingerprint"@, "gurobi.variable_types_after_presolve"@);
        layout::lemma_other(
            "gurobi.optimality_tolerance"@,
            "gurobi.variable_types_after_presolve"@,
        );
        layout::lemma_other("gurobi.work_units"@, "gurobi.variable_types_after_presolve"@);
    }
    reveal_strlit("continuous");
    reveal_strlit("integer");
    reveal_strlit("binary");
    assert("continuous"@.len() != "integer"@.len());
    assert("continuous"@.len() != "binary"@.len());
    assert("integer"@.len() != "binary"@.len());
    layout::lemma_put("continuous"@);
    layout::lemma_put("integer"@);
    layout::lemma_put("binary"@);
    layout::lemma_no_fields();
}

/// What the rest of the other data is read from.
pub proof fn law_sources_of_the_other_data(text: Seq<char>)
    ensures
        layout::entry(gurobi::log_in(text).other_data, "gurobi.coefficient_ranges"@)
            == json::object_of(
                entries::ranges_of(
                    matching::block_rows(
                        r"(?m)^Coefficient statistics:"@,
                        r"^\s+(Matrix|Objective|Bounds|RHS) range\s+\[([^,]+),\s*([^\]]+)\]"@,
                        8,
                        true,
                        Margin::TwoBlanks,
                        text,
                    ),
                    true,
                ),
            ),
        layout::entry(gurobi::log_in(text).other_data, "gurobi.pre_bb_heuristic_solutions"@)
            == json::array_of(
                entries::finite_numbers(
                    entries::column(
                        matching::regex_captures_iter(
                            r"Found heuristic solution:\s+objective\s+([-\d.eE+]+)"@,
                            text,
                        ),
                        1,
                    ),
                ),
            ),
        layout::entry(gurobi::log_in(text).other_data, "gurobi.solution_pool"@)
            == gurobi::pool_from(matching::regex_captures(r"Solution count (\d+):\s+(.+)"@, text)),
{
    assert(
        layout::entry(gurobi::log_in(text).other_data, "gurobi.coefficient_ranges"@)
            == json::object_of(
                entries::ranges_of(
                    matching::block_rows(
                        gurobi::RANGES_HEADER@,
                        gurobi::RANGES_ROW@,
                        8,
                        true,
                        Margin::TwoBlanks,
                        text,
                    ),
                    true,
                ),
            )
    ) by {
        reveal(gurobi::log_in);
        layout::lemma_no_fields();
        reveal_strlit("gurobi.coefficient_ranges");
        reveal_strlit("gurobi.variable_types_before_presolve");
        reveal_strlit("gurobi.variable_types_after_presolve");
        reveal_strlit("gurobi.machine");
        reveal_strlit("gurobi.pre_bb_heuristic_solutions");
        reveal_strlit("gurobi.solution_pool");
        reveal_strlit("gurobi.model_fingerprint");
        reveal_strlit("gurobi.optimality_tolerance");
        reveal_strlit("gurobi.work_units");
        assert(
            "gurobi.coefficient_ranges"@.len() != "gurobi.variable_types_before_presolve"@.len()
        );
        assert("gurobi.coefficient_ranges"@.len() != "gurobi.variable_types_after_presolve"@.len());
        assert("gurobi.coefficient_ranges"@.len() != "gurobi.machine"@.len());
        assert("gurobi.coefficient_ranges"@.len() != "gurobi.pre_bb_heuristic_solutions"@.len());
        assert("gurobi.coefficient_ranges"@.len() != "gurobi.solution_pool"@.len());
        assert("gurobi.coefficient_ranges"@.len() != "gurobi.model_fingerprint"@.len());
        assert("gurobi.coefficient_ranges"@.len() != "gurobi.optimality_tolerance"@.len());
        assert("gurobi.coefficient_ranges"@.len() != "gurobi.work_units"@.len());
        layout::lemma_other("gurobi.coefficient_ranges"@, "gurobi.coefficient_ranges"@);
        layout::lemma_other("gurobi.variable_types_before_presolve"@, "gurobi.coefficient_ranges"@);
        layout::lemma_other("gurobi.variable_types_after_presolve"@, "gurobi.coefficient_ranges"@);
        layout::lemma_other("gurobi.machine"@, "gurobi.coefficient_ranges"@);
        layout::lemma_other("gurobi.pre_bb_heuristic_solutions"@, "gurobi.coefficient_ranges"@);
        layout::lemma_other("gurobi.solution_pool"@, "gurobi.coefficient_ranges"@);
        layout::lemma_other("gurobi.model_fingerprint"@, "gurobi.coefficient_ranges"@);
        layout::lemma_other("gurobi.optimality_tolerance"@, "gurobi.coefficient_ranges"@);
        layout::lemma_other("gurobi.work_units"@, "gurobi.coefficient_ranges"@);
    }
    assert(
        layout::entry(gurobi::log_in(text).other_data, "gurobi.pre_bb_heuristic_solutions"@)
            == json::array_of(
                entries::finite_numbers(
                    entries::column(matching::regex_captures_iter(gurobi::HEURISTIC@, text), 1),
                ),
            )
    ) by {
        reveal(gurobi::log_in);
        layout::lemma_no_fields();
        reveal_strlit("gurobi.coefficient_ranges");
        reveal_strlit("gurobi.variable_types_before_presolve");
        reveal_strlit("gurobi.variable_types_after_presolve");
        reveal_strlit("gurobi.machine");
        reveal_strlit("gurobi.pre_bb_heuristic_solutions");
        reveal_strlit("gurobi.solution_pool");
        reveal_strlit("gurobi.model_fingerprint");
        reveal_strlit("gurobi.optimality_tolerance");
        reveal_strlit("gurobi.work_units");
        assert("gurobi.pre_bb_heuristic_solutions"@.len() != "gurobi.coefficient_ranges"@.len());
        assert(
            "gurobi.pre_bb_heuristic_solutions"@.len() != "gurobi.variable_types_before_presolve"@.len()
        );
        assert(
            "gurobi.pre_bb_heuristic_solutions"@.len() != "gurobi.variable_types_after_presolve"@.len()
        );
        assert("gurobi.pre_bb_heuristic_solutions"@.len() != "gurobi.machine"@.len());
        assert("gurobi.pre_bb_heuristic_solutions"@.len() != "gurobi.solution_pool"@.len());
        assert("gurobi.pre_bb_heuristic_solutions"@.len() != "gurobi.model_fingerprint"@.len());
        assert("gurobi.pre_bb_heuristic_solutions"@.len() != "gurobi.optimality_tolerance"@.len());
        assert("gurobi.pre_bb_heuristic_solutions"@.len() != "gurobi.work_units"@.len());
        layout::lemma_other("gurobi.coefficient_ranges"@, "gurobi.pre_bb_heuristic_solutions"@);
        layout::lemma_other(
            "gurobi.variable_types_before_presolve"@,
            "gurobi.pre_bb_heuristic_solutions"@,
        );
        layout::lemma_other(
            "gurobi.variable_types_after_presolve"@,
            "gurobi.pre_bb_heuristic_solutions"@,
        );
        layout::lemma_other("gurobi.machine"@, "gurobi.pre_bb_heuristic_solutions"@);
        layout::lemma_other(
            "gurobi.pre_bb_heuristic_solutions"@,
            "gurobi.pre_bb_heuristic_solutions"@,
        );
        layout::lemma_other("gurobi.solution_pool"@, "gurobi.pre_bb_heuristic_solutions"@);
        layout::lemma_other("gurobi.model_fingerprint"@, "gurobi.pre_bb_heuristic_solutions"@);
        layout::lemma_other("gurobi.optimality_tolerance"@, "gurobi.pre_bb_heuristic_solutions"@);
        layout::lemma_other("gurobi.work_units"@, "gurobi.pre_bb_heuristic_solutions"@);
    }
    assert(
        layout::entry(gurobi::log_in(text).other_data, "gurobi.solution_pool"@)
            == gurobi::pool_from(matching::regex_captures(gurobi::SOLUTION_POOL@, text))
    ) by {
        reveal(gurobi::log_in);
        layout::lemma_no_fields();
        reveal_strlit("gurobi.coefficient_ranges");
        reveal_strlit("gurobi.variable_types_before_presolve");
        reveal_strlit("gurobi.variable_types_after_presolve");
        reveal_strlit("gurobi.machine");
        reveal_strlit("gurobi.pre_bb_heuristic_solutions");
        reveal_strlit("gurobi.solution_pool");
        reveal_strlit("gurobi.model_fingerprint");
        reveal_strlit("gurobi.optimality_tolerance");
        reveal_strlit("gurobi.work_units");
        assert("gurobi.solution_pool"@.len() != "gurobi.coefficient_ranges"@.len());
        assert("gurobi.solution_pool"@.len() != "gurobi.variable_types_before_presolve"@.len());
        assert("gurobi.solution_pool"@.len() != "gurobi.variable_types_after_presolve"@.len());
        assert("gurobi.solution_pool"@.len() != "gurobi.machine"@.len());
        assert("gurobi.solution_pool"@.len() != "gurobi.pre_bb_heuristic_solutions"@.len());
        assert("gurobi.solution_pool"@.len() != "gurobi.model_fingerprint"@.len());
        assert("gurobi.solution_pool"@.len() != "gurobi.optimality_tolerance"@.len());
        assert("gurobi.solution_pool"@.len() != "gurobi.work_units"@.len());
        layout::lemma_other("gurobi.coefficient_ranges"@, "gurobi.solution_pool"@);
        layout::lemma_other("gurobi.variable_types_before_presolve"@, "gurobi.solution_pool"@);
        layout::lemma_other("gurobi.variable_types_after_presolve"@, "gurobi.solution_pool"@);
        layout::lemma_other("gurobi.machine"@, "gurobi.solution_pool"@);
        layout::lemma_other("gurobi.pre_bb_heuristic_solutions"@, "gurobi.solution_pool"@);
        layout::lemma_other("gurobi.solution_pool"@, "gurobi.solution_pool"@);
        layout::lemma_other("gurobi.model_fingerprint"@, "gurobi.solution_pool"@);
        layout::lemma_other("gurobi.optimality_tolerance"@, "gurobi.solution_pool"@);
        layout::lemma_other("gurobi.work_units"@, "gurobi.solution_pool"@);
    }
}

/// The cuts are those of the block below their heading, and the depth is that
/// of the deepest row.
pub proof fn law_cuts_and_depth(text: Seq<char>)
    ensures
        gurobi::log_in(text).cuts
            == progress::cuts_of(
                matching::block_rows(
                    r"(?m)^Cutting [Pp]lanes:"@,
                    r"^\s+([A-Za-z][A-Za-z0-9 \-]*?):\s+(\d+)"@,
                    usize::MAX as int,
                    true,
                    Margin::Space,
                    text,
                ),
                true,
                false,
            ),
        gurobi::log_in(text).tree.max_depth == progress::deepest(gurobi::log_in(text).progress),
{
    reveal(gurobi::log_in);
}

} // verus!
