//! What a CBC log says, and where.

use crate::chars;
use crate::json::Json;
use crate::json;
use crate::laws::layout;
use crate::matching;
use crate::numbers;
use crate::quantity::Unit;
use crate::schema::{EventView, RowView, Status};
use crate::solvers::cbc;
use crate::solvers::progress;
use vstd::prelude::*;

verus! {

/// What a CBC log is known by.
pub proof fn law_recognized(text: Seq<char>)
    ensures
        cbc::looks_right(text)
            <==> chars::contains(text, "Welcome to the CBC MILP Solver"@)
                || (chars::contains(text, "Cbc0"@) && chars::contains(text, "CBC"@)),
{
}

/// The times are those behind their words: of the processor and of the clock.
pub proof fn law_times(text: Seq<char>)
    ensures
        ({
            let log = cbc::log_in(text);
            let total_time = r"Total time \(CPU seconds\):\s+([\d.]+)\s+\(Wallclock seconds\):\s+([\d.]+)"@;
            let partial_search = r"Cbc0005I.*took\s+([\d,]+)\s+iterations\s+and\s+([\d,]+)\s+nodes\s+\(([\d.]+)\s+seconds\)"@;
            &&& log.timing.cpu_seconds == layout::number(layout::said(total_time, text, 1), Unit::One)
            &&& log.timing.wall_seconds
                == (
                    if layout::number(layout::said(total_time, text, 2), Unit::One) is Some {
                        layout::number(layout::said(total_time, text, 2), Unit::One)
                    } else {
                        layout::number(layout::said(partial_search, text, 3), Unit::One)
                    }
                )
            &&& log.timing.reading_seconds is None
            &&& log.timing.presolve_seconds is None
            &&& log.timing.root_relaxation_seconds is None
        }),
{
    reveal(cbc::log_in);
    layout::lemma_commas();
}

/// The objective is the primal bound and the lower bound the dual one; the
/// gap is the fraction that the log writes. An optimal run without a lower
/// bound has none left.
pub proof fn law_bounds(text: Seq<char>)
    ensures
        ({
            let log = cbc::log_in(text);
            let objective = r"Objective value:\s+([-\d.eE+]+)"@;
            let lp_objective = r"Optimal(?:\s+-\s+| )objective(?:\s+value)?\s+([-\d.eE+]+)"@;
            let lower_bound = r"Lower bound:\s+([-\d.eE+]+)"@;
            let gap = r"(?m)^Gap:\s+([\d.]+)"@;
            let root_bound = r"At root node, \d+ cuts changed objective from\s+([-\d.eE+]+)\s+to\s+([-\d.eE+]+)"@;
            let first_solution = r"Integer solution of\s+([-\d.eE+]+)\s+found by feasibility pump after \d+ iterations and \d+ nodes \(([\d.]+)\s+seconds\)"@;
            &&& layout::matches_in(objective, text)
                ==> log.bounds.primal == layout::number(layout::said(objective, text, 1), Unit::One)
            &&& !layout::matches_in(objective, text)
                ==> log.bounds.primal
                    == layout::number(layout::said(lp_objective, text, 1), Unit::One)
            &&& layout::number(layout::said(lower_bound, text, 1), Unit::One) is Some
                ==> log.bounds.dual == layout::number(layout::said(lower_bound, text, 1), Unit::One)
                    && log.bounds.gap == layout::number(layout::said(gap, text, 1), Unit::One)
            &&& layout::number(layout::said(lower_bound, text, 1), Unit::One) is None
                && log.termination.status != Status::Optimal
                ==> log.bounds.dual is None
                    && log.bounds.gap == layout::number(layout::said(gap, text, 1), Unit::One)
            &&& layout::number(layout::said(lower_bound, text, 1), Unit::One) is None
                && log.termination.status == Status::Optimal
                ==> log.bounds.dual == log.bounds.primal
                    && log.bounds.gap == Some(layout::number_in("0"@, Unit::One))
            &&& log.bounds.root_dual == layout::number(layout::said(root_bound, text, 2), Unit::One)
            &&& log.bounds.first_primal
                == layout::number(layout::said(first_solution, text, 1), Unit::One)
            &&& log.bounds.first_primal_time_seconds
                == layout::number(layout::said(first_solution, text, 2), Unit::One)
            &&& log.bounds.primal_dual_integral is None
        }),
{
    reveal(cbc::log_in);
    layout::lemma_commas();
}

/// The counts of the search are those beside their words.
pub proof fn law_counts(text: Seq<char>)
    ensures
        ({
            let log = cbc::log_in(text);
            let partial_search = r"Cbc0005I.*took\s+([\d,]+)\s+iterations\s+and\s+([\d,]+)\s+nodes\s+\(([\d.]+)\s+seconds\)"@;
            let enumerated_nodes = r"Enumerated nodes:\s+([\d,]+)"@;
            let total_iterations = r"Total iterations:\s+([\d,]+)"@;
            let max_depth = r"Maximum depth\s+(\d+)"@;
            &&& log.tree.nodes_explored
                == (
                    if layout::count(layout::said(partial_search, text, 2)) is Some {
                        layout::count(layout::said(partial_search, text, 2))
                    } else {
                        layout::count(layout::said(enumerated_nodes, text, 1))
                    }
                )
            &&& log.tree.simplex_iterations
                == (
                    if layout::count(layout::said(partial_search, text, 1)) is Some {
                        layout::count(layout::said(partial_search, text, 1))
                    } else {
                        layout::count(layout::said(total_iterations, text, 1))
                    }
                )
            &&& log.tree.max_depth == layout::small(layout::said(max_depth, text, 1))
            &&& log.tree.solutions_found is None
            &&& log.tree.restarts is None
        }),
{
    reveal(cbc::log_in);
    layout::lemma_commas();
}

/// The sizes of the model are the numbers before `rows`, `columns` and
/// `elements`.
pub proof fn law_sizes(text: Seq<char>)
    ensures
        ({
            let log = cbc::log_in(text);
            let problem = r"Problem\s+(\S+)\s+has\s+([\d,]+)\s+rows,\s+([\d,]+)\s+columns\s+and\s+([\d,]+)\s+elements"@;
            let processed = r"processed model has\s+([\d,]+)\s+rows,\s+([\d,]+)\s+columns\b.*?\band\s+([\d,]+)\s+elements"@;
            &&& log.presolve.rows_before == layout::count(layout::said(problem, text, 2))
            &&& log.presolve.cols_before == layout::count(layout::said(problem, text, 3))
            &&& log.presolve.nonzeros_before == layout::count(layout::said(problem, text, 4))
            &&& log.presolve.rows_after == layout::count(layout::said(processed, text, 1))
            &&& log.presolve.cols_after == layout::count(layout::said(processed, text, 2))
            &&& log.presolve.nonzeros_after == layout::count(layout::said(processed, text, 3))
        }),
{
    reveal(cbc::log_in);
    layout::lemma_commas();
}

/// The version and the problem are those that the log names.
pub proof fn law_identity(text: Seq<char>)
    ensures
        ({
            let log = cbc::log_in(text);
            let version = r"Version:\s*(\d+\.\d+\.\d+)"@;
            let problem = r"Problem\s+(\S+)\s+has\s+([\d,]+)\s+rows,\s+([\d,]+)\s+columns\s+and\s+([\d,]+)\s+elements"@;
            &&& log.version == layout::said(version, text, 1)
            &&& log.problem == layout::said(problem, text, 1)
            &&& log.solver_git_hash is None
        }),
{
    reveal(cbc::log_in);
    layout::lemma_commas();
}

/// A line on the progress gives a row: the best solution is the primal bound,
/// unless it stands for none, and the best possible value the dual one.
pub proof fn law_progress_row(text: Seq<char>)
    requires
        chars::contains(text, "Cbc0010I"@),
        layout::matches_in(
            r"Cbc0010I After\s+([\d,]+)\s+nodes,\s+([\d,]+)\s+on tree,\s+([-\d.eE+]+)\s+best solution,\s+best possible\s+([-\d.eE+]+)\s+\(([\d.]+)\s+seconds\)"@,
            text,
        ),
        layout::number(
            layout::said(
                r"Cbc0010I After\s+([\d,]+)\s+nodes,\s+([\d,]+)\s+on tree,\s+([-\d.eE+]+)\s+best solution,\s+best possible\s+([-\d.eE+]+)\s+\(([\d.]+)\s+seconds\)"@,
                text,
                5,
            ),
            Unit::One,
        ) is Some,
    ensures
        cbc::row_in(text) == Some(
            RowView {
                time_seconds: layout::number(
                    layout::said(
                        r"Cbc0010I After\s+([\d,]+)\s+nodes,\s+([\d,]+)\s+on tree,\s+([-\d.eE+]+)\s+best solution,\s+best possible\s+([-\d.eE+]+)\s+\(([\d.]+)\s+seconds\)"@,
                        text,
                        5,
                    ),
                    Unit::One,
                )->Some_0,
                nodes_explored: layout::count(
                    layout::said(
                        r"Cbc0010I After\s+([\d,]+)\s+nodes,\s+([\d,]+)\s+on tree,\s+([-\d.eE+]+)\s+best solution,\s+best possible\s+([-\d.eE+]+)\s+\(([\d.]+)\s+seconds\)"@,
                        text,
                        1,
                    ),
                ),
                primal: if layout::said(
                    r"Cbc0010I After\s+([\d,]+)\s+nodes,\s+([\d,]+)\s+on tree,\s+([-\d.eE+]+)\s+best solution,\s+best possible\s+([-\d.eE+]+)\s+\(([\d.]+)\s+seconds\)"@,
                    text,
                    3,
                ) is Some
                    && numbers::reaches(
                        layout::said(
                            r"Cbc0010I After\s+([\d,]+)\s+nodes,\s+([\d,]+)\s+on tree,\s+([-\d.eE+]+)\s+best solution,\s+best possible\s+([-\d.eE+]+)\s+\(([\d.]+)\s+seconds\)"@,
                            text,
                            3,
                        )->Some_0,
                        "10000000000000000908248938234318254243840"@,
                    ) {
                    None
                } else {
                    layout::number(
                        layout::said(
                            r"Cbc0010I After\s+([\d,]+)\s+nodes,\s+([\d,]+)\s+on tree,\s+([-\d.eE+]+)\s+best solution,\s+best possible\s+([-\d.eE+]+)\s+\(([\d.]+)\s+seconds\)"@,
                            text,
                            3,
                        ),
                        Unit::One,
                    )
                },
                dual: layout::number(
                    layout::said(
                        r"Cbc0010I After\s+([\d,]+)\s+nodes,\s+([\d,]+)\s+on tree,\s+([-\d.eE+]+)\s+best solution,\s+best possible\s+([-\d.eE+]+)\s+\(([\d.]+)\s+seconds\)"@,
                        text,
                        4,
                    ),
                    Unit::One,
                ),
                gap: None,
                depth: None,
                lp_iterations: None,
                event: None,
            },
        ),
{
    layout::lemma_commas();
    lemma_empty_is_no_number();
}

proof fn lemma_empty_is_no_number()
    ensures
        !numbers::is_real(Seq::empty()),
        !numbers::reaches(Seq::empty(), numbers::SENTINEL@),
{
    reveal_strlit("inf");
    reveal_strlit("infinity");
    reveal_strlit("nan");
    let none = Seq::<char>::empty();
    assert(numbers::unsign(none) == none);
    assert(chars::ascii_lowered(none).len() == 0);
    assert(numbers::exponent_at(none) == 0);
    assert(chars::index_of(none, '.') == 0);
    assert(!numbers::is_decimal(none));
}

/// A line on an integer solution gives a row with its value, and the event is
/// that a heuristic found it.
pub proof fn law_incumbent_row(text: Seq<char>)
    requires
        chars::contains(text, "Cbc0004I"@),
        !chars::contains(text, "Cbc0010I"@),
        layout::matches_in(
            r"Cbc0004I Integer solution of\s+([-\d.eE+]+)\s+found after\s+([\d,]+)\s+iterations and\s+([\d,]+)\s+nodes\s+\(([\d.]+)\s+seconds\)"@,
            text,
        ),
        layout::number(
            layout::said(
                r"Cbc0004I Integer solution of\s+([-\d.eE+]+)\s+found after\s+([\d,]+)\s+iterations and\s+([\d,]+)\s+nodes\s+\(([\d.]+)\s+seconds\)"@,
                text,
                4,
            ),
            Unit::One,
        ) is Some,
    ensures
        cbc::row_in(text) == Some(
            RowView {
                time_seconds: layout::number(
                    layout::said(
                        r"Cbc0004I Integer solution of\s+([-\d.eE+]+)\s+found after\s+([\d,]+)\s+iterations and\s+([\d,]+)\s+nodes\s+\(([\d.]+)\s+seconds\)"@,
                        text,
                        4,
                    ),
                    Unit::One,
                )->Some_0,
                nodes_explored: layout::count(
                    layout::said(
                        r"Cbc0004I Integer solution of\s+([-\d.eE+]+)\s+found after\s+([\d,]+)\s+iterations and\s+([\d,]+)\s+nodes\s+\(([\d.]+)\s+seconds\)"@,
                        text,
                        3,
                    ),
                ),
                primal: layout::number(
                    layout::said(
                        r"Cbc0004I Integer solution of\s+([-\d.eE+]+)\s+found after\s+([\d,]+)\s+iterations and\s+([\d,]+)\s+nodes\s+\(([\d.]+)\s+seconds\)"@,
                        text,
                        1,
                    ),
                    Unit::One,
                ),
                dual: None,
                gap: None,
                depth: None,
                lp_iterations: layout::count(
                    layout::said(
                        r"Cbc0004I Integer solution of\s+([-\d.eE+]+)\s+found after\s+([\d,]+)\s+iterations and\s+([\d,]+)\s+nodes\s+\(([\d.]+)\s+seconds\)"@,
                        text,
                        2,
                    ),
                ),
                event: Some(EventView::Heuristic),
            },
        ),
{
    layout::lemma_commas();
}

/// What the words of a result mean: an answer before a limit.
pub proof fn law_result_words(s: Seq<char>)
    ensures
        ({
            let status = cbc::result_status(s);
            let optimal = chars::contains(s, "Optimal"@);
            let infeasible = chars::contains(s, "Infeasible"@) || chars::contains(s, "infeasible"@);
            let unbounded = chars::contains(s, "Unbounded"@) || chars::contains(s, "unbounded"@);
            let answered = optimal || infeasible || unbounded;
            let time = chars::contains(s, "time limit"@) || chars::contains(s, "Stopped on time"@);
            let limit = chars::contains(s, "node limit"@) || chars::contains(s, "iteration limit"@);
            &&& status == Status::Optimal <==> optimal
            &&& status == Status::Infeasible <==> !optimal && infeasible
            &&& status == Status::Unbounded <==> !optimal && !infeasible && unbounded
            &&& status == Status::TimeLimit <==> !answered && time
            &&& status == Status::OtherLimit <==> !answered && !time && limit
            &&& status == Status::Unknown <==> !answered && !time && !limit
        }),
{
}

/// The first line that starts with `Result - ` gives the reason, and its words
/// the status.
pub proof fn law_first_result_counts(
    text: Seq<char>,
    before: Seq<Seq<char>>,
    line: Seq<char>,
    after: Seq<Seq<char>>,
    words: Seq<char>,
)
    requires
        chars::lines(text) == before + seq![line] + after,
        forall|i: int|
            0 <= i < before.len() ==> !chars::starts_with(
                chars::trimmed(#[trigger] before[i]),
                "Result - "@,
            ),
        chars::trimmed(line) == "Result - "@ + words,
    ensures
        cbc::log_in(text).termination.raw_reason == Some(words),
        cbc::log_in(text).termination.status == cbc::result_status(words),
{
    reveal(cbc::log_in);
    layout::law_first_label_counts(before, line, after, "Result - "@, words);
}

/// Without a result, what the rest of the log says counts.
pub proof fn law_without_a_result(text: Seq<char>)
    requires
        forall|i: int|
            0 <= i < chars::lines(text).len() ==> !chars::starts_with(
                chars::trimmed(#[trigger] chars::lines(text)[i]),
                "Result - "@,
            ),
    ensures
        ({
            let log = cbc::log_in(text);
            let t = log.termination;
            let done = chars::contains(text, "Search completed"@);
            let lp = chars::contains(text, "Optimal - objective value"@)
                || chars::contains(text, "Optimal objective "@);
            let infeasible = chars::contains(text, "Problem is infeasible"@);
            &&& t.status == Status::Optimal <==> done || lp
            &&& t.status == Status::Infeasible <==> !done && !lp && infeasible
            &&& t.status == Status::Unknown <==> !done && !lp && !infeasible
            &&& done ==> t.raw_reason == Some("Search completed"@)
            &&& !done && lp ==> t.raw_reason == Some("Optimal"@)
            &&& t.status == Status::Infeasible ==> t.raw_reason == Some("Problem is infeasible"@)
            &&& t.status == Status::Unknown ==> t.raw_reason is None
        }),
{
    reveal(cbc::log_in);
    layout::lemma_no_label(chars::lines(text), "Result - "@);
}

/// The rows are the lines that are one, in their order.
pub proof fn law_rows(
    text: Seq<char>,
    before: Seq<Seq<char>>,
    line: Seq<char>,
    after: Seq<Seq<char>>,
)
    requires
        chars::lines(text) == before + (seq![line] + after),
        forall|i: int| 0 <= i < before.len() ==> cbc::row_in(#[trigger] before[i]) is None,
        cbc::row_in(line) is Some,
    ensures
        cbc::log_in(text).progress.len() > 0,
        cbc::log_in(text).progress[0] == cbc::row_in(line)->Some_0,
        after.len() == 0 ==> cbc::log_in(text).progress == seq![cbc::row_in(line)->Some_0],
{
    reveal(cbc::log_in);
    layout::lemma_closed(cbc::CbcTable, before, seq![line] + after);
    assert((seq![line] + after).skip(1) =~= after);
    if after.len() == 0 {
        assert(
            progress::rows_from(cbc::CbcTable, after, progress::at_start(), true) =~= Seq::empty()
        );
    }
    assert(
        seq![cbc::row_in(line)->Some_0]
            + Seq::<RowView>::empty() =~= seq![cbc::row_in(line)->Some_0]
    );
}

/// What strong branching did stands under the names of its figures.
pub proof fn law_strong_branching(text: Seq<char>)
    ensures
        ({
            let others = cbc::log_in(text).other_data;
            let strong_branching = matching::regex_captures(
                r"Strong branching done (\d+) times \((\d+) iterations\), fathomed (\d+) nodes and fixed (\d+) variables"@,
                text,
            );
            &&& layout::field(others, "cbc.strong_branching"@, "times"@)
                == (
                    if strong_branching is Some {
                        Some(layout::told(layout::part_of(strong_branching, 1)))
                    } else {
                        None
                    }
                )
            &&& layout::field(others, "cbc.strong_branching"@, "iterations"@)
                == (
                    if strong_branching is Some {
                        Some(layout::told(layout::part_of(strong_branching, 2)))
                    } else {
                        None
                    }
                )
            &&& layout::field(others, "cbc.strong_branching"@, "fathomed_nodes"@)
                == (
                    if strong_branching is Some {
                        Some(layout::told(layout::part_of(strong_branching, 3)))
                    } else {
                        None
                    }
                )
            &&& layout::field(others, "cbc.strong_branching"@, "fixed_variables"@)
                == (
                    if strong_branching is Some {
                        Some(layout::told(layout::part_of(strong_branching, 4)))
                    } else {
                        None
                    }
                )
        }),
{
    let made = cbc::branching_from(matching::regex_captures(cbc::STRONG_BRANCHING@, text));
    assert(layout::entry(cbc::log_in(text).other_data, "cbc.strong_branching"@) == made) by {
        reveal(cbc::log_in);
        layout::lemma_no_fields();
        reveal_strlit("cbc.cut_generators");
        reveal_strlit("cbc.strong_branching");
        reveal_strlit("cbc.root_lp");
        reveal_strlit("cbc.continuous_objective");
        assert("cbc.strong_branching"@.len() != "cbc.cut_generators"@.len());
        assert("cbc.strong_branching"@.len() != "cbc.root_lp"@.len());
        assert("cbc.strong_branching"@.len() != "cbc.continuous_objective"@.len());
        layout::lemma_other("cbc.cut_generators"@, "cbc.strong_branching"@);
        layout::lemma_other("cbc.strong_branching"@, "cbc.strong_branching"@);
        layout::lemma_other("cbc.root_lp"@, "cbc.strong_branching"@);
        layout::lemma_other("cbc.continuous_objective"@, "cbc.strong_branching"@);
    }
    reveal_strlit("times");
    reveal_strlit("iterations");
    reveal_strlit("fathomed_nodes");
    reveal_strlit("fixed_variables");
    assert("times"@.len() != "iterations"@.len());
    assert("times"@.len() != "fathomed_nodes"@.len());
    assert("times"@.len() != "fixed_variables"@.len());
    assert("iterations"@.len() != "fathomed_nodes"@.len());
    assert("iterations"@.len() != "fixed_variables"@.len());
    assert("fathomed_nodes"@.len() != "fixed_variables"@.len());
    layout::lemma_put("times"@);
    layout::lemma_put("iterations"@);
    layout::lemma_put("fathomed_nodes"@);
    layout::lemma_put("fixed_variables"@);
    layout::lemma_no_fields();
}

/// What the cuts did at the root stands under the names of its figures.
pub proof fn law_root_lp(text: Seq<char>)
    ensures
        ({
            let others = cbc::log_in(text).other_data;
            let root_lp = matching::regex_captures(
                r"At root node, (\d+) cuts changed objective from\s+([-\d.eE+]+)\s+to\s+([-\d.eE+]+)\s+in\s+(\d+)\s+passes"@,
                text,
            );
            &&& layout::field(others, "cbc.root_lp"@, "cuts"@)
                == (
                    if root_lp is Some {
                        Some(layout::told(layout::part_of(root_lp, 1)))
                    } else {
                        None
                    }
                )
            &&& layout::field(others, "cbc.root_lp"@, "objective_before"@)
                == (
                    if root_lp is Some {
                        Some(layout::told(layout::part_of(root_lp, 2)))
                    } else {
                        None
                    }
                )
            &&& layout::field(others, "cbc.root_lp"@, "objective_after"@)
                == (
                    if root_lp is Some {
                        Some(layout::told(layout::part_of(root_lp, 3)))
                    } else {
                        None
                    }
                )
            &&& layout::field(others, "cbc.root_lp"@, "passes"@)
                == (
                    if root_lp is Some {
                        Some(layout::told(layout::part_of(root_lp, 4)))
                    } else {
                        None
                    }
                )
        }),
{
    let made = cbc::root_from(matching::regex_captures(cbc::ROOT_LP@, text));
    assert(layout::entry(cbc::log_in(text).other_data, "cbc.root_lp"@) == made) by {
        reveal(cbc::log_in);
        layout::lemma_no_fields();
        reveal_strlit("cbc.cut_generators");
        reveal_strlit("cbc.strong_branching");
        reveal_strlit("cbc.root_lp");
        reveal_strlit("cbc.continuous_objective");
        assert("cbc.root_lp"@.len() != "cbc.cut_generators"@.len());
        assert("cbc.root_lp"@.len() != "cbc.strong_branching"@.len());
        assert("cbc.root_lp"@.len() != "cbc.continuous_objective"@.len());
        layout::lemma_other("cbc.cut_generators"@, "cbc.root_lp"@);
        layout::lemma_other("cbc.strong_branching"@, "cbc.root_lp"@);
        layout::lemma_other("cbc.root_lp"@, "cbc.root_lp"@);
        layout::lemma_other("cbc.continuous_objective"@, "cbc.root_lp"@);
    }
    reveal_strlit("cuts");
    reveal_strlit("objective_before");
    reveal_strlit("objective_after");
    reveal_strlit("passes");
    assert("cuts"@.len() != "objective_before"@.len());
    assert("cuts"@.len() != "objective_after"@.len());
    assert("cuts"@.len() != "passes"@.len());
    assert("objective_before"@.len() != "objective_after"@.len());
    assert("objective_before"@.len() != "passes"@.len());
    assert("objective_after"@.len() != "passes"@.len());
    layout::lemma_put("cuts"@);
    layout::lemma_put("objective_before"@);
    layout::lemma_put("objective_after"@);
    layout::lemma_put("passes"@);
    layout::lemma_no_fields();
}

/// So do the value and the time of the relaxation.
pub proof fn law_continuous_objective(text: Seq<char>)
    ensures
        ({
            let others = cbc::log_in(text).other_data;
            let continuous = matching::regex_captures(
                r"Continuous objective value is\s+([-\d.eE+]+)\s+-\s+([\d.]+)\s+seconds"@,
                text,
            );
            &&& layout::field(others, "cbc.continuous_objective"@, "value"@)
                == (
                    if continuous is Some {
                        Some(layout::told(layout::part_of(continuous, 1)))
                    } else {
                        None
                    }
                )
            &&& layout::field(others, "cbc.continuous_objective"@, "time_seconds"@)
                == (
                    if continuous is Some {
                        Some(layout::told(layout::part_of(continuous, 2)))
                    } else {
                        None
                    }
                )
        }),
{
    let made = cbc::continuous_from(matching::regex_captures(cbc::CONTINUOUS@, text));
    assert(layout::entry(cbc::log_in(text).other_data, "cbc.continuous_objective"@) == made) by {
        reveal(cbc::log_in);
        layout::lemma_no_fields();
        reveal_strlit("cbc.cut_generators");
        reveal_strlit("cbc.strong_branching");
        reveal_strlit("cbc.root_lp");
        reveal_strlit("cbc.continuous_objective");
        assert("cbc.continuous_objective"@.len() != "cbc.cut_generators"@.len());
        assert("cbc.continuous_objective"@.len() != "cbc.strong_branching"@.len());
        assert("cbc.continuous_objective"@.len() != "cbc.root_lp"@.len());
        layout::lemma_other("cbc.cut_generators"@, "cbc.continuous_objective"@);
        layout::lemma_other("cbc.strong_branching"@, "cbc.continuous_objective"@);
        layout::lemma_other("cbc.root_lp"@, "cbc.continuous_objective"@);
        layout::lemma_other("cbc.continuous_objective"@, "cbc.continuous_objective"@);
    }
    reveal_strlit("value");
    reveal_strlit("time_seconds");
    assert("value"@.len() != "time_seconds"@.len());
    layout::lemma_put("value"@);
    layout::lemma_put("time_seconds"@);
    layout::lemma_no_fields();
}

/// Each cut generator has an item, with its name and its figures.
pub proof fn law_cut_generators(text: Seq<char>, i: int)
    requires
        0 <= i < matching::regex_captures_iter(
            r"Cbc0014I Cut generator \d+ \(([A-Za-z0-9]+)\)\s*-\s*(\d+) row cuts.*?(\d+) column cuts \((\d+) active\)\s+in\s+([\d.]+)\s+seconds"@,
            text,
        ).len(),
    ensures
        ({
            let others = cbc::log_in(text).other_data;
            let found = matching::regex_captures_iter(
                r"Cbc0014I Cut generator \d+ \(([A-Za-z0-9]+)\)\s*-\s*(\d+) row cuts.*?(\d+) column cuts \((\d+) active\)\s+in\s+([\d.]+)\s+seconds"@,
                text,
            );
            &&& layout::items(others, "cbc.cut_generators"@) == found.len()
            &&& layout::item_field(others, "cbc.cut_generators"@, i, "name"@)
                == Some(Json::Text(layout::part_of(Some(found[i]), 1)))
            &&& layout::item_field(others, "cbc.cut_generators"@, i, "row_cuts"@)
                == Some(layout::told(layout::part_of(Some(found[i]), 2)))
            &&& layout::item_field(others, "cbc.cut_generators"@, i, "column_cuts"@)
                == Some(layout::told(layout::part_of(Some(found[i]), 3)))
            &&& layout::item_field(others, "cbc.cut_generators"@, i, "active"@)
                == Some(layout::told(layout::part_of(Some(found[i]), 4)))
            &&& layout::item_field(others, "cbc.cut_generators"@, i, "time_seconds"@)
                == Some(layout::told(layout::part_of(Some(found[i]), 5)))
        }),
{
    let made = json::array_of(cbc::generators_from(matching::regex_captures_iter(cbc::CUT_GENERATOR@, text)));
    assert(layout::entry(cbc::log_in(text).other_data, "cbc.cut_generators"@) == made) by {
        reveal(cbc::log_in);
        layout::lemma_no_fields();
        reveal_strlit("cbc.cut_generators");
        reveal_strlit("cbc.strong_branching");
        reveal_strlit("cbc.root_lp");
        reveal_strlit("cbc.continuous_objective");
        assert("cbc.cut_generators"@.len() != "cbc.strong_branching"@.len());
        assert("cbc.cut_generators"@.len() != "cbc.root_lp"@.len());
        assert("cbc.cut_generators"@.len() != "cbc.continuous_objective"@.len());
        layout::lemma_other("cbc.cut_generators"@, "cbc.cut_generators"@);
        layout::lemma_other("cbc.strong_branching"@, "cbc.cut_generators"@);
        layout::lemma_other("cbc.root_lp"@, "cbc.cut_generators"@);
        layout::lemma_other("cbc.continuous_objective"@, "cbc.cut_generators"@);
    }
    reveal_strlit("name");
    reveal_strlit("row_cuts");
    reveal_strlit("column_cuts");
    reveal_strlit("active");
    reveal_strlit("time_seconds");
    assert("name"@.len() != "row_cuts"@.len());
    assert("name"@.len() != "column_cuts"@.len());
    assert("name"@.len() != "active"@.len());
    assert("name"@.len() != "time_seconds"@.len());
    assert("row_cuts"@.len() != "column_cuts"@.len());
    assert("row_cuts"@.len() != "active"@.len());
    assert("row_cuts"@.len() != "time_seconds"@.len());
    assert("column_cuts"@.len() != "active"@.len());
    assert("column_cuts"@.len() != "time_seconds"@.len());
    assert("active"@.len() != "time_seconds"@.len());
    layout::lemma_put("name"@);
    layout::lemma_put("row_cuts"@);
    layout::lemma_put("column_cuts"@);
    layout::lemma_put("active"@);
    layout::lemma_put("time_seconds"@);
    layout::lemma_no_fields();
}

/// The cuts are those of all their lines.
pub proof fn law_cuts(text: Seq<char>)
    ensures
        cbc::log_in(text).cuts
            == progress::cuts_of(
                matching::regex_captures_iter(
                    r"(\w+)\s+was tried\s+\d+\s+times and created\s+([\d,]+)\s+cuts"@,
                    text,
                ),
                false,
                true,
            ),
{
    reveal(cbc::log_in);
}

} // verus!
