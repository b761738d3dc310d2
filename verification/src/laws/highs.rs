//! What a HiGHS log says, and where.

use crate::chars;
use crate::json::Json;
use crate::json;
use crate::laws::layout;
use crate::matching::Margin;
use crate::matching;
use crate::numbers;
use crate::quantity::Unit;
use crate::schema::{EventView, RowView, Status};
use crate::solvers::entries;
use crate::solvers::highs;
use crate::solvers::progress::{Open, ScanView};
use crate::solvers::progress;
use vstd::prelude::*;

verus! {

/// What a HiGHS log is known by.
pub proof fn law_recognized(text: Seq<char>)
    ensures
        highs::looks_right(text)
            <==> chars::contains(text, "Running HiGHS"@) || chars::contains(text, "HiGHS run time"@),
{
}

/// The time is the run time or, without it, that of the report.
pub proof fn law_times(text: Seq<char>)
    ensures
        ({
            let log = highs::log_in(text);
            let run_time = r"HiGHS run time\s*:\s*([\d.]+)"@;
            let timing = r"(?m)^\s+Timing\s+([\d.]+)"@;
            &&& layout::matches_in(run_time, text)
                ==> log.timing.wall_seconds
                    == layout::number(
                        layout::trimmed_text(layout::said(run_time, text, 1)),
                        Unit::One,
                    )
            &&& !layout::matches_in(run_time, text)
                ==> log.timing.wall_seconds
                    == layout::number(
                        layout::trimmed_text(layout::said(timing, text, 1)),
                        Unit::One,
                    )
            &&& log.timing.cpu_seconds is None
            &&& log.timing.reading_seconds is None
            &&& log.timing.presolve_seconds is None
            &&& log.timing.root_relaxation_seconds is None
        }),
{
    reveal(highs::log_in);
    layout::lemma_commas();
}

/// The bounds are the numbers behind their words, and the gap is in percent.
/// A pure LP run has its objective as both.
pub proof fn law_bounds(text: Seq<char>)
    ensures
        ({
            let log = highs::log_in(text);
            let primal_bound = r"Primal bound\s+([-\d.eE+]+)"@;
            let dual_bound = r"Dual bound\s+([-\d.eE+]+)"@;
            let lp_objective = r"(?m)^Objective value\s*:\s*([-\d.eE+]+)"@;
            let gap = r"Gap\s+([\d.]+)%"@;
            let integral = r"P-D integral\s+([\d.eE+\-]+)"@;
            &&& layout::number(layout::said(primal_bound, text, 1), Unit::One) is Some
                ==> log.bounds.primal
                    == layout::number(layout::said(primal_bound, text, 1), Unit::One)
                    && log.bounds.dual
                        == layout::number(layout::said(dual_bound, text, 1), Unit::One)
            &&& layout::number(layout::said(dual_bound, text, 1), Unit::One) is Some
                ==> log.bounds.dual == layout::number(layout::said(dual_bound, text, 1), Unit::One)
            &&& layout::number(layout::said(primal_bound, text, 1), Unit::One) is None
                ==> log.bounds.primal
                    == layout::number(layout::said(lp_objective, text, 1), Unit::One)
            &&& layout::number(layout::said(primal_bound, text, 1), Unit::One) is None
                && layout::number(layout::said(dual_bound, text, 1), Unit::One) is None
                ==> log.bounds.dual
                    == layout::number(layout::said(lp_objective, text, 1), Unit::One)
            &&& layout::matches_in(gap, text)
                ==> log.bounds.gap == layout::number(layout::said(gap, text, 1), Unit::Percent)
            &&& !layout::matches_in(gap, text)
                && layout::number(layout::said(primal_bound, text, 1), Unit::One) is None
                && layout::matches_in(lp_objective, text)
                && log.termination.status == Status::Optimal
                ==> log.bounds.gap == Some(layout::number_in("0"@, Unit::One))
            &&& !layout::matches_in(gap, text)
                && (
                    layout::number(layout::said(primal_bound, text, 1), Unit::One) is Some
                        || !layout::matches_in(lp_objective, text)
                        || log.termination.status != Status::Optimal
                ) ==> log.bounds.gap is None
            &&& log.bounds.primal_dual_integral
                == layout::number(layout::said(integral, text, 1), Unit::One)
            &&& log.bounds.root_dual is None
            &&& log.bounds.first_primal is None
            &&& log.bounds.first_primal_time_seconds is None
        }),
{
    reveal(highs::log_in);
    layout::lemma_commas();
}

/// The counts of the search are those behind their words.
pub proof fn law_counts(text: Seq<char>)
    ensures
        ({
            let log = highs::log_in(text);
            let nodes = r"(?m)^\s+Nodes\s+([\d,]+)"@;
            let lp_iterations = r"(?m)^\s+LP iterations\s+([\d,]+)"@;
            let simplex_iterations = r"Simplex\s+iterations:\s*([\d,]+)"@;
            let max_depth = r"Max sub-MIP depth\s+(\d+)"@;
            &&& log.tree.nodes_explored == layout::count(layout::said(nodes, text, 1))
            &&& log.tree.simplex_iterations
                == (
                    if layout::matches_in(lp_iterations, text) {
                        layout::count(layout::said(lp_iterations, text, 1))
                    } else {
                        layout::count(layout::said(simplex_iterations, text, 1))
                    }
                )
            &&& log.tree.max_depth == layout::small(layout::said(max_depth, text, 1))
        }),
{
    reveal(highs::log_in);
    layout::lemma_commas();
}

/// The sizes of the model are the numbers beside `rows`, `cols` and
/// `nonzeros`.
pub proof fn law_sizes(text: Seq<char>)
    ensures
        ({
            let log = highs::log_in(text);
            let problem = r"(?:LP|MIP)\s+(\S+)\s+has\s+([\d,]+)\s+rows?;\s+([\d,]+)\s+cols?;\s+([\d,]+)\s+nonzeros"@;
            let reductions = r"Presolve reductions:\s*rows\s+([\d,]+)\([^)]*\);\s*columns\s+([\d,]+)\([^)]*\);\s*nonzeros\s+([\d,]+)"@;
            &&& log.presolve.rows_before == layout::count(layout::said(problem, text, 2))
            &&& log.presolve.cols_before == layout::count(layout::said(problem, text, 3))
            &&& log.presolve.nonzeros_before == layout::count(layout::said(problem, text, 4))
            &&& log.presolve.rows_after == layout::count(layout::said(reductions, text, 1))
            &&& log.presolve.cols_after == layout::count(layout::said(reductions, text, 2))
            &&& log.presolve.nonzeros_after == layout::count(layout::said(reductions, text, 3))
        }),
{
    reveal(highs::log_in);
    layout::lemma_commas();
}

/// The version, the hash and the problem are those that the log names.
pub proof fn law_identity(text: Seq<char>)
    ensures
        ({
            let log = highs::log_in(text);
            let version = r"Running HiGHS\s+(\d+\.\d+\.\d+)\s+\(git hash:\s*([0-9a-f]+)\)"@;
            let model_name = r"Model name\s*:\s*(\S+)"@;
            let problem = r"(?:LP|MIP)\s+(\S+)\s+has\s+([\d,]+)\s+rows?;\s+([\d,]+)\s+cols?;\s+([\d,]+)\s+nonzeros"@;
            &&& log.version == layout::said(version, text, 1)
            &&& log.solver_git_hash == layout::said(version, text, 2)
            &&& layout::matches_in(model_name, text)
                ==> log.problem == layout::trimmed_text(layout::said(model_name, text, 1))
            &&& !layout::matches_in(model_name, text) ==> log.problem == layout::said(problem, text, 1)
            &&& log.cuts.len() == 0
        }),
{
    reveal(highs::log_in);
    layout::lemma_commas();
}

/// Each column of a row of the table is read for what its heading says: the
/// best solution is the primal bound and the best bound the dual one.
pub proof fn law_row(
    gaps: Seq<Seq<char>>,
    proc: Seq<char>,
    in_queue: Seq<char>,
    leaves: Seq<char>,
    expl: Seq<char>,
    best_bound: Seq<char>,
    best_sol: Seq<char>,
    gap: Seq<char>,
    cuts: Seq<char>,
    in_lp: Seq<char>,
    confl: Seq<char>,
    lp_iters: Seq<char>,
    time: Seq<char>,
)
    requires
        layout::are_gaps(gaps, 12),
        layout::are_words(
            seq![
                proc,
                in_queue,
                leaves,
                expl,
                best_bound,
                best_sol,
                gap,
                cuts,
                in_lp,
                confl,
                lp_iters,
                time,
            ],
        ),
        gaps[0].len() >= 2,
        gaps[0][0] == ' ',
        gaps[0][1] == ' ',
        numbers::u64_of(proc) is Some,
        progress::time_of(time) is Some,
    ensures
        highs::row_in(
            layout::laid_out(
                gaps,
                seq![
                    proc,
                    in_queue,
                    leaves,
                    expl,
                    best_bound,
                    best_sol,
                    gap,
                    cuts,
                    in_lp,
                    confl,
                    lp_iters,
                    time,
                ],
            ),
        ) == Some(
            RowView {
                time_seconds: progress::time_of(time)->Some_0,
                nodes_explored: numbers::u64_of(proc),
                primal: highs::bound_of(best_sol),
                dual: highs::bound_of(best_bound),
                gap: progress::gap_of(gap),
                depth: None,
                lp_iterations: layout::count(Some(lp_iters)),
                event: None,
            },
        ),
{
    let words = seq![
        proc,
        in_queue,
        leaves,
        expl,
        best_bound,
        best_sol,
        gap,
        cuts,
        in_lp,
        confl,
        lp_iters,
        time,
    ];
    let line = layout::laid_out(gaps, words);
    layout::law_words_are_found(gaps, words);
    layout::lemma_starts(gaps, words);
    layout::lemma_commas();
    let margin = progress::margin_of(line);
    assert(line[1] == gaps[0][1]);
    assert(margin =~= gaps[0].take(2));
    layout::law_ends_are_trimmed(margin, Seq::empty(), Seq::empty());
    assert(margin + Seq::<char>::empty() + Seq::<char>::empty() =~= margin);
}

/// A row with a source before it is read the same way, and the source is its
/// event.
pub proof fn law_marked_row(
    gaps: Seq<Seq<char>>,
    src: Seq<char>,
    proc: Seq<char>,
    in_queue: Seq<char>,
    leaves: Seq<char>,
    expl: Seq<char>,
    best_bound: Seq<char>,
    best_sol: Seq<char>,
    gap: Seq<char>,
    cuts: Seq<char>,
    in_lp: Seq<char>,
    confl: Seq<char>,
    lp_iters: Seq<char>,
    time: Seq<char>,
)
    requires
        layout::are_gaps(gaps, 13),
        layout::are_words(
            seq![
                src,
                proc,
                in_queue,
                leaves,
                expl,
                best_bound,
                best_sol,
                gap,
                cuts,
                in_lp,
                confl,
                lp_iters,
                time,
            ],
        ),
        gaps[0].len() == 1,
        gaps[0][0] == ' ',
        src.len() == 1,
        src[0] <= '\u{7f}',
        numbers::u64_of(src) is None,
        progress::time_of(time) is Some,
    ensures
        highs::row_in(
            layout::laid_out(
                gaps,
                seq![
                    src,
                    proc,
                    in_queue,
                    leaves,
                    expl,
                    best_bound,
                    best_sol,
                    gap,
                    cuts,
                    in_lp,
                    confl,
                    lp_iters,
                    time,
                ],
            ),
        ) == Some(
            RowView {
                time_seconds: progress::time_of(time)->Some_0,
                nodes_explored: numbers::u64_of(proc),
                primal: highs::bound_of(best_sol),
                dual: highs::bound_of(best_bound),
                gap: progress::gap_of(gap),
                depth: None,
                lp_iterations: layout::count(Some(lp_iters)),
                event: Some(highs::event_for(src)),
            },
        ),
{
    let words = seq![
        src,
        proc,
        in_queue,
        leaves,
        expl,
        best_bound,
        best_sol,
        gap,
        cuts,
        in_lp,
        confl,
        lp_iters,
        time,
    ];
    let line = layout::laid_out(gaps, words);
    layout::law_words_are_found(gaps, words);
    layout::lemma_starts(gaps, words);
    layout::lemma_commas();
    let margin = progress::margin_of(line);
    assert(line[1] == src[0]);
    assert(layout::is_word(words[0]));
    assert(margin =~= gaps[0] + src);
    layout::law_ends_are_trimmed(gaps[0], src, Seq::empty());
    assert(margin + Seq::<char>::empty() =~= margin);
    assert(gaps[0] + src + Seq::<char>::empty() =~= margin);
}

/// A run is optimal only where the words of its status start with `Optimal`.
/// What they start with comes before what they contain: a limit, of time
/// before any other.
pub proof fn law_words_tell_the_end(text: Seq<char>)
    ensures
        ({
            let log = highs::log_in(text);
            let t = log.termination;
            &&& t.raw_reason is None ==> t.status == Status::Unknown
            &&& t.raw_reason is Some ==> ({
                let s = t.raw_reason->Some_0;
                let low = chars::lowercase(s);
                let optimal = chars::starts_with(s, "Optimal"@);
                let infeasible = chars::starts_with(s, "Infeasible"@);
                let unbounded = chars::starts_with(s, "Unbounded"@);
                let answered = optimal || infeasible || unbounded;
                let time = chars::contains(s, "Time limit"@) || chars::contains(s, "time limit"@);
                let limit = chars::contains(low, "iteration limit"@) || chars::contains(low, "node limit"@)
                    || chars::contains(low, "solution limit"@)
                    || chars::contains(low, "objective limit"@)
                    || chars::contains(low, "interrupt"@);
                &&& t.status == Status::Optimal <==> optimal
                &&& t.status == Status::Infeasible <==> !optimal && infeasible
                &&& t.status == Status::Unbounded <==> !optimal && !infeasible && unbounded
                &&& t.status == Status::TimeLimit <==> !answered && time
                &&& t.status == Status::OtherLimit <==> !answered && !time && limit
                &&& t.status == Status::Unknown <==> !answered && !time && !limit
            })
        }),
{
    reveal(highs::log_in);
    layout::lemma_commas();
}

/// A line that gives a status.
pub open spec fn gives_status(line: Seq<char>) -> bool {
    chars::starts_with(chars::trimmed(line), "Status"@) || chars::starts_with(
        chars::trimmed(line),
        "Model status"@,
    )
}

proof fn lemma_status_text(before: Seq<Seq<char>>, more: Seq<Seq<char>>)
    requires
        forall|i: int| 0 <= i < before.len() ==> !gives_status(#[trigger] before[i]),
    ensures
        highs::status_text(before + more) == highs::status_text(more),
    decreases before.len(),
{
    if before.len() == 0 {
        assert(before + more =~= more);
    } else {
        let rest = before.skip(1);
        assert(!gives_status(before[0]));
        assert((before + more)[0] == before[0]);
        assert((before + more).skip(1) =~= rest + more);
        assert forall|i: int| 0 <= i < rest.len() implies !gives_status(#[trigger] rest[i]) by {
            assert(rest[i] == before[i + 1]);
        }
        lemma_status_text(rest, more);
    }
}

/// The first line that starts with `Status` gives the reason: the words behind
/// it.
pub proof fn law_first_status_line_counts(
    text: Seq<char>,
    before: Seq<Seq<char>>,
    line: Seq<char>,
    after: Seq<Seq<char>>,
    words: Seq<char>,
)
    requires
        chars::lines(text) == before + seq![line] + after,
        forall|i: int| 0 <= i < before.len() ==> !gives_status(#[trigger] before[i]),
        chars::trimmed(line) == "Status"@ + words,
    ensures
        highs::log_in(text).termination.raw_reason == Some(chars::trimmed(words)),
{
    reveal(highs::log_in);
    let more = seq![line] + after;
    assert(before + seq![line] + after =~= before + more);
    lemma_status_text(before, more);
    let l = "Status"@ + words;
    assert(l.subrange(0, "Status"@.len() as int) =~= "Status"@);
    assert(l.skip("Status"@.len() as int) =~= words);
}

/// So does the first line that starts with `Model status`; a colon before the
/// words is no part of them.
pub proof fn law_first_model_status_line_counts(
    text: Seq<char>,
    before: Seq<Seq<char>>,
    line: Seq<char>,
    after: Seq<Seq<char>>,
    gap: Seq<char>,
    blanks: Seq<char>,
    words: Seq<char>,
)
    requires
        chars::lines(text) == before + seq![line] + after,
        forall|i: int| 0 <= i < before.len() ==> !gives_status(#[trigger] before[i]),
        chars::trimmed(line) == "Model status"@ + (gap + (seq![':'] + (blanks + words))),
        chars::blank(gap),
        chars::blank(blanks),
        blanks.len() > 0,
        words.len() > 0 && !chars::is_space(words[0]) && !chars::is_space(words.last()),
    ensures
        highs::log_in(text).termination.raw_reason == Some(words),
{
    reveal(highs::log_in);
    reveal_strlit("Status");
    reveal_strlit("Model status");
    let more = seq![line] + after;
    assert(before + seq![line] + after =~= before + more);
    lemma_status_text(before, more);
    let rest = gap + (seq![':'] + (blanks + words));
    let l = "Model status"@ + rest;
    assert(l[0] == 'M');
    assert(!chars::starts_with(l, "Status"@)) by {
        if chars::starts_with(l, "Status"@) {
            assert(l.subrange(0, "Status"@.len() as int)[0] == "Status"@[0]);
        }
    }
    assert(l.subrange(0, "Model status"@.len() as int) =~= "Model status"@);
    assert(l.skip("Model status"@.len() as int) =~= rest);
    layout::lemma_behind_colon(gap, blanks, words);
}

/// The rows are the lines below the header, in their order, up to the report.
pub proof fn law_table(
    text: Seq<char>,
    before: Seq<Seq<char>>,
    header: Seq<char>,
    body: Seq<Seq<char>>,
    rows: Seq<RowView>,
    after: Seq<Seq<char>>,
)
    requires
        chars::lines(text) == before + (seq![header] + (body + after)),
        forall|i: int| 0 <= i < before.len()
            ==> !(chars::contains((#[trigger] before[i]), "Src  Proc. InQueue"@)),
        chars::contains(header, "Src  Proc. InQueue"@),
        body.len() == rows.len(),
        forall|i: int|
            0 <= i < body.len()
                ==> !chars::blank(#[trigger] body[i])
                    && !chars::starts_with(body[i], "Solving report"@)
                    && !(
                        chars::starts_with(body[i], "Model after restart"@)
                            || chars::contains(body[i], "restarting"@)
                            || chars::contains(body[i], "inactive integer columns"@)
                    ) && highs::row_in(body[i]) == Some(rows[i]),
        after.len() > 0
            ==> !chars::blank(after[0]) && chars::starts_with(after[0], "Solving report"@),
    ensures
        highs::log_in(text).progress == rows,
{
    reveal(highs::log_in);
    let format = highs::HighsTable;
    let start = progress::at_start();
    let open = ScanView { open: Open::Tree, ..start };
    let more = body + after;
    layout::lemma_closed(format, before, seq![header] + more);
    assert((seq![header] + more).skip(1) =~= more);
    layout::lemma_rows(format, open, body, rows, after, false);
    assert(rows + Seq::<RowView>::empty() =~= rows);
}

/// The kinds of variables stand under their names.
#[verifier::rlimit(80)]
pub proof fn law_variable_types(text: Seq<char>)
    ensures
        ({
            let others = highs::log_in(text).other_data;
            let variable_types = matching::regex_captures(
                r"(\d+)\s+cols\s+\((\d+)\s+binary,\s*(\d+)\s+integer,\s*(\d+)\s+implied int\.,\s*(\d+)\s+continuous,\s*(\d+)\s+domain fixed\)"@,
                text,
            );
            &&& layout::field(others, "highs.variable_types_after_presolve"@, "total"@)
                == (
                    if variable_types is Some {
                        Some(layout::count_or(layout::part_of(variable_types, 1), Json::Null))
                    } else {
                        None
                    }
                )
            &&& layout::field(others, "highs.variable_types_after_presolve"@, "binary"@)
                == (
                    if variable_types is Some {
                        Some(layout::count_or(layout::part_of(variable_types, 2), Json::Null))
                    } else {
                        None
                    }
                )
            &&& layout::field(others, "highs.variable_types_after_presolve"@, "integer"@)
                == (
                    if variable_types is Some {
                        Some(layout::count_or(layout::part_of(variable_types, 3), Json::Null))
                    } else {
                        None
                    }
                )
            &&& layout::field(others, "highs.variable_types_after_presolve"@, "implied_integer"@)
                == (
                    if variable_types is Some {
                        Some(layout::count_or(layout::part_of(variable_types, 4), Json::Null))
                    } else {
                        None
                    }
                )
            &&& layout::field(others, "highs.variable_types_after_presolve"@, "continuous"@)
                == (
                    if variable_types is Some {
                        Some(layout::count_or(layout::part_of(variable_types, 5), Json::Null))
                    } else {
                        None
                    }
                )
            &&& layout::field(others, "highs.variable_types_after_presolve"@, "domain_fixed"@)
                == (
                    if variable_types is Some {
                        Some(layout::count_or(layout::part_of(variable_types, 6), Json::Null))
                    } else {
                        None
                    }
                )
        }),
{
    let made = highs::types_from(matching::regex_captures(highs::VARIABLE_TYPES@, text));
    assert(
        layout::entry(highs::log_in(text).other_data, "highs.variable_types_after_presolve"@)
            == made
    ) by {
        reveal(highs::log_in);
        layout::lemma_no_fields();
        reveal_strlit("highs.coefficient_ranges");
        reveal_strlit("highs.variable_types_after_presolve");
        reveal_strlit("highs.solution_quality");
        reveal_strlit("highs.lp_iteration_breakdown");
        assert("highs.variable_types_after_presolve"@.len() != "highs.coefficient_ranges"@.len());
        assert("highs.variable_types_after_presolve"@.len() != "highs.solution_quality"@.len());
        assert(
            "highs.variable_types_after_presolve"@.len() != "highs.lp_iteration_breakdown"@.len()
        );
        layout::lemma_other("highs.coefficient_ranges"@, "highs.variable_types_after_presolve"@);
        layout::lemma_other(
            "highs.variable_types_after_presolve"@,
            "highs.variable_types_after_presolve"@,
        );
        layout::lemma_other("highs.solution_quality"@, "highs.variable_types_after_presolve"@);
        layout::lemma_other(
            "highs.lp_iteration_breakdown"@,
            "highs.variable_types_after_presolve"@,
        );
    }
    reveal_strlit("total");
    reveal_strlit("binary");
    reveal_strlit("integer");
    reveal_strlit("implied_integer");
    reveal_strlit("continuous");
    reveal_strlit("domain_fixed");
    assert("total"@.len() != "binary"@.len());
    assert("total"@.len() != "integer"@.len());
    assert("total"@.len() != "implied_integer"@.len());
    assert("total"@.len() != "continuous"@.len());
    assert("total"@.len() != "domain_fixed"@.len());
    assert("binary"@.len() != "integer"@.len());
    assert("binary"@.len() != "implied_integer"@.len());
    assert("binary"@.len() != "continuous"@.len());
    assert("binary"@.len() != "domain_fixed"@.len());
    assert("integer"@.len() != "implied_integer"@.len());
    assert("integer"@.len() != "continuous"@.len());
    assert("integer"@.len() != "domain_fixed"@.len());
    assert("implied_integer"@.len() != "continuous"@.len());
    assert("implied_integer"@.len() != "domain_fixed"@.len());
    assert("continuous"@.len() != "domain_fixed"@.len());
    layout::lemma_put("total"@);
    layout::lemma_put("binary"@);
    layout::lemma_put("integer"@);
    layout::lemma_put("implied_integer"@);
    layout::lemma_put("continuous"@);
    layout::lemma_put("domain_fixed"@);
    layout::lemma_no_fields();
}

/// What the rest of the other data is read from.
pub proof fn law_sources_of_the_other_data(text: Seq<char>)
    ensures
        layout::entry(highs::log_in(text).other_data, "highs.coefficient_ranges"@)
            == json::object_of(
                entries::ranges_of(
                    matching::block_rows(
                        r"(?m)^Coefficient ranges:"@,
                        r"^\s+(Matrix|Cost|Bound|RHS)\s+\[([^,]+),\s*([^\]]+)\]"@,
                        8,
                        true,
                        Margin::TwoBlanks,
                        text,
                    ),
                    true,
                ),
            ),
        layout::entry(highs::log_in(text).other_data, "highs.solution_quality"@)
            == json::object_of(
                highs::quality_from(
                    matching::block_rows(
                        r"(?m)^\s+Solution status\s+\S+"@,
                        r"^\s+(\S+)\s+\(([a-z. ]+)\)"@,
                        6,
                        true,
                        Margin::Space,
                        text,
                    ),
                ),
            ),
        layout::entry(highs::log_in(text).other_data, "highs.lp_iteration_breakdown"@)
            == json::object_of(
                highs::breakdown_from(
                    matching::block_rows(
                        r"(?m)^\s+LP iterations\s+\d"@,
                        r"^\s+(\d+)\s+\(([^)]+)\)"@,
                        6,
                        true,
                        Margin::Space,
                        text,
                    ),
                ),
            ),
{
    assert(
        layout::entry(highs::log_in(text).other_data, "highs.coefficient_ranges"@)
            == json::object_of(
                entries::ranges_of(
                    matching::block_rows(
                        highs::RANGES_HEADER@,
                        highs::RANGES_ROW@,
                        8,
                        true,
                        Margin::TwoBlanks,
                        text,
                    ),
                    true,
                ),
            )
    ) by {
        reveal(highs::log_in);
        layout::lemma_no_fields();
        reveal_strlit("highs.coefficient_ranges");
        reveal_strlit("highs.variable_types_after_presolve");
        reveal_strlit("highs.solution_quality");
        reveal_strlit("highs.lp_iteration_breakdown");
        assert("highs.coefficient_ranges"@.len() != "highs.variable_types_after_presolve"@.len());
        assert("highs.coefficient_ranges"@.len() != "highs.solution_quality"@.len());
        assert("highs.coefficient_ranges"@.len() != "highs.lp_iteration_breakdown"@.len());
        layout::lemma_other("highs.coefficient_ranges"@, "highs.coefficient_ranges"@);
        layout::lemma_other("highs.variable_types_after_presolve"@, "highs.coefficient_ranges"@);
        layout::lemma_other("highs.solution_quality"@, "highs.coefficient_ranges"@);
        layout::lemma_other("highs.lp_iteration_breakdown"@, "highs.coefficient_ranges"@);
    }
    assert(
        layout::entry(highs::log_in(text).other_data, "highs.solution_quality"@)
            == json::object_of(
                highs::quality_from(
                    matching::block_rows(
                        highs::QUALITY_HEADER@,
                        highs::QUALITY_ROW@,
                        6,
                        true,
                        Margin::Space,
                        text,
                    ),
                ),
            )
    ) by {
        reveal(highs::log_in);
        layout::lemma_no_fields();
        reveal_strlit("highs.coefficient_ranges");
        reveal_strlit("highs.variable_types_after_presolve");
        reveal_strlit("highs.solution_quality");
        reveal_strlit("highs.lp_iteration_breakdown");
        assert("highs.solution_quality"@.len() != "highs.coefficient_ranges"@.len());
        assert("highs.solution_quality"@.len() != "highs.variable_types_after_presolve"@.len());
        assert("highs.solution_quality"@.len() != "highs.lp_iteration_breakdown"@.len());
        layout::lemma_other("highs.coefficient_ranges"@, "highs.solution_quality"@);
        layout::lemma_other("highs.variable_types_after_presolve"@, "highs.solution_quality"@);
        layout::lemma_other("highs.solution_quality"@, "highs.solution_quality"@);
        layout::lemma_other("highs.lp_iteration_breakdown"@, "highs.solution_quality"@);
    }
    assert(
        layout::entry(highs::log_in(text).other_data, "highs.lp_iteration_breakdown"@)
            == json::object_of(
                highs::breakdown_from(
                    matching::block_rows(
                        highs::BREAKDOWN_HEADER@,
                        highs::BREAKDOWN_ROW@,
                        6,
                        true,
                        Margin::Space,
                        text,
                    ),
                ),
            )
    ) by {
        reveal(highs::log_in);
        layout::lemma_no_fields();
        reveal_strlit("highs.coefficient_ranges");
        reveal_strlit("highs.variable_types_after_presolve");
        reveal_strlit("highs.solution_quality");
        reveal_strlit("highs.lp_iteration_breakdown");
        assert("highs.lp_iteration_breakdown"@.len() != "highs.coefficient_ranges"@.len());
        assert(
            "highs.lp_iteration_breakdown"@.len() != "highs.variable_types_after_presolve"@.len()
        );
        assert("highs.lp_iteration_breakdown"@.len() != "highs.solution_quality"@.len());
        layout::lemma_other("highs.coefficient_ranges"@, "highs.lp_iteration_breakdown"@);
        layout::lemma_other(
            "highs.variable_types_after_presolve"@,
            "highs.lp_iteration_breakdown"@,
        );
        layout::lemma_other("highs.solution_quality"@, "highs.lp_iteration_breakdown"@);
        layout::lemma_other("highs.lp_iteration_breakdown"@, "highs.lp_iteration_breakdown"@);
    }
}

/// The solutions are counted in the rows, and the restarts in the lines.
pub proof fn law_what_is_counted(text: Seq<char>)
    ensures
        highs::log_in(text).tree.solutions_found
            == highs::solutions_in(highs::log_in(text).progress),
        highs::log_in(text).tree.restarts == highs::restarts_in(text),
{
    reveal(highs::log_in);
}

/// A bound is the number that is written; a dash and an infinity are none.
pub proof fn law_bound_cell(n: Seq<char>)
    requires
        layout::is_word(n),
    ensures
        n == "-"@ || chars::ascii_lowered(n) == "inf"@ ==> highs::bound_of(n) is None,
        n != "-"@ && chars::ascii_lowered(n) != "inf"@
            ==> highs::bound_of(n) == layout::number(Some(n), Unit::One),
{
    layout::lemma_word_is_trimmed(n);
}

/// What the letter of a row says of its solution: most are of heuristics, and
/// three of the search.
pub proof fn law_letters(letter: char)
    ensures
        letter == 'B' || letter == 'S' || letter == 'T'
            ==> highs::event_for(seq![letter]) == EventView::BranchSolution,
        letter == 'C' || letter == 'F' || letter == 'H' || letter == 'I' || letter == 'J'
            || letter == 'L' || letter == 'R' || letter == 'Z' || letter == 'l' || letter == 'p'
            || letter == 'u' || letter == 'z'
            ==> highs::event_for(seq![letter]) == EventView::Heuristic,
        letter != 'B' && letter != 'S' && letter != 'T' && letter != 'C' && letter != 'F' && letter
            != 'H' && letter != 'I' && letter != 'J' && letter != 'L' && letter != 'R' && letter
            != 'Z' && letter != 'l' && letter != 'p' && letter != 'u' && letter != 'z'
            ==> highs::event_for(seq![letter]) == EventView::Other(seq![letter]),
{
    reveal_strlit("B");
    assert("B"@[0] == 'B');
    if letter == 'B' {
        assert(seq![letter] =~= "B"@);
    }
    reveal_strlit("S");
    assert("S"@[0] == 'S');
    if letter == 'S' {
        assert(seq![letter] =~= "S"@);
    }
    reveal_strlit("T");
    assert("T"@[0] == 'T');
    if letter == 'T' {
        assert(seq![letter] =~= "T"@);
    }
    reveal_strlit("C");
    assert("C"@[0] == 'C');
    if letter == 'C' {
        assert(seq![letter] =~= "C"@);
    }
    reveal_strlit("F");
    assert("F"@[0] == 'F');
    if letter == 'F' {
        assert(seq![letter] =~= "F"@);
    }
    reveal_strlit("H");
    assert("H"@[0] == 'H');
    if letter == 'H' {
        assert(seq![letter] =~= "H"@);
    }
    reveal_strlit("I");
    assert("I"@[0] == 'I');
    if letter == 'I' {
        assert(seq![letter] =~= "I"@);
    }
    reveal_strlit("J");
    assert("J"@[0] == 'J');
    if letter == 'J' {
        assert(seq![letter] =~= "J"@);
    }
    reveal_strlit("L");
    assert("L"@[0] == 'L');
    if letter == 'L' {
        assert(seq![letter] =~= "L"@);
    }
    reveal_strlit("R");
    assert("R"@[0] == 'R');
    if letter == 'R' {
        assert(seq![letter] =~= "R"@);
    }
    reveal_strlit("Z");
    assert("Z"@[0] == 'Z');
    if letter == 'Z' {
        assert(seq![letter] =~= "Z"@);
    }
    reveal_strlit("l");
    assert("l"@[0] == 'l');
    if letter == 'l' {
        assert(seq![letter] =~= "l"@);
    }
    reveal_strlit("p");
    assert("p"@[0] == 'p');
    if letter == 'p' {
        assert(seq![letter] =~= "p"@);
    }
    reveal_strlit("u");
    assert("u"@[0] == 'u');
    if letter == 'u' {
        assert(seq![letter] =~= "u"@);
    }
    reveal_strlit("z");
    assert("z"@[0] == 'z');
    if letter == 'z' {
        assert(seq![letter] =~= "z"@);
    }
    assert(seq![letter][0] == letter);
}

/// The names of the measures: blanks and dots become underscores, which are
/// made single for the quality of the solution and are dropped at its end.
pub proof fn law_names_of_measures(label: Seq<char>)
    ensures
        highs::quality_name(label)
            == chars::back_trimmed(
                chars::pairs_merged(chars::replaced(chars::trimmed(label), ". "@, '_'), '_'),
                "_"@,
                false,
            ),
        highs::share_name(label)
            == chars::replaced(chars::back_trimmed(chars::trimmed(label), "."@, false), ". "@, '_'),
{
}

} // verus!
