//! What a COPT log says, and where.

use crate::chars;
use crate::json::Json;
use crate::json;
use crate::laws::layout;
use crate::matching::Groups;
use crate::matching::Margin;
use crate::matching;
use crate::quantity::RealView;
use crate::quantity::Unit;
use crate::schema::{RowView, Status, TerminationView};
use crate::schema;
use crate::solvers::copt;
use crate::solvers::entries;
use crate::solvers::progress::{Open, ScanView};
use crate::solvers::progress;
use crate::table;
use vstd::prelude::*;

verus! {

/// A number; an infinity and dashes are none.
pub open spec fn finite_number(o: Option<Seq<char>>) -> Option<RealView> {
    match o {
        Some(s) => {
            let t = chars::trimmed(s);
            if t == "inf"@ || t == "+inf"@ || t == "-inf"@ || t == "--"@ {
                None
            } else {
                layout::number(Some(t), Unit::One)
            }
        },
        None => None,
    }
}

/// What a COPT log is known by.
pub proof fn law_recognized(text: Seq<char>)
    ensures
        copt::looks_right(text)
            <==> chars::contains(text, "Cardinal Optimizer"@)
                || chars::contains(text, "Exiting COPT"@),
{
}

/// The time is that of the search or, without one, of the LP.
pub proof fn law_times(text: Seq<char>)
    ensures
        ({
            let log = copt::log_in(text);
            let solve_time = r"Solve time\s*:\s*([\d.]+)"@;
            let lp_status = r"(?m)^Status:\s+(\S+)\s+Objective:\s+([-\d.eE+]+)(?:\s+Iterations:\s+(\d+))?(?:\s+Time:\s+([\d.]+))?"@;
            &&& layout::matches_in(solve_time, text)
                ==> log.timing.wall_seconds
                    == layout::number(layout::said(solve_time, text, 1), Unit::One)
            &&& !layout::matches_in(solve_time, text)
                ==> log.timing.wall_seconds
                    == layout::number(layout::said(lp_status, text, 4), Unit::One)
            &&& log.timing.cpu_seconds is None
            &&& log.timing.reading_seconds is None
            &&& log.timing.presolve_seconds is None
            &&& log.timing.root_relaxation_seconds is None
        }),
{
    reveal(copt::log_in);
    layout::lemma_commas();
}

/// The best solution is the primal bound and the best bound the dual one; the
/// best gap is in percent. A pure LP run that is optimal has its objective as
/// both.
pub proof fn law_bounds(text: Seq<char>)
    ensures
        ({
            let log = copt::log_in(text);
            let best_solution = r"Best solution\s*:\s*([-+\d.eE+inf]+)"@;
            let best_bound = r"Best bound\s*:\s*([-+\d.eE+inf]+)"@;
            let best_gap = r"Best gap\s*:\s*([\d.]+)%"@;
            let lp_status = r"(?m)^Status:\s+(\S+)\s+Objective:\s+([-\d.eE+]+)(?:\s+Iterations:\s+(\d+))?(?:\s+Time:\s+([\d.]+))?"@;
            &&& layout::matches_in(best_solution, text)
                ==> log.bounds.primal == finite_number(layout::said(best_solution, text, 1))
            &&& layout::matches_in(best_bound, text)
                ==> log.bounds.dual == finite_number(layout::said(best_bound, text, 1))
            &&& layout::matches_in(best_gap, text)
                ==> log.bounds.gap == layout::number(layout::said(best_gap, text, 1), Unit::Percent)
            &&& !layout::matches_in(best_solution, text)
                ==> log.bounds.primal
                    == (
                        if layout::said(lp_status, text, 1) == Some("Optimal"@) {
                            layout::number(layout::said(lp_status, text, 2), Unit::One)
                        } else {
                            None
                        }
                    )
            &&& !layout::matches_in(best_bound, text)
                ==> log.bounds.dual
                    == (
                        if layout::said(lp_status, text, 1) == Some("Optimal"@) {
                            layout::number(layout::said(lp_status, text, 2), Unit::One)
                        } else {
                            None
                        }
                    )
            &&& !layout::matches_in(best_gap, text)
                ==> log.bounds.gap
                    == (
                        if layout::said(lp_status, text, 1) == Some("Optimal"@) {
                            Some(layout::number_in("0"@, Unit::One))
                        } else {
                            None
                        }
                    )
            &&& log.bounds.primal_dual_integral is None
        }),
{
    reveal(copt::log_in);
    layout::lemma_commas();
    reveal_strlit("Optimal");
}

/// The counts of the search are those beside their words.
pub proof fn law_counts(text: Seq<char>)
    ensures
        ({
            let log = copt::log_in(text);
            let solve_node = r"Solve node\s*:\s*([\d,]+)"@;
            let lp_status = r"(?m)^Status:\s+(\S+)\s+Objective:\s+([-\d.eE+]+)(?:\s+Iterations:\s+(\d+))?(?:\s+Time:\s+([\d.]+))?"@;
            &&& log.tree.nodes_explored == layout::count(layout::said(solve_node, text, 1))
            &&& log.tree.simplex_iterations == layout::digits(layout::said(lp_status, text, 3))
            &&& log.tree.max_depth is None
            &&& log.tree.restarts is None
        }),
{
    reveal(copt::log_in);
    layout::lemma_commas();
}

/// The sizes of the model are the numbers before `rows`, `columns` and `non-
/// zero`: of the first model, and of the last presolved one.
pub proof fn law_sizes(text: Seq<char>)
    ensures
        ({
            let log = copt::log_in(text);
            let original = r"(?m)^\s+([\d,]+)\s+rows,\s+([\d,]+)\s+columns\s+and\s+([\d,]+)\s+non-zero"@;
            let presolved = r"The presolved problem has:\n\s+([\d,]+)\s+rows,\s+([\d,]+)\s+columns\s+and\s+([\d,]+)\s+non-zero"@;
            &&& log.presolve.rows_before == layout::count(layout::said(original, text, 1))
            &&& log.presolve.cols_before == layout::count(layout::said(original, text, 2))
            &&& log.presolve.nonzeros_before == layout::count(layout::said(original, text, 3))
            &&& log.presolve.rows_after
                == layout::count(layout::in_match(layout::last_match(presolved, text), 1))
            &&& log.presolve.cols_after
                == layout::count(layout::in_match(layout::last_match(presolved, text), 2))
            &&& log.presolve.nonzeros_after
                == layout::count(layout::in_match(layout::last_match(presolved, text), 3))
        }),
{
    reveal(copt::log_in);
    layout::lemma_commas();
}

/// The version is the one that the log names, and the problem is the file
/// without its directories and its ending.
pub proof fn law_identity(text: Seq<char>)
    ensures
        ({
            let log = copt::log_in(text);
            let version = r"Cardinal Optimizer\s+v(\d+\.\d+\.\d+)"@;
            let reading = r"Reading from '([^']+)'"@;
            &&& log.version == layout::said(version, text, 1)
            &&& log.problem
                == (
                    match layout::said(reading, text, 1) {
                        Some(p) => Some(progress::model_stem(progress::last_piece(p), true)),
                        None => None,
                    }
                )
            &&& log.solver_git_hash is None
            &&& log.cuts.len() == 0
        }),
{
    reveal(copt::log_in);
    layout::lemma_commas();
}

/// Each column of a row of the table is read for what its heading says: the
/// best solution is the primal bound and the best bound the dual one. A
/// letter before the row is its event.
pub proof fn law_row(
    gaps: Seq<Seq<char>>,
    nodes: Seq<char>,
    active: Seq<char>,
    lp_it: Seq<char>,
    int_inf: Seq<char>,
    best_bound: Seq<char>,
    best_solution: Seq<char>,
    gap: Seq<char>,
    time: Seq<char>,
    marker: char,
)
    requires
        layout::are_gaps(gaps, 8),
        layout::are_words(
            seq![nodes, active, lp_it, int_inf, best_bound, best_solution, gap, time],
        ),
        progress::time_of(time) is Some,
        chars::alphabetic(marker),
    ensures
        !chars::alphabetic(
            layout::laid_out(
                gaps,
                seq![nodes, active, lp_it, int_inf, best_bound, best_solution, gap, time],
            )[0],
        )
            ==> copt::row_in(
                layout::laid_out(
                    gaps,
                    seq![nodes, active, lp_it, int_inf, best_bound, best_solution, gap, time],
                ),
            ) == Some(
            RowView {
                time_seconds: progress::time_of(time)->Some_0,
                nodes_explored: layout::count(Some(nodes)),
                primal: copt::cell_of(best_solution),
                dual: copt::cell_of(best_bound),
                gap: progress::gap_of(gap),
                depth: None,
                lp_iterations: None,
                event: None,
            },
        ),
        copt::row_in(
            seq![marker]
                + layout::laid_out(
                    gaps,
                    seq![nodes, active, lp_it, int_inf, best_bound, best_solution, gap, time],
                ),
        ) == Some(
            RowView {
                time_seconds: progress::time_of(time)->Some_0,
                nodes_explored: layout::count(Some(nodes)),
                primal: copt::cell_of(best_solution),
                dual: copt::cell_of(best_bound),
                gap: progress::gap_of(gap),
                depth: None,
                lp_iterations: None,
                event: progress::event_of(marker),
            },
        ),
{
    let words = seq![nodes, active, lp_it, int_inf, best_bound, best_solution, gap, time];
    let line = layout::laid_out(gaps, words);
    layout::law_words_are_found(gaps, words);
    layout::lemma_starts(gaps, words);
    layout::lemma_commas();
    assert((seq![marker] + line).skip(1) =~= line);
    assert((seq![marker] + line)[0] == marker);
}

/// In a pure LP run the word of its status line tells the end.
pub proof fn law_lp_word_tells_the_end(text: Seq<char>)
    ensures
        ({
            let log = copt::log_in(text);
            let lp_status = r"(?m)^Status:\s+(\S+)\s+Objective:\s+([-\d.eE+]+)(?:\s+Iterations:\s+(\d+))?(?:\s+Time:\s+([\d.]+))?"@;
            let t = log.termination;
            let word = layout::said(lp_status, text, 1);
            &&& word == Some("Optimal"@) ==> t.status == Status::Optimal && t.raw_reason == word
            &&& word == Some("Infeasible"@) ==> t.status == Status::Infeasible && t.raw_reason == word
            &&& word == Some("Unbounded"@) ==> t.status == Status::Unbounded && t.raw_reason == word
            &&& layout::matches_in(lp_status, text) && word != Some("Optimal"@)
                && word != Some("Infeasible"@) && word != Some("Unbounded"@)
                ==> t.status == Status::Unknown
                    && t.raw_reason
                        == Some(layout::part_of(matching::regex_captures(lp_status, text), 1))
        }),
{
    reveal(copt::log_in);
    reveal_strlit("Optimal");
    reveal_strlit("Infeasible");
    reveal_strlit("Unbounded");
    assert("Infeasible"@[0] != "Optimal"@[0]);
    assert("Unbounded"@[0] != "Optimal"@[0]);
    assert("Unbounded"@[0] != "Infeasible"@[0]);
}

pub open spec fn gives_solution(line: Seq<char>) -> bool {
    chars::starts_with(chars::trimmed(line), "Solution status :"@)
}

pub open spec fn gives_mip(line: Seq<char>) -> bool {
    chars::starts_with(chars::trimmed(line), "MIP status"@)
}

proof fn lemma_before_solution(
    before: Seq<Seq<char>>,
    more: Seq<Seq<char>>,
    so_far: TerminationView,
) -> (t: TerminationView)
    requires
        forall|i: int| 0 <= i < before.len() ==> !gives_solution(#[trigger] before[i]),
    ensures
        copt::termination_after(before + more, so_far) == copt::termination_after(more, t),
        (forall|i: int| 0 <= i < before.len() ==> !gives_mip(#[trigger] before[i])) ==> t == so_far,
    decreases before.len(),
{
    if before.len() == 0 {
        assert(before + more =~= more);
        so_far
    } else {
        let rest = before.skip(1);
        let line = chars::trimmed(before[0]);
        assert(!gives_solution(before[0]));
        assert((before + more)[0] == before[0]);
        assert((before + more).skip(1) =~= rest + more);
        assert forall|i: int| 0 <= i < rest.len() implies !gives_solution(#[trigger] rest[i]) by {
            assert(rest[i] == before[i + 1]);
        }
        let next = if gives_mip(before[0]) && so_far.status == Status::Unknown {
            let s = copt::mip_words(line.skip("MIP status"@.len() as int));
            TerminationView { status: copt::mip_status(s), raw_reason: Some(s) }
        } else {
            so_far
        };
        let t = lemma_before_solution(rest, more, next);
        if forall|i: int| 0 <= i < before.len() ==> !gives_mip(#[trigger] before[i]) {
            assert forall|i: int| 0 <= i < rest.len() implies !gives_mip(#[trigger] rest[i]) by {
                assert(rest[i] == before[i + 1]);
            }
            assert(!gives_mip(before[0]));
        }
        t
    }
}

/// A solution that is integer optimal settles the run, whatever the status of
/// the search says before or behind it; and so does one that is infeasible.
pub proof fn law_solution_status_settles(
    text: Seq<char>,
    before: Seq<Seq<char>>,
    line: Seq<char>,
    after: Seq<Seq<char>>,
    words: Seq<char>,
)
    requires
        !layout::matches_in(
            r"(?m)^Status:\s+(\S+)\s+Objective:\s+([-\d.eE+]+)(?:\s+Iterations:\s+(\d+))?(?:\s+Time:\s+([\d.]+))?"@,
            text,
        ),
        chars::lines(text) == before + seq![line] + after,
        forall|i: int| 0 <= i < before.len() ==> !gives_solution(#[trigger] before[i]),
        chars::trimmed(line) == "Solution status :"@ + words,
    ensures
        chars::starts_with(chars::trimmed(words), "integer optimal"@)
            ==> copt::log_in(text).termination.status
            == Status::Optimal
                && copt::log_in(text).termination.raw_reason == Some(chars::trimmed(words)),
        chars::trimmed(words) == "infeasible"@ ==> copt::log_in(text).termination.status
            == Status::Infeasible
                && copt::log_in(text).termination.raw_reason == Some("infeasible"@),
{
    reveal(copt::log_in);
    reveal_strlit("integer optimal");
    reveal_strlit("infeasible");
    let more = seq![line] + after;
    assert(before + seq![line] + after =~= before + more);
    let t = lemma_before_solution(before, more, schema::no_termination());
    let l = "Solution status :"@ + words;
    assert(l.subrange(0, "Solution status :"@.len() as int) =~= "Solution status :"@);
    assert(l.skip("Solution status :"@.len() as int) =~= words);
}

/// Where no solution settles the run, the first status of the search does: the
/// words behind its colon.
pub proof fn law_mip_status_tells_the_end(
    text: Seq<char>,
    before: Seq<Seq<char>>,
    line: Seq<char>,
    after: Seq<Seq<char>>,
    gap: Seq<char>,
    blanks: Seq<char>,
    words: Seq<char>,
)
    requires
        !layout::matches_in(
            r"(?m)^Status:\s+(\S+)\s+Objective:\s+([-\d.eE+]+)(?:\s+Iterations:\s+(\d+))?(?:\s+Time:\s+([\d.]+))?"@,
            text,
        ),
        chars::lines(text) == before + seq![line] + after,
        forall|i: int| 0 <= i < before.len()
            ==> !gives_solution(#[trigger] before[i]) && !gives_mip(before[i]),
        forall|i: int| 0 <= i < after.len()
            ==> !gives_solution(#[trigger] after[i]) && !gives_mip(after[i]),
        chars::trimmed(line) == "MIP status"@ + (gap + (seq![':'] + (blanks + words))),
        chars::blank(gap),
        chars::blank(blanks),
        blanks.len() > 0,
        words.len() > 0 && !chars::is_space(words[0]) && !chars::is_space(words.last()),
    ensures
        ({
            let t = copt::log_in(text).termination;
            let time = chars::contains(words, "time limit"@);
            let memory = chars::contains(words, "memory"@);
            let limit = chars::contains(words, "node limit"@) || chars::contains(words, "iteration limit"@);
            let stopped = time || memory || limit;
            &&& t.raw_reason == Some(words)
            &&& t.status == Status::TimeLimit <==> time
            &&& t.status == Status::MemoryLimit <==> !time && memory
            &&& t.status == Status::OtherLimit <==> !time && !memory && limit
            &&& t.status == Status::Optimal <==> !stopped && words == "solved"@
            &&& t.status == Status::Unknown <==> !stopped && words != "solved"@
        }),
{
    reveal(copt::log_in);
    reveal_strlit("MIP status");
    reveal_strlit("Solution status :");
    let more = seq![line] + after;
    assert(before + seq![line] + after =~= before + more);
    let none = schema::no_termination();
    let t0 = lemma_before_solution(before, more, none);
    let rest = gap + (seq![':'] + (blanks + words));
    let l = "MIP status"@ + rest;
    assert(l.subrange(0, "MIP status"@.len() as int) =~= "MIP status"@);
    assert(l.skip("MIP status"@.len() as int) =~= rest);
    assert(!chars::starts_with(l, "Solution status :"@)) by {
        if chars::starts_with(l, "Solution status :"@) {
            assert(l.subrange(0, "Solution status :"@.len() as int)[0] == "Solution status :"@[0]);
            assert(l[0] == "MIP status"@[0]);
        }
    }
    layout::lemma_behind_colon(gap, blanks, words);
    assert(copt::mip_words(rest) == words);
    let found = TerminationView { status: copt::mip_status(words), raw_reason: Some(words) };
    assert(more.skip(1) =~= after);
    assert(after + Seq::<Seq<char>>::empty() =~= after);
    let t1 = lemma_before_solution(after, Seq::empty(), found);
    assert(copt::termination_after(chars::lines(text), none) == found);
    layout::law_first_label_counts(before, line, after, "MIP status"@, rest);
}

/// The rows are the lines below the header, in their order, up to the report.
pub proof fn law_table(
    text: Seq<char>,
    before: Seq<Seq<char>>,
    header: Seq<char>,
    body: Seq<Seq<char>>,
    rows: Seq<RowView>,
    after: Seq<Seq<char>>,
)
    requires
        chars::lines(text) == before + (seq![header] + (body + after)),
        forall|i: int| 0 <= i < before.len()
            ==> !(
                chars::contains((#[trigger] before[i]), "Nodes"@)
                    && chars::contains(before[i], "BestBound"@)
                    && chars::contains(before[i], "BestSolution"@)
            ),
        chars::contains(header, "Nodes"@),
        chars::contains(header, "BestBound"@),
        chars::contains(header, "BestSolution"@),
        body.len() == rows.len(),
        forall|i: int|
            0 <= i < body.len()
                ==> !chars::blank(#[trigger] body[i])
                    && !(
                        chars::starts_with(chars::trimmed(body[i]), "Nodes"@)
                            && chars::contains(chars::trimmed(body[i]), "BestBound"@)
                    )
                    && !(
                        chars::starts_with(chars::trimmed(body[i]), "Best solution"@)
                            || chars::starts_with(chars::trimmed(body[i]), "Best bound"@)
                            || chars::starts_with(chars::trimmed(body[i]), "Solve "@)
                            || chars::starts_with(chars::trimmed(body[i]), "MIP status"@)
                            || chars::starts_with(chars::trimmed(body[i]), "Solution status"@)
                            || chars::starts_with(chars::trimmed(body[i]), "Violations"@)
                            || chars::starts_with(chars::trimmed(body[i]), "Writing"@)
                            || chars::starts_with(chars::trimmed(body[i]), "Exiting"@)
                    ) && copt::row_in(body[i]) == Some(rows[i]),
        after.len() > 0
            ==> !chars::blank(after[0])
                && !(
                    chars::starts_with(chars::trimmed(after[0]), "Nodes"@)
                        && chars::contains(chars::trimmed(after[0]), "BestBound"@)
                )
                && (
                    chars::starts_with(chars::trimmed(after[0]), "Best solution"@)
                        || chars::starts_with(chars::trimmed(after[0]), "Best bound"@)
                        || chars::starts_with(chars::trimmed(after[0]), "Solve "@)
                        || chars::starts_with(chars::trimmed(after[0]), "MIP status"@)
                        || chars::starts_with(chars::trimmed(after[0]), "Solution status"@)
                        || chars::starts_with(chars::trimmed(after[0]), "Violations"@)
                        || chars::starts_with(chars::trimmed(after[0]), "Writing"@)
                        || chars::starts_with(chars::trimmed(after[0]), "Exiting"@)
                ),
    ensures
        copt::log_in(text).progress == rows,
{
    reveal(copt::log_in);
    let format = copt::CoptTable;
    let start = progress::at_start();
    let open = ScanView { open: Open::Tree, ..start };
    let more = body + after;
    layout::lemma_closed(format, before, seq![header] + more);
    assert((seq![header] + more).skip(1) =~= more);
    layout::lemma_rows(format, open, body, rows, after, false);
    assert(rows + Seq::<RowView>::empty() =~= rows);
}

/// What the machine is stands under the names of its parts.
pub proof fn law_machine(text: Seq<char>)
    ensures
        ({
            let others = copt::log_in(text).other_data;
            let platform = matching::regex_captures(r"Cardinal Optimizer\s+\S+\s+on\s+(.+)"@, text);
            let cpu = matching::regex_captures(r"The CPU model is\s+(.+)"@, text);
            let hardware = matching::regex_captures(
                r"Hardware has\s+(\d+)\s+physical cores?\s+and\s+(\d+)\s+logical cores?\.\s*Using instruction set\s+(\S+)"@,
                text,
            );
            &&& layout::field(others, "copt.machine"@, "platform"@)
                == (
                    if platform is Some {
                        Some(Json::Text(chars::trimmed(layout::part_of(platform, 1))))
                    } else {
                        None
                    }
                )
            &&& layout::field(others, "copt.machine"@, "cpu"@)
                == (
                    if cpu is Some {
                        Some(Json::Text(chars::trimmed(layout::part_of(cpu, 1))))
                    } else {
                        None
                    }
                )
            &&& layout::field(others, "copt.machine"@, "physical_cores"@)
                == (
                    if hardware is Some {
                        Some(layout::told(layout::part_of(hardware, 1)))
                    } else {
                        None
                    }
                )
            &&& layout::field(others, "copt.machine"@, "logical_cores"@)
                == (
                    if hardware is Some {
                        Some(layout::told(layout::part_of(hardware, 2)))
                    } else {
                        None
                    }
                )
            &&& layout::field(others, "copt.machine"@, "instruction_set"@)
                == (
                    if hardware is Some {
                        Some(Json::Text(layout::part_of(hardware, 3)))
                    } else {
                        None
                    }
                )
        }),
{
    let made = copt::machine_from(
        matching::regex_captures(copt::PLATFORM@, text),
        matching::regex_captures(copt::CPU@, text),
        matching::regex_captures(copt::HARDWARE@, text),
    );
    assert(layout::entry(copt::log_in(text).other_data, "copt.machine"@) == made) by {
        reveal(copt::log_in);
        layout::lemma_no_fields();
        reveal_strlit("copt.machine");
        reveal_strlit("copt.run_config");
        reveal_strlit("copt.model_fingerprint");
        reveal_strlit("copt.variable_types_before_presolve");
        reveal_strlit("copt.variable_types_after_presolve");
        reveal_strlit("copt.coefficient_ranges");
        reveal_strlit("copt.solution_quality");
        assert("copt.machine"@.len() != "copt.run_config"@.len());
        assert("copt.machine"@.len() != "copt.model_fingerprint"@.len());
        assert("copt.machine"@.len() != "copt.variable_types_before_presolve"@.len());
        assert("copt.machine"@.len() != "copt.variable_types_after_presolve"@.len());
        assert("copt.machine"@.len() != "copt.coefficient_ranges"@.len());
        assert("copt.machine"@.len() != "copt.solution_quality"@.len());
        layout::lemma_other("copt.machine"@, "copt.machine"@);
        layout::lemma_other("copt.run_config"@, "copt.machine"@);
        layout::lemma_other("copt.model_fingerprint"@, "copt.machine"@);
        layout::lemma_other("copt.variable_types_before_presolve"@, "copt.machine"@);
        layout::lemma_other("copt.variable_types_after_presolve"@, "copt.machine"@);
        layout::lemma_other("copt.coefficient_ranges"@, "copt.machine"@);
        layout::lemma_other("copt.solution_quality"@, "copt.machine"@);
    }
    reveal_strlit("platform");
    reveal_strlit("cpu");
    reveal_strlit("physical_cores");
    reveal_strlit("logical_cores");
    reveal_strlit("instruction_set");
    assert("platform"@.len() != "cpu"@.len());
    assert("platform"@.len() != "physical_cores"@.len());
    assert("platform"@.len() != "logical_cores"@.len());
    assert("platform"@.len() != "instruction_set"@.len());
    assert("cpu"@.len() != "physical_cores"@.len());
    assert("cpu"@.len() != "logical_cores"@.len());
    assert("cpu"@.len() != "instruction_set"@.len());
    assert("physical_cores"@.len() != "logical_cores"@.len());
    assert("physical_cores"@.len() != "instruction_set"@.len());
    assert("logical_cores"@.len() != "instruction_set"@.len());
    layout::lemma_put("platform"@);
    layout::lemma_put("cpu"@);
    layout::lemma_put("physical_cores"@);
    layout::lemma_put("logical_cores"@);
    layout::lemma_put("instruction_set"@);
    layout::lemma_no_fields();
}

/// So do the threads and the tasks of the run.
pub proof fn law_run_config(text: Seq<char>)
    ensures
        ({
            let others = copt::log_in(text).other_data;
            let run_config = matching::regex_captures(
                r"Starting the MIP solver with\s+(\d+)\s+threads? and\s+(\d+)\s+tasks?"@,
                text,
            );
            &&& layout::field(others, "copt.run_config"@, "threads"@)
                == (
                    if run_config is Some {
                        Some(layout::told(layout::part_of(run_config, 1)))
                    } else {
                        None
                    }
                )
            &&& layout::field(others, "copt.run_config"@, "tasks"@)
                == (
                    if run_config is Some {
                        Some(layout::told(layout::part_of(run_config, 2)))
                    } else {
                        None
                    }
                )
        }),
{
    let made = copt::config_from(matching::regex_captures(copt::RUN_CONFIG@, text));
    assert(layout::entry(copt::log_in(text).other_data, "copt.run_config"@) == made) by {
        reveal(copt::log_in);
        layout::lemma_no_fields();
        reveal_strlit("copt.machine");
        reveal_strlit("copt.run_config");
        reveal_strlit("copt.model_fingerprint");
        reveal_strlit("copt.variable_types_before_presolve");
        reveal_strlit("copt.variable_types_after_presolve");
        reveal_strlit("copt.coefficient_ranges");
        reveal_strlit("copt.solution_quality");
        assert("copt.run_config"@.len() != "copt.machine"@.len());
        assert("copt.run_config"@.len() != "copt.model_fingerprint"@.len());
        assert("copt.run_config"@.len() != "copt.variable_types_before_presolve"@.len());
        assert("copt.run_config"@.len() != "copt.variable_types_after_presolve"@.len());
        assert("copt.run_config"@.len() != "copt.coefficient_ranges"@.len());
        assert("copt.run_config"@.len() != "copt.solution_quality"@.len());
        layout::lemma_other("copt.machine"@, "copt.run_config"@);
        layout::lemma_other("copt.run_config"@, "copt.run_config"@);
        layout::lemma_other("copt.model_fingerprint"@, "copt.run_config"@);
        layout::lemma_other("copt.variable_types_before_presolve"@, "copt.run_config"@);
        layout::lemma_other("copt.variable_types_after_presolve"@, "copt.run_config"@);
        layout::lemma_other("copt.coefficient_ranges"@, "copt.run_config"@);
        layout::lemma_other("copt.solution_quality"@, "copt.run_config"@);
    }
    reveal_strlit("threads");
    reveal_strlit("tasks");
    assert("threads"@.len() != "tasks"@.len());
    layout::lemma_put("threads"@);
    layout::lemma_put("tasks"@);
    layout::lemma_no_fields();
}

/// The fingerprint of the model is the word behind it.
pub proof fn law_fingerprint(text: Seq<char>)
    ensures
        layout::entry(copt::log_in(text).other_data, "copt.model_fingerprint"@)
            == (
                { let s = layout::said(r"Model fingerprint:\s+(\S+)"@, text, 1); match s { Some(t) => Some(Json::Text(t)), None => None } }
            ),
{
    reveal(copt::log_in);
    layout::lemma_no_fields();
    reveal_strlit("copt.machine");
    reveal_strlit("copt.run_config");
    reveal_strlit("copt.model_fingerprint");
    reveal_strlit("copt.variable_types_before_presolve");
    reveal_strlit("copt.variable_types_after_presolve");
    reveal_strlit("copt.coefficient_ranges");
    reveal_strlit("copt.solution_quality");
    assert("copt.model_fingerprint"@.len() != "copt.machine"@.len());
    assert("copt.model_fingerprint"@.len() != "copt.run_config"@.len());
    assert("copt.model_fingerprint"@.len() != "copt.variable_types_before_presolve"@.len());
    assert("copt.model_fingerprint"@.len() != "copt.variable_types_after_presolve"@.len());
    assert("copt.model_fingerprint"@.len() != "copt.coefficient_ranges"@.len());
    assert("copt.model_fingerprint"@.len() != "copt.solution_quality"@.len());
    layout::lemma_other("copt.machine"@, "copt.model_fingerprint"@);
    layout::lemma_other("copt.run_config"@, "copt.model_fingerprint"@);
    layout::lemma_other("copt.model_fingerprint"@, "copt.model_fingerprint"@);
    layout::lemma_other("copt.variable_types_before_presolve"@, "copt.model_fingerprint"@);
    layout::lemma_other("copt.variable_types_after_presolve"@, "copt.model_fingerprint"@);
    layout::lemma_other("copt.coefficient_ranges"@, "copt.model_fingerprint"@);
    layout::lemma_other("copt.solution_quality"@, "copt.model_fingerprint"@);
}

/// A violation is absolute and, where the log says so, relative.
pub proof fn law_violation(m: Groups)
    ensures
        copt::violation_of(m) matches Json::Object(e)
            && table::get(e, "absolute"@) == Some(layout::told(layout::part_of(Some(m), 2)))
            && table::get(e, "relative"@)
                == (
                    match layout::in_match(Some(m), 3) {
                        Some(s) => Some(layout::told(s)),
                        None => None,
                    }
                ),
{
    reveal_strlit("absolute");
    reveal_strlit("relative");
    assert("absolute"@[0] != "relative"@[0]);
    layout::lemma_put("absolute"@);
    layout::lemma_put("relative"@);
    layout::lemma_no_fields();
}

/// What the rest of the other data is read from.
pub proof fn law_sources_of_the_other_data(text: Seq<char>)
    ensures
        layout::entry(copt::log_in(text).other_data, "copt.variable_types_before_presolve"@)
            == copt::types_before(text),
        layout::entry(copt::log_in(text).other_data, "copt.variable_types_after_presolve"@)
            == copt::types_after(text),
        layout::entry(copt::log_in(text).other_data, "copt.coefficient_ranges"@)
            == json::object_of(
                entries::ranges_of(
                    matching::regex_captures_iter(
                        r"Range of (matrix|rhs|bound|cost) coefficients:\s*\[([^,]+),([^\]]+)\]"@,
                        text,
                    ),
                    false,
                ),
            ),
        layout::entry(copt::log_in(text).other_data, "copt.solution_quality"@)
            == json::object_of(
                copt::violations_from(
                    matching::block_rows(
                        r"(?m)^Violations\s*:"@,
                        r"^\s+(bounds|rows|integrality)\s*:\s+([\d.eE+\-]+)\s+([\d.eE+\-]+)?"@,
                        4,
                        true,
                        Margin::Free,
                        text,
                    ),
                ),
            ),
{
    assert(
        layout::entry(copt::log_in(text).other_data, "copt.variable_types_before_presolve"@)
            == copt::types_before(text)
    ) by {
        reveal(copt::log_in);
        layout::lemma_no_fields();
        reveal_strlit("copt.machine");
        reveal_strlit("copt.run_config");
        reveal_strlit("copt.model_fingerprint");
        reveal_strlit("copt.variable_types_before_presolve");
        reveal_strlit("copt.variable_types_after_presolve");
        reveal_strlit("copt.coefficient_ranges");
        reveal_strlit("copt.solution_quality");
        assert("copt.variable_types_before_presolve"@.len() != "copt.machine"@.len());
        assert("copt.variable_types_before_presolve"@.len() != "copt.run_config"@.len());
        assert("copt.variable_types_before_presolve"@.len() != "copt.model_fingerprint"@.len());
        assert(
            "copt.variable_types_before_presolve"@.len() != "copt.variable_types_after_presolve"@.len()
        );
        assert("copt.variable_types_before_presolve"@.len() != "copt.coefficient_ranges"@.len());
        assert("copt.variable_types_before_presolve"@.len() != "copt.solution_quality"@.len());
        layout::lemma_other("copt.machine"@, "copt.variable_types_before_presolve"@);
        layout::lemma_other("copt.run_config"@, "copt.variable_types_before_presolve"@);
        layout::lemma_other("copt.model_fingerprint"@, "copt.variable_types_before_presolve"@);
        layout::lemma_other(
            "copt.variable_types_before_presolve"@,
            "copt.variable_types_before_presolve"@,
        );
        layout::lemma_other(
            "copt.variable_types_after_presolve"@,
            "copt.variable_types_before_presolve"@,
        );
        layout::lemma_other("copt.coefficient_ranges"@, "copt.variable_types_before_presolve"@);
        layout::lemma_other("copt.solution_quality"@, "copt.variable_types_before_presolve"@);
    }
    assert(
        layout::entry(copt::log_in(text).other_data, "copt.variable_types_after_presolve"@)
            == copt::types_after(text)
    ) by {
        reveal(copt::log_in);
        layout::lemma_no_fields();
        reveal_strlit("copt.machine");
        reveal_strlit("copt.run_config");
        reveal_strlit("copt.model_fingerprint");
        reveal_strlit("copt.variable_types_before_presolve");
        reveal_strlit("copt.variable_types_after_presolve");
        reveal_strlit("copt.coefficient_ranges");
        reveal_strlit("copt.solution_quality");
        assert("copt.variable_types_after_presolve"@.len() != "copt.machine"@.len());
        assert("copt.variable_types_after_presolve"@.len() != "copt.run_config"@.len());
        assert("copt.variable_types_after_presolve"@.len() != "copt.model_fingerprint"@.len());
        assert(
            "copt.variable_types_after_presolve"@.len() != "copt.variable_types_before_presolve"@.len()
        );
        assert("copt.variable_types_after_presolve"@.len() != "copt.coefficient_ranges"@.len());
        assert("copt.variable_types_after_presolve"@.len() != "copt.solution_quality"@.len());
        layout::lemma_other("copt.machine"@, "copt.variable_types_after_presolve"@);
        layout::lemma_other("copt.run_config"@, "copt.variable_types_after_presolve"@);
        layout::lemma_other("copt.model_fingerprint"@, "copt.variable_types_after_presolve"@);
        layout::lemma_other(
            "copt.variable_types_before_presolve"@,
            "copt.variable_types_after_presolve"@,
        );
        layout::lemma_other(
            "copt.variable_types_after_presolve"@,
            "copt.variable_types_after_presolve"@,
        );
        layout::lemma_other("copt.coefficient_ranges"@, "copt.variable_types_after_presolve"@);
        layout::lemma_other("copt.solution_quality"@, "copt.variable_types_after_presolve"@);
    }
    assert(
        layout::entry(copt::log_in(text).other_data, "copt.coefficient_ranges"@)
            == json::object_of(
                entries::ranges_of(matching::regex_captures_iter(copt::RANGES@, text), false),
            )
    ) by {
        reveal(copt::log_in);
        layout::lemma_no_fields();
        reveal_strlit("copt.machine");
        reveal_strlit("copt.run_config");
        reveal_strlit("copt.model_fingerprint");
        reveal_strlit("copt.variable_types_before_presolve");
        reveal_strlit("copt.variable_types_after_presolve");
        reveal_strlit("copt.coefficient_ranges");
        reveal_strlit("copt.solution_quality");
        assert("copt.coefficient_ranges"@.len() != "copt.machine"@.len());
        assert("copt.coefficient_ranges"@.len() != "copt.run_config"@.len());
        assert("copt.coefficient_ranges"@.len() != "copt.model_fingerprint"@.len());
        assert("copt.coefficient_ranges"@.len() != "copt.variable_types_before_presolve"@.len());
        assert("copt.coefficient_ranges"@.len() != "copt.variable_types_after_presolve"@.len());
        assert("copt.coefficient_ranges"@.len() != "copt.solution_quality"@.len());
        layout::lemma_other("copt.machine"@, "copt.coefficient_ranges"@);
        layout::lemma_other("copt.run_config"@, "copt.coefficient_ranges"@);
        layout::lemma_other("copt.model_fingerprint"@, "copt.coefficient_ranges"@);
        layout::lemma_other("copt.variable_types_before_presolve"@, "copt.coefficient_ranges"@);
        layout::lemma_other("copt.variable_types_after_presolve"@, "copt.coefficient_ranges"@);
        layout::lemma_other("copt.coefficient_ranges"@, "copt.coefficient_ranges"@);
        layout::lemma_other("copt.solution_quality"@, "copt.coefficient_ranges"@);
    }
    assert(
        layout::entry(copt::log_in(text).other_data, "copt.solution_quality"@)
            == json::object_of(
                copt::violations_from(
                    matching::block_rows(
                        copt::VIOLATIONS_HEADER@,
                        copt::VIOLATIONS_ROW@,
                        4,
                        true,
                        Margin::Free,
                        text,
                    ),
                ),
            )
    ) by {
        reveal(copt::log_in);
        layout::lemma_no_fields();
        reveal_strlit("copt.machine");
        reveal_strlit("copt.run_config");
        reveal_strlit("copt.model_fingerprint");
        reveal_strlit("copt.variable_types_before_presolve");
        reveal_strlit("copt.variable_types_after_presolve");
        reveal_strlit("copt.coefficient_ranges");
        reveal_strlit("copt.solution_quality");
        assert("copt.solution_quality"@.len() != "copt.machine"@.len());
        assert("copt.solution_quality"@.len() != "copt.run_config"@.len());
        assert("copt.solution_quality"@.len() != "copt.model_fingerprint"@.len());
        assert("copt.solution_quality"@.len() != "copt.variable_types_before_presolve"@.len());
        assert("copt.solution_quality"@.len() != "copt.variable_types_after_presolve"@.len());
        assert("copt.solution_quality"@.len() != "copt.coefficient_ranges"@.len());
        layout::lemma_other("copt.machine"@, "copt.solution_quality"@);
        layout::lemma_other("copt.run_config"@, "copt.solution_quality"@);
        layout::lemma_other("copt.model_fingerprint"@, "copt.solution_quality"@);
        layout::lemma_other("copt.variable_types_before_presolve"@, "copt.solution_quality"@);
        layout::lemma_other("copt.variable_types_after_presolve"@, "copt.solution_quality"@);
        layout::lemma_other("copt.coefficient_ranges"@, "copt.solution_quality"@);
        layout::lemma_other("copt.solution_quality"@, "copt.solution_quality"@);
    }
}

/// The solutions are the rows with an event; the first incumbent is that of
/// the first such row with a primal bound, and the root bound the first dual
/// bound.
pub proof fn law_what_the_rows_tell(text: Seq<char>)
    ensures
        ({
            let log = copt::log_in(text);
            &&& copt::event_rows(log.progress) == 0 ==> log.tree.solutions_found is None
            &&& 0 < copt::event_rows(log.progress) <= u64::MAX
                ==> log.tree.solutions_found == Some(copt::event_rows(log.progress) as u64)
            &&& (
                copt::first_incumbent(log.progress) matches Some(row)
                    ==> log.bounds.first_primal == row.primal
                        && log.bounds.first_primal_time_seconds == Some(row.time_seconds)
            )
            &&& copt::first_incumbent(log.progress) is None
                ==> log.bounds.first_primal is None && log.bounds.first_primal_time_seconds is None
            &&& log.bounds.root_dual == progress::first_dual(log.progress)
        }),
{
    reveal(copt::log_in);
}

/// A cell holds the number that is written in it; dashes and infinities are
/// none.
pub proof fn law_cell(n: Seq<char>)
    requires
        layout::is_word(n),
    ensures
        n == "-"@ || n == "--"@ || n == "+inf"@ || n == "-inf"@ || chars::ascii_lowered(n) == "inf"@
            ==> copt::cell_of(n) is None,
        n != "-"@ && n != "--"@ && n != "+inf"@ && n != "-inf"@ && chars::ascii_lowered(n) != "inf"@
            ==> copt::cell_of(n) == layout::number(Some(n), Unit::One),
{
    layout::lemma_word_is_trimmed(n);
}

} // verus!
