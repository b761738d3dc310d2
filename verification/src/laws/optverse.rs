//! What a OptVerse log says, and where.

use crate::chars;
use crate::laws::layout;
use crate::quantity::RealView;
use crate::quantity::Unit;
use crate::schema::{RowView, Status};
use crate::solvers::optverse;
use crate::solvers::progress::{Open, ScanView};
use crate::solvers::progress;
use vstd::prelude::*;

verus! {

/// A number; dashes and an infinity are none.
pub open spec fn number_written(o: Option<Seq<char>>) -> Option<RealView> {
    match o {
        Some(s) => {
            let t = chars::trimmed(s);
            if t == "--"@ || t == "-"@ || chars::ascii_lowered(t) == "inf"@ || t.len() == 0 {
                None
            } else {
                layout::number(Some(t), Unit::One)
            }
        },
        None => None,
    }
}

/// What an OptVerse log is known by.
pub proof fn law_recognized(text: Seq<char>)
    ensures
        optverse::looks_right(text)
            <==> chars::contains(text, "OptVerse Optimizer"@)
                || chars::contains(text, "Optverse license"@),
{
}

/// The times are those written behind their words.
pub proof fn law_times(text: Seq<char>)
    ensures
        ({
            let log = optverse::log_in(text);
            let time = r"(?m)^\s+Time\s+([\d.]+)"@;
            let presolve_time = r"Presolve time:\s*([\d.]+)s"@;
            &&& log.timing.wall_seconds == layout::number(layout::said(time, text, 1), Unit::One)
            &&& log.timing.presolve_seconds
                == layout::number(layout::said(presolve_time, text, 1), Unit::One)
            &&& log.timing.cpu_seconds is None
            &&& log.timing.reading_seconds is None
            &&& log.timing.root_relaxation_seconds is None
        }),
{
    reveal(optverse::log_in);
    layout::lemma_commas();
}

/// The best solution is the primal bound and the best bound the dual one; the
/// gap is in percent.
pub proof fn law_bounds(text: Seq<char>)
    ensures
        ({
            let log = optverse::log_in(text);
            let best_solution = r"Best solution\s+([-+\d.eE]+)"@;
            let best_bound = r"Best bound\s+([-+\d.eE]+)"@;
            let gap = r"(?m)^\s+Gap\s+([\d.]+)%"@;
            &&& log.bounds.primal == number_written(layout::said(best_solution, text, 1))
            &&& log.bounds.dual == number_written(layout::said(best_bound, text, 1))
            &&& log.bounds.gap == layout::number(layout::said(gap, text, 1), Unit::Percent)
            &&& log.bounds.root_dual is None
            &&& log.bounds.first_primal is None
            &&& log.bounds.first_primal_time_seconds is None
            &&& log.bounds.primal_dual_integral is None
        }),
{
    reveal(optverse::log_in);
    layout::lemma_commas();
}

/// The counts of the search are those behind their words.
pub proof fn law_counts(text: Seq<char>)
    ensures
        ({
            let log = optverse::log_in(text);
            let node = r"(?m)^\s+Node\s+([\d,]+)"@;
            let lp_iteration = r"(?m)^\s+LP iteration\s+([\d,]+)"@;
            &&& log.tree.nodes_explored == layout::count(layout::said(node, text, 1))
            &&& log.tree.simplex_iterations == layout::count(layout::said(lp_iteration, text, 1))
            &&& log.tree.solutions_found is None
            &&& log.tree.max_depth is None
            &&& log.tree.restarts is None
        }),
{
    reveal(optverse::log_in);
    layout::lemma_commas();
}

/// The sizes of the model are the numbers before `rows`, `columns` and
/// `nonzeros`: of the first such line before presolve, of the one below
/// `After presolve:` behind it.
pub proof fn law_sizes(text: Seq<char>)
    ensures
        ({
            let log = optverse::log_in(text);
            let original = r"(?m)^\s+([\d,]+)\s+rows,\s+([\d,]+)\s+columns\b.*?\band\s+([\d,]+)\s+nonzeros"@;
            let presolved = r"After presolve:\n\s+([\d,]+)\s+rows,\s+([\d,]+)\s+columns\b.*?\band\s+([\d,]+)\s+nonzeros"@;
            &&& log.presolve.rows_before == layout::count(layout::said(original, text, 1))
            &&& log.presolve.cols_before == layout::count(layout::said(original, text, 2))
            &&& log.presolve.nonzeros_before == layout::count(layout::said(original, text, 3))
            &&& log.presolve.rows_after == layout::count(layout::said(presolved, text, 1))
            &&& log.presolve.cols_after == layout::count(layout::said(presolved, text, 2))
            &&& log.presolve.nonzeros_after == layout::count(layout::said(presolved, text, 3))
        }),
{
    reveal(optverse::log_in);
    layout::lemma_commas();
}

/// The version is the one that the log names, and the problem is the file
/// without its directories and its ending.
pub proof fn law_identity(text: Seq<char>)
    ensures
        ({
            let log = optverse::log_in(text);
            let version = r"OptVerse Optimizer version\s+(\d+\.\d+\.\d+)"@;
            let read_problem = r"Read problem\s+(\S+)"@;
            &&& log.version == layout::said(version, text, 1)
            &&& log.problem
                == (
                    match layout::said(read_problem, text, 1) {
                        Some(p) => Some(progress::model_stem(progress::last_piece(p), true)),
                        None => None,
                    }
                )
            &&& log.solver_git_hash is None
            &&& log.cuts.len() == 0
        }),
{
    reveal(optverse::log_in);
    layout::lemma_commas();
}

/// Each column of a row of the table is read for what its heading says: the
/// best solution is the primal bound and the best bound the dual one.
pub proof fn law_row(
    gaps: Seq<Seq<char>>,
    time: Seq<char>,
    solved: Seq<char>,
    open: Seq<char>,
    it_node: Seq<char>,
    best_bound: Seq<char>,
    best_solution: Seq<char>,
    gap: Seq<char>,
)
    requires
        layout::are_gaps(gaps, 7),
        layout::are_words(seq![time, solved, open, it_node, best_bound, best_solution, gap]),
        gaps[0].len() >= 2,
        gaps[0][0] == ' ',
        gaps[0][1] == ' ',
        chars::ends_with(time, "s"@),
        progress::time_of(time) is Some,
    ensures
        optverse::row_in(
            layout::laid_out(
                gaps,
                seq![time, solved, open, it_node, best_bound, best_solution, gap],
            ),
        ) == Some(
            RowView {
                time_seconds: progress::time_of(time)->Some_0,
                nodes_explored: layout::count(Some(solved)),
                primal: optverse::number_of(best_solution),
                dual: optverse::number_of(best_bound),
                gap: progress::gap_of(gap),
                depth: None,
                lp_iterations: None,
                event: None,
            },
        ),
{
    let words = seq![time, solved, open, it_node, best_bound, best_solution, gap];
    let line = layout::laid_out(gaps, words);
    layout::law_words_are_found(gaps, words);
    layout::lemma_starts(gaps, words);
    layout::lemma_commas();
    assert(line[1] == gaps[0][1]);
    assert(line.take(2) =~= gaps[0].take(2));
    layout::law_ends_are_trimmed(line.take(2), Seq::empty(), Seq::empty());
    assert(line.take(2) + Seq::<char>::empty() + Seq::<char>::empty() =~= line.take(2));
}

/// A row with a marker before it is read the same way, and the marker is its
/// event.
pub proof fn law_marked_row(
    gaps: Seq<Seq<char>>,
    marker_word: Seq<char>,
    time: Seq<char>,
    solved: Seq<char>,
    open: Seq<char>,
    it_node: Seq<char>,
    best_bound: Seq<char>,
    best_solution: Seq<char>,
    gap: Seq<char>,
)
    requires
        layout::are_gaps(gaps, 8),
        layout::are_words(
            seq![marker_word, time, solved, open, it_node, best_bound, best_solution, gap],
        ),
        gaps[0].len() == 0,
        gaps[1][0] == ' ',
        marker_word.len() == 1,
        marker_word[0] <= '\u{7f}',
        !chars::ends_with(marker_word, "s"@),
        chars::ends_with(time, "s"@),
        progress::time_of(time) is Some,
    ensures
        optverse::row_in(
            layout::laid_out(
                gaps,
                seq![marker_word, time, solved, open, it_node, best_bound, best_solution, gap],
            ),
        ) == Some(
            RowView {
                time_seconds: progress::time_of(time)->Some_0,
                nodes_explored: layout::count(Some(solved)),
                primal: optverse::number_of(best_solution),
                dual: optverse::number_of(best_bound),
                gap: progress::gap_of(gap),
                depth: None,
                lp_iterations: None,
                event: progress::event_of(marker_word[0]),
            },
        ),
{
    let words = seq![marker_word, time, solved, open, it_node, best_bound, best_solution, gap];
    let line = layout::laid_out(gaps, words);
    layout::law_words_are_found(gaps, words);
    layout::lemma_starts(gaps, words);
    layout::lemma_commas();
    layout::lemma_second(gaps, words);
    assert(layout::is_word(words[0]));
    let blank = seq![' '];
    assert(line.take(2) =~= marker_word + blank);
    layout::law_ends_are_trimmed(Seq::empty(), marker_word, blank);
    assert(Seq::<char>::empty() + marker_word + blank =~= line.take(2));
}

/// The words behind `Status` tell why the run stopped: an answer before a
/// limit.
pub proof fn law_words_tell_the_end(text: Seq<char>)
    ensures
        ({
            let log = optverse::log_in(text);
            let t = log.termination;
            &&& t.raw_reason is None ==> t.status == Status::Unknown
            &&& t.raw_reason is Some ==> ({
                let s = t.raw_reason->Some_0;
                let optimal = chars::contains(s, "Optimal"@);
                let infeasible = chars::contains(s, "infeasible"@) || chars::contains(s, "Infeasible"@);
                let unbounded = chars::contains(s, "unbounded"@) || chars::contains(s, "Unbounded"@);
                let answered = optimal || infeasible || unbounded;
                let time = chars::contains(s, "Time limit"@) || chars::contains(s, "time limit"@);
                let memory = chars::contains(s, "Memory"@) || chars::contains(s, "memory"@);
                let nodes = chars::contains(s, "Node limit"@) || chars::contains(s, "node limit"@);
                &&& t.status == Status::Optimal <==> optimal
                &&& t.status == Status::Infeasible <==> !optimal && infeasible
                &&& t.status == Status::Unbounded <==> !optimal && !infeasible && unbounded
                &&& t.status == Status::TimeLimit <==> !answered && time
                &&& t.status == Status::MemoryLimit <==> !answered && !time && memory
                &&& t.status == Status::OtherLimit <==> !answered && !time && !memory && nodes
                &&& t.status == Status::Unknown <==> !answered && !time && !memory && !nodes
            })
        }),
{
    reveal(optverse::log_in);
    layout::lemma_commas();
}

/// The first line that starts with `Status` gives the reason: the words behind
/// it.
pub proof fn law_first_status_line_counts(
    text: Seq<char>,
    before: Seq<Seq<char>>,
    line: Seq<char>,
    after: Seq<Seq<char>>,
    words: Seq<char>,
)
    requires
        chars::lines(text) == before + seq![line] + after,
        forall|i: int|
            0 <= i < before.len() ==> !chars::starts_with(
                chars::trimmed(#[trigger] before[i]),
                "Status"@,
            ),
        chars::trimmed(line) == "Status"@ + words,
    ensures
        optverse::log_in(text).termination.raw_reason == Some(chars::trimmed(words)),
{
    reveal(optverse::log_in);
    layout::law_first_label_counts(before, line, after, "Status"@, words);
}

/// The rows are the lines below the header, in their order, up to the
/// results.
pub proof fn law_table(
    text: Seq<char>,
    before: Seq<Seq<char>>,
    header: Seq<char>,
    body: Seq<Seq<char>>,
    rows: Seq<RowView>,
    after: Seq<Seq<char>>,
)
    requires
        chars::lines(text) == before + (seq![header] + (body + after)),
        forall|i: int| 0 <= i < before.len()
            ==> !(
                chars::contains((#[trigger] before[i]), "Time"@)
                    && chars::contains(before[i], "Solved"@)
                    && chars::contains(before[i], "BestBound"@)
            ),
        chars::contains(header, "Time"@),
        chars::contains(header, "Solved"@),
        chars::contains(header, "BestBound"@),
        body.len() == rows.len(),
        forall|i: int|
            0 <= i < body.len()
                ==> !chars::blank(#[trigger] body[i])
                    && !(
                        chars::starts_with(chars::trimmed(body[i]), "Time"@)
                            && chars::contains(chars::trimmed(body[i]), "BestBound"@)
                    )
                    && !(
                        chars::starts_with(chars::trimmed(body[i]), "Solve results"@)
                            || chars::starts_with(chars::trimmed(body[i]), "Write best"@)
                            || chars::starts_with(chars::trimmed(body[i]), "Status"@)
                    ) && optverse::row_in(body[i]) == Some(rows[i]),
        after.len() > 0
            ==> !chars::blank(after[0])
                && !(
                    chars::starts_with(chars::trimmed(after[0]), "Time"@)
                        && chars::contains(chars::trimmed(after[0]), "BestBound"@)
                )
                && (
                    chars::starts_with(chars::trimmed(after[0]), "Solve results"@)
                        || chars::starts_with(chars::trimmed(after[0]), "Write best"@)
                        || chars::starts_with(chars::trimmed(after[0]), "Status"@)
                ),
    ensures
        optverse::log_in(text).progress == rows,
{
    reveal(optverse::log_in);
    let format = optverse::OptverseTable;
    let start = progress::at_start();
    let open = ScanView { open: Open::Tree, ..start };
    let more = body + after;
    layout::lemma_closed(format, before, seq![header] + more);
    assert((seq![header] + more).skip(1) =~= more);
    layout::lemma_rows(format, open, body, rows, after, false);
    assert(rows + Seq::<RowView>::empty() =~= rows);
}

/// A cell holds the number that is written in it; dashes and an infinity are
/// none.
pub proof fn law_cell(n: Seq<char>)
    requires
        layout::is_word(n),
    ensures
        n == "-"@ || n == "--"@ || chars::ascii_lowered(n) == "inf"@
            ==> optverse::number_of(n) is None,
        n != "-"@ && n != "--"@ && chars::ascii_lowered(n) != "inf"@
            ==> optverse::number_of(n) == layout::number(Some(n), Unit::One),
{
    layout::lemma_word_is_trimmed(n);
}

/// A log of OptVerse has no other data.
pub proof fn law_no_other_data(text: Seq<char>)
    ensures
        optverse::log_in(text).other_data.len() == 0,
{
    reveal(optverse::log_in);
}

} // verus!
