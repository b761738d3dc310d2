//! What the lines of a document say, and which line is at fault where one
//! cannot be read.

use crate::chars;
use crate::document;
use crate::document::{DocumentView, IdentityView, Part};
use crate::fields;
use crate::fields::ValueView;
use crate::laws::layout;
use crate::numbers;
use crate::quantity::{RealView, Unit};
use crate::roundtrip;
use crate::schema;
use crate::schema::{EventView, LogView, Status};
use crate::table;
use crate::writing;
use vstd::prelude::*;

verus! {

/// Labels, each with what stands behind it, one behind the other.
pub open spec fn line_of(pairs: Seq<(Seq<char>, Seq<char>)>) -> Seq<char>
    decreases pairs.len(),
{
    if pairs.len() == 0 {
        Seq::empty()
    } else {
        line_of(pairs.drop_last()) + pairs.last().0 + pairs.last().1
    }
}

/// A text: as it is where it is a word, in quotes where it is none, and a dash
/// where there is none.
pub open spec fn text_form(o: Option<Seq<char>>) -> Seq<char> {
    match o {
        Some(s) => if s.len() > 0 && s != "-"@ && forall|i: int|
            0 <= i < s.len() ==> fields::in_word(#[trigger] s[i]) {
            s
        } else {
            seq!['"'] + fields::quotable(s) + seq!['"']
        },
        None => "-"@,
    }
}

/// A number: its literal, and a dash where there is none.
pub open spec fn number_form(o: Option<RealView>) -> Seq<char> {
    match o {
        Some(r) => r.literals[0],
        None => "-"@,
    }
}

/// A count: its digits, and a dash where there is none.
pub open spec fn count_form(o: Option<u64>) -> Seq<char> {
    match o {
        Some(n) => numbers::decimal(n as nat),
        None => "-"@,
    }
}

proof fn lemma_line(
    labels: Seq<Seq<char>>,
    values: Seq<ValueView>,
    pairs: Seq<(Seq<char>, Seq<char>)>,
)
    requires
        labels.len() == pairs.len(),
        values.len() == pairs.len(),
        forall|i: int|
            0 <= i < pairs.len() ==> #[trigger] pairs[i] == (labels[i], fields::written(values[i])),
    ensures
        fields::written_fields(labels, values) == line_of(pairs),
    decreases pairs.len(),
{
    lemma_line_from(labels, values, pairs, 0);
    assert(labels.skip(0) =~= labels);
    assert(values.skip(0) =~= values);
    assert(pairs.take(0) =~= Seq::empty());
    assert(line_of(pairs.take(0)) + fields::written_fields(labels, values)
        =~= fields::written_fields(labels, values));
}

proof fn lemma_line_from(
    labels: Seq<Seq<char>>,
    values: Seq<ValueView>,
    pairs: Seq<(Seq<char>, Seq<char>)>,
    i: int,
)
    requires
        labels.len() == pairs.len(),
        values.len() == pairs.len(),
        0 <= i <= pairs.len(),
        forall|i: int|
            0 <= i < pairs.len() ==> #[trigger] pairs[i] == (labels[i], fields::written(values[i])),
    ensures
        line_of(pairs.take(i)) + fields::written_fields(labels.skip(i), values.skip(i)) == line_of(
            pairs,
        ),
    decreases pairs.len() - i,
{
    if i < pairs.len() {
        lemma_line_from(labels, values, pairs, i + 1);
        assert(labels.skip(i).skip(1) =~= labels.skip(i + 1));
        assert(values.skip(i).skip(1) =~= values.skip(i + 1));
        assert(pairs.take(i + 1).drop_last() =~= pairs.take(i));
        assert(pairs[i] == (labels[i], fields::written(values[i])));
        assert(line_of(pairs.take(i)) + fields::written_fields(labels.skip(i), values.skip(i))
            =~= line_of(pairs.take(i + 1)) + fields::written_fields(
            labels.skip(i + 1),
            values.skip(i + 1),
        ));
    } else {
        assert(pairs.take(i) =~= pairs);
        assert(line_of(pairs) + Seq::<char>::empty() =~= line_of(pairs));
    }
}

/// Where the lines stand that come behind that of the problem.
pub open spec fn below_problem(log: LogView) -> int {
    if log.problem is Some {
        3
    } else {
        2
    }
}

proof fn lemma_places(d: DocumentView)
    ensures
        ({
            let lines = writing::document_lines(d);
            let k = below_problem(d.log);
            &&& lines[0] == document::MAGIC@
            &&& lines[1] == writing::solver_text(d.log)
            &&& (d.log.problem matches Some(p) ==> lines[2] == writing::problem_text(p))
            &&& lines[k] == writing::status_text(d.log)
            &&& lines[k + 1] == writing::timing_text(d.log.timing)
            &&& lines[k + 2] == writing::bounds_text(d.log.bounds)
            &&& lines[k + 3] == writing::tree_text(d.log.tree)
            &&& lines[k + 4] == writing::presolve_text(d.log.presolve)
            &&& lines[k + 5] == writing::cuts_text(d.log.cuts)
            &&& lines[k + 6] == writing::progress_text(d.log.progress)
            &&& lines[k + 7] == writing::COLUMNS@
            &&& forall|i: int|
                0 <= i < d.log.progress.len() ==> #[trigger] lines[k + 8 + i] == writing::row_text(
                    d.log.progress[i],
                )
            &&& lines.last() == writing::parser_text(d.version, d.git)
            &&& lines.len() == k + 9 + d.log.progress.len()
        }),
{
}

/// The first line says what a document is; the ninth of those behind the
/// problem names the columns of the rows.
pub proof fn law_frame_of_a_document(d: DocumentView)
    ensures
        writing::document_lines(d)[0] == "orlog-text 1"@,
        writing::document_lines(d)[below_problem(d.log) + 7]
            == "  # cols: time nodes primal dual gap depth lp event"@,
        writing::document_lines(d).len() == below_problem(d.log) + 9 + d.log.progress.len(),
{
    lemma_places(d);
}

/// A document is its lines, each with its ending.
pub proof fn law_lines_are_ended(lines: Seq<Seq<char>>, line: Seq<char>)
    ensures
        writing::joined(Seq::empty()) == Seq::<char>::empty(),
        writing::joined(lines.push(line)) == writing::joined(lines) + line + seq!['\n'],
{
    writing::lemma_joined_push(lines, line);
    assert(writing::joined(lines) + line.push('\n') =~= writing::joined(lines) + line + seq!['\n']);
}

/// The line of the solver: its name, its version and its git hash.
pub proof fn law_line_of_the_solver(d: DocumentView)
    ensures
        writing::document_lines(d)[1] == line_of(
            seq![
                    ("solver: name="@, text_form(Some(schema::key_of(d.log.solver)))),
                    (" version="@, text_form(d.log.version)),
                    (" git="@, text_form(d.log.solver_git_hash)),
            ],
        ),
{
    lemma_places(d);
    lemma_line(
        document::solver_labels(),
        seq![
            writing::text_value(Some(schema::key_of(d.log.solver))),
            writing::text_value(d.log.version),
            writing::text_value(d.log.solver_git_hash),
        ],
        seq![
            ("solver: name="@, text_form(Some(schema::key_of(d.log.solver)))),
            (" version="@, text_form(d.log.version)),
            (" git="@, text_form(d.log.solver_git_hash)),
        ],
    );
}

/// The line of the problem.
pub proof fn law_line_of_the_problem(d: DocumentView)
    requires
        d.log.problem is Some,
    ensures
        writing::document_lines(d)[2] == "problem: "@ + text_form(d.log.problem),
{
    lemma_places(d);
    let pairs = seq![("problem: "@, text_form(d.log.problem))];
    lemma_line(document::problem_labels(), seq![writing::text_value(d.log.problem)], pairs);
    assert(pairs.drop_last() =~= Seq::empty());
    assert(line_of(pairs.drop_last()) =~= Seq::empty());
    assert(line_of(pairs) =~= "problem: "@ + text_form(d.log.problem));
}

/// The line of the status: its name, then the reason in the solver's words.
pub open spec fn status_line_says(d: DocumentView, name: Seq<char>) -> bool {
    writing::document_lines(d)[below_problem(d.log)] == line_of(
        seq![("status: "@, name), (" reason="@, text_form(d.log.termination.raw_reason))],
    )
}

/// Each end of a run has its name in the line of the status.
pub proof fn law_line_of_the_status(d: DocumentView)
    ensures
        d.log.termination.status is Unknown ==> status_line_says(d, "unknown"@),
        d.log.termination.status is Optimal ==> status_line_says(d, "optimal"@),
        d.log.termination.status is Infeasible ==> status_line_says(d, "infeasible"@),
        d.log.termination.status is Unbounded ==> status_line_says(d, "unbounded"@),
        d.log.termination.status is InfeasibleOrUnbounded
            ==> status_line_says(d, "infeasible_or_unbounded"@),
        d.log.termination.status is TimeLimit ==> status_line_says(d, "time_limit"@),
        d.log.termination.status is MemoryLimit ==> status_line_says(d, "memory_limit"@),
        d.log.termination.status is OtherLimit ==> status_line_says(d, "other_limit"@),
        d.log.termination.status is UserInterrupt ==> status_line_says(d, "user_interrupt"@),
        d.log.termination.status is NumericalError ==> status_line_says(d, "numerical_error"@),
{
    lemma_places(d);
    let name = document::status_name(d.log.termination.status);
    lemma_names(d.log.termination.status);
    lemma_line(
        document::status_labels(),
        seq![
            writing::text_value(Some(name)),
            writing::text_value(d.log.termination.raw_reason),
        ],
        seq![("status: "@, name), (" reason="@, text_form(d.log.termination.raw_reason))],
    );
}

proof fn lemma_names(status: Status)
    ensures
        writing::is_word(document::status_name(status)),
{
    reveal_strlit("-");
    reveal_strlit("unknown");
    reveal_strlit("optimal");
    reveal_strlit("infeasible");
    reveal_strlit("unbounded");
    reveal_strlit("infeasible_or_unbounded");
    reveal_strlit("time_limit");
    reveal_strlit("memory_limit");
    reveal_strlit("other_limit");
    reveal_strlit("user_interrupt");
    reveal_strlit("numerical_error");
    let name = document::status_name(status);
    assert forall|i: int| 0 <= i < name.len() implies fields::in_word(#[trigger] name[i]) by {
    }
    assert(name.len() != "-"@.len());
}

/// The line of the times, each behind its name.
pub proof fn law_line_of_the_times(d: DocumentView)
    ensures
        writing::document_lines(d)[below_problem(d.log) + 1] == line_of(
            seq![
                    ("timing: wall="@, number_form(d.log.timing.wall_seconds)),
                    (" cpu="@, number_form(d.log.timing.cpu_seconds)),
                    (" reading="@, number_form(d.log.timing.reading_seconds)),
                    (" presolve="@, number_form(d.log.timing.presolve_seconds)),
                    (" root_relax="@, number_form(d.log.timing.root_relaxation_seconds)),
            ],
        ),
{
    lemma_places(d);
    lemma_line(
        document::timing_labels(),
        seq![
            writing::number_value(d.log.timing.wall_seconds),
            writing::number_value(d.log.timing.cpu_seconds),
            writing::number_value(d.log.timing.reading_seconds),
            writing::number_value(d.log.timing.presolve_seconds),
            writing::number_value(d.log.timing.root_relaxation_seconds),
        ],
        seq![
            ("timing: wall="@, number_form(d.log.timing.wall_seconds)),
            (" cpu="@, number_form(d.log.timing.cpu_seconds)),
            (" reading="@, number_form(d.log.timing.reading_seconds)),
            (" presolve="@, number_form(d.log.timing.presolve_seconds)),
            (" root_relax="@, number_form(d.log.timing.root_relaxation_seconds)),
        ],
    );
}

/// The line of the bounds and the gap.
pub proof fn law_line_of_the_bounds(d: DocumentView)
    ensures
        writing::document_lines(d)[below_problem(d.log) + 2] == line_of(
            seq![
                    ("bounds: primal="@, number_form(d.log.bounds.primal)),
                    (" dual="@, number_form(d.log.bounds.dual)),
                    (" gap="@, number_form(d.log.bounds.gap)),
            ],
        ),
{
    lemma_places(d);
    lemma_line(
        document::bounds_labels(),
        seq![
            writing::number_value(d.log.bounds.primal),
            writing::number_value(d.log.bounds.dual),
            writing::number_value(d.log.bounds.gap),
        ],
        seq![
            ("bounds: primal="@, number_form(d.log.bounds.primal)),
            (" dual="@, number_form(d.log.bounds.dual)),
            (" gap="@, number_form(d.log.bounds.gap)),
        ],
    );
}

/// The line of the search tree.
pub proof fn law_line_of_the_tree(d: DocumentView)
    ensures
        writing::document_lines(d)[below_problem(d.log) + 3] == line_of(
            seq![
                    ("tree: nodes="@, count_form(d.log.tree.nodes_explored)),
                    (" simplex_iters="@, count_form(d.log.tree.simplex_iterations)),
                    (" sols="@, count_form(d.log.tree.solutions_found)),
            ],
        ),
{
    lemma_places(d);
    lemma_line(
        document::tree_labels(),
        seq![
            writing::count_value(d.log.tree.nodes_explored),
            writing::count_value(d.log.tree.simplex_iterations),
            writing::count_value(d.log.tree.solutions_found),
        ],
        seq![
            ("tree: nodes="@, count_form(d.log.tree.nodes_explored)),
            (" simplex_iters="@, count_form(d.log.tree.simplex_iterations)),
            (" sols="@, count_form(d.log.tree.solutions_found)),
        ],
    );
}

/// The line of presolve: each size before it and, behind a slash, after it.
pub proof fn law_line_of_presolve(d: DocumentView)
    ensures
        writing::document_lines(d)[below_problem(d.log) + 4] == line_of(
            seq![
                    ("presolve: rows="@, count_form(d.log.presolve.rows_before)),
                    ("/"@, count_form(d.log.presolve.rows_after)),
                    (" cols="@, count_form(d.log.presolve.cols_before)),
                    ("/"@, count_form(d.log.presolve.cols_after)),
                    (" nnz="@, count_form(d.log.presolve.nonzeros_before)),
                    ("/"@, count_form(d.log.presolve.nonzeros_after)),
            ],
        ),
{
    lemma_places(d);
    lemma_line(
        document::presolve_labels(),
        seq![
            writing::count_value(d.log.presolve.rows_before),
            writing::count_value(d.log.presolve.rows_after),
            writing::count_value(d.log.presolve.cols_before),
            writing::count_value(d.log.presolve.cols_after),
            writing::count_value(d.log.presolve.nonzeros_before),
            writing::count_value(d.log.presolve.nonzeros_after),
        ],
        seq![
            ("presolve: rows="@, count_form(d.log.presolve.rows_before)),
            ("/"@, count_form(d.log.presolve.rows_after)),
            (" cols="@, count_form(d.log.presolve.cols_before)),
            ("/"@, count_form(d.log.presolve.cols_after)),
            (" nnz="@, count_form(d.log.presolve.nonzeros_before)),
            ("/"@, count_form(d.log.presolve.nonzeros_after)),
        ],
    );
}

/// The line of the cuts: each family with its count, in their order.
pub proof fn law_line_of_the_cuts(d: DocumentView, cuts: Seq<(Seq<char>, u64)>)
    ensures
        writing::document_lines(d)[below_problem(d.log) + 5] == "cuts:"@ + writing::cut_list_text(
            d.log.cuts,
        ),
        writing::cut_list_text(Seq::empty()) == Seq::<char>::empty(),
        cuts.len() > 0 ==> writing::cut_list_text(cuts) == line_of(
            seq![
                (" "@, text_form(Some(cuts[0].0))),
                ("="@, numbers::decimal(cuts[0].1 as nat)),
            ],
        ) + writing::cut_list_text(cuts.skip(1)),
{
    lemma_places(d);
    if cuts.len() > 0 {
        lemma_line(
            document::cut_labels(),
            seq![writing::text_value(Some(cuts[0].0)), writing::count_value(Some(cuts[0].1))],
            seq![
                (" "@, text_form(Some(cuts[0].0))),
                ("="@, numbers::decimal(cuts[0].1 as nat)),
            ],
        );
    }
}

/// The line above the rows: how many they are, and the time of the last.
pub proof fn law_line_of_the_progress(d: DocumentView)
    requires
        d.log.progress.len() <= u64::MAX,
    ensures
        d.log.progress.len() > 0 ==> writing::document_lines(d)[below_problem(d.log) + 6]
            == line_of(
            seq![
                ("progress: rows="@, numbers::decimal(d.log.progress.len())),
                (" last_time="@, number_form(Some(d.log.progress.last().time_seconds))),
            ],
        ),
        d.log.progress.len() == 0 ==> writing::document_lines(d)[below_problem(d.log) + 6]
            == line_of(
            seq![("progress: rows="@, numbers::decimal(0)), (" last_time="@, "-"@)],
        ),
{
    lemma_places(d);
    let rows = d.log.progress;
    lemma_line(
        document::progress_labels(),
        seq![
            writing::count_value(Some(rows.len() as u64)),
            writing::number_value(writing::last_time(rows)),
        ],
        seq![
            ("progress: rows="@, numbers::decimal(rows.len())),
            (" last_time="@, number_form(writing::last_time(rows))),
        ],
    );
}

/// What stands for an event in a row.
pub open spec fn event_form(o: Option<EventView>) -> Seq<char> {
    match o {
        Some(e) => match e {
            EventView::Heuristic => "heuristic"@,
            EventView::BranchSolution => "branch_solution"@,
            EventView::Cutoff => "cutoff"@,
            EventView::Other(s) => seq!['"'] + fields::quotable(s) + seq!['"'],
        },
        None => "-"@,
    }
}

/// The line of a row has its values in the order of the columns: the time,
/// the nodes, the primal and the dual bound, the gap, the depth, the
/// iterations and the event.
pub proof fn law_line_of_a_row(d: DocumentView, i: int)
    requires
        0 <= i < d.log.progress.len(),
    ensures
        ({
            let row = d.log.progress[i];
            writing::document_lines(d)[below_problem(d.log) + 8 + i] == line_of(
                seq![
                    ("  "@, number_form(Some(row.time_seconds))),
                    (" "@, count_form(row.nodes_explored)),
                    (" "@, number_form(row.primal)),
                    (" "@, number_form(row.dual)),
                    (" "@, number_form(row.gap)),
                    (
                        " "@,
                        match row.depth {
                            Some(n) => numbers::decimal(n as nat),
                            None => "-"@,
                        },
                    ),
                    (" "@, count_form(row.lp_iterations)),
                    (" "@, event_form(row.event)),
                ],
            )
        }),
{
    lemma_places(d);
    let row = d.log.progress[i];
    assert(writing::document_lines(d)[below_problem(d.log) + 8 + i] == writing::row_text(row));
    lemma_line(
        document::row_labels(),
        seq![
            writing::number_value(Some(row.time_seconds)),
            writing::count_value(row.nodes_explored),
            writing::number_value(row.primal),
            writing::number_value(row.dual),
            writing::number_value(row.gap),
            writing::depth_value(row.depth),
            writing::count_value(row.lp_iterations),
            writing::event_value(row.event),
        ],
        seq![
            ("  "@, number_form(Some(row.time_seconds))),
            (" "@, count_form(row.nodes_explored)),
            (" "@, number_form(row.primal)),
            (" "@, number_form(row.dual)),
            (" "@, number_form(row.gap)),
            (
                " "@,
                match row.depth {
                    Some(n) => numbers::decimal(n as nat),
                    None => "-"@,
                },
            ),
            (" "@, count_form(row.lp_iterations)),
            (" "@, event_form(row.event)),
        ],
    );
}

/// The last line: the version of the library that read the log, and its git
/// hash, a dash where that is empty.
pub proof fn law_last_line(d: DocumentView)
    ensures
        writing::document_lines(d).last() == line_of(
            seq![
                ("parser: version="@, text_form(Some(d.version))),
                (
                    " git="@,
                    if d.git.len() == 0 {
                        "-"@
                    } else {
                        text_form(Some(d.git))
                    },
                ),
            ],
        ),
{
    lemma_places(d);
    lemma_line(
        document::parser_labels(),
        seq![writing::text_value(Some(d.version)), writing::git_value(d.git)],
        seq![
            ("parser: version="@, text_form(Some(d.version))),
            (
                " git="@,
                if d.git.len() == 0 {
                    "-"@
                } else {
                    text_form(Some(d.git))
                },
            ),
        ],
    );
}

/// Between quotes a quote or a backslash has a backslash before it; any other
/// character stands as it is.
pub proof fn law_quotes(a: Seq<char>, c: char, b: Seq<char>)
    ensures
        c == '"' || c == '\\' ==> fields::quotable(a + seq![c] + b) == fields::quotable(a) + seq![
            '\\',
            c,
        ] + fields::quotable(b),
        c != '"' && c != '\\' ==> fields::quotable(a + seq![c] + b) == fields::quotable(a)
            + seq![c] + fields::quotable(b),
    decreases a.len(),
{
    let all = a + seq![c] + b;
    if a.len() == 0 {
        assert(all.skip(1) =~= b);
        assert(fields::quotable(a) =~= Seq::empty());
        assert(fields::quotable(all) =~= fields::quotable(a) + fields::escape_mark(c)
            + fields::quotable(b));
    } else {
        law_quotes(a.skip(1), c, b);
        assert(all.skip(1) =~= a.skip(1) + seq![c] + b);
        assert(all[0] == a[0]);
        assert(fields::quotable(all) =~= fields::quotable(a) + fields::escape_mark(c)
            + fields::quotable(b));
    }
}

/// A word is made of letters, digits and a few marks; no blank, quote,
/// backslash, equals sign or hash is in one.
pub proof fn law_words(c: char)
    ensures
        'a' <= c <= 'z' || 'A' <= c <= 'Z' || '0' <= c <= '9' ==> fields::in_word(c),
        c == '.' || c == '_' || c == '/' || c == ':' || c == '+' || c == '-' ==> fields::in_word(c),
        c == ' ' || c == '"' || c == '\\' || c == '=' || c == '#' || c == '\n' || c == '\t' || c
            == '(' || c == ')' || c == ',' || c == '%' ==> !fields::in_word(c),
        c as int >= 0x7f ==> !fields::in_word(c),
{
}

/// The part that an error names is at fault: its line does not say what it
/// should. The lines of the body start at `k`.
pub open spec fn is_at_fault(lines: Seq<Seq<char>>, k: int, part: Part) -> bool {
    let rows = document::progress_in(document::line_at(lines, k + 6));
    match part {
        Part::Magic => document::line_at(lines, 0) != "orlog-text 1"@,
        Part::Solver => document::solver_in(document::line_at(lines, 1)) is None,
        Part::Problem => document::problem_in(document::line_at(lines, 2)) is None,
        Part::Status => document::status_in(document::line_at(lines, k)) is None,
        Part::Timing => document::timing_in(document::line_at(lines, k + 1)) is None,
        Part::Bounds => document::bounds_in(document::line_at(lines, k + 2)) is None,
        Part::Tree => document::tree_in(document::line_at(lines, k + 3)) is None,
        Part::Presolve => document::presolve_in(document::line_at(lines, k + 4)) is None,
        Part::Cuts => document::cuts_in(document::line_at(lines, k + 5)) is None,
        Part::Progress => rows is None,
        Part::Rows => rows is Some && (lines.len() < k + 7 + rows->Some_0 || has_bad_row(
            lines.subrange(k + 7, k + 7 + rows->Some_0),
        )),
        Part::Parser => rows is Some && document::parser_in(
            document::line_at(lines, k + 7 + rows->Some_0),
        ) is None,
        Part::End => rows is Some && lines.len() > k + 8 + rows->Some_0,
    }
}

/// One of the lines is no row.
pub open spec fn has_bad_row(lines: Seq<Seq<char>>) -> bool {
    exists|i: int| 0 <= i < lines.len() && document::row_in(#[trigger] lines[i]) is None
}

/// Where a document cannot be read, the part that the error names is the one
/// at fault.
pub proof fn law_error_names_the_part(lines: Seq<Seq<char>>)
    ensures
        document::document_in(lines) matches Err(e) ==> is_at_fault(
            lines,
            if document::has_problem(lines, 2) {
                3
            } else {
                2
            },
            e.part,
        ),
{
    if let Some(who) = document::solver_in(document::line_at(lines, 1)) {
        if document::has_problem(lines, 2) {
            if let Some(problem) = document::problem_in(document::line_at(lines, 2)) {
                lemma_fault(lines, 3, who, problem);
            }
        } else {
            lemma_fault(lines, 2, who, None);
        }
    }
}

proof fn lemma_fault(
    lines: Seq<Seq<char>>,
    k: int,
    who: IdentityView,
    problem: Option<Seq<char>>,
)
    ensures
        document::body_in(lines, k, who, problem) matches Err(e) ==> is_at_fault(lines, k, e.part),
{
    if let Some(n) = document::progress_in(document::line_at(lines, k + 6)) {
        let some = lines.subrange(k + 7, k + 7 + n);
        if document::rows_in(some) is None {
            let i = lemma_bad_line(some);
            assert(document::row_in(some[i]) is None);
        }
    }
}

proof fn lemma_bad_line(lines: Seq<Seq<char>>) -> (i: int)
    requires
        document::rows_in(lines) is None,
    ensures
        0 <= i < lines.len(),
        document::row_in(lines[i]) is None,
    decreases lines.len(),
{
    if document::row_in(lines.last()) is None {
        lines.len() - 1
    } else {
        lemma_bad_line(lines.drop_last())
    }
}

/// Each part has its name in the words of the error.
pub proof fn law_names_of_the_parts()
    ensures
        document::part_name(Part::Magic) == "magic"@,
        document::part_name(Part::Solver) == "solver"@,
        document::part_name(Part::Problem) == "problem"@,
        document::part_name(Part::Status) == "status"@,
        document::part_name(Part::Timing) == "timing"@,
        document::part_name(Part::Bounds) == "bounds"@,
        document::part_name(Part::Tree) == "tree"@,
        document::part_name(Part::Presolve) == "presolve"@,
        document::part_name(Part::Cuts) == "cuts"@,
        document::part_name(Part::Progress) == "progress"@,
        document::part_name(Part::Rows) == "rows"@,
        document::part_name(Part::Parser) == "parser"@,
        document::part_name(Part::End) == "end"@,
{
}

/// A line whose first mark is a hash is a comment, and a blank one says
/// nothing either; any other counts.
pub proof fn law_lines_that_count(blanks: Seq<char>, rest: Seq<char>)
    requires
        chars::blank(blanks),
        rest.len() == 0 || !chars::is_space(rest[0]),
    ensures
        document::counts(blanks + rest) <==> rest.len() > 0 && rest[0] != '#',
{
    layout::lemma_front_trimmed(blanks, rest);
}

/// What a bare or quoted value holds: a dash is nothing, a number or a count is
/// never in quotes, and a marker of a solver's own always is.
pub proof fn law_values(w: Seq<char>)
    ensures
        document::text_in(ValueView::Bare("-"@)) is None,
        document::text_in(ValueView::Quoted(w)) == Some(w),
        w != "-"@ ==> document::text_in(ValueView::Bare(w)) == Some(w),
        document::number_in(ValueView::Bare("-"@)) == Some(None::<RealView>),
        document::number_in(ValueView::Quoted(w)) is None,
        w != "-"@ && !numbers::is_real(w) ==> document::number_in(ValueView::Bare(w)) is None,
        w != "-"@ && numbers::is_real(w) ==> document::number_in(ValueView::Bare(w)) == Some(
            layout::number(Some(w), Unit::One),
        ),
        document::count_in(ValueView::Bare("-"@)) == Some(None::<u64>),
        document::count_in(ValueView::Quoted(w)) is None,
        w != "-"@ && numbers::u64_of(w) is None ==> document::count_in(ValueView::Bare(w)) is None,
        w != "-"@ && numbers::u64_of(w) is Some ==> document::count_in(ValueView::Bare(w)) == Some(
            numbers::u64_of(w),
        ),
        document::event_in(ValueView::Bare("-"@)) == Some(None::<EventView>),
        document::event_in(ValueView::Quoted(w)) == Some(Some(EventView::Other(w))),
        w != "-"@ && w != "heuristic"@ && w != "branch_solution"@ && w != "cutoff"@
            ==> document::event_in(ValueView::Bare(w)) is None,
{
    law_known_events();
}

/// The known events are read by their names.
pub proof fn law_known_events()
    ensures
        document::event_in(ValueView::Bare("heuristic"@)) == Some(Some(EventView::Heuristic)),
        document::event_in(ValueView::Bare("branch_solution"@)) == Some(
            Some(EventView::BranchSolution),
        ),
        document::event_in(ValueView::Bare("cutoff"@)) == Some(Some(EventView::Cutoff)),
{
    reveal_strlit("-");
    reveal_strlit("heuristic");
    reveal_strlit("branch_solution");
    reveal_strlit("cutoff");
    assert("-"@.len() == 1 && "heuristic"@.len() == 9 && "branch_solution"@.len() == 15
        && "cutoff"@.len() == 6);
}

/// A depth fits 32 bits.
pub proof fn law_depths(n: u64)
    ensures
        n <= 0xffff_ffff ==> document::depth_in(ValueView::Bare(numbers::decimal(n as nat)))
            == Some(Some(n as u32)),
        n > 0xffff_ffff ==> document::depth_in(
            ValueView::Bare(numbers::decimal(n as nat)),
        ) is None,
{
    numbers::law_written_count_is_read(n);
    reveal_strlit("-");
    let s = numbers::decimal(n as nat);
    assert(numbers::is_digit(s[0]));
    assert("-"@[0] == '-');
}

/// Of several counts of one family of cuts the last one counts.
pub proof fn law_last_count_of_a_family(list: Seq<(Seq<char>, u64)>, name: Seq<char>, n: u64)
    ensures
        document::tallied(list.push((name, n))) == table::put(document::tallied(list), name, n),
        document::tallied(Seq::empty()).len() == 0,
{
    assert(list.push((name, n)).drop_last() =~= list);
}

/// A document keeps all of a log but the other data, what the bounds say of the
/// root and of the first solution, and the depth and the restarts of the tree.
pub proof fn law_what_a_document_keeps(log: LogView)
    ensures
        ({
            let kept = roundtrip::carried(log);
            &&& kept.solver == log.solver
            &&& kept.version == log.version
            &&& kept.solver_git_hash == log.solver_git_hash
            &&& kept.problem == log.problem
            &&& kept.termination == log.termination
            &&& kept.timing == log.timing
            &&& kept.bounds.primal == log.bounds.primal
            &&& kept.bounds.dual == log.bounds.dual
            &&& kept.bounds.gap == log.bounds.gap
            &&& kept.tree.nodes_explored == log.tree.nodes_explored
            &&& kept.tree.simplex_iterations == log.tree.simplex_iterations
            &&& kept.tree.solutions_found == log.tree.solutions_found
            &&& kept.presolve == log.presolve
            &&& kept.cuts == log.cuts
            &&& kept.progress == log.progress
            &&& kept.other_data.len() == 0
            &&& kept.bounds.root_dual is None && kept.bounds.first_primal is None
            &&& kept.tree.max_depth is None && kept.tree.restarts is None
        }),
{
}

/// A text has no line ending in it.
pub open spec fn keeps_its_line(o: Option<Seq<char>>) -> bool {
    o is Some ==> !o->Some_0.contains('\n')
}

/// Every log whose texts have no line ending in them and whose families of cuts
/// are in order can be written.
pub proof fn law_what_can_be_written(d: DocumentView)
    requires
        keeps_its_line(d.log.version),
        keeps_its_line(d.log.solver_git_hash),
        keeps_its_line(d.log.problem),
        keeps_its_line(d.log.termination.raw_reason),
        keeps_its_line(Some(d.version)),
        keeps_its_line(Some(d.git)),
        table::in_order(d.log.cuts),
        forall|i: int|
            0 <= i < d.log.cuts.len() ==> keeps_its_line(Some((#[trigger] d.log.cuts[i]).0)),
        d.log.progress.len() <= u64::MAX,
        forall|i: int|
            0 <= i < d.log.progress.len() ==> ((#[trigger] d.log.progress[i]).event matches Some(
                EventView::Other(q),
            ) ==> keeps_its_line(Some(q))),
    ensures
        writing::writable(d),
{
    assert forall|s: Seq<char>| !s.contains('\n') implies #[trigger] writing::one_line(s) by {
    }
    assert forall|i: int| 0 <= i < d.log.cuts.len() implies writing::one_line(
        (#[trigger] d.log.cuts[i]).0,
    ) by {
        assert(keeps_its_line(Some(d.log.cuts[i].0)));
    }
    assert forall|i: int| 0 <= i < d.log.progress.len() implies writing::one_line_event(
        #[trigger] d.log.progress[i],
    ) by {
    }
}

} // verus!
