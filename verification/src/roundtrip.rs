//! A document that was written is read back.

use crate::chars;
use crate::document;
use crate::document::{DocumentView, TextError, MAGIC};
use crate::fields;
use crate::fields::ValueView;
use crate::json::Json;
use crate::numbers;
use crate::printed;
use crate::printed::PrintedView;
use crate::quantity;
use crate::quantity::RealView;
use crate::schema;
use crate::schema::{
    BoundsView, EventView, LogView, PresolveStats, RowView, Status, TimingView, TreeStats,
};
use crate::table;
use crate::text;
use crate::writing;
use vstd::prelude::*;

verus! {

/// What a document holds of a log: all but the free-form data, and what it
/// has no place for.
pub open spec fn carried(log: LogView) -> LogView {
    LogView {
        bounds: BoundsView {
            primal: log.bounds.primal,
            dual: log.bounds.dual,
            gap: log.bounds.gap,
            ..schema::no_bounds()
        },
        tree: TreeStats {
            nodes_explored: log.tree.nodes_explored,
            simplex_iterations: log.tree.simplex_iterations,
            solutions_found: log.tree.solutions_found,
            ..schema::no_tree()
        },
        other_data: Seq::empty(),
        ..log
    }
}

/// A value that is read back and keeps to its line.
spec fn is_good(v: ValueView, slash: bool) -> bool {
    fields::is_proper(v, slash) && writing::one_line(fields::written(v))
}

proof fn lemma_quotable_one_line(q: Seq<char>)
    requires
        writing::one_line(q),
    ensures
        writing::one_line(fields::quotable(q)),
    decreases q.len(),
{
    if q.len() > 0 {
        let more = q.skip(1);
        assert forall|i: int| 0 <= i < more.len() implies #[trigger] more[i] != '\n' by {
            assert(more[i] == q[i + 1]);
        }
        lemma_quotable_one_line(more);
        let s = fields::quotable(q);
        let mark = fields::escape_mark(q[0]);
        assert(q[0] != '\n');
        assert forall|i: int| 0 <= i < s.len() implies #[trigger] s[i] != '\n' by {
            if i >= mark.len() {
                assert(s[i] == fields::quotable(more)[i - mark.len()]);
            }
        }
    }
}

proof fn lemma_quoted_good(q: Seq<char>, slash: bool)
    requires
        writing::one_line(q),
    ensures
        is_good(ValueView::Quoted(q), slash),
{
    lemma_quotable_one_line(q);
    let s = fields::written(ValueView::Quoted(q));
    assert forall|i: int| 0 <= i < s.len() implies #[trigger] s[i] != '\n' by {
        if 1 <= i < s.len() - 1 {
            assert(s[i] == fields::quotable(q)[i - 1]);
        }
    }
}

proof fn lemma_dash_good(slash: bool)
    ensures
        is_good(document::dash(), slash),
{
    reveal_strlit("-");
}

proof fn lemma_text_value(o: Option<Seq<char>>)
    requires
        writing::opt_one_line(o),
    ensures
        is_good(writing::text_value(o), false),
        document::text_in(writing::text_value(o)) == o,
{
    match o {
        Some(s) => {
            lemma_quoted_good(s, false);
        },
        None => {
            lemma_dash_good(false);
        },
    }
}

/// The characters of a real literal are those of a word.
proof fn lemma_real_is_word(s: Seq<char>)
    requires
        numbers::is_real(s),
    ensures
        writing::is_word(s),
{
    reveal_strlit("-");
    let body = numbers::unsign(s);
    assert(body.len() > 0 && forall|i: int|
        0 <= i < body.len() ==> fields::in_word(#[trigger] body[i])) by {
        if numbers::is_infinity(body) || numbers::is_nan(body) {
            lemma_named_number(body);
        } else {
            lemma_decimal_is_word(body);
        }
    }
    assert forall|i: int| 0 <= i < s.len() implies fields::in_word(#[trigger] s[i]) by {
        if body != s {
            if i > 0 {
                assert(s[i] == body[i - 1]);
            }
        } else {
            assert(s[i] == body[i]);
        }
    }
}

proof fn lemma_named_number(s: Seq<char>)
    requires
        numbers::is_infinity(s) || numbers::is_nan(s),
    ensures
        s.len() > 0,
        forall|i: int| 0 <= i < s.len() ==> fields::in_word(#[trigger] s[i]),
{
    reveal_strlit("inf");
    reveal_strlit("infinity");
    reveal_strlit("nan");
    let low = chars::ascii_lowered(s);
    assert(low.len() == s.len());
    assert forall|i: int| 0 <= i < s.len() implies fields::in_word(#[trigger] s[i]) by {
        assert(low[i] == chars::ascii_lower(s[i]));
        assert('a' <= low[i] && low[i] <= 'z');
    }
}

proof fn lemma_mantissa_is_word(s: Seq<char>)
    requires
        numbers::is_mantissa(s),
    ensures
        s.len() > 0,
        forall|i: int| 0 <= i < s.len() ==> fields::in_word(#[trigger] s[i]),
{
    let k = chars::index_of(s, '.') as int;
    numbers::lemma_index_of(s, '.');
    assert forall|i: int| 0 <= i < s.len() implies fields::in_word(#[trigger] s[i]) by {
        if k >= s.len() {
            assert(numbers::is_digit(s[i]));
        } else if i < k {
            assert(s.take(k)[i] == s[i]);
        } else if i > k {
            assert(s.skip(k + 1)[i - k - 1] == s[i]);
        }
    }
}

proof fn lemma_decimal_is_word(s: Seq<char>)
    requires
        numbers::is_decimal(s),
    ensures
        s.len() > 0,
        forall|i: int| 0 <= i < s.len() ==> fields::in_word(#[trigger] s[i]),
{
    let k = numbers::exponent_at(s) as int;
    numbers::lemma_exponent_at(s);
    if k >= s.len() {
        lemma_mantissa_is_word(s);
    } else {
        lemma_mantissa_is_word(s.take(k));
        let e = s.skip(k + 1);
        let digits = numbers::unsign(e);
        assert forall|i: int| 0 <= i < s.len() implies fields::in_word(#[trigger] s[i]) by {
            if i < k {
                assert(s.take(k)[i] == s[i]);
            } else if i > k {
                assert(e[i - k - 1] == s[i]);
                if digits != e {
                    if i > k + 1 {
                        assert(digits[i - k - 2] == s[i]);
                    }
                } else {
                    assert(digits[i - k - 1] == s[i]);
                }
            }
        }
    }
}

proof fn lemma_number_value(o: Option<RealView>)
    requires
        writing::is_written(o),
    ensures
        is_good(writing::number_value(o), false),
        document::number_in(writing::number_value(o)) == Some(o),
{
    match o {
        Some(r) => {
            lemma_real_is_word(r.literals[0]);
            assert(r.literals =~= seq![r.literals[0]]);
            assert(quantity::literal(r.literals[0]) == r);
        },
        None => {
            lemma_dash_good(false);
        },
    }
}

proof fn lemma_count_value(o: Option<u64>, slash: bool)
    ensures
        is_good(writing::count_value(o), slash),
        document::count_in(writing::count_value(o)) == Some(o),
{
    match o {
        Some(n) => {
            numbers::law_written_count_is_read(n);
            reveal_strlit("-");
            let s = numbers::decimal(n as nat);
            assert(numbers::is_digit(s[0]));
            assert forall|i: int| 0 <= i < s.len() implies !fields::ends_word(
                #[trigger] s[i],
                slash,
            ) && s[i] != '\n' by {
                assert(numbers::is_digit(s[i]));
            }
        },
        None => {
            lemma_dash_good(slash);
        },
    }
}

proof fn lemma_depth_value(o: Option<u32>)
    ensures
        is_good(writing::depth_value(o), false),
        document::depth_in(writing::depth_value(o)) == Some(o),
{
    match o {
        Some(n) => {
            lemma_count_value(Some(n as u64), false);
        },
        None => {
            lemma_count_value(None, false);
        },
    }
}

proof fn lemma_event_value(o: Option<EventView>)
    requires
        o matches Some(EventView::Other(q)) ==> writing::one_line(q),
    ensures
        is_good(writing::event_value(o), false),
        document::event_in(writing::event_value(o)) == Some(o),
{
    reveal_strlit("-");
    reveal_strlit("heuristic");
    reveal_strlit("branch_solution");
    reveal_strlit("cutoff");
    match o {
        Some(EventView::Other(q)) => {
            lemma_quoted_good(q, false);
        },
        _ => {},
    }
}

/// Length and first letter tell the names of the statuses apart.
proof fn lemma_status_shape(status: Status)
    ensures
        writing::one_line(document::status_name(status)),
        document::status_name(status).len() == (match status {
            Status::Unknown => 7nat,
            Status::Optimal => 7nat,
            Status::Infeasible => 10nat,
            Status::Unbounded => 9nat,
            Status::InfeasibleOrUnbounded => 23nat,
            Status::TimeLimit => 10nat,
            Status::MemoryLimit => 12nat,
            Status::OtherLimit => 11nat,
            Status::UserInterrupt => 14nat,
            Status::NumericalError => 15nat,
        }),
        document::status_name(status)[0] == (match status {
            Status::Unknown => 'u',
            Status::Optimal => 'o',
            Status::Infeasible => 'i',
            Status::Unbounded => 'u',
            Status::InfeasibleOrUnbounded => 'i',
            Status::TimeLimit => 't',
            Status::MemoryLimit => 'm',
            Status::OtherLimit => 'o',
            Status::UserInterrupt => 'u',
            Status::NumericalError => 'n',
        }),
{
    reveal_strlit("unknown");
    reveal_strlit("optimal");
    reveal_strlit("infeasible");
    reveal_strlit("unbounded");
    reveal_strlit("infeasible_or_unbounded");
    reveal_strlit("time_limit");
    reveal_strlit("memory_limit");
    reveal_strlit("other_limit");
    reveal_strlit("user_interrupt");
    reveal_strlit("numerical_error");
}

proof fn lemma_status_name(status: Status)
    ensures
        document::status_named(document::status_name(status)) == Some(status),
        writing::one_line(document::status_name(status)),
{
    lemma_status_shape(Status::Unknown);
    lemma_status_shape(Status::Optimal);
    lemma_status_shape(Status::Infeasible);
    lemma_status_shape(Status::Unbounded);
    lemma_status_shape(Status::InfeasibleOrUnbounded);
    lemma_status_shape(Status::TimeLimit);
    lemma_status_shape(Status::MemoryLimit);
    lemma_status_shape(Status::OtherLimit);
    lemma_status_shape(Status::UserInterrupt);
    lemma_status_shape(Status::NumericalError);
}

/// Labels that part the values between them and keep to their line.
spec fn labels_good(labels: Seq<Seq<char>>, slash: bool) -> bool {
    &&& labels.len() > 0
    &&& fields::labels_part(labels, slash)
    &&& forall|i: int| 0 <= i < labels.len() ==> writing::one_line(#[trigger] labels[i])
}

/// A character that a line that counts can start with.
spec fn can_start(c: char) -> bool {
    !chars::is_space(c) && c != '#'
}

/// A line that is found again as it was written.
spec fn is_tidy(line: Seq<char>) -> bool {
    &&& line.len() > 0
    &&& !chars::is_space(line.last())
    &&& writing::one_line(line)
    &&& document::counts(line)
}

proof fn lemma_one_line_adds(a: Seq<char>, b: Seq<char>)
    requires
        writing::one_line(a),
        writing::one_line(b),
    ensures
        writing::one_line(a + b),
{
    let s = a + b;
    assert forall|i: int| 0 <= i < s.len() implies #[trigger] s[i] != '\n' by {
        if i < a.len() {
            assert(s[i] == a[i]);
        } else {
            assert(s[i] == b[i - a.len()]);
        }
    }
}

spec fn all_good(values: Seq<ValueView>, slash: bool) -> bool {
    forall|i: int| 0 <= i < values.len() ==> is_good(#[trigger] values[i], slash)
}

/// A value is written as a text that is not empty and ends with no space.
proof fn lemma_value_end(v: ValueView, slash: bool)
    requires
        is_good(v, slash),
    ensures
        fields::written(v).len() > 0,
        !chars::is_space(fields::written(v).last()),
{
    match v {
        ValueView::Bare(w) => {
            assert(!fields::ends_word(w[w.len() - 1], slash));
        },
        ValueView::Quoted(_) => {},
    }
}

#[verifier::spinoff_prover]
proof fn lemma_written_fields(labels: Seq<Seq<char>>, values: Seq<ValueView>, slash: bool)
    requires
        labels.len() == values.len(),
        labels.len() > 0,
        forall|i: int| 0 <= i < labels.len() ==> writing::one_line(#[trigger] labels[i]),
        all_good(values, slash),
    ensures
        fields::written_fields(labels, values).len() > labels[0].len(),
        !chars::is_space(fields::written_fields(labels, values).last()),
        writing::one_line(fields::written_fields(labels, values)),
        chars::starts_with(
            fields::written_fields(labels, values),
            labels[0] + fields::written(values[0]),
        ),
    decreases labels.len(),
{
    let s = fields::written_fields(labels, values);
    let head = labels[0] + fields::written(values[0]);
    assert(is_good(values[0], slash));
    lemma_one_line_adds(labels[0], fields::written(values[0]));
    lemma_value_end(values[0], slash);
    let ls = labels.skip(1);
    let vs = values.skip(1);
    if labels.len() == 1 {
        assert(fields::written_fields(ls, vs) =~= Seq::empty());
        assert(s =~= head);
    } else {
        assert forall|i: int| 0 <= i < ls.len() implies writing::one_line(#[trigger] ls[i]) by {
            assert(ls[i] == labels[i + 1]);
        }
        assert forall|i: int| 0 <= i < vs.len() implies is_good(#[trigger] vs[i], slash) by {
            assert(vs[i] == values[i + 1]);
        }
        lemma_written_fields(ls, vs, slash);
        let more = fields::written_fields(ls, vs);
        lemma_one_line_adds(head, more);
        assert(s =~= head + more);
        assert(s.last() == more.last());
    }
    assert(s.take(head.len() as int) =~= head);
}

/// A line of labels and values is read back.
proof fn lemma_line(labels: Seq<Seq<char>>, values: Seq<ValueView>, slash: bool)
    requires
        labels.len() == values.len(),
        labels_good(labels, slash),
        all_good(values, slash),
        labels[0].len() > 0,
        can_start(labels[0][0]),
    ensures
        fields::fields(fields::written_fields(labels, values), labels, slash) == Some(values),
        is_tidy(fields::written_fields(labels, values)),
        chars::starts_with(fields::written_fields(labels, values), labels[0]),
{
    let s = fields::written_fields(labels, values);
    assert forall|i: int| 0 <= i < values.len() implies fields::is_proper(
        #[trigger] values[i],
        slash,
    ) by {
        assert(is_good(values[i], slash));
    }
    fields::lemma_fields_of(labels, values, Seq::empty(), slash);
    assert(s + Seq::<char>::empty() =~= s);
    lemma_written_fields(labels, values, slash);
    let head = labels[0] + fields::written(values[0]);
    assert(s[0] == s.take(head.len() as int)[0]);
    assert(head[0] == labels[0][0]);
    assert(s.take(labels[0].len() as int) =~= head.take(labels[0].len() as int)) by {
        assert(s.take(head.len() as int).take(labels[0].len() as int) =~= s.take(
            labels[0].len() as int,
        ));
    }
    assert(head.take(labels[0].len() as int) =~= labels[0]);
}

proof fn lemma_labels()
    ensures
        labels_good(document::solver_labels(), false),
        labels_good(document::problem_labels(), false),
        labels_good(document::status_labels(), false),
        labels_good(document::timing_labels(), false),
        labels_good(document::bounds_labels(), false),
        labels_good(document::tree_labels(), false),
        labels_good(document::presolve_labels(), true),
        labels_good(document::cut_labels(), false),
        labels_good(document::progress_labels(), false),
        labels_good(document::row_labels(), false),
        labels_good(document::parser_labels(), false),
{
    reveal_strlit("solver: name=");
    reveal_strlit(" version=");
    reveal_strlit(" git=");
    reveal_strlit("problem: ");
    reveal_strlit("status: ");
    reveal_strlit(" reason=");
    reveal_strlit("timing: wall=");
    reveal_strlit(" cpu=");
    reveal_strlit(" reading=");
    reveal_strlit(" presolve=");
    reveal_strlit(" root_relax=");
    reveal_strlit("bounds: primal=");
    reveal_strlit(" dual=");
    reveal_strlit(" gap=");
    reveal_strlit("tree: nodes=");
    reveal_strlit(" simplex_iters=");
    reveal_strlit(" sols=");
    reveal_strlit("presolve: rows=");
    reveal_strlit("/");
    reveal_strlit(" cols=");
    reveal_strlit(" nnz=");
    reveal_strlit(" ");
    reveal_strlit("=");
    reveal_strlit("progress: rows=");
    reveal_strlit(" last_time=");
    reveal_strlit("  ");
    reveal_strlit("parser: version=");
}

proof fn lemma_solver_text(log: LogView)
    requires
        writing::opt_one_line(log.version),
        writing::opt_one_line(log.solver_git_hash),
    ensures
        document::solver_in(writing::solver_text(log)) == Some(
            document::IdentityView {
                solver: log.solver,
                version: log.version,
                git: log.solver_git_hash,
            },
        ),
        is_tidy(writing::solver_text(log)),
{
    lemma_labels();
    reveal_strlit("solver: name=");
    schema::lemma_key(log.solver);
    let key = schema::key_of(log.solver);
    lemma_text_value(Some(key));
    lemma_text_value(log.version);
    lemma_text_value(log.solver_git_hash);
    let values = seq![writing::text_value(Some(key)), writing::text_value(log.version), writing::text_value(log.solver_git_hash)];
    lemma_line(document::solver_labels(), values, false);
}

proof fn lemma_problem_text(problem: Seq<char>)
    requires
        writing::one_line(problem),
    ensures
        document::problem_in(writing::problem_text(problem)) == Some(Some(problem)),
        is_tidy(writing::problem_text(problem)),
        chars::starts_with(writing::problem_text(problem), "problem:"@),
{
    lemma_labels();
    reveal_strlit("problem: ");
    reveal_strlit("problem:");
    lemma_text_value(Some(problem));
    lemma_line(document::problem_labels(), seq![writing::text_value(Some(problem))], false);
    let s = writing::problem_text(problem);
    assert(s.take(8) =~= s.take(9).take(8));
    assert("problem: "@.take(8) =~= "problem:"@);
}

proof fn lemma_status_text(log: LogView)
    requires
        writing::opt_one_line(log.termination.raw_reason),
    ensures
        document::status_in(writing::status_text(log)) == Some(log.termination),
        is_tidy(writing::status_text(log)),
        !chars::starts_with(writing::status_text(log), "problem:"@),
{
    lemma_labels();
    reveal_strlit("status: ");
    reveal_strlit("problem:");
    lemma_status_name(log.termination.status);
    let name = document::status_name(log.termination.status);
    lemma_text_value(Some(name));
    lemma_text_value(log.termination.raw_reason);
    lemma_line(
        document::status_labels(),
        seq![writing::text_value(Some(name)), writing::text_value(log.termination.raw_reason)],
        false,
    );
    let s = writing::status_text(log);
    assert(s.take(8)[0] == 's');
}

proof fn lemma_timing_text(t: TimingView)
    requires
        writing::is_written(t.wall_seconds),
        writing::is_written(t.cpu_seconds),
        writing::is_written(t.reading_seconds),
        writing::is_written(t.presolve_seconds),
        writing::is_written(t.root_relaxation_seconds),
    ensures
        document::timing_in(writing::timing_text(t)) == Some(t),
        is_tidy(writing::timing_text(t)),
{
    lemma_labels();
    reveal_strlit("timing: wall=");
    lemma_number_value(t.wall_seconds);
    lemma_number_value(t.cpu_seconds);
    lemma_number_value(t.reading_seconds);
    lemma_number_value(t.presolve_seconds);
    lemma_number_value(t.root_relaxation_seconds);
    lemma_line(
        document::timing_labels(),
        seq![
            writing::number_value(t.wall_seconds),
            writing::number_value(t.cpu_seconds),
            writing::number_value(t.reading_seconds),
            writing::number_value(t.presolve_seconds),
            writing::number_value(t.root_relaxation_seconds),
        ],
        false,
    );
}

proof fn lemma_bounds_text(log: LogView)
    requires
        writing::is_written(log.bounds.primal),
        writing::is_written(log.bounds.dual),
        writing::is_written(log.bounds.gap),
    ensures
        document::bounds_in(writing::bounds_text(log.bounds)) == Some(carried(log).bounds),
        is_tidy(writing::bounds_text(log.bounds)),
{
    lemma_labels();
    reveal_strlit("bounds: primal=");
    lemma_number_value(log.bounds.primal);
    lemma_number_value(log.bounds.dual);
    lemma_number_value(log.bounds.gap);
    lemma_line(
        document::bounds_labels(),
        seq![
            writing::number_value(log.bounds.primal),
            writing::number_value(log.bounds.dual),
            writing::number_value(log.bounds.gap),
        ],
        false,
    );
}

proof fn lemma_tree_text(log: LogView)
    ensures
        document::tree_in(writing::tree_text(log.tree)) == Some(carried(log).tree),
        is_tidy(writing::tree_text(log.tree)),
{
    lemma_labels();
    reveal_strlit("tree: nodes=");
    let t = log.tree;
    lemma_count_value(t.nodes_explored, false);
    lemma_count_value(t.simplex_iterations, false);
    lemma_count_value(t.solutions_found, false);
    lemma_line(
        document::tree_labels(),
        seq![
            writing::count_value(t.nodes_explored),
            writing::count_value(t.simplex_iterations),
            writing::count_value(t.solutions_found),
        ],
        false,
    );
}

proof fn lemma_presolve_text(p: PresolveStats)
    ensures
        document::presolve_in(writing::presolve_text(p)) == Some(p),
        is_tidy(writing::presolve_text(p)),
{
    lemma_labels();
    reveal_strlit("presolve: rows=");
    lemma_count_value(p.rows_before, true);
    lemma_count_value(p.rows_after, true);
    lemma_count_value(p.cols_before, true);
    lemma_count_value(p.cols_after, true);
    lemma_count_value(p.nonzeros_before, true);
    lemma_count_value(p.nonzeros_after, true);
    lemma_line(
        document::presolve_labels(),
        seq![
            writing::count_value(p.rows_before),
            writing::count_value(p.rows_after),
            writing::count_value(p.cols_before),
            writing::count_value(p.cols_after),
            writing::count_value(p.nonzeros_before),
            writing::count_value(p.nonzeros_after),
        ],
        true,
    );
}

proof fn lemma_progress_text(rows: Seq<RowView>)
    requires
        rows.len() <= u64::MAX,
        writing::is_written(writing::last_time(rows)),
    ensures
        document::progress_in(writing::progress_text(rows)) == Some(rows.len() as u64),
        is_tidy(writing::progress_text(rows)),
{
    lemma_labels();
    reveal_strlit("progress: rows=");
    lemma_count_value(Some(rows.len() as u64), false);
    lemma_number_value(writing::last_time(rows));
    lemma_line(
        document::progress_labels(),
        seq![writing::count_value(Some(rows.len() as u64)), writing::number_value(writing::last_time(rows))],
        false,
    );
}

proof fn lemma_parser_text(version: Seq<char>, git: Seq<char>)
    requires
        writing::one_line(version),
        writing::one_line(git),
    ensures
        document::parser_in(writing::parser_text(version, git)) == Some((version, git)),
        is_tidy(writing::parser_text(version, git)),
{
    lemma_labels();
    reveal_strlit("parser: version=");
    lemma_text_value(Some(version));
    lemma_text_value(Some(git));
    lemma_text_value(None);
    assert(git.len() == 0 ==> git =~= Seq::empty());
    lemma_line(
        document::parser_labels(),
        seq![writing::text_value(Some(version)), writing::git_value(git)],
        false,
    );
}

proof fn lemma_row_text(row: RowView)
    requires
        writing::written_row(row),
    ensures
        document::row_in(writing::row_text(row)) == Some(row),
        is_tidy(writing::row_text(row)),
{
    lemma_labels();
    lemma_number_value(Some(row.time_seconds));
    lemma_count_value(row.nodes_explored, false);
    lemma_number_value(row.primal);
    lemma_number_value(row.dual);
    lemma_number_value(row.gap);
    lemma_depth_value(row.depth);
    lemma_count_value(row.lp_iterations, false);
    lemma_event_value(row.event);
    let labels = document::row_labels();
    let values = seq![
        writing::number_value(Some(row.time_seconds)),
        writing::count_value(row.nodes_explored),
        writing::number_value(row.primal),
        writing::number_value(row.dual),
        writing::number_value(row.gap),
        writing::depth_value(row.depth),
        writing::count_value(row.lp_iterations),
        writing::event_value(row.event),
    ];
    let s = writing::row_text(row);
    assert forall|i: int| 0 <= i < values.len() implies fields::is_proper(
        #[trigger] values[i],
        false,
    ) by {
        assert(is_good(values[i], false));
    }
    fields::lemma_fields_of(labels, values, Seq::empty(), false);
    assert(s + Seq::<char>::empty() =~= s);
    lemma_written_fields(labels, values, false);
    reveal_strlit("  ");
    let time = row.time_seconds.literals[0];
    lemma_real_is_word(time);
    let head = labels[0] + time;
    assert(head[0] == ' ' && head[1] == ' ' && head[2] == time[0]);
    assert(s[0] == s.take(head.len() as int)[0]);
    assert(s[1] == s.take(head.len() as int)[1]);
    assert(s[2] == s.take(head.len() as int)[2]);
    lemma_indented(s);
}

/// Two blanks before something that is no space.
proof fn lemma_indented(s: Seq<char>)
    requires
        s.len() > 2,
        s[0] == ' ',
        s[1] == ' ',
        !chars::is_space(s[2]),
    ensures
        chars::front_trimmed(s, Seq::empty(), true) == s.skip(2),
{
    assert(s.skip(1)[0] == ' ');
    assert(s.skip(1).skip(1) =~= s.skip(2));
    assert(s.skip(2)[0] == s[2]);
    reveal_with_fuel(chars::front_trimmed, 3);
}

proof fn lemma_cut_list(cuts: Seq<(Seq<char>, u64)>)
    requires
        forall|i: int| 0 <= i < cuts.len() ==> writing::one_line((#[trigger] cuts[i]).0),
    ensures
        document::cut_list_in(writing::cut_list_text(cuts)) == Some(cuts),
        writing::one_line(writing::cut_list_text(cuts)),
        writing::cut_list_text(cuts).len() > 0 ==> writing::cut_list_text(cuts)[0] == ' ' && !chars::is_space(
            writing::cut_list_text(cuts).last(),
        ),
    decreases cuts.len(),
{
    let s = writing::cut_list_text(cuts);
    if cuts.len() == 0 {
        assert(cuts =~= Seq::empty());
    } else {
        let more = cuts.skip(1);
        let rest = writing::cut_list_text(more);
        assert forall|i: int| 0 <= i < more.len() implies writing::one_line((#[trigger] more[i]).0) by {
            assert(more[i] == cuts[i + 1]);
        }
        lemma_cut_list(more);
        lemma_labels();
        assert(writing::one_line(cuts[0].0));
        lemma_text_value(Some(cuts[0].0));
        lemma_count_value(Some(cuts[0].1), false);
        let labels = document::cut_labels();
        let values = seq![writing::text_value(Some(cuts[0].0)), writing::count_value(Some(cuts[0].1))];
        assert forall|i: int| 0 <= i < values.len() implies fields::is_proper(
            #[trigger] values[i],
            false,
        ) by {
            assert(is_good(values[i], false));
        }
        fields::lemma_fields_of(labels, values, rest, false);
        lemma_written_fields(labels, values, false);
        reveal_strlit(" ");
        let first = writing::cut_text(cuts[0]);
        let head = labels[0] + fields::written(values[0]);
        assert(first[0] == first.take(head.len() as int)[0]);
        assert(head[0] == ' ');
        lemma_one_line_adds(first, rest);
        assert(s[0] == first[0]);
        assert(s.last() == if rest.len() > 0 {
            rest.last()
        } else {
            first.last()
        });
        assert(seq![(cuts[0].0, cuts[0].1)] + more =~= cuts);
    }
}

/// Families in order are taken over as they are.
proof fn lemma_tallied(cuts: Seq<(Seq<char>, u64)>)
    requires
        table::in_order(cuts),
    ensures
        document::tallied(cuts) == cuts,
    decreases cuts.len(),
{
    if cuts.len() == 0 {
        assert(cuts =~= Seq::empty());
    } else {
        let before = cuts.drop_last();
        let (name, n) = cuts.last();
        assert forall|i: int, j: int| 0 <= i < j < before.len() implies table::less(
            (#[trigger] before[i]).0,
            (#[trigger] before[j]).0,
        ) by {
            assert(before[i] == cuts[i] && before[j] == cuts[j]);
        }
        lemma_tallied(before);
        assert forall|i: int| 0 <= i < before.len() implies table::less(
            (#[trigger] before[i]).0,
            name,
        ) by {
            assert(before[i] == cuts[i] && cuts[cuts.len() - 1].0 == name);
        }
        table::lemma_put_last(before, name, n);
        assert(before.push((name, n)) =~= cuts);
    }
}

proof fn lemma_cuts_text(cuts: Seq<(Seq<char>, u64)>)
    requires
        table::in_order(cuts),
        forall|i: int| 0 <= i < cuts.len() ==> writing::one_line((#[trigger] cuts[i]).0),
    ensures
        document::cuts_in(writing::cuts_text(cuts)) == Some(cuts),
        is_tidy(writing::cuts_text(cuts)),
{
    reveal_strlit("cuts:");
    lemma_cut_list(cuts);
    lemma_tallied(cuts);
    let s = writing::cuts_text(cuts);
    let list = writing::cut_list_text(cuts);
    lemma_one_line_adds("cuts:"@, list);
    assert(s.take(5) =~= "cuts:"@);
    assert(s.skip(5) =~= list);
    assert(s.last() == if list.len() > 0 {
        list.last()
    } else {
        ':'
    });
    assert(s[0] == 'c');
}

proof fn lemma_newline_at(line: Seq<char>, rest: Seq<char>)
    requires
        writing::one_line(line),
    ensures
        chars::index_of(text::ended(line) + rest, '\n') == line.len(),
    decreases line.len(),
{
    let s = text::ended(line) + rest;
    if line.len() == 0 {
        assert(s[0] == '\n');
    } else {
        assert(s[0] == line[0]);
        let more = line.skip(1);
        assert forall|i: int| 0 <= i < more.len() implies #[trigger] more[i] != '\n' by {
            assert(more[i] == line[i + 1]);
        }
        lemma_newline_at(more, rest);
        assert(s.skip(1) =~= text::ended(more) + rest);
    }
}

/// Lines that were joined are found again.
proof fn lemma_lines_joined(lines: Seq<Seq<char>>)
    requires
        forall|i: int|
            0 <= i < lines.len() ==> writing::one_line(#[trigger] lines[i]) && lines[i].len() > 0
                && !chars::is_space(lines[i].last()),
    ensures
        chars::lines(writing::joined(lines)) == lines,
    decreases lines.len(),
{
    if lines.len() == 0 {
        assert(lines =~= Seq::empty());
    } else {
        let s = writing::joined(lines);
        let line = lines[0];
        let more = lines.skip(1);
        assert forall|i: int| 0 <= i < more.len() implies writing::one_line(#[trigger] more[i])
            && more[i].len() > 0 && !chars::is_space(more[i].last()) by {
            assert(more[i] == lines[i + 1]);
        }
        lemma_lines_joined(more);
        lemma_newline_at(line, writing::joined(more));
        assert(s.take(line.len() as int) =~= line);
        assert(s.skip((line.len() + 1) as int) =~= writing::joined(more));
        assert(chars::without_return(line) == line);
        assert(seq![line] + more =~= lines);
    }
}

proof fn lemma_count_adds(a: Seq<Seq<char>>, b: Seq<Seq<char>>)
    ensures
        document::lines_that_count(a + b) == document::lines_that_count(a)
            + document::lines_that_count(b),
    decreases b.len(),
{
    if b.len() == 0 {
        assert(a + b =~= a);
        assert(document::lines_that_count(a) + Seq::<Seq<char>>::empty()
            =~= document::lines_that_count(a));
    } else {
        assert((a + b).drop_last() =~= a + b.drop_last());
        assert((a + b).last() == b.last());
        lemma_count_adds(a, b.drop_last());
        let line = document::tidied(b.last());
        let x = document::lines_that_count(a);
        let y = document::lines_that_count(b.drop_last());
        assert((x + y).push(line) =~= x + y.push(line));
    }
}

/// Tidy lines all count, as they are.
proof fn lemma_tidy_lines(lines: Seq<Seq<char>>)
    requires
        forall|i: int| 0 <= i < lines.len() ==> is_tidy(#[trigger] lines[i]),
    ensures
        document::lines_that_count(lines) == lines,
    decreases lines.len(),
{
    if lines.len() == 0 {
        assert(lines =~= Seq::empty());
    } else {
        let before = lines.drop_last();
        assert forall|i: int| 0 <= i < before.len() implies is_tidy(#[trigger] before[i]) by {
            assert(before[i] == lines[i]);
        }
        lemma_tidy_lines(before);
        assert(is_tidy(lines[lines.len() - 1]));
        assert(before.push(lines.last()) =~= lines);
    }
}

proof fn lemma_columns()
    ensures
        writing::one_line(writing::COLUMNS@),
        writing::COLUMNS@.len() > 0,
        !chars::is_space(writing::COLUMNS@.last()),
        document::lines_that_count(seq![writing::COLUMNS@]) == Seq::<Seq<char>>::empty(),
{
    reveal_strlit("  # cols: time nodes primal dual gap depth lp event");
    lemma_indented(writing::COLUMNS@);
    let lines = seq![writing::COLUMNS@];
    assert(lines.drop_last() =~= Seq::empty());
    assert(document::lines_that_count(lines.drop_last()) =~= Seq::empty());
    assert(document::tidied(writing::COLUMNS@) == writing::COLUMNS@);
    assert(writing::COLUMNS@.skip(2)[0] == '#');
}

proof fn lemma_rows(rows: Seq<RowView>)
    requires
        forall|i: int| 0 <= i < rows.len() ==> writing::written_row(#[trigger] rows[i]),
    ensures
        document::rows_in(writing::row_lines(rows)) == Some(rows),
        forall|i: int| 0 <= i < rows.len() ==> is_tidy(#[trigger] writing::row_lines(rows)[i]),
    decreases rows.len(),
{
    let lines = writing::row_lines(rows);
    if rows.len() == 0 {
        assert(rows =~= Seq::empty());
    } else {
        let before = rows.drop_last();
        assert forall|i: int| 0 <= i < before.len() implies writing::written_row(#[trigger] before[i]) by {
            assert(before[i] == rows[i]);
        }
        lemma_rows(before);
        assert(lines.drop_last() =~= writing::row_lines(before));
        lemma_row_text(rows[rows.len() - 1]);
        assert(before.push(rows.last()) =~= rows);
        assert forall|i: int| 0 <= i < rows.len() implies is_tidy(#[trigger] lines[i]) by {
            if i < rows.len() - 1 {
                assert(lines[i] == writing::row_lines(before)[i]);
            }
        }
    }
}

proof fn lemma_head_lines(d: DocumentView)
    requires
        writing::is_settled(d),
    ensures
        forall|i: int| 0 <= i < writing::head_lines(d.log).len() ==> is_tidy(
            #[trigger] writing::head_lines(d.log)[i],
        ),
{
    let log = d.log;
    reveal_strlit("orlog-text 1");
    assert(is_tidy(MAGIC@));
    lemma_solver_text(log);
    if let Some(p) = log.problem {
        lemma_problem_text(p);
    }
    lemma_status_text(log);
    lemma_timing_text(log.timing);
    lemma_bounds_text(log);
    lemma_tree_text(log);
    lemma_presolve_text(log.presolve);
    lemma_cuts_text(log.cuts);
    if log.progress.len() > 0 {
        assert(writing::written_row(log.progress[log.progress.len() - 1]));
    }
    lemma_progress_text(log.progress);
}

/// The lines of a document that count.
spec fn counting_lines(d: DocumentView) -> Seq<Seq<char>> {
    writing::head_lines(d.log) + writing::row_lines(d.log.progress) + seq![writing::parser_text(d.version, d.git)]
}

/// How many lines come before that of the status.
spec fn status_place(log: LogView) -> int {
    if log.problem is Some {
        3
    } else {
        2
    }
}

/// Where the parts of a document stand.
proof fn lemma_places(d: DocumentView)
    ensures
        ({
            let lines = counting_lines(d);
            let k = status_place(d.log);
            let n = d.log.progress.len();
            &&& lines.len() == k + 8 + n
            &&& lines[0] == MAGIC@
            &&& lines[1] == writing::solver_text(d.log)
            &&& d.log.problem matches Some(p) ==> lines[2] == writing::problem_text(p)
            &&& lines[k] == writing::status_text(d.log)
            &&& lines[k + 1] == writing::timing_text(d.log.timing)
            &&& lines[k + 2] == writing::bounds_text(d.log.bounds)
            &&& lines[k + 3] == writing::tree_text(d.log.tree)
            &&& lines[k + 4] == writing::presolve_text(d.log.presolve)
            &&& lines[k + 5] == writing::cuts_text(d.log.cuts)
            &&& lines[k + 6] == writing::progress_text(d.log.progress)
            &&& lines.subrange(k + 7, k + 7 + n) == writing::row_lines(d.log.progress)
            &&& lines[k + 7 + n] == writing::parser_text(d.version, d.git)
        }),
{
    let lines = counting_lines(d);
    let k = status_place(d.log);
    let n = d.log.progress.len();
    assert(writing::head_lines(d.log).len() == k + 7);
    assert(lines.subrange(k + 7, k + 7 + n) =~= writing::row_lines(d.log.progress));
}

/// What is read from the line of the status on.
proof fn lemma_body(
    lines: Seq<Seq<char>>,
    k: int,
    who: document::IdentityView,
    problem: Option<Seq<char>>,
    d: DocumentView,
)
    requires
        k >= 0,
        d.log.progress.len() <= u64::MAX,
        lines.len() == k + 8 + d.log.progress.len(),
        document::status_in(lines[k]) == Some(d.log.termination),
        document::timing_in(lines[k + 1]) == Some(d.log.timing),
        document::bounds_in(lines[k + 2]) == Some(d.log.bounds),
        document::tree_in(lines[k + 3]) == Some(d.log.tree),
        document::presolve_in(lines[k + 4]) == Some(d.log.presolve),
        document::cuts_in(lines[k + 5]) == Some(d.log.cuts),
        document::progress_in(lines[k + 6]) == Some(d.log.progress.len() as u64),
        document::rows_in(lines.subrange(k + 7, k + 7 + d.log.progress.len())) == Some(
            d.log.progress,
        ),
        document::parser_in(lines[k + 7 + d.log.progress.len()]) == Some((d.version, d.git)),
        d.log.solver == who.solver,
        d.log.version == who.version,
        d.log.solver_git_hash == who.git,
        d.log.problem == problem,
        d.log.other_data == Seq::<(Seq<char>, Json)>::empty(),
    ensures
        document::body_in(lines, k, who, problem) == Ok::<DocumentView, TextError>(d),
{
}

/// The lines of a document that count say what was written.
proof fn lemma_document_in(d: DocumentView)
    requires
        writing::is_settled(d),
    ensures
        document::document_in(counting_lines(d)) == Ok::<DocumentView, TextError>(
            DocumentView { log: carried(d.log), version: d.version, git: d.git },
        ),
{
    let log = d.log;
    let lines = counting_lines(d);
    let k = status_place(log);
    lemma_places(d);
    lemma_solver_text(log);
    lemma_status_text(log);
    lemma_timing_text(log.timing);
    lemma_bounds_text(log);
    lemma_tree_text(log);
    lemma_presolve_text(log.presolve);
    lemma_cuts_text(log.cuts);
    if log.progress.len() > 0 {
        assert(writing::written_row(log.progress[log.progress.len() - 1]));
    }
    lemma_progress_text(log.progress);
    lemma_rows(log.progress);
    lemma_parser_text(d.version, d.git);
    if let Some(p) = log.problem {
        lemma_problem_text(p);
    }
    let who = document::IdentityView {
        solver: log.solver,
        version: log.version,
        git: log.solver_git_hash,
    };
    lemma_body(
        lines,
        k,
        who,
        log.problem,
        DocumentView { log: carried(log), version: d.version, git: d.git },
    );
}

proof fn lemma_document_is_read_back(d: DocumentView)
    requires
        writing::is_settled(d),
    ensures
        document::read_document(writing::written_document(d)) == Ok::<DocumentView, TextError>(
            DocumentView { log: carried(d.log), version: d.version, git: d.git },
        ),
        writing::written_document(DocumentView { log: carried(d.log), version: d.version, git: d.git })
            == writing::written_document(d),
{
    let head = writing::head_lines(d.log);
    let rows = writing::row_lines(d.log.progress);
    let last = seq![writing::parser_text(d.version, d.git)];
    let lines = writing::document_lines(d);
    lemma_head_lines(d);
    lemma_rows(d.log.progress);
    lemma_parser_text(d.version, d.git);
    lemma_columns();
    assert forall|i: int| 0 <= i < lines.len() implies writing::one_line(#[trigger] lines[i])
        && lines[i].len() > 0 && !chars::is_space(lines[i].last()) by {
        if i < head.len() {
            assert(is_tidy(head[i]));
        } else if i == head.len() {
            assert(lines[i] == writing::COLUMNS@);
        } else if i < lines.len() - 1 {
            assert(lines[i] == rows[i - head.len() - 1]);
            assert(is_tidy(writing::row_lines(d.log.progress)[i - head.len() - 1]));
        }
    }
    lemma_lines_joined(lines);
    assert(forall|i: int| 0 <= i < last.len() ==> is_tidy(#[trigger] last[i]));
    lemma_tidy_lines(head);
    lemma_tidy_lines(rows);
    lemma_tidy_lines(last);
    lemma_count_adds(head, seq![writing::COLUMNS@]);
    lemma_count_adds(head + seq![writing::COLUMNS@], rows);
    lemma_count_adds(head + seq![writing::COLUMNS@] + rows, last);
    assert(head + Seq::<Seq<char>>::empty() =~= head);
    lemma_document_in(d);
}

/// A document that was written is read back, whatever numbers its log holds:
/// the log with the numbers as they were printed, as far as a document holds
/// it, and the library that read the log. The log that was read back holds
/// those literals, and is written with them as the same document.
pub proof fn law_document_is_read_back(d: DocumentView, p: PrintedView)
    requires
        writing::writable(d),
        printed::fits(d.log, p),
        printed::are_literals(p),
    ensures
        ({
            let shown = printed::printed_document(d, p);
            let back = DocumentView { log: carried(shown.log), ..d };
            let own = printed::own_literals(back.log);
            let text = writing::written_document(shown);
            &&& document::read_document(text) == Ok::<DocumentView, TextError>(back)
            &&& printed::plain_numbers(back.log)
            &&& printed::fits(back.log, own)
            &&& writing::written_document(printed::printed_document(back, own)) == text
        }),
{
    let shown = printed::printed_document(d, p);
    let back = DocumentView { log: carried(shown.log), ..d };
    let rows = shown.log.progress;
    assert forall|i: int| 0 <= i < rows.len() implies writing::written_row(#[trigger] rows[i])
        && writing::numbered_row(rows[i]) && printed::plain_row(rows[i]) by {
        assert(writing::one_line_event(d.log.progress[i]));
        assert(printed::row_literals(p.rows[i]));
    }
    lemma_document_is_read_back(shown);
    printed::law_own_literals(back.log);
}

proof fn lemma_parser_start(version: Seq<char>, git: Seq<char>)
    ensures
        chars::starts_with(writing::parser_text(version, git), "parser: "@),
{
    reveal_strlit("parser: ");
    reveal_strlit("parser: version=");
    let all = writing::parser_text(version, git);
    let label = "parser: version="@;
    assert(document::parser_labels()[0] == label);
    assert(all.take(label.len() as int) =~= label);
    assert(all.subrange(0, 8) =~= label.take(8));
    assert(label.take(8) =~= "parser: "@);
}

/// A document starts with the line that says what it is, and ends with the
/// line of the library that read the log.
pub proof fn law_document_frame(d: DocumentView)
    ensures
        chars::starts_with(writing::written_document(d), text::ended(MAGIC@)),
        chars::ends_with(writing::written_document(d), text::ended(writing::parser_text(d.version, d.git))),
        chars::starts_with(writing::parser_text(d.version, d.git), "parser: "@),
{
    lemma_parser_start(d.version, d.git);
    let s = writing::written_document(d);
    let lines = writing::document_lines(d);
    let first = text::ended(MAGIC@);
    let last = writing::parser_text(d.version, d.git);
    assert(lines[0] == MAGIC@);
    assert(s.take(first.len() as int) =~= first);
    assert(lines =~= lines.drop_last().push(last));
    writing::lemma_joined_push(lines.drop_last(), last);
    assert(s.skip(s.len() - text::ended(last).len()) =~= text::ended(last));
}

/// A comment or a blank line says nothing, wherever it stands among the lines.
pub proof fn law_comments_say_nothing(
    before: Seq<Seq<char>>,
    line: Seq<char>,
    after: Seq<Seq<char>>,
)
    requires
        !document::counts(document::tidied(line)),
    ensures
        document::lines_that_count(before + seq![line] + after) == document::lines_that_count(
            before + after,
        ),
{
    let one = seq![line];
    assert(one.drop_last() =~= Seq::empty());
    assert(document::lines_that_count(one.drop_last()) =~= Seq::empty());
    lemma_count_adds(before, one);
    lemma_count_adds(before + one, after);
    lemma_count_adds(before, after);
    assert(document::lines_that_count(before) + Seq::<Seq<char>>::empty()
        =~= document::lines_that_count(before));
}

/// The lines of a text that goes on behind a line ending.
proof fn lemma_lines_add(a: Seq<char>, b: Seq<char>)
    requires
        a.len() == 0 || a.last() == '\n',
    ensures
        chars::lines(a + b) == chars::lines(a) + chars::lines(b),
    decreases a.len(),
{
    if a.len() == 0 {
        assert(a + b =~= b);
        assert(chars::lines(a) + chars::lines(b) =~= chars::lines(b));
    } else {
        let n = chars::index_of(a, '\n') as int;
        lemma_first_newline(a, b);
        let more = a.skip(n + 1);
        assert(more.len() > 0 ==> more.last() == a.last());
        lemma_lines_add(more, b);
        assert((a + b).take(n) =~= a.take(n));
        assert((a + b).skip(n + 1) =~= more + b);
        let line = seq![chars::without_return(a.take(n))];
        assert(line + (chars::lines(more) + chars::lines(b)) =~= line + chars::lines(more)
            + chars::lines(b));
    }
}

proof fn lemma_first_newline(a: Seq<char>, b: Seq<char>)
    requires
        a.len() > 0,
        a.last() == '\n',
    ensures
        chars::index_of(a, '\n') < a.len(),
        chars::index_of(a + b, '\n') == chars::index_of(a, '\n'),
    decreases a.len(),
{
    assert((a + b)[0] == a[0]);
    if a[0] != '\n' {
        assert(a.skip(1).last() == a.last());
        assert((a + b).skip(1) =~= a.skip(1) + b);
        lemma_first_newline(a.skip(1), b);
    }
}

proof fn lemma_blank_tidied(s: Seq<char>)
    requires
        chars::blank(s),
    ensures
        document::tidied(s).len() == 0,
    decreases s.len(),
{
    if s.len() > 0 {
        let before = s.drop_last();
        assert(chars::is_space(s[s.len() - 1]));
        assert forall|i: int| 0 <= i < before.len() implies chars::is_space(
            #[trigger] before[i],
        ) by {
            assert(before[i] == s[i]);
        }
        lemma_blank_tidied(before);
    }
}

/// No line of a blank text counts.
proof fn lemma_blank_lines(s: Seq<char>)
    requires
        chars::blank(s),
    ensures
        document::lines_that_count(chars::lines(s)) == Seq::<Seq<char>>::empty(),
    decreases s.len(),
{
    let n = chars::index_of(s, '\n') as int;
    if s.len() > 0 {
        let none = Seq::<Seq<char>>::empty();
        if n >= s.len() {
            lemma_blank_tidied(s);
            let one = seq![s];
            assert(one.drop_last() =~= none);
            assert(document::lines_that_count(one.drop_last()) =~= none);
        } else {
            let line = chars::without_return(s.take(n));
            let more = s.skip(n + 1);
            assert forall|i: int| 0 <= i < line.len() implies chars::is_space(
                #[trigger] line[i],
            ) by {
                assert(line[i] == s[i]);
            }
            assert forall|i: int| 0 <= i < more.len() implies chars::is_space(
                #[trigger] more[i],
            ) by {
                assert(more[i] == s[i + n + 1]);
            }
            lemma_blank_tidied(line);
            lemma_blank_lines(more);
            let one = seq![line];
            assert(one.drop_last() =~= none);
            assert(document::lines_that_count(one.drop_last()) =~= none);
            lemma_count_adds(one, chars::lines(more));
            assert(none + none =~= none);
        }
    }
}

/// Spaces and blank lines behind a document change nothing.
pub proof fn law_blank_end_says_nothing(text: Seq<char>, end: Seq<char>)
    requires
        text.len() > 0,
        text.last() == '\n',
        chars::blank(end),
    ensures
        document::read_document(text + end) == document::read_document(text),
{
    lemma_lines_add(text, end);
    lemma_blank_lines(end);
    lemma_count_adds(chars::lines(text), chars::lines(end));
    let lines = document::lines_that_count(chars::lines(text));
    assert(lines + Seq::<Seq<char>>::empty() =~= lines);
}

} // verus!
