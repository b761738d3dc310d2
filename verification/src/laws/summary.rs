//! What the summary of a log tells, line by line and column by column.

use crate::chars;
use crate::numbers;
use crate::quantity::RealView;
use crate::schema;
use crate::schema::{EventView, LogView, RowView, Status};
use crate::text;
use crate::text::{FiguresView, GapSource, RowFiguresView, RowKey, TableLine};
use vstd::prelude::*;

verus! {

/// A line: what it is about, then what it says of it. Nothing where there is
/// nothing to say.
pub open spec fn told(about: Seq<char>, what: Option<Seq<char>>) -> Seq<char> {
    match what {
        Some(w) => about + w + seq!['\n'],
        None => Seq::empty(),
    }
}

/// What comes before the word for the end of the run.
pub open spec fn introduction(log: LogView) -> Seq<char> {
    told(
        "solver: "@,
        Some(
            schema::key_of(log.solver) + match log.version {
                Some(v) => " "@ + v,
                None => Seq::empty(),
            },
        ),
    ) + told("problem: "@, log.problem)
}

/// What comes behind that word: the time that the run took.
pub open spec fn duration(wall: Option<Seq<char>>) -> Seq<char> {
    match wall {
        Some(t) => " in "@ + t + "s"@ + seq!['\n'],
        None => seq!['\n'],
    }
}

/// Below the solver and the problem the summary says in a line of its own how
/// the run ended: each end has its words, and the time comes behind them.
pub proof fn law_end_of_the_run(log: LogView, f: FiguresView, table: bool)
    ensures
        ({
            let all = text::summary_of(log, f, table);
            let s = log.termination.status;
            let start = introduction(log);
            let time = duration(f.wall);
            &&& s is Optimal ==> chars::starts_with(all, start + "status: optimal"@ + time)
            &&& s is Infeasible ==> chars::starts_with(all, start + "status: infeasible"@ + time)
            &&& s is Unbounded ==> chars::starts_with(all, start + "status: unbounded"@ + time)
            &&& s is InfeasibleOrUnbounded ==> chars::starts_with(
                all,
                start + "status: infeasible_or_unbounded"@ + time,
            )
            &&& s is TimeLimit ==> chars::starts_with(all, start + "status: time-limit"@ + time)
            &&& s is MemoryLimit ==> chars::starts_with(all, start + "status: memory-limit"@ + time)
            &&& s is OtherLimit ==> chars::starts_with(all, start + "status: limit"@ + time)
            &&& s is UserInterrupt ==> chars::starts_with(all, start + "status: interrupted"@ + time)
            &&& s is NumericalError ==> chars::starts_with(
                all,
                start + "status: numerical-error"@ + time,
            )
            &&& s is Unknown ==> chars::starts_with(all, start + "status: unknown"@ + time)
        }),
{
    let s = log.termination.status;
    reveal_strlit("status: ");
    reveal_strlit("optimal");
    reveal_strlit("infeasible");
    reveal_strlit("unbounded");
    reveal_strlit("infeasible_or_unbounded");
    reveal_strlit("time-limit");
    reveal_strlit("memory-limit");
    reveal_strlit("limit");
    reveal_strlit("interrupted");
    reveal_strlit("numerical-error");
    reveal_strlit("unknown");
    reveal_strlit("status: optimal");
    reveal_strlit("status: infeasible");
    reveal_strlit("status: unbounded");
    reveal_strlit("status: infeasible_or_unbounded");
    reveal_strlit("status: time-limit");
    reveal_strlit("status: memory-limit");
    reveal_strlit("status: limit");
    reveal_strlit("status: interrupted");
    reveal_strlit("status: numerical-error");
    reveal_strlit("status: unknown");
    let line = match s {
        Status::Optimal => "status: optimal"@,
        Status::Infeasible => "status: infeasible"@,
        Status::Unbounded => "status: unbounded"@,
        Status::InfeasibleOrUnbounded => "status: infeasible_or_unbounded"@,
        Status::TimeLimit => "status: time-limit"@,
        Status::MemoryLimit => "status: memory-limit"@,
        Status::OtherLimit => "status: limit"@,
        Status::UserInterrupt => "status: interrupted"@,
        Status::NumericalError => "status: numerical-error"@,
        Status::Unknown => "status: unknown"@,
    };
    assert("status: "@ + text::status_word(s) =~= line);
    let whole = introduction(log) + line + duration(f.wall);
    let all = text::summary_of(log, f, table);
    lemma_start(log, f, table);
    assert(introduction(log) + text::status_line(s, f.wall).push('\n') =~= whole);
    assert(all.take(whole.len() as int) =~= whole);
}

proof fn lemma_start(log: LogView, f: FiguresView, table: bool)
    ensures
        ({
            let head = introduction(log) + text::status_line(
                log.termination.status,
                f.wall,
            ).push('\n');
            &&& text::summary_of(log, f, table).len() >= head.len()
            &&& text::summary_of(log, f, table).take(head.len() as int) == head
        }),
{
    let head = introduction(log) + text::status_line(log.termination.status, f.wall).push('\n');
    assert(told("problem: "@, log.problem) =~= text::labelled("problem: "@, log.problem));
    assert(told(
        "solver: "@,
        Some(
            schema::key_of(log.solver) + match log.version {
                Some(v) => " "@ + v,
                None => Seq::empty(),
            },
        ),
    ) =~= text::ended(text::solver_line(log)));
    assert(text::summary_of(log, f, table).take(head.len() as int) =~= head);
}

/// What the lines of the bounds say: the one value of an optimal run whose
/// bounds meet; else the primal bound, the dual bound and, unless the run is
/// optimal, the gap in percent.
pub open spec fn bounds_told(optimal: bool, f: FiguresView) -> Seq<char> {
    if optimal && f.bounds_meet && f.primal is Some && f.dual is Some {
        told("obj: "@, f.primal)
    } else if optimal {
        told("primal: "@, f.primal) + told("dual: "@, f.dual)
    } else {
        told("primal: "@, f.primal) + told("dual: "@, f.dual) + match f.gap {
            Some(g) => "gap: "@ + g + "%"@ + seq!['\n'],
            None => Seq::empty(),
        }
    }
}

/// A number of rows or columns that went from one value to another.
pub open spec fn change(from: Option<u64>, to: Option<u64>) -> Option<Seq<char>> {
    if from is Some && to is Some && from != to {
        Some(
            numbers::decimal(from->Some_0 as nat) + seq!['\u{2192}'] + numbers::decimal(
                to->Some_0 as nat,
            ),
        )
    } else if to is Some {
        Some(numbers::decimal(to->Some_0 as nat))
    } else if from is Some {
        Some(numbers::decimal(from->Some_0 as nat))
    } else {
        None
    }
}

/// What presolve is said to have done.
pub open spec fn presolve_told(log: LogView) -> Seq<char> {
    let rows = change(log.presolve.rows_before, log.presolve.rows_after);
    let cols = change(log.presolve.cols_before, log.presolve.cols_after);
    match rows {
        Some(r) => match cols {
            Some(c) => told("presolve: "@, Some(r + " rows, "@ + c + " cols"@)),
            None => told("presolve: "@, Some(r + " rows"@)),
        },
        None => match cols {
            Some(c) => told("presolve: "@, Some(c + " cols"@)),
            None => Seq::empty(),
        },
    }
}

/// Behind the line on the end of the run come the bounds, the number of
/// solutions, what presolve did and how the gap closed, each where it is
/// known, and, from six rows on, the table where it is asked for.
#[verifier::rlimit(50)]
pub proof fn law_order_of_the_summary(log: LogView, f: FiguresView, table: bool)
    ensures
        text::summary_of(log, f, table) == introduction(log) + text::status_line(
            log.termination.status,
            f.wall,
        ) + seq!['\n'] + bounds_told(log.termination.status is Optimal, f) + told(
            "sols: "@,
            match log.tree.solutions_found {
                Some(n) => Some(numbers::decimal(n as nat)),
                None => None,
            },
        ) + presolve_told(log) + (match f.heights {
            Some(h) => "convergence: "@ + Seq::new(h.len(), |i: int| text::spark(h[i])) + seq![
                '\n',
            ],
            None => Seq::empty(),
        }) + (if table && log.progress.len() >= 6 {
            seq!['\n'] + text::table_text(log.progress, f.rows)
        } else {
            Seq::empty()
        }),
{
    let s = log.termination.status;
    let sols = match log.tree.solutions_found {
        Some(n) => Some(numbers::decimal(n as nat)),
        None => None,
    };
    assert(text::labelled("sols: "@, sols) =~= told("sols: "@, sols));
    assert(text::labelled("problem: "@, log.problem) =~= told("problem: "@, log.problem));
    assert(text::ended(text::solver_line(log)) =~= told(
        "solver: "@,
        Some(
            schema::key_of(log.solver) + match log.version {
                Some(v) => " "@ + v,
                None => Seq::empty(),
            },
        ),
    ));
    assert(text::labelled("obj: "@, f.primal) =~= told("obj: "@, f.primal));
    assert(text::labelled("primal: "@, f.primal) =~= told("primal: "@, f.primal));
    assert(text::labelled("dual: "@, f.dual) =~= told("dual: "@, f.dual));
    assert(text::bound_lines(s, f) =~= bounds_told(s is Optimal, f));
    lemma_change(log.presolve.rows_before, log.presolve.rows_after);
    lemma_change(log.presolve.cols_before, log.presolve.cols_after);
    assert(text::labelled(
        "presolve: "@,
        text::presolve_change(
            text::dim_change(log.presolve.rows_before, log.presolve.rows_after),
            text::dim_change(log.presolve.cols_before, log.presolve.cols_after),
        ),
    ) =~= presolve_told(log));
    assert(text::ended(Seq::empty()) =~= seq!['\n']);
    if let Some(h) = f.heights {
        assert(text::ended(text::spark_line(h)) =~= "convergence: "@ + Seq::new(
            h.len(),
            |i: int| text::spark(h[i]),
        ) + seq!['\n']);
    }
    assert(introduction(log) + text::status_line(s, f.wall) + seq!['\n'] =~= introduction(log)
        + text::ended(text::status_line(s, f.wall)));
}

proof fn lemma_change(from: Option<u64>, to: Option<u64>)
    ensures
        text::dim_change(from, to) == change(from, to),
{
    if let (Some(b), Some(a)) = (from, to) {
        assert(numbers::decimal(b as nat).push('\u{2192}') + numbers::decimal(a as nat)
            =~= numbers::decimal(b as nat) + seq!['\u{2192}'] + numbers::decimal(a as nat));
    }
}

/// A column of the sparkline is the higher the larger the gap: eight heights,
/// from the lowest block to the full one.
pub proof fn law_sparks(a: usize, b: usize)
    ensures
        text::spark(0) == '\u{2581}',
        text::spark(7) == '\u{2588}',
        a < b <= 7 ==> text::spark(b) as int - text::spark(a) as int == b - a,
        b > 7 ==> text::spark(b) == '\u{2588}',
{
}

/// A cell stands at the right of its columns, with blanks before it.
pub open spec fn in_columns(line: Seq<char>, from: int, to: int, cell: Seq<char>) -> bool {
    &&& to <= line.len()
    &&& cell.len() <= to - from
    &&& line.subrange(to - cell.len(), to) == cell
    &&& forall|i: int| from <= i < to - cell.len() ==> #[trigger] line[i] == ' '
}

/// The cells of a row fit the columns of the table.
pub open spec fn fits_columns(row: RowView, f: RowFiguresView) -> bool {
    &&& f.time.len() <= 7
    &&& text::count_cell(row.nodes_explored).len() <= 8
    &&& f.dual.len() <= 13
    &&& f.primal.len() <= 13
    &&& f.gap.len() <= 6
}

proof fn lemma_line(
    time: Seq<char>,
    nodes: Seq<char>,
    dual: Seq<char>,
    primal: Seq<char>,
    gap: Seq<char>,
    event: Seq<char>,
)
    requires
        time.len() <= 7,
        nodes.len() <= 8,
        dual.len() <= 13,
        primal.len() <= 13,
        gap.len() <= 6,
    ensures
        ({
            let line = text::table_line(time, nodes, dual, primal, gap, event);
            &&& in_columns(line, 4, 11, time)
            &&& in_columns(line, 13, 21, nodes)
            &&& in_columns(line, 23, 36, dual)
            &&& in_columns(line, 38, 51, primal)
            &&& in_columns(line, 53, 59, gap)
            &&& line.skip(61) == event
            &&& line.len() == 61 + event.len()
        }),
{
    reveal_strlit("    ");
    reveal_strlit("  ");
    let line = text::table_line(time, nodes, dual, primal, gap, event);
    assert(line.subrange(11 - time.len(), 11) =~= time);
    assert(line.subrange(21 - nodes.len(), 21) =~= nodes);
    assert(line.subrange(36 - dual.len(), 36) =~= dual);
    assert(line.subrange(51 - primal.len(), 51) =~= primal);
    assert(line.subrange(59 - gap.len(), 59) =~= gap);
    assert(line.skip(61) =~= event);
}

/// Each cell of a row stands below the word of the heading that names it.
pub proof fn law_cells_stand_below_their_names(row: RowView, f: RowFiguresView)
    requires
        fits_columns(row, f),
    ensures
        in_columns(text::table_heading(), 4, 11, "time"@),
        in_columns(text::row_line(row, f), 4, 11, f.time),
        in_columns(text::table_heading(), 13, 21, "nodes"@),
        row.nodes_explored matches Some(n) ==> in_columns(
            text::row_line(row, f),
            13,
            21,
            numbers::decimal(n as nat),
        ),
        row.nodes_explored is None ==> in_columns(text::row_line(row, f), 13, 21, "-"@),
        in_columns(text::table_heading(), 23, 36, "dual"@),
        in_columns(text::row_line(row, f), 23, 36, f.dual),
        in_columns(text::table_heading(), 38, 51, "primal"@),
        in_columns(text::row_line(row, f), 38, 51, f.primal),
        in_columns(text::table_heading(), 53, 59, "gap"@),
        in_columns(text::row_line(row, f), 53, 59, f.gap),
        text::table_heading().skip(61) == "event"@,
{
    reveal_strlit("time");
    reveal_strlit("nodes");
    reveal_strlit("dual");
    reveal_strlit("primal");
    reveal_strlit("gap");
    reveal_strlit("event");
    lemma_line("time"@, "nodes"@, "dual"@, "primal"@, "gap"@, "event"@);
    lemma_line(
        f.time,
        text::count_cell(row.nodes_explored),
        f.dual,
        f.primal,
        f.gap,
        text::event_mark(row.event),
    );
}

/// A row ends with the mark of its event: `H` for a heuristic, `*` for a
/// solution of the search, `cutoff`, or the solver's own word.
pub proof fn law_marks_of_events(row: RowView, f: RowFiguresView)
    requires
        fits_columns(row, f),
    ensures
        row.event == Some(EventView::Heuristic) ==> text::row_line(row, f).skip(61) == "H"@,
        row.event == Some(EventView::BranchSolution) ==> text::row_line(row, f).skip(61) == "*"@,
        row.event == Some(EventView::Cutoff) ==> text::row_line(row, f).skip(61) == "cutoff"@,
        row.event matches Some(EventView::Other(s)) ==> text::row_line(row, f).skip(61) == s,
        row.event is None ==> text::row_line(row, f).len() == 61,
{
    reveal_strlit("");
    lemma_line(
        f.time,
        text::count_cell(row.nodes_explored),
        f.dual,
        f.primal,
        f.gap,
        text::event_mark(row.event),
    );
}

/// The line for rows that are left out says how many they are, between two
/// ellipses.
pub proof fn law_left_out_rows_are_counted(n: nat)
    ensures
        n != 1 ==> text::elision(n) == "    "@ + seq!['\u{2026}'] + " same for "@
            + numbers::decimal(n) + " more rows "@ + seq!['\u{2026}'],
        n == 1 ==> text::elision(n) == "    "@ + seq!['\u{2026}'] + " same for "@
            + numbers::decimal(n) + " more row "@ + seq!['\u{2026}'],
{
    reveal_strlit(" more ");
    reveal_strlit("row");
    reveal_strlit("rows");
    reveal_strlit(" more rows ");
    reveal_strlit(" more row ");
    if n == 1 {
        assert(text::elision(n) =~= "    "@ + seq!['\u{2026}'] + " same for "@ + numbers::decimal(n)
            + " more row "@ + seq!['\u{2026}']);
    } else {
        assert(text::elision(n) =~= "    "@ + seq!['\u{2026}'] + " same for "@ + numbers::decimal(n)
            + " more rows "@ + seq!['\u{2026}']);
    }
}

/// A row that only repeats the row before it.
pub open spec fn repeats(rows: Seq<RowKey>, i: int) -> bool {
    &&& 0 < i < rows.len()
    &&& !rows[i].event
    &&& rows[i].primal == rows[i - 1].primal
    &&& rows[i].dual == rows[i - 1].dual
}

/// Two rows in a row that only repeat the one before them are left out,
/// unless the second is the last row of all.
pub proof fn law_repeated_rows_are_left_out(rows: Seq<RowKey>, i: int)
    requires
        repeats(rows, i),
        repeats(rows, i + 1),
        i + 1 < rows.len() - 1,
    ensures
        !text::is_shown(rows, i),
        !text::is_shown(rows, i + 1),
{
    lemma_held_against(rows, i);
    lemma_held_against(rows, i + 1);
}

proof fn lemma_held_against(rows: Seq<RowKey>, i: int)
    requires
        0 < i <= rows.len(),
    ensures
        text::bounds_before(rows, i) == (rows[i - 1].primal, rows[i - 1].dual),
    decreases i,
{
    if i > 1 {
        lemma_held_against(rows, i - 1);
    }
}

/// The lines of the table name the rows that are shown, and no other.
pub proof fn law_shown_rows_have_their_line(keys: Seq<RowKey>, k: int)
    requires
        0 <= k < keys.len(),
    ensures
        text::lines_from(keys, 0, None).contains(TableLine::Row(k)) <==> text::is_shown(keys, k),
{
    lemma_lines(keys, 0, None, k);
}

proof fn lemma_lines(keys: Seq<RowKey>, i: int, prev: Option<int>, k: int)
    requires
        0 <= i <= keys.len(),
        0 <= k < keys.len(),
    ensures
        text::lines_from(keys, i, prev).contains(TableLine::Row(k)) <==> i <= k && text::is_shown(
            keys,
            k,
        ),
    decreases keys.len() - i,
{
    let all = text::lines_from(keys, i, prev);
    if i < keys.len() {
        if text::is_shown(keys, i) {
            let rest = text::lines_from(keys, i + 1, Some(i));
            lemma_lines(keys, i + 1, Some(i), k);
            let before = all.take(all.len() - rest.len() - 1);
            assert(all =~= before + seq![TableLine::Row(i)] + rest);
            assert(before.len() <= 1);
            assert(before.len() == 1 ==> before[0] is LeftOut);
            assert(all[before.len() as int] == TableLine::Row(i));
            if rest.contains(TableLine::Row(k)) {
                let p = rest.index_of(TableLine::Row(k));
                assert(all[before.len() + 1 + p] == TableLine::Row(k));
            }
            if all.contains(TableLine::Row(k)) {
                let p = all.index_of(TableLine::Row(k));
                if p > before.len() {
                    assert(rest[p - before.len() - 1] == TableLine::Row(k));
                }
            }
        } else {
            lemma_lines(keys, i + 1, prev, k);
        }
    }
}

/// A bound is finite where it is one number of the log that is.
pub open spec fn is_one_finite(r: RealView) -> bool {
    r.literals.len() == 1 && numbers::is_finite(r.literals[0])
}

/// The gap of a row is the reported one where that is finite; where none is
/// reported it follows from two finite bounds. A row with a solution and
/// neither is open, and a row without a solution counts for nothing unless its
/// finite gap is reported.
pub proof fn law_where_a_gap_comes_from(row: RowView)
    ensures
        text::source_of(row) == Some(GapSource::Reported) <==> (row.gap is Some && is_one_finite(
            row.gap->Some_0,
        )),
        text::source_of(row) == Some(GapSource::Derived) <==> (row.gap is None && row.primal is Some
            && row.dual is Some && is_one_finite(row.primal->Some_0) && is_one_finite(
            row.dual->Some_0,
        )),
        text::source_of(row) is None <==> (row.primal is None && !(row.gap is Some
            && is_one_finite(row.gap->Some_0))),
{
}

/// What decides about a row is its own bounds and whether it has an event.
pub proof fn law_what_decides_about_a_row(
    rows: Seq<RowView>,
    f: Seq<RowFiguresView>,
    i: int,
)
    requires
        0 <= i < rows.len(),
    ensures
        text::keys_of(rows, f).len() == rows.len(),
        text::keys_of(rows, f)[i].primal == f[i].primal_key,
        text::keys_of(rows, f)[i].dual == f[i].dual_key,
        text::keys_of(rows, f)[i].event <==> rows[i].event is Some,
{
}

/// The sparkline is drawn from each row that has a gap, by its place. It takes
/// three of them, and has twenty columns.
pub proof fn law_points_of_the_sparkline(
    rows: Seq<RowView>,
    row: RowView,
    log: LogView,
    f: FiguresView,
)
    requires
        rows.len() <= usize::MAX,
    ensures
        text::points_in(Seq::empty()).len() == 0,
        text::source_of(row) is None ==> text::points_in(rows.push(row)) == text::points_in(rows),
        text::source_of(row) matches Some(s) ==> text::points_in(rows.push(row)) == text::points_in(
            rows,
        ).push((rows.len() as usize, s)),
        text::fits(log, f) ==> (f.heights is Some <==> text::points_in(log.progress).len() >= 3),
        text::fits(log, f) && f.heights is Some ==> f.heights->Some_0.len() == 20,
{
    assert(rows.push(row).drop_last() =~= rows);
}

/// The nearest point is at the least distance, and no point before it is.
pub proof fn law_nearest_point(distances: Seq<u64>, k: int, j: int)
    requires
        text::is_nearest(distances, k),
        0 <= j < distances.len(),
    ensures
        0 <= k < distances.len(),
        distances[k] <= distances[j],
        j < k ==> distances[k] < distances[j],
{
}

} // verus!
