//! The summary of a log for people.
//!
//! Who the solver is, how the run ended, the bounds, what presolve did, how
//! the gap closed, and the progress table with the rows left out that say
//! nothing new. The summary is not meant to be read back.
//!
//! The numbers of the summary are handed in as they are to be printed: this
//! module decides which of them are shown, where, and in which words.

use crate::chars;
use crate::numbers;
use crate::quantity;
use crate::quantity::{Real, RealView};
use crate::schema;
use crate::schema::{
    EventView, LogView, NodeEvent, PresolveStats, ProgressTable, RowView, SolverLog, Status,
};
use vstd::prelude::*;

verus! {

/// The numbers of one row of the progress table.
pub struct RowFigures {
    /// The time, with two decimals.
    pub time: String,
    /// The dual bound in scientific notation, `-` where there is none.
    pub dual: String,
    /// The primal bound in scientific notation, `-` where there is none.
    pub primal: String,
    /// The gap in percent with one decimal, `-` where there is none.
    pub gap: String,
    /// Tells primal bounds apart: equal for equal bounds.
    pub primal_key: Option<u64>,
    /// Tells dual bounds apart: equal for equal bounds.
    pub dual_key: Option<u64>,
}

pub struct RowFiguresView {
    pub time: Seq<char>,
    pub dual: Seq<char>,
    pub primal: Seq<char>,
    pub gap: Seq<char>,
    pub primal_key: Option<u64>,
    pub dual_key: Option<u64>,
}

impl View for RowFigures {
    type V = RowFiguresView;

    open spec fn view(&self) -> RowFiguresView {
        RowFiguresView {
            time: self.time@,
            dual: self.dual@,
            primal: self.primal@,
            gap: self.gap@,
            primal_key: self.primal_key,
            dual_key: self.dual_key,
        }
    }
}

/// The numbers of a log, as they are to be printed.
pub struct Figures {
    /// The wall time, with two decimals.
    pub wall: Option<String>,
    pub primal: Option<String>,
    pub dual: Option<String>,
    /// Whether the bounds are close enough to be shown as one value.
    pub bounds_meet: bool,
    /// The gap in percent, with two decimals.
    pub gap: Option<String>,
    /// The heights of the sparkline, from 0 to 7, where there is one.
    pub heights: Option<Vec<usize>>,
    /// The rows of the progress table.
    pub rows: Vec<RowFigures>,
}

pub struct FiguresView {
    pub wall: Option<Seq<char>>,
    pub primal: Option<Seq<char>>,
    pub dual: Option<Seq<char>>,
    pub bounds_meet: bool,
    pub gap: Option<Seq<char>>,
    pub heights: Option<Seq<usize>>,
    pub rows: Seq<RowFiguresView>,
}

impl View for Figures {
    type V = FiguresView;

    open spec fn view(&self) -> FiguresView {
        FiguresView {
            wall: chars::opt_text(self.wall),
            primal: chars::opt_text(self.primal),
            dual: chars::opt_text(self.dual),
            bounds_meet: self.bounds_meet,
            gap: chars::opt_text(self.gap),
            heights: match self.heights {
                Some(h) => Some(h@),
                None => None,
            },
            rows: Seq::new(self.rows@.len(), |i: int| self.rows@[i]@),
        }
    }
}

/// The figures are those of the log: there is one for each number that the
/// log has.
pub open spec fn fits(log: LogView, f: FiguresView) -> bool {
    &&& log.timing.wall_seconds is Some <==> f.wall is Some
    &&& log.bounds.primal is Some <==> f.primal is Some
    &&& log.bounds.dual is Some <==> f.dual is Some
    &&& schema::gap_of(log.bounds) is Some <==> f.gap is Some
    &&& log.progress.len() == f.rows.len()
    &&& points_in(log.progress).len() >= 3 <==> f.heights is Some
    &&& f.heights matches Some(h) ==> h.len() == SPARK_WIDTH
}

/// The word for a status.
pub open spec fn status_word(s: Status) -> Seq<char> {
    match s {
        Status::Optimal => "optimal"@,
        Status::Infeasible => "infeasible"@,
        Status::Unbounded => "unbounded"@,
        Status::InfeasibleOrUnbounded => "infeasible_or_unbounded"@,
        Status::TimeLimit => "time-limit"@,
        Status::MemoryLimit => "memory-limit"@,
        Status::OtherLimit => "limit"@,
        Status::UserInterrupt => "interrupted"@,
        Status::NumericalError => "numerical-error"@,
        Status::Unknown => "unknown"@,
    }
}

pub fn summary_status_word(s: Status) -> (out: &'static str)
    ensures
        out@ == status_word(s),
{
    match s {
        Status::Optimal => "optimal",
        Status::Infeasible => "infeasible",
        Status::Unbounded => "unbounded",
        Status::InfeasibleOrUnbounded => "infeasible_or_unbounded",
        Status::TimeLimit => "time-limit",
        Status::MemoryLimit => "memory-limit",
        Status::OtherLimit => "limit",
        Status::UserInterrupt => "interrupted",
        Status::NumericalError => "numerical-error",
        Status::Unknown => "unknown",
    }
}

/// A dimension before and after presolve: both with an arrow between them
/// where they differ, else the one that is known.
pub open spec fn dim_change(before: Option<u64>, after: Option<u64>) -> Option<Seq<char>> {
    match (before, after) {
        (Some(b), Some(a)) => if b == a {
            Some(numbers::decimal(a as nat))
        } else {
            Some(numbers::decimal(b as nat).push('\u{2192}') + numbers::decimal(a as nat))
        },
        (Some(b), None) => Some(numbers::decimal(b as nat)),
        (None, Some(a)) => Some(numbers::decimal(a as nat)),
        (None, None) => None,
    }
}

pub fn fmt_dim_change(before: Option<u64>, after: Option<u64>) -> (out: Option<String>)
    ensures
        chars::opt_text(out) == dim_change(before, after),
{
    let digits = match (before, after) {
        (Some(b), Some(a)) => {
            if b == a {
                numbers::write_u64(a)
            } else {
                let mut s = numbers::write_u64(b);
                s.push('\u{2192}');
                let more = numbers::write_u64(a);
                chars::extend(&mut s, more.as_slice());
                s
            }
        },
        (Some(b), None) => numbers::write_u64(b),
        (None, Some(a)) => numbers::write_u64(a),
        (None, None) => {
            return None;
        },
    };
    Some(chars::string_of(digits.as_slice()))
}

/// A count, `-` where there is none.
pub open spec fn count_cell(v: Option<u64>) -> Seq<char> {
    match v {
        Some(n) => numbers::decimal(n as nat),
        None => "-"@,
    }
}

pub fn fmt_opt_u(v: Option<u64>) -> (out: String)
    ensures
        out@ == count_cell(v),
{
    match v {
        Some(n) => {
            let digits = numbers::write_u64(n);
            chars::string_of(digits.as_slice())
        },
        None => "-".to_string(),
    }
}

/// The mark of an event in the table.
pub open spec fn event_mark(e: Option<EventView>) -> Seq<char> {
    match e {
        Some(EventView::Heuristic) => "H"@,
        Some(EventView::BranchSolution) => "*"@,
        Some(EventView::Cutoff) => "cutoff"@,
        Some(EventView::Other(s)) => s,
        None => ""@,
    }
}

pub fn mark_event(e: &Option<NodeEvent>) -> (out: String)
    ensures
        out@ == event_mark(schema::opt_event(*e)),
{
    match e {
        Some(NodeEvent::Heuristic) => "H".to_string(),
        Some(NodeEvent::BranchSolution) => "*".to_string(),
        Some(NodeEvent::Cutoff) => "cutoff".to_string(),
        Some(NodeEvent::Other(s)) => s.clone(),
        None => "".to_string(),
    }
}

/// `s` with blanks before it, at least `width` characters long.
pub open spec fn right_aligned(s: Seq<char>, width: nat) -> Seq<char> {
    if s.len() >= width {
        s
    } else {
        Seq::new((width - s.len()) as nat, |i: int| ' ') + s
    }
}

/// Puts `s` behind `out`, aligned to the right of a column.
fn append_aligned(out: &mut Vec<char>, s: &str, width: usize)
    ensures
        final(out)@ == old(out)@ + right_aligned(s@, width as nat),
{
    let cell = chars::chars_of(s);
    let ghost before = out@;
    if cell.len() < width {
        let blanks: usize = width - cell.len();
        let mut i: usize = 0;
        assert(before + Seq::new(0, |k: int| ' ') =~= before);
        while i < blanks
            invariant
                i <= blanks,
                out@ == before + Seq::new(i as nat, |k: int| ' '),
            decreases blanks - i,
        {
            out.push(' ');
            assert(out@ =~= before + Seq::new((i + 1) as nat, |k: int| ' '));
            i = i + 1;
        }
        chars::extend(out, cell.as_slice());
        assert(out@ =~= before + right_aligned(s@, width as nat));
    } else {
        chars::extend(out, cell.as_slice());
    }
}

/// One line of the table.
pub open spec fn table_line(
    time: Seq<char>,
    nodes: Seq<char>,
    dual: Seq<char>,
    primal: Seq<char>,
    gap: Seq<char>,
    event: Seq<char>,
) -> Seq<char> {
    "    "@ + right_aligned(time, 7) + "  "@ + right_aligned(nodes, 8) + "  "@ + right_aligned(
        dual,
        13,
    ) + "  "@ + right_aligned(primal, 13) + "  "@ + right_aligned(gap, 6) + "  "@ + event
}

fn make_table_line(time: &str, nodes: &str, dual: &str, primal: &str, gap: &str, event: &str) -> (out:
    Vec<char>)
    ensures
        out@ == table_line(time@, nodes@, dual@, primal@, gap@, event@),
{
    let mut out = chars::chars_of("    ");
    append_aligned(&mut out, time, 7);
    chars::append(&mut out, "  ");
    append_aligned(&mut out, nodes, 8);
    chars::append(&mut out, "  ");
    append_aligned(&mut out, dual, 13);
    chars::append(&mut out, "  ");
    append_aligned(&mut out, primal, 13);
    chars::append(&mut out, "  ");
    append_aligned(&mut out, gap, 6);
    chars::append(&mut out, "  ");
    chars::append(&mut out, event);
    out
}

/// A line with its ending.
pub open spec fn ended(line: Seq<char>) -> Seq<char> {
    line.push('\n')
}

fn append_line(out: &mut Vec<char>, line: &[char])
    ensures
        final(out)@ == old(out)@ + ended(line@),
{
    let ghost before = out@;
    chars::extend(out, line);
    out.push('\n');
    assert(out@ =~= before + ended(line@));
}

/// What decides whether a row is shown.
pub struct RowKey {
    pub primal: Option<u64>,
    pub dual: Option<u64>,
    pub event: bool,
}

/// A row with an event, or with other bounds than `before`.
pub open spec fn differs(row: RowKey, before: (Option<u64>, Option<u64>)) -> bool {
    row.primal != before.0 || row.dual != before.1 || row.event
}

/// The bounds of the last of the first `n` rows that says something new.
pub open spec fn bounds_before(rows: Seq<RowKey>, n: int) -> (Option<u64>, Option<u64>)
    decreases n,
{
    if n <= 0 {
        (None, None)
    } else {
        let before = bounds_before(rows, n - 1);
        if differs(rows[n - 1], before) {
            (rows[n - 1].primal, rows[n - 1].dual)
        } else {
            before
        }
    }
}

/// A row that changes a bound or has an event.
pub open spec fn says_new(rows: Seq<RowKey>, i: int) -> bool {
    differs(rows[i], bounds_before(rows, i))
}

/// A row that is kept for its own sake: the first, the last, and each that
/// says something new.
pub open spec fn is_kept(rows: Seq<RowKey>, i: int) -> bool {
    i == 0 || i == rows.len() - 1 || says_new(rows, i)
}

/// A row that is shown: one that is kept, and one that alone would be left
/// out between two that are.
pub open spec fn is_shown(rows: Seq<RowKey>, i: int) -> bool {
    is_kept(rows, i) || (0 < i < rows.len() - 1 && is_kept(rows, i - 1) && is_kept(rows, i + 1))
}

/// The first and the last row are shown. A row that is left out has no event,
/// and its bounds are those of the last row before it that said something new.
pub proof fn law_left_out_rows(rows: Seq<RowKey>, i: int)
    requires
        0 <= i < rows.len(),
    ensures
        is_shown(rows, 0),
        is_shown(rows, rows.len() - 1),
        !is_shown(rows, i) ==> !rows[i].event && (rows[i].primal, rows[i].dual) == bounds_before(
            rows,
            i,
        ),
{
}

/// No row is left out alone: the one before it or the one after it is left
/// out too.
pub proof fn law_no_row_left_out_alone(rows: Seq<RowKey>, i: int)
    requires
        0 <= i < rows.len(),
        !is_shown(rows, i),
    ensures
        0 < i < rows.len() - 1,
        !is_shown(rows, i - 1) || !is_shown(rows, i + 1),
{
}

/// The bounds that a row is held against are those of the row before it.
proof fn lemma_bounds_before(rows: Seq<RowKey>, i: int)
    requires
        0 < i <= rows.len(),
    ensures
        bounds_before(rows, i) == (rows[i - 1].primal, rows[i - 1].dual),
    decreases i,
{
    if i > 1 {
        lemma_bounds_before(rows, i - 1);
    }
}

/// A row whose bounds differ from those of the row before it is shown.
pub proof fn law_new_bounds_are_shown(rows: Seq<RowKey>, i: int)
    requires
        0 < i < rows.len(),
        rows[i].primal != rows[i - 1].primal || rows[i].dual != rows[i - 1].dual,
    ensures
        is_shown(rows, i),
{
    lemma_bounds_before(rows, i);
}

/// What decides about the rows of a log.
pub open spec fn keys_of(rows: Seq<RowView>, f: Seq<RowFiguresView>) -> Seq<RowKey> {
    Seq::new(
        rows.len(),
        |i: int|
            RowKey {
                primal: f[i].primal_key,
                dual: f[i].dual_key,
                event: rows[i].event is Some,
            },
    )
}

/// Which rows are kept for their own sake.
fn kept_rows(rows: &ProgressTable, f: &Vec<RowFigures>) -> (out: Vec<bool>)
    requires
        rows.well_formed(),
        rows@.len() == f@.len(),
    ensures
        out@.len() == rows@.len(),
        forall|i: int|
            0 <= i < out@.len() ==> #[trigger] out@[i] == is_kept(
                keys_of(rows@, Seq::new(f@.len(), |k: int| f@[k]@)),
                i,
            ),
{
    let n: usize = rows.len();
    let ghost keys = keys_of(rows@, Seq::new(f@.len(), |k: int| f@[k]@));
    let mut out: Vec<bool> = Vec::new();
    let mut last_primal: Option<u64> = None;
    let mut last_dual: Option<u64> = None;
    let mut i: usize = 0;
    while i < n
        invariant
            i <= n,
            n == rows@.len(),
            n == f@.len(),
            rows.well_formed(),
            keys == keys_of(rows@, Seq::new(f@.len(), |k: int| f@[k]@)),
            out@.len() == i,
            (last_primal, last_dual) == bounds_before(keys, i as int),
            forall|j: int| 0 <= j < i ==> #[trigger] out@[j] == is_kept(keys, j),
        decreases n - i,
    {
        let primal = f[i].primal_key;
        let dual = f[i].dual_key;
        let new = !same_key(primal, last_primal) || !same_key(dual, last_dual)
            || rows.event[i].is_some();
        assert(keys[i as int].primal == primal);
        assert(keys[i as int].dual == dual);
        out.push(i == 0 || i == n - 1 || new);
        if new {
            last_primal = primal;
            last_dual = dual;
        }
        i = i + 1;
    }
    out
}

fn same_key(a: Option<u64>, b: Option<u64>) -> (out: bool)
    ensures
        out == (a == b),
{
    match (a, b) {
        (Some(x), Some(y)) => x == y,
        (None, None) => true,
        _ => false,
    }
}

/// The line that stands for rows that were left out.
pub open spec fn elision(n: nat) -> Seq<char> {
    "    "@.push('\u{2026}') + " same for "@ + numbers::decimal(n) + " more "@ + (if n == 1 {
        "row"@
    } else {
        "rows"@
    }) + seq![' ', '\u{2026}']
}

fn make_elision(n: u64) -> (out: Vec<char>)
    ensures
        out@ == elision(n as nat),
{
    let mut out = chars::chars_of("    ");
    out.push('\u{2026}');
    chars::append(&mut out, " same for ");
    let digits = numbers::write_u64(n);
    chars::extend(&mut out, digits.as_slice());
    chars::append(&mut out, " more ");
    chars::append(
        &mut out,
        if n == 1 {
            "row"
        } else {
            "rows"
        },
    );
    let end: Vec<char> = vec![' ', '\u{2026}'];
    assert(end@ =~= seq![' ', '\u{2026}']);
    chars::extend(&mut out, end.as_slice());
    out
}

/// The line of a row.
pub open spec fn row_line(row: RowView, f: RowFiguresView) -> Seq<char> {
    table_line(
        f.time,
        count_cell(row.nodes_explored),
        f.dual,
        f.primal,
        f.gap,
        event_mark(row.event),
    )
}

/// The table from row `i` on, where `prev` was the last row shown.
pub open spec fn table_from(
    rows: Seq<RowView>,
    f: Seq<RowFiguresView>,
    i: int,
    prev: Option<int>,
) -> Seq<char>
    decreases rows.len() - i,
{
    if i < 0 || i >= rows.len() {
        Seq::empty()
    } else if is_shown(keys_of(rows, f), i) {
        let gap = match prev {
            Some(p) => if i - p - 1 > 0 {
                ended(elision((i - p - 1) as nat))
            } else {
                Seq::empty()
            },
            None => Seq::empty(),
        };
        gap + ended(row_line(rows[i], f[i])) + table_from(rows, f, i + 1, Some(i))
    } else {
        table_from(rows, f, i + 1, prev)
    }
}

/// The heading of the table.
pub open spec fn table_heading() -> Seq<char> {
    table_line("time"@, "nodes"@, "dual"@, "primal"@, "gap"@, "event"@)
}

/// The table: its heading, the rows that are shown, and for each run of rows
/// that are not a line that says how many.
pub open spec fn table_text(rows: Seq<RowView>, f: Seq<RowFiguresView>) -> Seq<char> {
    ended(table_heading()) + table_from(rows, f, 0, None)
}

/// A line below the heading: a row, by its place among all rows, or how many
/// rows are left out.
pub enum TableLine {
    Row(int),
    LeftOut(nat),
}

pub open spec fn table_line_text(
    rows: Seq<RowView>,
    f: Seq<RowFiguresView>,
    line: TableLine,
) -> Seq<char> {
    match line {
        TableLine::Row(i) => row_line(rows[i], f[i]),
        TableLine::LeftOut(n) => elision(n),
    }
}

/// The lines from row `i` on, where `prev` was the last row shown.
pub open spec fn lines_from(keys: Seq<RowKey>, i: int, prev: Option<int>) -> Seq<TableLine>
    decreases keys.len() - i,
{
    if i < 0 || i >= keys.len() {
        Seq::empty()
    } else if is_shown(keys, i) {
        (match prev {
            Some(p) => if i - p - 1 > 0 {
                seq![TableLine::LeftOut((i - p - 1) as nat)]
            } else {
                Seq::empty()
            },
            None => Seq::empty(),
        }) + seq![TableLine::Row(i)] + lines_from(keys, i + 1, Some(i))
    } else {
        lines_from(keys, i + 1, prev)
    }
}

/// Lines as they are written, each with its ending.
pub open spec fn lines_text(
    rows: Seq<RowView>,
    f: Seq<RowFiguresView>,
    lines: Seq<TableLine>,
) -> Seq<char>
    decreases lines.len(),
{
    if lines.len() == 0 {
        Seq::empty()
    } else {
        ended(table_line_text(rows, f, lines[0])) + lines_text(rows, f, lines.skip(1))
    }
}

/// How many rows the lines stand for.
pub open spec fn rows_told(lines: Seq<TableLine>) -> nat
    decreases lines.len(),
{
    if lines.len() == 0 {
        0
    } else {
        (match lines[0] {
            TableLine::Row(_) => 1nat,
            TableLine::LeftOut(n) => n,
        }) + rows_told(lines.skip(1))
    }
}

proof fn lemma_one_line_more(
    rows: Seq<RowView>,
    f: Seq<RowFiguresView>,
    line: TableLine,
    more: Seq<TableLine>,
)
    ensures
        lines_text(rows, f, seq![line] + more) == ended(table_line_text(rows, f, line))
            + lines_text(rows, f, more),
        rows_told(seq![line] + more) == (match line {
            TableLine::Row(_) => 1nat,
            TableLine::LeftOut(n) => n,
        }) + rows_told(more),
{
    assert((seq![line] + more).skip(1) =~= more);
}

proof fn lemma_table_lines(
    rows: Seq<RowView>,
    f: Seq<RowFiguresView>,
    i: int,
    prev: Option<int>,
)
    requires
        0 <= i <= rows.len(),
        rows.len() > 0,
        match prev {
            Some(p) => 0 <= p < i && is_shown(keys_of(rows, f), p) && forall|k: int|
                p < k < i ==> !is_shown(keys_of(rows, f), k),
            None => i == 0,
        },
    ensures
        table_from(rows, f, i, prev) == lines_text(rows, f, lines_from(keys_of(rows, f), i, prev)),
        rows_told(lines_from(keys_of(rows, f), i, prev)) == rows.len() - (match prev {
            Some(p) => p + 1,
            None => 0,
        }),
    decreases rows.len() - i,
{
    let keys = keys_of(rows, f);
    if i < rows.len() {
        if is_shown(keys, i) {
            lemma_table_lines(rows, f, i + 1, Some(i));
            let more = lines_from(keys, i + 1, Some(i));
            let row = TableLine::Row(i);
            lemma_one_line_more(rows, f, row, more);
            match prev {
                Some(p) => {
                    if i - p - 1 > 0 {
                        let gap = TableLine::LeftOut((i - p - 1) as nat);
                        lemma_one_line_more(rows, f, gap, seq![row] + more);
                        assert(lines_from(keys, i, prev) =~= seq![gap] + (seq![row] + more));
                        assert(table_from(rows, f, i, prev) =~= ended(
                            table_line_text(rows, f, gap),
                        ) + lines_text(rows, f, seq![row] + more));
                    } else {
                        assert(lines_from(keys, i, prev) =~= seq![row] + more);
                        assert(table_from(rows, f, i, prev) =~= lines_text(
                            rows,
                            f,
                            seq![row] + more,
                        ));
                    }
                },
                None => {
                    assert(lines_from(keys, i, prev) =~= seq![row] + more);
                    assert(table_from(rows, f, i, prev) =~= lines_text(rows, f, seq![row] + more));
                },
            }
        } else {
            assert(is_shown(keys, 0));
            lemma_table_lines(rows, f, i + 1, prev);
        }
    } else {
        assert(is_shown(keys, rows.len() - 1));
    }
}

/// Below its heading the table has a line for each row that is shown and one
/// for each run of rows that are left out, and no row goes untold: the rows
/// shown and the rows counted in the other lines are all the rows there are.
pub proof fn law_table_tells_all_rows(rows: Seq<RowView>, f: Seq<RowFiguresView>)
    ensures
        table_text(rows, f) == ended(table_heading()) + lines_text(
            rows,
            f,
            lines_from(keys_of(rows, f), 0, None),
        ),
        rows_told(lines_from(keys_of(rows, f), 0, None)) == rows.len(),
{
    if rows.len() > 0 {
        lemma_table_lines(rows, f, 0, None);
    }
}

/// Puts the table behind `out`.
pub fn append_table(out: &mut Vec<char>, rows: &ProgressTable, f: &Vec<RowFigures>)
    requires
        rows.well_formed(),
        rows@.len() == f@.len(),
    ensures
        final(out)@ == old(out)@ + table_text(rows@, Seq::new(f@.len(), |k: int| f@[k]@)),
{
    let ghost fs = Seq::new(f@.len(), |k: int| f@[k]@);
    let ghost keys = keys_of(rows@, fs);
    let ghost start = out@;
    let heading = make_table_line("time", "nodes", "dual", "primal", "gap", "event");
    append_line(out, heading.as_slice());
    let kept = kept_rows(rows, f);
    let n: usize = rows.len();
    let mut prev: Option<usize> = None;
    let mut i: usize = 0;
    assert(out@ + table_from(rows@, fs, 0, None) =~= start + table_text(rows@, fs));
    while i < n
        invariant
            i <= n,
            n == rows@.len(),
            n == f@.len(),
            n == kept@.len(),
            rows.well_formed(),
            fs == Seq::new(f@.len(), |k: int| f@[k]@),
            keys == keys_of(rows@, fs),
            forall|j: int| 0 <= j < n ==> #[trigger] kept@[j] == is_kept(keys, j),
            prev matches Some(p) ==> p < i,
            out@ + table_from(
                rows@,
                fs,
                i as int,
                match prev {
                    Some(p) => Some(p as int),
                    None => None,
                },
            ) == start + table_text(rows@, fs),
        decreases n - i,
    {
        let shown = kept[i] || (i > 0 && i < n - 1 && kept[i - 1] && kept[i + 1]);
        let ghost before = out@;
        if shown {
            let ghost rest = table_from(rows@, fs, i + 1, Some(i as int));
            if let Some(p) = prev {
                let left_out: u64 = (i - p - 1) as u64;
                if left_out > 0 {
                    let line = make_elision(left_out);
                    append_line(out, line.as_slice());
                }
            }
            let ghost middle = out@;
            let nodes = fmt_opt_u(rows.nodes_explored[i]);
            let event = mark_event(&rows.event[i]);
            let line = make_table_line(
                f[i].time.as_str(),
                nodes.as_str(),
                f[i].dual.as_str(),
                f[i].primal.as_str(),
                f[i].gap.as_str(),
                event.as_str(),
            );
            append_line(out, line.as_slice());
            prev = Some(i);
            assert(line@ == row_line(rows@[i as int], fs[i as int]));
            assert(out@ + rest =~= start + table_text(rows@, fs));
        }
        i = i + 1;
    }
    assert(table_from(rows@, fs, i as int, match prev {
        Some(p) => Some(p as int),
        None => None,
    }) =~= Seq::empty());
    assert(out@ + Seq::<char>::empty() =~= out@);
}

/// The column of a sparkline: the higher, the fuller.
pub open spec fn spark(height: usize) -> char {
    (0x2581 + if height < 7 {
        height as int
    } else {
        7
    }) as char
}

/// The line that shows how the gap closed.
pub open spec fn spark_line(heights: Seq<usize>) -> Seq<char> {
    "convergence: "@ + Seq::new(heights.len(), |i: int| spark(heights[i]))
}

fn make_spark(height: usize) -> (out: char)
    ensures
        out == spark(height),
{
    if height == 0 {
        '\u{2581}'
    } else if height == 1 {
        '\u{2582}'
    } else if height == 2 {
        '\u{2583}'
    } else if height == 3 {
        '\u{2584}'
    } else if height == 4 {
        '\u{2585}'
    } else if height == 5 {
        '\u{2586}'
    } else if height == 6 {
        '\u{2587}'
    } else {
        '\u{2588}'
    }
}

pub fn make_spark_line(heights: &Vec<usize>) -> (out: Vec<char>)
    ensures
        out@ == spark_line(heights@),
{
    let mut out = chars::chars_of("convergence: ");
    let ghost head = out@;
    let ghost sparks = Seq::new(heights@.len(), |i: int| spark(heights@[i]));
    let mut i: usize = 0;
    assert(head + sparks.take(0) =~= head);
    while i < heights.len()
        invariant
            i <= heights@.len(),
            sparks == Seq::new(heights@.len(), |k: int| spark(heights@[k])),
            out@ == head + sparks.take(i as int),
        decreases heights@.len() - i,
    {
        out.push(make_spark(heights[i]));
        assert(sparks.take(i + 1) =~= sparks.take(i as int).push(sparks[i as int]));
        i = i + 1;
    }
    assert(sparks.take(i as int) =~= sparks);
    out
}

/// Where the gap of a row comes from.
#[derive(Debug, Clone, Copy, PartialEq, Eq, Structural)]
pub enum GapSource {
    /// The log reports it.
    Reported,
    /// It follows from the bounds.
    Derived,
    /// There is a solution but no finite bound: the gap is open.
    Unbounded,
}

pub open spec fn is_finite(r: RealView) -> bool {
    r.literals.len() == 1 && numbers::is_finite(r.literals[0])
}

fn finite(r: &Real) -> (out: bool)
    ensures
        out == is_finite(r@),
{
    let literals = r.literals();
    assert(quantity::texts(literals@).len() == literals@.len());
    if literals.len() == 1 {
        let s = chars::chars_of(literals[0].as_str());
        assert(quantity::texts(literals@)[0] == s@);
        numbers::finite(s.as_slice())
    } else {
        false
    }
}

/// Where the gap of a row comes from, if it has one.
pub open spec fn source_of(row: RowView) -> Option<GapSource> {
    match (row.gap, row.primal, row.dual) {
        (Some(g), p, _) => if is_finite(g) {
            Some(GapSource::Reported)
        } else if p is Some {
            Some(GapSource::Unbounded)
        } else {
            None
        },
        (None, Some(p), Some(d)) => if is_finite(p) && is_finite(d) {
            Some(GapSource::Derived)
        } else {
            Some(GapSource::Unbounded)
        },
        (None, Some(_), None) => Some(GapSource::Unbounded),
        (None, None, _) => None,
    }
}

/// The rows that the sparkline is drawn from, each with the source of its gap.
pub open spec fn points_in(rows: Seq<RowView>) -> Seq<(usize, GapSource)>
    decreases rows.len(),
{
    if rows.len() == 0 {
        Seq::empty()
    } else {
        let before = points_in(rows.drop_last());
        match source_of(rows.last()) {
            Some(s) => before.push(((rows.len() - 1) as usize, s)),
            None => before,
        }
    }
}

/// Finds the rows that the sparkline is drawn from. With fewer than three of
/// them there is none.
pub fn spark_points(rows: &ProgressTable) -> (out: Option<Vec<(usize, GapSource)>>)
    requires
        rows.well_formed(),
    ensures
        out is Some <==> points_in(rows@).len() >= 3,
        out matches Some(points) ==> points@ == points_in(rows@),
{
    let mut points: Vec<(usize, GapSource)> = Vec::new();
    let mut i: usize = 0;
    while i < rows.len()
        invariant
            i <= rows@.len(),
            rows.well_formed(),
            points@ == points_in(rows@.take(i as int)),
        decreases rows@.len() - i,
    {
        assert(rows@.take(i + 1).drop_last() =~= rows@.take(i as int));
        assert(rows@.take(i + 1).last() == rows@[i as int]);
        let source = match &rows.gap[i] {
            Some(g) => {
                if finite(g) {
                    Some(GapSource::Reported)
                } else if rows.primal[i].is_some() {
                    Some(GapSource::Unbounded)
                } else {
                    None
                }
            },
            None => match (&rows.primal[i], &rows.dual[i]) {
                (Some(p), Some(d)) => {
                    if finite(p) && finite(d) {
                        Some(GapSource::Derived)
                    } else {
                        Some(GapSource::Unbounded)
                    }
                },
                (Some(_), None) => Some(GapSource::Unbounded),
                (None, _) => None,
            },
        };
        if let Some(s) = source {
            points.push((i, s));
        }
        i = i + 1;
    }
    assert(rows@.take(i as int) =~= rows@);
    if points.len() < 3 {
        None
    } else {
        Some(points)
    }
}

/// The number of columns of the sparkline.
pub const SPARK_WIDTH: usize = 20;

/// The point that column `i` shows, where the points have no spread in time:
/// the columns run evenly over the points.
fn sample_index(i: usize, points: usize) -> (out: usize)
    requires
        i < SPARK_WIDTH,
        points > 0,
    ensures
        out == (i * (points - 1)) / 19,
        out < points,
{
    assert(i * (points - 1) <= 19 * (points - 1)) by (nonlinear_arith)
        requires
            i <= 19,
            points > 0,
    ;
    let product: u128 = i as u128 * (points - 1) as u128;
    (product / 19) as usize
}

/// The first of the smallest.
pub open spec fn is_nearest(distances: Seq<u64>, k: int) -> bool {
    &&& 0 <= k < distances.len()
    &&& forall|j: int| 0 <= j < distances.len() ==> distances[k] <= #[trigger] distances[j]
    &&& forall|j: int| 0 <= j < k ==> distances[k] < #[trigger] distances[j]
}

/// Finds the first of the smallest.
fn nearest(distances: &Vec<u64>) -> (k: usize)
    requires
        distances@.len() > 0,
    ensures
        is_nearest(distances@, k as int),
{
    let mut k: usize = 0;
    let mut i: usize = 1;
    while i < distances.len()
        invariant
            k < i <= distances@.len(),
            forall|j: int| 0 <= j < i ==> distances@[k as int] <= #[trigger] distances@[j],
            forall|j: int| 0 <= j < k ==> distances@[k as int] < #[trigger] distances@[j],
        decreases distances@.len() - i,
    {
        if distances[i] < distances[k] {
            k = i;
        }
        i = i + 1;
    }
    k
}

/// The point that each column of the sparkline shows. Where the points are
/// spread in time, `distances` holds for each column how far each point is
/// from it, in any measure that orders them, and the first of the nearest is
/// shown. Else the columns run evenly over the points.
pub fn column_points(points: usize, distances: Option<&Vec<Vec<u64>>>) -> (out: Vec<usize>)
    requires
        points > 0,
        distances matches Some(d) ==> d@.len() == SPARK_WIDTH && forall|i: int|
            0 <= i < d@.len() ==> (#[trigger] d@[i])@.len() == points,
    ensures
        out@.len() == SPARK_WIDTH,
        forall|i: int| 0 <= i < SPARK_WIDTH ==> #[trigger] out@[i] < points,
        distances matches Some(d) ==> forall|i: int|
            0 <= i < SPARK_WIDTH ==> is_nearest(d@[i]@, #[trigger] out@[i] as int),
        distances is None ==> forall|i: int|
            0 <= i < SPARK_WIDTH ==> #[trigger] out@[i] == (i * (points - 1)) / 19,
{
    let mut out: Vec<usize> = Vec::new();
    let mut i: usize = 0;
    while i < SPARK_WIDTH
        invariant
            i <= SPARK_WIDTH,
            points > 0,
            distances matches Some(d) ==> d@.len() == SPARK_WIDTH && forall|k: int|
                0 <= k < d@.len() ==> (#[trigger] d@[k])@.len() == points,
            out@.len() == i,
            forall|k: int| 0 <= k < i ==> #[trigger] out@[k] < points,
            distances matches Some(d) ==> forall|k: int|
                0 <= k < i ==> is_nearest(d@[k]@, #[trigger] out@[k] as int),
            distances is None ==> forall|k: int|
                0 <= k < i ==> #[trigger] out@[k] == (k * (points - 1)) / 19,
        decreases SPARK_WIDTH - i,
    {
        let k: usize = match distances {
            Some(d) => {
                assert(d@[i as int]@.len() == points);
                nearest(&d[i])
            },
            None => sample_index(i, points),
        };
        out.push(k);
        i = i + 1;
    }
    out
}

/// A line with a label, where there is something to put in it.
pub open spec fn labelled(label: Seq<char>, value: Option<Seq<char>>) -> Seq<char> {
    match value {
        Some(v) => ended(label + v),
        None => Seq::empty(),
    }
}

fn append_labelled(out: &mut Vec<char>, label: &str, value: &Option<String>)
    ensures
        final(out)@ == old(out)@ + labelled(label@, chars::opt_text(*value)),
{
    let ghost before = out@;
    if let Some(v) = value {
        chars::append(out, label);
        chars::append(out, v.as_str());
        out.push('\n');
        assert(out@ =~= before + ended(label@ + v@));
    } else {
        assert(out@ =~= before + Seq::<char>::empty());
    }
}

/// The first line: the solver, and its version where it is known.
pub open spec fn solver_line(log: LogView) -> Seq<char> {
    "solver: "@ + schema::key_of(log.solver) + match log.version {
        Some(v) => " "@ + v,
        None => Seq::empty(),
    }
}

/// How the run ended, and after how long where that is known.
pub open spec fn status_line(status: Status, wall: Option<Seq<char>>) -> Seq<char> {
    "status: "@ + status_word(status) + match wall {
        Some(t) => " in "@ + t + "s"@,
        None => Seq::empty(),
    }
}

/// The bounds: one value where the run is optimal and they meet, else each
/// for itself, and the gap unless the run is optimal.
pub open spec fn bound_lines(status: Status, f: FiguresView) -> Seq<char> {
    if status == Status::Optimal && f.primal is Some && f.dual is Some && f.bounds_meet {
        labelled("obj: "@, f.primal)
    } else {
        labelled("primal: "@, f.primal) + labelled("dual: "@, f.dual) + if status
            == Status::Optimal {
            Seq::empty()
        } else {
            labelled(
                "gap: "@,
                match f.gap {
                    Some(g) => Some(g + "%"@),
                    None => None,
                },
            )
        }
    }
}

/// What presolve did to the rows and the columns.
pub open spec fn presolve_change(rows: Option<Seq<char>>, cols: Option<Seq<char>>) -> Option<
    Seq<char>,
> {
    match (rows, cols) {
        (Some(r), Some(c)) => Some(r + " rows, "@ + c + " cols"@),
        (Some(r), None) => Some(r + " rows"@),
        (None, Some(c)) => Some(c + " cols"@),
        (None, None) => None,
    }
}

/// The rows that a table needs to be shown.
pub const TABLE_ROWS: usize = 6;

/// The summary of a log.
pub open spec fn summary_of(log: LogView, f: FiguresView, include_table: bool) -> Seq<char> {
    ended(solver_line(log)) + labelled("problem: "@, log.problem) + ended(
        status_line(log.termination.status, f.wall),
    ) + bound_lines(log.termination.status, f) + labelled(
        "sols: "@,
        match log.tree.solutions_found {
            Some(n) => Some(numbers::decimal(n as nat)),
            None => None,
        },
    ) + labelled(
        "presolve: "@,
        presolve_change(
            dim_change(log.presolve.rows_before, log.presolve.rows_after),
            dim_change(log.presolve.cols_before, log.presolve.cols_after),
        ),
    ) + match f.heights {
        Some(h) => ended(spark_line(h)),
        None => Seq::empty(),
    } + if include_table && log.progress.len() >= TABLE_ROWS {
        ended(Seq::empty()) + table_text(log.progress, f.rows)
    } else {
        Seq::empty()
    }
}

/// A summary starts with the line of the solver.
pub proof fn law_summary_names_solver(log: LogView, f: FiguresView, include_table: bool)
    ensures
        chars::starts_with(
            summary_of(log, f, include_table),
            "solver: "@ + schema::key_of(log.solver),
        ),
{
    let head = "solver: "@ + schema::key_of(log.solver);
    assert(solver_line(log).take(head.len() as int) =~= head);
    assert(summary_of(log, f, include_table).take(head.len() as int) =~= head);
}

/// Without the table a summary is the same but for what comes last.
pub proof fn law_table_comes_last(log: LogView, f: FiguresView)
    ensures
        chars::starts_with(summary_of(log, f, true), summary_of(log, f, false)),
        log.progress.len() < TABLE_ROWS ==> summary_of(log, f, true) == summary_of(log, f, false),
{
    let short = summary_of(log, f, false);
    assert(summary_of(log, f, true).take(short.len() as int) =~= short);
}

fn append_bounds(out: &mut Vec<char>, status: Status, f: &Figures)
    ensures
        final(out)@ == old(out)@ + bound_lines(status, f@),
{
    let ghost before = out@;
    let optimal = matches!(status, Status::Optimal);
    if optimal && f.primal.is_some() && f.dual.is_some() && f.bounds_meet {
        append_labelled(out, "obj: ", &f.primal);
    } else {
        append_labelled(out, "primal: ", &f.primal);
        append_labelled(out, "dual: ", &f.dual);
        if !optimal {
            let gap = match &f.gap {
                Some(g) => {
                    let mut s = chars::chars_of(g.as_str());
                    chars::append(&mut s, "%");
                    Some(chars::string_of(s.as_slice()))
                },
                None => None,
            };
            append_labelled(out, "gap: ", &gap);
        }
        assert(out@ =~= before + bound_lines(status, f@));
    }
}

fn make_presolve_change(p: &PresolveStats) -> (out: Option<String>)
    ensures
        chars::opt_text(out) == presolve_change(
            dim_change(p.rows_before, p.rows_after),
            dim_change(p.cols_before, p.cols_after),
        ),
{
    let rows = fmt_dim_change(p.rows_before, p.rows_after);
    let cols = fmt_dim_change(p.cols_before, p.cols_after);
    let s = match (&rows, &cols) {
        (Some(r), Some(c)) => {
            let mut s = chars::chars_of(r.as_str());
            chars::append(&mut s, " rows, ");
            chars::append(&mut s, c.as_str());
            chars::append(&mut s, " cols");
            s
        },
        (Some(r), None) => {
            let mut s = chars::chars_of(r.as_str());
            chars::append(&mut s, " rows");
            s
        },
        (None, Some(c)) => {
            let mut s = chars::chars_of(c.as_str());
            chars::append(&mut s, " cols");
            s
        },
        (None, None) => {
            return None;
        },
    };
    Some(chars::string_of(s.as_slice()))
}

/// Writes the lines that come before the bounds.
fn make_heading(log: &SolverLog, wall: &Option<String>) -> (out: Vec<char>)
    ensures
        out@ == ended(solver_line(log@)) + labelled("problem: "@, log@.problem) + ended(
            status_line(log@.termination.status, chars::opt_text(*wall)),
        ),
{
    let mut out = chars::chars_of("solver: ");
    chars::append(&mut out, log.solver.key());
    if let Some(v) = &log.version {
        chars::append(&mut out, " ");
        chars::append(&mut out, v.as_str());
    }
    assert(out@ =~= solver_line(log@));
    out.push('\n');
    append_labelled(&mut out, "problem: ", &log.problem);
    let mut status = chars::chars_of("status: ");
    chars::append(&mut status, summary_status_word(log.termination.status));
    if let Some(t) = wall {
        chars::append(&mut status, " in ");
        chars::append(&mut status, t.as_str());
        chars::append(&mut status, "s");
    }
    assert(status@ =~= status_line(log@.termination.status, chars::opt_text(*wall)));
    append_line(&mut out, status.as_slice());
    out
}

fn fmt_summary(log: &SolverLog, f: &Figures, include_table: bool) -> (out: String)
    requires
        log.well_formed(),
        fits(log@, f@),
    ensures
        out@ == summary_of(log@, f@, include_table),
{
    let mut out = make_heading(log, &f.wall);
    append_bounds(&mut out, log.termination.status, f);
    let sols = match log.tree.solutions_found {
        Some(n) => {
            let digits = numbers::write_u64(n);
            Some(chars::string_of(digits.as_slice()))
        },
        None => None,
    };
    append_labelled(&mut out, "sols: ", &sols);
    let presolve = make_presolve_change(&log.presolve);
    append_labelled(&mut out, "presolve: ", &presolve);
    let ghost before = out@;
    if let Some(h) = &f.heights {
        let line = make_spark_line(h);
        append_line(&mut out, line.as_slice());
    } else {
        assert(out@ =~= before + Seq::<char>::empty());
    }
    let ghost middle = out@;
    if include_table && log.progress.len() >= TABLE_ROWS {
        out.push('\n');
        append_table(&mut out, &log.progress, &f.rows);
        assert(out@ =~= middle + (ended(Seq::empty()) + table_text(log@.progress, f@.rows)));
    } else {
        assert(out@ =~= middle + Seq::<char>::empty());
    }
    chars::string_of(out.as_slice())
}

/// A log whose summary leaves the progress table out. The line of the
/// sparkline stays.
pub struct SummaryNoTable<'a>(pub &'a SolverLog);

impl SummaryNoTable<'_> {
    /// The summary without the progress table.
    pub fn render(&self, f: &Figures) -> (out: String)
        requires
            self.0.well_formed(),
            fits(self.0@, f@),
        ensures
            out@ == summary_of(self.0@, f@, false),
    {
        fmt_summary(self.0, f, false)
    }
}

impl SolverLog {
    /// The summary with the progress table.
    pub fn summary(&self, f: &Figures) -> (out: String)
        requires
            self.well_formed(),
            fits(self@, f@),
        ensures
            out@ == summary_of(self@, f@, true),
    {
        fmt_summary(self, f, true)
    }

    /// This log, for a summary without the progress table.
    pub fn summary_no_table(&self) -> (out: SummaryNoTable<'_>)
        ensures
            out.0 == self,
    {
        SummaryNoTable(self)
    }
}

} // verus!
