//! What the readers share: the cells and the walk of a progress table, cut
//! families, problem names and free-form entries.

use crate::chars;
use crate::json;
use crate::json::{Json, JsonValue};
use crate::matching;
use crate::matching::{Captures, Groups};
use crate::numbers;
use crate::quantity;
use crate::quantity::{Real, RealView, Unit};
use crate::schema;
use crate::schema::{EventView, NamedValue, NodeEvent, NodeSnapshot, ProgressTable, RowView};
use crate::table;
use crate::table::CutCounts;
use vstd::prelude::*;

verus! {

/// The time that a token such as `0s`, `12.3s`, `5m` or `2h` stands for; a
/// token without a unit is in seconds.
pub open spec fn time_of(tok: Seq<char>) -> Option<RealView> {
    let t = chars::trimmed(tok);
    match chars::before_suffix(t, "s"@) {
        Some(n) => quantity::real_in(n, Unit::One),
        None => match chars::before_suffix(t, "m"@) {
            Some(n) => quantity::real_in(n, Unit::Minute),
            None => match chars::before_suffix(t, "h"@) {
                Some(n) => quantity::real_in(n, Unit::Hour),
                None => quantity::real_in(t, Unit::One),
            },
        },
    }
}

pub fn parse_time_token(tok: &[char]) -> (out: Option<Real>)
    ensures
        quantity::opt_real(out) == time_of(tok@),
{
    let t = chars::trim(tok);
    if let Some(n) = chars::strip_back(t, "s") {
        return Real::read_in(n, Unit::One);
    }
    if let Some(n) = chars::strip_back(t, "m") {
        return Real::read_in(n, Unit::Minute);
    }
    if let Some(n) = chars::strip_back(t, "h") {
        return Real::read_in(n, Unit::Hour);
    }
    Real::read_in(t, Unit::One)
}

/// The number in a cell that holds `-` where there is none.
pub open spec fn cell_of(tok: Seq<char>) -> Option<RealView> {
    let t = chars::trimmed(tok);
    if t == "-"@ || t.len() == 0 {
        None
    } else {
        quantity::real_of(t)
    }
}

pub fn parse_or_dash(tok: &[char]) -> (out: Option<Real>)
    ensures
        quantity::opt_real(out) == cell_of(tok@),
{
    let t = chars::trim(tok);
    if chars::same(t, "-") || t.len() == 0 {
        None
    } else {
        Real::read(t)
    }
}

/// The gap in a cell such as `4.23%`; none where it holds `-`, nothing or `inf`.
pub open spec fn gap_of(tok: Seq<char>) -> Option<RealView> {
    let t = chars::trimmed(tok);
    if t == "-"@ || t.len() == 0 || chars::ascii_lowered(t) == "inf"@ {
        None
    } else {
        let s = match chars::before_suffix(t, "%"@) {
            Some(n) => n,
            None => t,
        };
        quantity::real_in(chars::trimmed(s), Unit::Percent)
    }
}

pub fn parse_gap(tok: &[char]) -> (out: Option<Real>)
    ensures
        quantity::opt_real(out) == gap_of(tok@),
{
    let t = chars::trim(tok);
    let low = chars::lower(t);
    if chars::same(t, "-") || t.len() == 0 || chars::same(low.as_slice(), "inf") {
        return None;
    }
    let s = match chars::strip_back(t, "%") {
        Some(n) => n,
        None => t,
    };
    Real::read_in(chars::trim(s), Unit::Percent)
}

/// The event that the marker of a row stands for.
pub open spec fn event_of(marker: char) -> Option<EventView> {
    if marker == ' ' || marker == '\t' {
        None
    } else if marker == 'H' || marker == 'h' {
        Some(EventView::Heuristic)
    } else if marker == '*' {
        Some(EventView::BranchSolution)
    } else {
        Some(EventView::Other(seq![marker]))
    }
}

pub fn event_from_marker(marker: char) -> (out: Option<NodeEvent>)
    ensures
        schema::opt_event(out) == event_of(marker),
{
    if marker == ' ' || marker == '\t' {
        None
    } else if marker == 'H' || marker == 'h' {
        Some(NodeEvent::Heuristic)
    } else if marker == '*' {
        Some(NodeEvent::BranchSolution)
    } else {
        let one: Vec<char> = vec![marker];
        assert(one@ =~= seq![marker]);
        Some(NodeEvent::Other(chars::string_of(one.as_slice())))
    }
}

/// Which table the lines belong to.
#[derive(Clone, Copy, PartialEq, Eq, Structural)]
pub enum Open {
    /// None yet.
    No,
    /// The table of the tree search.
    Tree,
    /// The table of the root node.
    Root,
}

/// Where the walk over the lines of a log stands.
pub struct Scan {
    pub open: Open,
    /// The time that was last announced.
    pub clock: Real,
}

pub struct ScanView {
    pub open: Open,
    pub clock: RealView,
}

impl View for Scan {
    type V = ScanView;

    open spec fn view(&self) -> ScanView {
        ScanView { open: self.open, clock: self.clock@ }
    }
}

/// What a line is to the table.
pub enum Step {
    /// Nothing.
    Pass,
    /// Its end.
    Stop,
    /// A row.
    Row(NodeSnapshot),
}

pub enum StepView {
    Pass,
    Stop,
    Row(RowView),
}

impl View for Step {
    type V = StepView;

    open spec fn view(&self) -> StepView {
        match self {
            Step::Pass => StepView::Pass,
            Step::Stop => StepView::Stop,
            Step::Row(r) => StepView::Row(r@),
        }
    }
}

/// A row, or nothing.
pub open spec fn row_or_pass(row: Option<RowView>) -> StepView {
    match row {
        Some(r) => StepView::Row(r),
        None => StepView::Pass,
    }
}

pub fn step_of(row: Option<NodeSnapshot>) -> (out: Step)
    ensures
        out@ == row_or_pass(schema::opt_row(row)),
{
    match row {
        Some(r) => Step::Row(r),
        None => Step::Pass,
    }
}

/// The shape of a solver's progress table.
pub trait TableFormat {
    /// What a line means, where the walk stands as `scan` says and `any` says
    /// whether there was a row already; and where the walk stands behind it.
    spec fn meaning(&self, scan: ScanView, any: bool, line: Seq<char>) -> (ScanView, StepView);

    fn step(&self, scan: Scan, any: bool, line: &[char]) -> (out: (Scan, Step))
        ensures
            (out.0@, out.1@) == self.meaning(scan@, any, line@),
    ;
}

/// The rows that the lines of a log hold, from where the walk stands.
pub open spec fn rows_from<F: TableFormat>(
    format: F,
    lines: Seq<Seq<char>>,
    scan: ScanView,
    any: bool,
) -> Seq<RowView>
    decreases lines.len(),
{
    if lines.len() == 0 {
        Seq::empty()
    } else {
        let next = format.meaning(scan, any, lines[0]);
        match next.1 {
            StepView::Stop => Seq::empty(),
            StepView::Pass => rows_from(format, lines.skip(1), next.0, any),
            StepView::Row(row) => seq![row] + rows_from(format, lines.skip(1), next.0, true),
        }
    }
}

/// Before the first line: no table, no time.
pub open spec fn at_start() -> ScanView {
    ScanView { open: Open::No, clock: quantity::zero_real() }
}

/// The rows of the progress table of a log.
pub open spec fn table_rows<F: TableFormat>(format: F, text: Seq<char>) -> Seq<RowView> {
    rows_from(format, chars::lines(text), at_start(), false)
}

/// Reads the progress table of a log.
pub fn read_table<F: TableFormat>(format: &F, text: &[char]) -> (out: ProgressTable)
    ensures
        out.well_formed(),
        out@ == table_rows(*format, text@),
{
    let lines = chars::split_lines(text);
    let ghost all = chars::lines(text@);
    assert(chars::views(lines@).len() == lines@.len());
    let mut out = ProgressTable::default();
    let mut scan = Scan { open: Open::No, clock: Real::zero() };
    let mut i: usize = 0;
    assert(all.skip(0) =~= all);
    assert(out@ + table_rows(*format, text@) =~= table_rows(*format, text@));
    while i < lines.len()
        invariant
            i <= lines@.len(),
            chars::views(lines@) == all,
            all == chars::lines(text@),
            lines@.len() == all.len(),
            out.well_formed(),
            out@ + rows_from(*format, all.skip(i as int), scan@, out@.len() > 0) == table_rows(
                *format,
                text@,
            ),
        decreases lines@.len() - i,
    {
        let ghost before = out@;
        let ghost rest = all.skip(i as int);
        let any = !out.is_empty();
        let line = lines[i];
        assert(rest[0] == line@);
        assert(rest.skip(1) =~= all.skip(i + 1));
        let (next, step) = format.step(scan, any, line);
        scan = next;
        match step {
            Step::Stop => {
                assert(out@ + Seq::<RowView>::empty() =~= out@);
                return out;
            },
            Step::Pass => {},
            Step::Row(row) => {
                let ghost r = row@;
                let ghost more = rows_from(*format, all.skip(i + 1), scan@, true);
                out.push(row);
                assert(before + (seq![r] + more) =~= before.push(r) + more);
            },
        }
        i = i + 1;
    }
    assert(all.skip(i as int) =~= Seq::empty());
    assert(out@ + Seq::<RowView>::empty() =~= out@);
    out
}

/// The largest depth that the rows report.
pub open spec fn deepest(rows: Seq<RowView>) -> Option<u32>
    decreases rows.len(),
{
    if rows.len() == 0 {
        None
    } else {
        match (deepest(rows.drop_last()), rows.last().depth) {
            (Some(a), Some(b)) => Some(
                if a < b {
                    b
                } else {
                    a
                },
            ),
            (Some(a), None) => Some(a),
            (None, d) => d,
        }
    }
}

/// The largest depth is that of some row, no row reports more, and it is
/// there whenever some row reports a depth.
pub proof fn law_deepest(rows: Seq<RowView>)
    ensures
        deepest(rows) matches Some(d) ==> {
            &&& exists|i: int| 0 <= i < rows.len() && (#[trigger] rows[i]).depth == Some(d)
            &&& forall|i: int|
                0 <= i < rows.len() ==> ((#[trigger] rows[i]).depth matches Some(e) ==> e <= d)
        },
        deepest(rows) is None <==> forall|i: int|
            0 <= i < rows.len() ==> (#[trigger] rows[i]).depth is None,
    decreases rows.len(),
{
    if rows.len() > 0 {
        let front = rows.drop_last();
        law_deepest(front);
        let n = rows.len() - 1;
        assert(forall|i: int| 0 <= i < n ==> front[i] == rows[i]);
        assert(rows[n] == rows.last());
        if let Some(d) = deepest(rows) {
            if rows.last().depth == Some(d) {
                assert(rows[n].depth == Some(d));
            } else {
                let i = choose|i: int| 0 <= i < front.len() && (#[trigger] front[i]).depth == Some(
                    d,
                );
                assert(rows[i].depth == Some(d));
            }
            assert forall|i: int| 0 <= i < rows.len() implies ((
            #[trigger] rows[i]).depth matches Some(e) ==> e <= d) by {
                if i < n {
                    assert(front[i] == rows[i]);
                }
            }
            assert(exists|i: int| 0 <= i < rows.len() && (#[trigger] rows[i]).depth == Some(d));
        } else {
            assert forall|i: int| 0 <= i < rows.len() implies (
            #[trigger] rows[i]).depth is None by {
                if i < n {
                    assert(front[i] == rows[i]);
                }
            }
        }
    }
}

/// Takes the largest depth of the table.
pub fn max_depth(progress: &ProgressTable) -> (out: Option<u32>)
    requires
        progress.well_formed(),
    ensures
        out == deepest(progress@),
{
    let mut best: Option<u32> = None;
    let mut i: usize = 0;
    while i < progress.depth.len()
        invariant
            i <= progress.depth@.len(),
            progress.well_formed(),
            best == deepest(progress@.take(i as int)),
        decreases progress.depth@.len() - i,
    {
        assert(progress@.take(i + 1).drop_last() =~= progress@.take(i as int));
        best = match (best, progress.depth[i]) {
            (Some(a), Some(b)) => Some(
                if a < b {
                    b
                } else {
                    a
                },
            ),
            (Some(a), None) => Some(a),
            (None, d) => d,
        };
        i = i + 1;
    }
    assert(progress@.take(i as int) =~= progress@);
    best
}

/// One cut family: the name in group 1 and the count in group 2.
pub open spec fn with_cut(
    cuts: Seq<(Seq<char>, u64)>,
    m: Groups,
    trim: bool,
    commas: bool,
) -> Seq<(Seq<char>, u64)> {
    let name = if trim {
        chars::trimmed(matching::part(m, 1))
    } else {
        matching::part(m, 1)
    };
    let digits = if commas {
        chars::without(matching::part(m, 2), ',')
    } else {
        matching::part(m, 2)
    };
    match numbers::u64_of(digits) {
        Some(n) => if n > 0 {
            table::put(cuts, name, n)
        } else {
            cuts
        },
        None => cuts,
    }
}

/// The cut families that the matches name, those without cuts left out; of
/// two matches for one family the later counts. `trim`: spaces around a name
/// are no part of it; `commas`: counts are written with commas.
pub open spec fn cuts_of(ms: Seq<Groups>, trim: bool, commas: bool) -> Seq<(Seq<char>, u64)>
    decreases ms.len(),
{
    if ms.len() == 0 {
        Seq::empty()
    } else {
        with_cut(cuts_of(ms.drop_last(), trim, commas), ms.last(), trim, commas)
    }
}

/// No family is named with a count of zero.
pub proof fn lemma_cuts_positive(ms: Seq<Groups>, trim: bool, commas: bool)
    ensures
        table::counts_positive(cuts_of(ms, trim, commas)),
    decreases ms.len(),
{
    if ms.len() > 0 {
        let before = cuts_of(ms.drop_last(), trim, commas);
        lemma_cuts_positive(ms.drop_last(), trim, commas);
        let m = ms.last();
        let name = if trim {
            chars::trimmed(matching::part(m, 1))
        } else {
            matching::part(m, 1)
        };
        let digits = if commas {
            chars::without(matching::part(m, 2), ',')
        } else {
            matching::part(m, 2)
        };
        if let Some(n) = numbers::u64_of(digits) {
            if n > 0 {
                table::lemma_put_positive(before, name, n);
            }
        }
    }
}

/// Collects the cut families.
pub fn collect_cuts(ms: &Vec<Captures>, trim: bool, commas: bool) -> (out: CutCounts)
    ensures
        out@ == cuts_of(matching::all_groups(ms@), trim, commas),
        out.well_formed(),
{
    let mut out = CutCounts::new();
    let mut i: usize = 0;
    let ghost all = matching::all_groups(ms@);
    while i < ms.len()
        invariant
            i <= ms@.len(),
            all == matching::all_groups(ms@),
            out.well_formed(),
            out@ == cuts_of(all.take(i as int), trim, commas),
        decreases ms@.len() - i,
    {
        assert(all.take(i + 1).drop_last() =~= all.take(i as int));
        assert(all.take(i + 1).last() == ms@[i as int]@);
        let name = ms[i].part(1);
        let name = if trim {
            chars::string_of(chars::trim(name.as_slice()))
        } else {
            chars::string_of(name.as_slice())
        };
        let digits = ms[i].part(2);
        let digits = if commas {
            chars::drop_char(digits.as_slice(), ',')
        } else {
            digits
        };
        if let Some(n) = numbers::read_u64(digits.as_slice()) {
            if n > 0 {
                out.insert(name, n);
            }
        }
        i = i + 1;
    }
    assert(all.take(i as int) =~= all);
    out
}

/// The list with one more entry, where there is a value.
pub open spec fn with_other(
    others: Seq<(Seq<char>, Json)>,
    name: Seq<char>,
    value: Option<Json>,
) -> Seq<(Seq<char>, Json)> {
    match value {
        Some(v) => others.push((name, v)),
        None => others,
    }
}

/// Each name starts with the key and a dot, and none occurs twice.
pub open spec fn are_named(others: Seq<(Seq<char>, Json)>, key: Seq<char>) -> bool {
    &&& forall|i: int|
        0 <= i < others.len() ==> chars::starts_with((#[trigger] others[i]).0, key.push('.'))
    &&& forall|i: int, j: int|
        0 <= i < j < others.len() ==> (#[trigger] others[i]).0 != (#[trigger] others[j]).0
}

/// The names are among `names`.
pub open spec fn are_among(
    others: Seq<(Seq<char>, Json)>,
    names: Set<Seq<char>>,
    key: Seq<char>,
) -> bool {
    &&& are_named(others, key)
    &&& forall|i: int| 0 <= i < others.len() ==> names.contains((#[trigger] others[i]).0)
}

/// A list stays well named with an entry of a new name.
pub proof fn lemma_new_name(names: Set<Seq<char>>, name: Seq<char>, key: Seq<char>)
    requires
        !names.contains(name),
        chars::starts_with(name, key.push('.')),
    ensures
        forall|o: Seq<(Seq<char>, Json)>, v: Option<Json>|
            are_among(o, names, key) ==> are_among(
                #[trigger] with_other(o, name, v),
                names.insert(name),
                key,
            ),
{
    assert forall|o: Seq<(Seq<char>, Json)>, v: Option<Json>| are_among(o, names, key) implies are_among(
        #[trigger] with_other(o, name, v),
        names.insert(name),
        key,
    ) by {
        let now = with_other(o, name, v);
        assert forall|i: int| 0 <= i < now.len() implies names.insert(name).contains(
            (#[trigger] now[i]).0,
        ) && chars::starts_with(now[i].0, key.push('.')) by {
            if i < o.len() {
                assert(now[i] == o[i]);
            }
        }
        assert forall|i: int, j: int| 0 <= i < j < now.len() implies (#[trigger] now[i]).0 != (
        #[trigger] now[j]).0 by {
            assert(now[i] == o[i]);
            if j < o.len() {
                assert(now[j] == o[j]);
            } else {
                assert(names.contains(o[i].0));
            }
        }
    }
}

/// Adds an entry, where there is a value.
pub fn add_other(others: &mut Vec<NamedValue>, name: &str, value: Option<JsonValue>)
    ensures
        schema::others_of(final(others)@) == with_other(
            schema::others_of(old(others)@),
            name@,
            json::opt_json(value),
        ),
{
    let ghost before = schema::others_of(others@);
    if let Some(v) = value {
        let entry = NamedValue::new(name, v);
        others.push(entry);
        assert(schema::others_of(others@) =~= before.push(entry@));
    }
}

/// The part of a path behind its last slash.
pub open spec fn last_piece(path: Seq<char>) -> Seq<char> {
    chars::pieces(path, '/').last()
}

/// A file name without the ending of a model file.
pub open spec fn model_stem(name: Seq<char>, lp: bool) -> Seq<char> {
    match chars::before_suffix(name, ".mps.gz"@) {
        Some(s) => s,
        None => match chars::before_suffix(name, ".mps"@) {
            Some(s) => s,
            None => if lp {
                match chars::before_suffix(name, ".lp.gz"@) {
                    Some(s) => s,
                    None => match chars::before_suffix(name, ".lp"@) {
                        Some(s) => s,
                        None => name,
                    },
                }
            } else {
                name
            },
        },
    }
}

/// The name of the problem in the file at `path`.
pub open spec fn problem_in(path: Option<Seq<char>>) -> Option<Seq<char>> {
    match path {
        Some(p) => Some(model_stem(last_piece(p), true)),
        None => None,
    }
}

/// Drops the ending of a model file from a name.
pub fn drop_model_ending(name: &[char], lp: bool) -> (out: &[char])
    ensures
        out@ == model_stem(name@, lp),
{
    if let Some(s) = chars::strip_back(name, ".mps.gz") {
        return s;
    }
    if let Some(s) = chars::strip_back(name, ".mps") {
        return s;
    }
    if lp {
        if let Some(s) = chars::strip_back(name, ".lp.gz") {
            return s;
        }
        if let Some(s) = chars::strip_back(name, ".lp") {
            return s;
        }
    }
    name
}

proof fn lemma_some_piece(s: Seq<char>, c: char)
    ensures
        chars::pieces(s, c).len() > 0,
    decreases s.len(),
{
}

/// Takes the name of the problem from the path of its file.
pub fn problem_from_path(m: &Option<Captures>, i: usize) -> (out: Option<String>)
    ensures
        chars::opt_text(out) == problem_in(
            matching::text_at(matching::opt_groups(*m), i as int),
        ),
{
    match matching::found(m, i) {
        Some(path) => {
            let parts = chars::split_on(path.as_slice(), '/');
            proof {
                lemma_some_piece(path@, '/');
            }
            let ghost all = chars::pieces(path@, '/');
            assert(chars::views(parts@).len() == parts@.len());
            let name = parts[parts.len() - 1];
            assert(name@ == chars::views(parts@)[parts@.len() - 1]);
            Some(chars::string_of(drop_model_ending(name, true)))
        },
        None => None,
    }
}

/// How many bytes a character takes in UTF-8.
pub open spec fn utf8_len(c: char) -> nat {
    if c <= '\u{7f}' {
        1
    } else if c <= '\u{7ff}' {
        2
    } else if c <= '\u{ffff}' {
        3
    } else {
        4
    }
}

/// The characters at the front of a line that take no more than two bytes:
/// the column in which a row is marked.
pub open spec fn margin_of(line: Seq<char>) -> Seq<char> {
    if line.len() == 0 || utf8_len(line[0]) > 2 {
        Seq::empty()
    } else if line.len() >= 2 && utf8_len(line[0]) + utf8_len(line[1]) == 2 {
        line.take(2)
    } else {
        line.take(1)
    }
}

pub fn byte_len(c: char) -> (out: usize)
    ensures
        out == utf8_len(c),
{
    if c <= '\u{7f}' {
        1
    } else if c <= '\u{7ff}' {
        2
    } else if c <= '\u{ffff}' {
        3
    } else {
        4
    }
}

pub fn read_margin(line: &[char]) -> (out: &[char])
    ensures
        out@ == margin_of(line@),
{
    if line.len() == 0 || byte_len(line[0]) > 2 {
        let out = chars::upto(line, 0);
        assert(out@ =~= Seq::empty());
        out
    } else if line.len() >= 2 && byte_len(line[0]) + byte_len(line[1]) == 2 {
        chars::upto(line, 2)
    } else {
        chars::upto(line, 1)
    }
}

/// What follows `label` on the first line that starts with it, spaces around
/// the line aside.
pub open spec fn first_labelled(lines: Seq<Seq<char>>, label: Seq<char>) -> Option<Seq<char>>
    decreases lines.len(),
{
    if lines.len() == 0 {
        None
    } else {
        match chars::after_prefix(chars::trimmed(lines[0]), label) {
            Some(rest) => Some(rest),
            None => first_labelled(lines.skip(1), label),
        }
    }
}

pub fn find_labelled<'a>(lines: &Vec<&'a [char]>, label: &str) -> (out: Option<&'a [char]>)
    ensures
        chars::opt_view(out) == first_labelled(chars::views(lines@), label@),
{
    let mut i: usize = 0;
    let ghost all = chars::views(lines@);
    assert(all.skip(0) =~= all);
    while i < lines.len()
        invariant
            i <= lines@.len(),
            all == chars::views(lines@),
            first_labelled(all, label@) == first_labelled(all.skip(i as int), label@),
        decreases lines@.len() - i,
    {
        assert(all.skip(i as int)[0] == lines@[i as int]@);
        assert(all.skip(i as int).skip(1) =~= all.skip(i + 1));
        if let Some(rest) = chars::strip_front(chars::trim(lines[i]), label) {
            return Some(rest);
        }
        i = i + 1;
    }
    assert(all.skip(i as int) =~= Seq::empty());
    None
}

/// The first dual bound of the rows that is not zero.
pub open spec fn first_dual(rows: Seq<RowView>) -> Option<RealView>
    decreases rows.len(),
{
    if rows.len() == 0 {
        None
    } else {
        match rows[0].dual {
            Some(d) => if quantity::reads_zero(d) {
                first_dual(rows.skip(1))
            } else {
                Some(d)
            },
            None => first_dual(rows.skip(1)),
        }
    }
}

pub fn find_first_dual(progress: &ProgressTable) -> (out: Option<Real>)
    requires
        progress.well_formed(),
    ensures
        quantity::opt_real(out) == first_dual(progress@),
{
    let mut i: usize = 0;
    assert(progress@.skip(0) =~= progress@);
    while i < progress.dual.len()
        invariant
            i <= progress.dual@.len(),
            progress.well_formed(),
            first_dual(progress@) == first_dual(progress@.skip(i as int)),
        decreases progress.dual@.len() - i,
    {
        assert(progress@.skip(i as int)[0] == progress@[i as int]);
        assert(progress@.skip(i as int).skip(1) =~= progress@.skip(i + 1));
        if let Some(d) = &progress.dual[i] {
            if !d.is_zero() {
                return Some(d.copy());
            }
        }
        i = i + 1;
    }
    assert(progress@.skip(i as int) =~= Seq::empty());
    None
}

/// The first dual bound that is not zero stands in some row, and all rows
/// before it have none or zero.
pub proof fn law_first_dual(rows: Seq<RowView>)
    ensures
        first_dual(rows) matches Some(d) ==> exists|i: int|
            {
                &&& 0 <= i < rows.len()
                &&& (#[trigger] rows[i]).dual == Some(d)
                &&& !quantity::reads_zero(d)
                &&& forall|j: int|
                    0 <= j < i ==> ((#[trigger] rows[j]).dual matches Some(e)
                        ==> quantity::reads_zero(e))
            },
        first_dual(rows) is None ==> forall|j: int|
            0 <= j < rows.len() ==> ((#[trigger] rows[j]).dual matches Some(e)
                ==> quantity::reads_zero(e)),
    decreases rows.len(),
{
    if rows.len() > 0 {
        let rest = rows.skip(1);
        law_first_dual(rest);
        assert(forall|j: int| 0 <= j < rest.len() ==> rest[j] == rows[j + 1]);
        let here = match rows[0].dual {
            Some(d) => !quantity::reads_zero(d),
            None => false,
        };
        if here {
            assert(rows[0].dual == first_dual(rows));
        } else if let Some(d) = first_dual(rest) {
            let i = choose|i: int|
                {
                    &&& 0 <= i < rest.len()
                    &&& (#[trigger] rest[i]).dual == Some(d)
                    &&& !quantity::reads_zero(d)
                    &&& forall|j: int|
                        0 <= j < i ==> ((#[trigger] rest[j]).dual matches Some(e)
                            ==> quantity::reads_zero(e))
                };
            assert(rows[i + 1].dual == Some(d));
            assert forall|j: int| 0 <= j < i + 1 implies ((
            #[trigger] rows[j]).dual matches Some(e) ==> quantity::reads_zero(e)) by {
                if j > 0 {
                    assert(rows[j] == rest[j - 1]);
                }
            }
        } else {
            assert forall|j: int| 0 <= j < rows.len() implies ((
            #[trigger] rows[j]).dual matches Some(e) ==> quantity::reads_zero(e)) by {
                if j > 0 {
                    assert(rows[j] == rest[j - 1]);
                }
            }
        }
    }
}

} // verus!
