//! The numbers of a log as they are printed in a document.

use crate::chars;
use crate::document::DocumentView;
use crate::numbers;
use crate::quantity;
use crate::quantity::{Real, RealView, Unit};
use crate::schema::{BoundsView, LogView, RowView, SolverLog, TimingView};
use vstd::prelude::*;

verus! {

/// A number as it is printed: one literal of a real number.
#[derive(Debug, PartialEq)]
pub struct Literal {
    text: String,
}

impl View for Literal {
    type V = Seq<char>;

    closed spec fn view(&self) -> Seq<char> {
        self.text@
    }
}

pub open spec fn opt_literal(o: Option<Literal>) -> Option<Seq<char>> {
    match o {
        Some(l) => Some(l@),
        None => None,
    }
}

impl Literal {
    #[verifier::type_invariant]
    spec fn well_written(self) -> bool {
        numbers::is_real(self.text@)
    }

    /// Takes a text as a literal, if it is one of a real number.
    pub fn read(s: &str) -> (out: Option<Literal>)
        ensures
            opt_literal(out) == (if numbers::is_real(s@) {
                Some(s@)
            } else {
                None
            }),
    {
        let all = chars::chars_of(s);
        if numbers::real_ok(all.as_slice()) {
            Some(Literal { text: s.to_string() })
        } else {
            None
        }
    }

    pub fn as_str(&self) -> (out: &str)
        ensures
            out@ == self@,
            numbers::is_real(out@),
    {
        proof {
            use_type_invariant(self);
        }
        self.text.as_str()
    }
}

impl Clone for Literal {
    fn clone(&self) -> (out: Literal)
        ensures
            out@ == self@,
    {
        proof {
            use_type_invariant(self);
        }
        Literal { text: self.text.clone() }
    }
}

/// The numbers of a row.
#[derive(Debug, Clone, PartialEq)]
pub struct PrintedRow {
    pub time: Literal,
    pub primal: Option<Literal>,
    pub dual: Option<Literal>,
    pub gap: Option<Literal>,
}

/// The numbers of a log that a document holds.
#[derive(Debug, Clone, PartialEq)]
pub struct Printed {
    pub wall: Option<Literal>,
    pub cpu: Option<Literal>,
    pub reading: Option<Literal>,
    pub presolve: Option<Literal>,
    pub root_relaxation: Option<Literal>,
    pub primal: Option<Literal>,
    pub dual: Option<Literal>,
    pub gap: Option<Literal>,
    pub rows: Vec<PrintedRow>,
}

pub struct PrintedRowView {
    pub time: Seq<char>,
    pub primal: Option<Seq<char>>,
    pub dual: Option<Seq<char>>,
    pub gap: Option<Seq<char>>,
}

pub struct PrintedView {
    pub wall: Option<Seq<char>>,
    pub cpu: Option<Seq<char>>,
    pub reading: Option<Seq<char>>,
    pub presolve: Option<Seq<char>>,
    pub root_relaxation: Option<Seq<char>>,
    pub primal: Option<Seq<char>>,
    pub dual: Option<Seq<char>>,
    pub gap: Option<Seq<char>>,
    pub rows: Seq<PrintedRowView>,
}

impl View for PrintedRow {
    type V = PrintedRowView;

    open spec fn view(&self) -> PrintedRowView {
        PrintedRowView {
            time: self.time@,
            primal: opt_literal(self.primal),
            dual: opt_literal(self.dual),
            gap: opt_literal(self.gap),
        }
    }
}

impl View for Printed {
    type V = PrintedView;

    open spec fn view(&self) -> PrintedView {
        PrintedView {
            wall: opt_literal(self.wall),
            cpu: opt_literal(self.cpu),
            reading: opt_literal(self.reading),
            presolve: opt_literal(self.presolve),
            root_relaxation: opt_literal(self.root_relaxation),
            primal: opt_literal(self.primal),
            dual: opt_literal(self.dual),
            gap: opt_literal(self.gap),
            rows: Seq::new(self.rows@.len(), |i: int| self.rows@[i]@),
        }
    }
}

/// A number is printed where there is one.
pub open spec fn printed_if(o: Option<RealView>, l: Option<Seq<char>>) -> bool {
    o is Some <==> l is Some
}

pub open spec fn row_fits(row: RowView, r: PrintedRowView) -> bool {
    &&& printed_if(row.primal, r.primal)
    &&& printed_if(row.dual, r.dual)
    &&& printed_if(row.gap, r.gap)
}

/// The printed numbers are those of the log: each number that the log has is
/// printed, and no other.
pub open spec fn fits(log: LogView, p: PrintedView) -> bool {
    &&& printed_if(log.timing.wall_seconds, p.wall)
    &&& printed_if(log.timing.cpu_seconds, p.cpu)
    &&& printed_if(log.timing.reading_seconds, p.reading)
    &&& printed_if(log.timing.presolve_seconds, p.presolve)
    &&& printed_if(log.timing.root_relaxation_seconds, p.root_relaxation)
    &&& printed_if(log.bounds.primal, p.primal)
    &&& printed_if(log.bounds.dual, p.dual)
    &&& printed_if(log.bounds.gap, p.gap)
    &&& p.rows.len() == log.progress.len()
    &&& forall|i: int| 0 <= i < p.rows.len() ==> row_fits(log.progress[i], #[trigger] p.rows[i])
}

/// Nothing, or a literal of a real number.
pub open spec fn is_literal(l: Option<Seq<char>>) -> bool {
    l matches Some(s) ==> numbers::is_real(s)
}

pub open spec fn row_literals(r: PrintedRowView) -> bool {
    numbers::is_real(r.time) && is_literal(r.primal) && is_literal(r.dual) && is_literal(r.gap)
}

/// What every [`Printed`] holds: literals of real numbers.
pub open spec fn are_literals(p: PrintedView) -> bool {
    &&& is_literal(p.wall)
    &&& is_literal(p.cpu)
    &&& is_literal(p.reading)
    &&& is_literal(p.presolve)
    &&& is_literal(p.root_relaxation)
    &&& is_literal(p.primal)
    &&& is_literal(p.dual)
    &&& is_literal(p.gap)
    &&& forall|i: int| 0 <= i < p.rows.len() ==> row_literals(#[trigger] p.rows[i])
}

/// The number that was printed.
pub open spec fn number_of(l: Option<Seq<char>>) -> Option<RealView> {
    match l {
        Some(s) => Some(quantity::literal(s)),
        None => None,
    }
}

/// A row with its numbers as they are printed.
pub open spec fn printed_row(row: RowView, r: PrintedRowView) -> RowView {
    RowView {
        time_seconds: quantity::literal(r.time),
        primal: number_of(r.primal),
        dual: number_of(r.dual),
        gap: number_of(r.gap),
        ..row
    }
}

/// A log with its numbers as they are printed.
pub open spec fn printed_log(log: LogView, p: PrintedView) -> LogView {
    LogView {
        timing: TimingView {
            wall_seconds: number_of(p.wall),
            cpu_seconds: number_of(p.cpu),
            reading_seconds: number_of(p.reading),
            presolve_seconds: number_of(p.presolve),
            root_relaxation_seconds: number_of(p.root_relaxation),
        },
        bounds: BoundsView {
            primal: number_of(p.primal),
            dual: number_of(p.dual),
            gap: number_of(p.gap),
            ..log.bounds
        },
        progress: Seq::new(
            log.progress.len(),
            |i: int| printed_row(log.progress[i], p.rows[i]),
        ),
        ..log
    }
}

pub open spec fn printed_document(d: DocumentView, p: PrintedView) -> DocumentView {
    DocumentView { log: printed_log(d.log, p), ..d }
}

/// A number that is written as one literal.
pub open spec fn is_plain(o: Option<RealView>) -> bool {
    o matches Some(r) ==> r.unit == Unit::One && r.literals.len() == 1
}

pub open spec fn plain_row(row: RowView) -> bool {
    is_plain(Some(row.time_seconds)) && is_plain(row.primal) && is_plain(row.dual) && is_plain(
        row.gap,
    )
}

/// All numbers of a log that a document holds are plain.
pub open spec fn plain_numbers(log: LogView) -> bool {
    &&& is_plain(log.timing.wall_seconds)
    &&& is_plain(log.timing.cpu_seconds)
    &&& is_plain(log.timing.reading_seconds)
    &&& is_plain(log.timing.presolve_seconds)
    &&& is_plain(log.timing.root_relaxation_seconds)
    &&& is_plain(log.bounds.primal)
    &&& is_plain(log.bounds.dual)
    &&& is_plain(log.bounds.gap)
    &&& forall|i: int| 0 <= i < log.progress.len() ==> plain_row(#[trigger] log.progress[i])
}

/// The literal of a plain number.
pub open spec fn own_literal(o: Option<RealView>) -> Option<Seq<char>> {
    match o {
        Some(r) => Some(r.literals[0]),
        None => None,
    }
}

pub open spec fn own_row(row: RowView) -> PrintedRowView {
    PrintedRowView {
        time: row.time_seconds.literals[0],
        primal: own_literal(row.primal),
        dual: own_literal(row.dual),
        gap: own_literal(row.gap),
    }
}

/// The numbers of a log whose numbers are plain: the literals that it holds.
pub open spec fn own_literals(log: LogView) -> PrintedView {
    PrintedView {
        wall: own_literal(log.timing.wall_seconds),
        cpu: own_literal(log.timing.cpu_seconds),
        reading: own_literal(log.timing.reading_seconds),
        presolve: own_literal(log.timing.presolve_seconds),
        root_relaxation: own_literal(log.timing.root_relaxation_seconds),
        primal: own_literal(log.bounds.primal),
        dual: own_literal(log.bounds.dual),
        gap: own_literal(log.bounds.gap),
        rows: Seq::new(log.progress.len(), |i: int| own_row(log.progress[i])),
    }
}

proof fn lemma_own_literal(o: Option<RealView>)
    requires
        is_plain(o),
    ensures
        number_of(own_literal(o)) == o,
{
    if let Some(r) = o {
        assert(seq![r.literals[0]] =~= r.literals);
    }
}

/// A log whose numbers are plain is the log with its own literals printed.
pub proof fn law_own_literals(log: LogView)
    requires
        plain_numbers(log),
    ensures
        fits(log, own_literals(log)),
        printed_log(log, own_literals(log)) == log,
{
    lemma_own_literal(log.timing.wall_seconds);
    lemma_own_literal(log.timing.cpu_seconds);
    lemma_own_literal(log.timing.reading_seconds);
    lemma_own_literal(log.timing.presolve_seconds);
    lemma_own_literal(log.timing.root_relaxation_seconds);
    lemma_own_literal(log.bounds.primal);
    lemma_own_literal(log.bounds.dual);
    lemma_own_literal(log.bounds.gap);
    let p = own_literals(log);
    assert forall|i: int| 0 <= i < log.progress.len() implies printed_row(
        log.progress[i],
        p.rows[i],
    ) == #[trigger] log.progress[i] by {
        let row = log.progress[i];
        assert(plain_row(row));
        lemma_own_literal(Some(row.time_seconds));
        lemma_own_literal(row.primal);
        lemma_own_literal(row.dual);
        lemma_own_literal(row.gap);
    }
    assert(printed_log(log, p).progress =~= log.progress);
}

/// The literal of a plain number; nothing if the number is not plain.
fn take_literal(r: &Real) -> (out: Option<Literal>)
    ensures
        out is Some <==> is_plain(Some(r@)),
        out is Some ==> opt_literal(out) == own_literal(Some(r@)),
{
    let literals = r.literals();
    assert(quantity::texts(literals@).len() == literals@.len());
    assert(quantity::texts(literals@)[0] == literals@[0]@);
    if r.unit() == Unit::One && literals.len() == 1 {
        Literal::read(literals[0].as_str())
    } else {
        None
    }
}

/// The literal of a plain number, if there is a number; an error if the number
/// is not plain.
fn take_opt_literal(o: &Option<Real>) -> (out: Result<Option<Literal>, ()>)
    ensures
        out is Ok <==> is_plain(quantity::opt_real(*o)),
        out matches Ok(l) ==> opt_literal(l) == own_literal(quantity::opt_real(*o)),
{
    match o {
        Some(r) => match take_literal(r) {
            Some(l) => Ok(Some(l)),
            None => Err(()),
        },
        None => Ok(None),
    }
}

fn same_presence(o: &Option<Real>, l: &Option<Literal>) -> (out: bool)
    ensures
        out == printed_if(quantity::opt_real(*o), opt_literal(*l)),
        is_literal(opt_literal(*l)),
{
    if let Some(text) = l {
        let _ = text.as_str();
    }
    o.is_some() == l.is_some()
}

impl Printed {
    /// Whether these are the numbers of the log.
    pub fn fits(&self, log: &SolverLog) -> (out: bool)
        requires
            log.well_formed(),
        ensures
            out == fits(log@, self@),
            out ==> are_literals(self@),
    {
        let t = &log.progress;
        if !same_presence(&log.timing.wall_seconds, &self.wall) || !same_presence(
            &log.timing.cpu_seconds,
            &self.cpu,
        ) || !same_presence(&log.timing.reading_seconds, &self.reading) || !same_presence(
            &log.timing.presolve_seconds,
            &self.presolve,
        ) || !same_presence(&log.timing.root_relaxation_seconds, &self.root_relaxation)
            || !same_presence(&log.bounds.primal, &self.primal) || !same_presence(
            &log.bounds.dual,
            &self.dual,
        ) || !same_presence(&log.bounds.gap, &self.gap) || self.rows.len() != t.len() {
            return false;
        }
        let mut i: usize = 0;
        while i < self.rows.len()
            invariant
                i <= self.rows@.len(),
                self.rows@.len() == t@.len(),
                t@ == log@.progress,
                t.well_formed(),
                forall|j: int| 0 <= j < i ==> row_fits(t@[j], #[trigger] self@.rows[j])
                    && row_literals(self@.rows[j]),
            decreases self.rows@.len() - i,
        {
            let r = &self.rows[i];
            let _ = r.time.as_str();
            if !same_presence(&t.primal[i], &r.primal) || !same_presence(&t.dual[i], &r.dual)
                || !same_presence(&t.gap[i], &r.gap) {
                assert(!row_fits(t@[i as int], self@.rows[i as int]));
                return false;
            }
            i = i + 1;
        }
        true
    }
}

impl SolverLog {
    /// The literals that the log holds, if each of its numbers that a document
    /// holds is one; so they are in a log that was read from a document.
    pub fn literals(&self) -> (out: Option<Printed>)
        requires
            self.well_formed(),
        ensures
            out is Some <==> plain_numbers(self@),
            out matches Some(p) ==> p@ == own_literals(self@),
    {
        let t = &self.progress;
        let mut rows: Vec<PrintedRow> = Vec::new();
        let mut i: usize = 0;
        while i < t.len()
            invariant
                i <= t@.len(),
                t@ == self@.progress,
                t.well_formed(),
                rows@.len() == i,
                forall|j: int| 0 <= j < i ==> plain_row(#[trigger] t@[j]) && rows@[j]@ == own_row(
                    t@[j],
                ),
            decreases t@.len() - i,
        {
            let ghost row = t@[i as int];
            if let (Some(time), Ok(primal), Ok(dual), Ok(gap)) = (
                take_literal(&t.time_seconds[i]),
                take_opt_literal(&t.primal[i]),
                take_opt_literal(&t.dual[i]),
                take_opt_literal(&t.gap[i]),
            ) {
                assert(plain_row(row));
                rows.push(PrintedRow { time, primal, dual, gap });
            } else {
                assert(!plain_row(row));
                return None;
            }
            i = i + 1;
        }
        let timing = &self.timing;
        let bounds = &self.bounds;
        match (
            take_opt_literal(&timing.wall_seconds),
            take_opt_literal(&timing.cpu_seconds),
            take_opt_literal(&timing.reading_seconds),
            take_opt_literal(&timing.presolve_seconds),
            take_opt_literal(&timing.root_relaxation_seconds),
            take_opt_literal(&bounds.primal),
            take_opt_literal(&bounds.dual),
            take_opt_literal(&bounds.gap),
        ) {
            (
                Ok(wall),
                Ok(cpu),
                Ok(reading),
                Ok(presolve),
                Ok(root_relaxation),
                Ok(primal),
                Ok(dual),
                Ok(gap),
            ) => {
                let out = Printed {
                    wall,
                    cpu,
                    reading,
                    presolve,
                    root_relaxation,
                    primal,
                    dual,
                    gap,
                    rows,
                };
                assert(out@.rows =~= own_literals(self@).rows);
                Some(out)
            },
            _ => None,
        }
    }
}

} // verus!
