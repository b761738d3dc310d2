//! Writing a log as a document.

use crate::chars;
use crate::document;
use crate::document::{DocumentView, MAGIC};
use crate::fields;
use crate::fields::{Value, ValueView};
use crate::numbers;
use crate::printed;
use crate::printed::{Literal, Printed, PrintedRow};
use crate::quantity::RealView;
use crate::schema;
use crate::schema::{
    BoundsView, EventView, LogView, NodeEvent, PresolveStats, ProgressTable, RowView,
    SolverLog, Status, TimingView, TreeStats,
};
use crate::table;
use crate::text;
use vstd::prelude::*;

verus! {

/// A text that can stand without quotes.
pub open spec fn is_word(s: Seq<char>) -> bool {
    &&& s.len() > 0
    &&& s != "-"@
    &&& forall|i: int| 0 <= i < s.len() ==> fields::in_word(#[trigger] s[i])
}

/// The value of a text: bare where it can be, else in quotes.
pub open spec fn text_value(o: Option<Seq<char>>) -> ValueView {
    match o {
        Some(s) => if is_word(s) {
            ValueView::Bare(s)
        } else {
            ValueView::Quoted(s)
        },
        None => document::dash(),
    }
}

/// The value of a plain number: its literal.
pub open spec fn number_value(o: Option<RealView>) -> ValueView {
    match o {
        Some(r) => ValueView::Bare(r.literals[0]),
        None => document::dash(),
    }
}

/// The value of a count: its decimal digits.
pub open spec fn count_value(o: Option<u64>) -> ValueView {
    match o {
        Some(n) => ValueView::Bare(numbers::decimal(n as nat)),
        None => document::dash(),
    }
}

pub open spec fn depth_value(o: Option<u32>) -> ValueView {
    match o {
        Some(n) => count_value(Some(n as u64)),
        None => document::dash(),
    }
}

pub open spec fn event_value(o: Option<EventView>) -> ValueView {
    match o {
        Some(EventView::Heuristic) => ValueView::Bare("heuristic"@),
        Some(EventView::BranchSolution) => ValueView::Bare("branch_solution"@),
        Some(EventView::Cutoff) => ValueView::Bare("cutoff"@),
        Some(EventView::Other(q)) => ValueView::Quoted(q),
        None => document::dash(),
    }
}

/// The value of a git hash, which is empty where it is not there.
pub open spec fn git_value(git: Seq<char>) -> ValueView {
    text_value(
        if git.len() == 0 {
            None
        } else {
            Some(git)
        },
    )
}

pub open spec fn solver_text(log: LogView) -> Seq<char> {
    fields::written_fields(
        document::solver_labels(),
        seq![
            text_value(Some(schema::key_of(log.solver))),
            text_value(log.version),
            text_value(log.solver_git_hash),
        ],
    )
}

pub open spec fn problem_text(problem: Seq<char>) -> Seq<char> {
    fields::written_fields(document::problem_labels(), seq![text_value(Some(problem))])
}

pub open spec fn status_text(log: LogView) -> Seq<char> {
    fields::written_fields(
        document::status_labels(),
        seq![
            text_value(Some(document::status_name(log.termination.status))),
            text_value(log.termination.raw_reason),
        ],
    )
}

pub open spec fn timing_text(t: TimingView) -> Seq<char> {
    fields::written_fields(
        document::timing_labels(),
        seq![
            number_value(t.wall_seconds),
            number_value(t.cpu_seconds),
            number_value(t.reading_seconds),
            number_value(t.presolve_seconds),
            number_value(t.root_relaxation_seconds),
        ],
    )
}

pub open spec fn bounds_text(b: BoundsView) -> Seq<char> {
    fields::written_fields(
        document::bounds_labels(),
        seq![number_value(b.primal), number_value(b.dual), number_value(b.gap)],
    )
}

pub open spec fn tree_text(t: TreeStats) -> Seq<char> {
    fields::written_fields(
        document::tree_labels(),
        seq![
            count_value(t.nodes_explored),
            count_value(t.simplex_iterations),
            count_value(t.solutions_found),
        ],
    )
}

pub open spec fn presolve_text(p: PresolveStats) -> Seq<char> {
    fields::written_fields(
        document::presolve_labels(),
        seq![
            count_value(p.rows_before),
            count_value(p.rows_after),
            count_value(p.cols_before),
            count_value(p.cols_after),
            count_value(p.nonzeros_before),
            count_value(p.nonzeros_after),
        ],
    )
}

/// One cut family with its count.
pub open spec fn cut_text(cut: (Seq<char>, u64)) -> Seq<char> {
    fields::written_fields(
        document::cut_labels(),
        seq![text_value(Some(cut.0)), count_value(Some(cut.1))],
    )
}

/// The cut families with their counts, one behind the other.
pub open spec fn cut_list_text(cuts: Seq<(Seq<char>, u64)>) -> Seq<char>
    decreases cuts.len(),
{
    if cuts.len() == 0 {
        Seq::empty()
    } else {
        cut_text(cuts[0]) + cut_list_text(cuts.skip(1))
    }
}

pub open spec fn cuts_text(cuts: Seq<(Seq<char>, u64)>) -> Seq<char> {
    "cuts:"@ + cut_list_text(cuts)
}

/// The time of the last row.
pub open spec fn last_time(rows: Seq<RowView>) -> Option<RealView> {
    if rows.len() > 0 {
        Some(rows.last().time_seconds)
    } else {
        None
    }
}

pub open spec fn progress_text(rows: Seq<RowView>) -> Seq<char> {
    fields::written_fields(
        document::progress_labels(),
        seq![count_value(Some(rows.len() as u64)), number_value(last_time(rows))],
    )
}

/// The comment that names the columns of the rows.
pub const COLUMNS: &'static str = "  # cols: time nodes primal dual gap depth lp event";

pub open spec fn row_text(row: RowView) -> Seq<char> {
    fields::written_fields(
        document::row_labels(),
        seq![
            number_value(Some(row.time_seconds)),
            count_value(row.nodes_explored),
            number_value(row.primal),
            number_value(row.dual),
            number_value(row.gap),
            depth_value(row.depth),
            count_value(row.lp_iterations),
            event_value(row.event),
        ],
    )
}

pub open spec fn parser_text(version: Seq<char>, git: Seq<char>) -> Seq<char> {
    fields::written_fields(
        document::parser_labels(),
        seq![text_value(Some(version)), git_value(git)],
    )
}

/// The lines before the rows.
pub open spec fn head_lines(log: LogView) -> Seq<Seq<char>> {
    seq![MAGIC@, solver_text(log)] + (match log.problem {
        Some(p) => seq![problem_text(p)],
        None => Seq::empty(),
    }) + seq![
        status_text(log),
        timing_text(log.timing),
        bounds_text(log.bounds),
        tree_text(log.tree),
        presolve_text(log.presolve),
        cuts_text(log.cuts),
        progress_text(log.progress),
    ]
}

/// The rows, one line each.
pub open spec fn row_lines(rows: Seq<RowView>) -> Seq<Seq<char>> {
    Seq::new(rows.len(), |i: int| row_text(rows[i]))
}

/// The lines of the document of a log.
pub open spec fn document_lines(d: DocumentView) -> Seq<Seq<char>> {
    head_lines(d.log) + seq![COLUMNS@] + row_lines(d.log.progress) + seq![
        parser_text(d.version, d.git),
    ]
}

/// Lines, each with its ending.
pub open spec fn joined(lines: Seq<Seq<char>>) -> Seq<char>
    decreases lines.len(),
{
    if lines.len() == 0 {
        Seq::empty()
    } else {
        text::ended(lines[0]) + joined(lines.skip(1))
    }
}

/// The document of a log.
pub open spec fn written_document(d: DocumentView) -> Seq<char> {
    joined(document_lines(d))
}

pub proof fn lemma_joined_push(lines: Seq<Seq<char>>, line: Seq<char>)
    ensures
        joined(lines.push(line)) == joined(lines) + text::ended(line),
    decreases lines.len(),
{
    let more = lines.push(line);
    if lines.len() == 0 {
        assert(more.skip(1) =~= Seq::empty());
        assert(joined(more.skip(1)) =~= Seq::empty());
        assert(joined(more) =~= text::ended(line));
        assert(joined(lines) + text::ended(line) =~= text::ended(line));
    } else {
        assert(more.skip(1) =~= lines.skip(1).push(line));
        lemma_joined_push(lines.skip(1), line);
        assert(joined(more) =~= joined(lines) + text::ended(line));
    }
}

fn word(s: &[char]) -> (out: bool)
    ensures
        out == is_word(s@),
{
    if s.len() == 0 || chars::same(s, "-") {
        return false;
    }
    let mut i: usize = 0;
    while i < s.len()
        invariant
            i <= s@.len(),
            forall|j: int| 0 <= j < i ==> fields::in_word(#[trigger] s@[j]),
        decreases s@.len() - i,
    {
        if !fields::is_in_word(s[i]) {
            return false;
        }
        i = i + 1;
    }
    true
}

fn bare(s: &str) -> (out: Value)
    ensures
        out@ == ValueView::Bare(s@),
{
    Value::Bare(s.to_string())
}

fn make_text(s: &str) -> (out: Value)
    ensures
        out@ == text_value(Some(s@)),
{
    let all = chars::chars_of(s);
    if word(all.as_slice()) {
        Value::Bare(s.to_string())
    } else {
        Value::Quoted(s.to_string())
    }
}

fn make_opt_text(o: &Option<String>) -> (out: Value)
    ensures
        out@ == text_value(chars::opt_text(*o)),
{
    match o {
        Some(s) => make_text(s.as_str()),
        None => bare("-"),
    }
}

fn make_number(o: &Option<Literal>) -> (out: Value)
    ensures
        out@ == number_value(printed::number_of(printed::opt_literal(*o))),
{
    match o {
        Some(l) => bare(l.as_str()),
        None => bare("-"),
    }
}

fn make_count(o: Option<u64>) -> (out: Value)
    ensures
        out@ == count_value(o),
{
    match o {
        Some(n) => {
            let digits = numbers::write_u64(n);
            Value::Bare(chars::string_of(digits.as_slice()))
        },
        None => bare("-"),
    }
}

fn make_depth(o: Option<u32>) -> (out: Value)
    ensures
        out@ == depth_value(o),
{
    match o {
        Some(n) => make_count(Some(n as u64)),
        None => bare("-"),
    }
}

fn make_event(o: &Option<NodeEvent>) -> (out: Value)
    ensures
        out@ == event_value(schema::opt_event(*o)),
{
    match o {
        Some(NodeEvent::Heuristic) => bare("heuristic"),
        Some(NodeEvent::BranchSolution) => bare("branch_solution"),
        Some(NodeEvent::Cutoff) => bare("cutoff"),
        Some(NodeEvent::Other(q)) => Value::Quoted(q.clone()),
        None => bare("-"),
    }
}

fn make_git(git: &str) -> (out: Value)
    ensures
        out@ == git_value(git@),
{
    let all = chars::chars_of(git);
    if all.len() == 0 {
        bare("-")
    } else {
        make_text(git)
    }
}

fn name_status(status: Status) -> (out: &'static str)
    ensures
        out@ == document::status_name(status),
{
    match status {
        Status::Unknown => "unknown",
        Status::Optimal => "optimal",
        Status::Infeasible => "infeasible",
        Status::Unbounded => "unbounded",
        Status::InfeasibleOrUnbounded => "infeasible_or_unbounded",
        Status::TimeLimit => "time_limit",
        Status::MemoryLimit => "memory_limit",
        Status::OtherLimit => "other_limit",
        Status::UserInterrupt => "user_interrupt",
        Status::NumericalError => "numerical_error",
    }
}

fn add_solver_line(out: &mut Vec<char>, log: &SolverLog)
    ensures
        final(out)@ == old(out)@ + solver_text(log@),
{
    let labels: [&'static str; 3] = ["solver: name=", " version=", " git="];
    assert(schema::strs(labels@) =~= document::solver_labels());
    let values = vec![
        make_text(log.solver.key()),
        make_opt_text(&log.version),
        make_opt_text(&log.solver_git_hash),
    ];
    assert(fields::values_of(values@) =~= seq![
        text_value(Some(schema::key_of(log@.solver))),
        text_value(log@.version),
        text_value(log@.solver_git_hash),
    ]);
    fields::write_fields(out, labels.as_slice(), &values);
}

fn add_problem_line(out: &mut Vec<char>, problem: &str)
    ensures
        final(out)@ == old(out)@ + problem_text(problem@),
{
    let labels: [&'static str; 1] = ["problem: "];
    assert(schema::strs(labels@) =~= document::problem_labels());
    let values = vec![make_text(problem)];
    assert(fields::values_of(values@) =~= seq![text_value(Some(problem@))]);
    fields::write_fields(out, labels.as_slice(), &values);
}

fn add_status_line(out: &mut Vec<char>, log: &SolverLog)
    ensures
        final(out)@ == old(out)@ + status_text(log@),
{
    let labels: [&'static str; 2] = ["status: ", " reason="];
    assert(schema::strs(labels@) =~= document::status_labels());
    let values = vec![
        make_text(name_status(log.termination.status)),
        make_opt_text(&log.termination.raw_reason),
    ];
    assert(fields::values_of(values@) =~= seq![
        text_value(Some(document::status_name(log@.termination.status))),
        text_value(log@.termination.raw_reason),
    ]);
    fields::write_fields(out, labels.as_slice(), &values);
}

fn add_timing_line(out: &mut Vec<char>, log: &SolverLog, p: &Printed)
    ensures
        final(out)@ == old(out)@ + timing_text(printed::printed_log(log@, p@).timing),
{
    let labels: [&'static str; 5] = [
        "timing: wall=",
        " cpu=",
        " reading=",
        " presolve=",
        " root_relax=",
    ];
    assert(schema::strs(labels@) =~= document::timing_labels());
    let ghost t = printed::printed_log(log@, p@).timing;
    let values = vec![
        make_number(&p.wall),
        make_number(&p.cpu),
        make_number(&p.reading),
        make_number(&p.presolve),
        make_number(&p.root_relaxation),
    ];
    assert(fields::values_of(values@) =~= seq![
        number_value(t.wall_seconds),
        number_value(t.cpu_seconds),
        number_value(t.reading_seconds),
        number_value(t.presolve_seconds),
        number_value(t.root_relaxation_seconds),
    ]);
    fields::write_fields(out, labels.as_slice(), &values);
}

fn add_bounds_line(out: &mut Vec<char>, log: &SolverLog, p: &Printed)
    ensures
        final(out)@ == old(out)@ + bounds_text(printed::printed_log(log@, p@).bounds),
{
    let labels: [&'static str; 3] = ["bounds: primal=", " dual=", " gap="];
    assert(schema::strs(labels@) =~= document::bounds_labels());
    let ghost b = printed::printed_log(log@, p@).bounds;
    let values = vec![make_number(&p.primal), make_number(&p.dual), make_number(&p.gap)];
    assert(fields::values_of(values@) =~= seq![
        number_value(b.primal),
        number_value(b.dual),
        number_value(b.gap),
    ]);
    fields::write_fields(out, labels.as_slice(), &values);
}

fn add_tree_line(out: &mut Vec<char>, t: &TreeStats)
    ensures
        final(out)@ == old(out)@ + tree_text(*t),
{
    let labels: [&'static str; 3] = ["tree: nodes=", " simplex_iters=", " sols="];
    assert(schema::strs(labels@) =~= document::tree_labels());
    let values = vec![
        make_count(t.nodes_explored),
        make_count(t.simplex_iterations),
        make_count(t.solutions_found),
    ];
    assert(fields::values_of(values@) =~= seq![
        count_value(t.nodes_explored),
        count_value(t.simplex_iterations),
        count_value(t.solutions_found),
    ]);
    fields::write_fields(out, labels.as_slice(), &values);
}

fn add_presolve_line(out: &mut Vec<char>, p: &PresolveStats)
    ensures
        final(out)@ == old(out)@ + presolve_text(*p),
{
    let labels: [&'static str; 6] = ["presolve: rows=", "/", " cols=", "/", " nnz=", "/"];
    assert(schema::strs(labels@) =~= document::presolve_labels());
    let values = vec![
        make_count(p.rows_before),
        make_count(p.rows_after),
        make_count(p.cols_before),
        make_count(p.cols_after),
        make_count(p.nonzeros_before),
        make_count(p.nonzeros_after),
    ];
    assert(fields::values_of(values@) =~= seq![
        count_value(p.rows_before),
        count_value(p.rows_after),
        count_value(p.cols_before),
        count_value(p.cols_after),
        count_value(p.nonzeros_before),
        count_value(p.nonzeros_after),
    ]);
    fields::write_fields(out, labels.as_slice(), &values);
}

fn add_cuts_line(out: &mut Vec<char>, log: &SolverLog)
    ensures
        final(out)@ == old(out)@ + cuts_text(log@.cuts),
{
    let labels: [&'static str; 2] = [" ", "="];
    assert(schema::strs(labels@) =~= document::cut_labels());
    let ghost start = out@;
    let ghost all = log@.cuts;
    chars::append(out, "cuts:");
    let cuts = &log.cuts.entries;
    let mut i: usize = 0;
    assert(all.skip(0) =~= all);
    assert(out@ + cut_list_text(all) =~= start + cuts_text(all));
    while i < cuts.len()
        invariant
            i <= cuts@.len(),
            cuts@.len() == all.len(),
            all == log.cuts@,
            cuts == log.cuts.entries,
            schema::strs(labels@) == document::cut_labels(),
            out@ + cut_list_text(all.skip(i as int)) == start + cuts_text(all),
        decreases cuts@.len() - i,
    {
        let ghost before = out@;
        let values = vec![make_text(cuts[i].0.as_str()), make_count(Some(cuts[i].1))];
        assert(fields::values_of(values@) =~= seq![
            text_value(Some(all[i as int].0)),
            count_value(Some(all[i as int].1)),
        ]);
        fields::write_fields(out, labels.as_slice(), &values);
        assert(all.skip(i as int)[0] == all[i as int]);
        assert(all.skip(i as int).skip(1) =~= all.skip(i + 1));
        assert(before + (cut_text(all[i as int]) + cut_list_text(all.skip(i + 1))) =~= out@
            + cut_list_text(all.skip(i + 1)));
        i = i + 1;
    }
    assert(all.skip(i as int) =~= Seq::empty());
    assert(out@ + Seq::<char>::empty() =~= out@);
}

fn add_progress_line(out: &mut Vec<char>, log: &SolverLog, p: &Printed)
    requires
        p@.rows.len() == log@.progress.len(),
    ensures
        final(out)@ == old(out)@ + progress_text(printed::printed_log(log@, p@).progress),
{
    let labels: [&'static str; 2] = ["progress: rows=", " last_time="];
    assert(schema::strs(labels@) =~= document::progress_labels());
    let ghost rows = printed::printed_log(log@, p@).progress;
    let n: usize = p.rows.len();
    let last = if n > 0 {
        bare(p.rows[n - 1].time.as_str())
    } else {
        bare("-")
    };
    proof {
        if n > 0 {
            assert(rows.last() == printed::printed_row(log@.progress[n - 1], p@.rows[n - 1]));
        }
    }
    let values = vec![make_count(Some(n as u64)), last];
    assert(fields::values_of(values@) =~= seq![
        count_value(Some(rows.len() as u64)),
        number_value(last_time(rows)),
    ]);
    fields::write_fields(out, labels.as_slice(), &values);
}

fn add_row_line(out: &mut Vec<char>, t: &ProgressTable, i: usize, r: &PrintedRow)
    requires
        t.well_formed(),
        i < t@.len(),
    ensures
        final(out)@ == old(out)@ + row_text(printed::printed_row(t@[i as int], r@)),
{
    let labels: [&'static str; 8] = ["  ", " ", " ", " ", " ", " ", " ", " "];
    assert(schema::strs(labels@) =~= document::row_labels());
    let ghost row = printed::printed_row(t@[i as int], r@);
    let values = vec![
        bare(r.time.as_str()),
        make_count(t.nodes_explored[i]),
        make_number(&r.primal),
        make_number(&r.dual),
        make_number(&r.gap),
        make_depth(t.depth[i]),
        make_count(t.lp_iterations[i]),
        make_event(&t.event[i]),
    ];
    assert(fields::values_of(values@) =~= seq![
        number_value(Some(row.time_seconds)),
        count_value(row.nodes_explored),
        number_value(row.primal),
        number_value(row.dual),
        number_value(row.gap),
        depth_value(row.depth),
        count_value(row.lp_iterations),
        event_value(row.event),
    ]);
    fields::write_fields(out, labels.as_slice(), &values);
}

fn add_parser_line(out: &mut Vec<char>, version: &str, git: &str)
    ensures
        final(out)@ == old(out)@ + parser_text(version@, git@),
{
    let labels: [&'static str; 2] = ["parser: version=", " git="];
    assert(schema::strs(labels@) =~= document::parser_labels());
    let values = vec![make_text(version), make_git(git)];
    assert(fields::values_of(values@) =~= seq![text_value(Some(version@)), git_value(git@)]);
    fields::write_fields(out, labels.as_slice(), &values);
}

/// Ends a line that was written behind `lines`.
fn end_line(out: &mut Vec<char>, Ghost(lines): Ghost<Seq<Seq<char>>>, Ghost(line): Ghost<Seq<char>>)
    requires
        old(out)@ == joined(lines) + line,
    ensures
        final(out)@ == joined(lines.push(line)),
{
    out.push('\n');
    proof {
        lemma_joined_push(lines, line);
        assert(out@ =~= joined(lines) + text::ended(line));
    }
}

/// Writes the lines before the rows.
fn make_head(log: &SolverLog, p: &Printed) -> (out: Vec<char>)
    requires
        p@.rows.len() == log@.progress.len(),
    ensures
        out@ == joined(head_lines(printed::printed_log(log@, p@))),
{
    let ghost shown = printed::printed_log(log@, p@);
    let mut out: Vec<char> = Vec::new();
    let ghost mut lines: Seq<Seq<char>> = Seq::empty();
    chars::append(&mut out, MAGIC);
    end_line(&mut out, Ghost(lines), Ghost(MAGIC@));
    proof {
        lines = lines.push(MAGIC@);
    }
    add_solver_line(&mut out, log);
    end_line(&mut out, Ghost(lines), Ghost(solver_text(shown)));
    proof {
        lines = lines.push(solver_text(shown));
    }
    if let Some(name) = &log.problem {
        add_problem_line(&mut out, name.as_str());
        end_line(&mut out, Ghost(lines), Ghost(problem_text(name@)));
        proof {
            lines = lines.push(problem_text(name@));
        }
    }
    add_status_line(&mut out, log);
    end_line(&mut out, Ghost(lines), Ghost(status_text(shown)));
    proof {
        lines = lines.push(status_text(shown));
    }
    add_timing_line(&mut out, log, p);
    end_line(&mut out, Ghost(lines), Ghost(timing_text(shown.timing)));
    proof {
        lines = lines.push(timing_text(shown.timing));
    }
    add_bounds_line(&mut out, log, p);
    end_line(&mut out, Ghost(lines), Ghost(bounds_text(shown.bounds)));
    proof {
        lines = lines.push(bounds_text(shown.bounds));
    }
    add_tree_line(&mut out, &log.tree);
    end_line(&mut out, Ghost(lines), Ghost(tree_text(shown.tree)));
    proof {
        lines = lines.push(tree_text(shown.tree));
    }
    add_presolve_line(&mut out, &log.presolve);
    end_line(&mut out, Ghost(lines), Ghost(presolve_text(shown.presolve)));
    proof {
        lines = lines.push(presolve_text(shown.presolve));
    }
    add_cuts_line(&mut out, log);
    end_line(&mut out, Ghost(lines), Ghost(cuts_text(shown.cuts)));
    proof {
        lines = lines.push(cuts_text(shown.cuts));
    }
    add_progress_line(&mut out, log, p);
    end_line(&mut out, Ghost(lines), Ghost(progress_text(shown.progress)));
    proof {
        lines = lines.push(progress_text(shown.progress));
        assert(lines =~= head_lines(shown));
    }
    out
}

/// What a log and the library that read it give a document.
pub open spec fn document_of(log: SolverLog) -> DocumentView {
    DocumentView { log: log@, version: log.parser.version@, git: log.parser.git_hash@ }
}

/// Whether a text is of one line.
fn single(s: &str) -> (out: bool)
    ensures
        out == one_line(s@),
{
    let all = chars::chars_of(s);
    let mut i: usize = 0;
    while i < all.len()
        invariant
            i <= all@.len(),
            all@ == s@,
            forall|j: int| 0 <= j < i ==> #[trigger] all@[j] != '\n',
        decreases all@.len() - i,
    {
        if all[i] == '\n' {
            assert(s@[i as int] == '\n');
            return false;
        }
        i = i + 1;
    }
    true
}

fn opt_single(o: &Option<String>) -> (out: bool)
    ensures
        out == opt_one_line(chars::opt_text(*o)),
{
    match o {
        Some(s) => single(s.as_str()),
        None => true,
    }
}

impl SolverLog {
    /// Whether the document of the log is read back as it was written: its
    /// texts are of one line.
    pub fn is_writable(&self) -> (out: bool)
        requires
            self.well_formed(),
        ensures
            out == writable(document_of(*self)),
    {
        if !opt_single(&self.version) || !opt_single(&self.solver_git_hash) || !opt_single(&self.problem) || !opt_single(&self.termination.raw_reason) || !single(
            self.parser.version.as_str(),
        ) || !single(self.parser.git_hash.as_str()) {
            return false;
        }
        let cuts = &self.cuts.entries;
        let mut i: usize = 0;
        while i < cuts.len()
            invariant
                i <= cuts@.len(),
                cuts == self.cuts.entries,
                forall|j: int| 0 <= j < i ==> one_line((#[trigger] self@.cuts[j]).0),
            decreases cuts@.len() - i,
        {
            if !single(cuts[i].0.as_str()) {
                assert(!one_line(self@.cuts[i as int].0));
                return false;
            }
            i = i + 1;
        }
        let t = &self.progress;
        let mut k: usize = 0;
        while k < t.len()
            invariant
                k <= t@.len(),
                t@ == self@.progress,
                t.well_formed(),
                forall|j: int| 0 <= j < k ==> one_line_event(#[trigger] t@[j]),
            decreases t@.len() - k,
        {
            if let Some(NodeEvent::Other(q)) = &t.event[k] {
                if !single(q.as_str()) {
                    assert(!one_line_event(t@[k as int]));
                    return false;
                }
            }
            k = k + 1;
        }
        true
    }

    /// Writes the log as a document, with its numbers as they are printed.
    pub fn to_text(&self, p: &Printed) -> (out: String)
        requires
            self.well_formed(),
            printed::fits(self@, p@),
        ensures
            out@ == written_document(printed::printed_document(document_of(*self), p@)),
    {
        let ghost shown = printed::printed_log(self@, p@);
        let ghost rows = row_lines(shown.progress);
        let mut out = make_head(self, p);
        let ghost mut lines = head_lines(shown);
        chars::append(&mut out, COLUMNS);
        end_line(&mut out, Ghost(lines), Ghost(COLUMNS@));
        proof {
            lines = lines.push(COLUMNS@);
        }
        let ghost head = lines;
        let n: usize = self.progress.len();
        let mut i: usize = 0;
        assert(head + rows.take(0) =~= head);
        while i < n
            invariant
                i <= n,
                n == self@.progress.len(),
                p@.rows.len() == n,
                self.well_formed(),
                shown == printed::printed_log(self@, p@),
                rows == row_lines(shown.progress),
                out@ == joined(head + rows.take(i as int)),
            decreases n - i,
        {
            add_row_line(&mut out, &self.progress, i, &p.rows[i]);
            assert(p@.rows[i as int] == p.rows@[i as int]@);
            end_line(&mut out, Ghost(head + rows.take(i as int)), Ghost(rows[i as int]));
            assert((head + rows.take(i as int)).push(rows[i as int]) =~= head + rows.take(i + 1));
            i = i + 1;
        }
        assert(rows.take(i as int) =~= rows);
        let ghost last = parser_text(self.parser.version@, self.parser.git_hash@);
        add_parser_line(&mut out, self.parser.version.as_str(), self.parser.git_hash.as_str());
        end_line(&mut out, Ghost(head + rows), Ghost(last));
        assert((head + rows).push(last) =~= document_lines(
            printed::printed_document(document_of(*self), p@),
        ));
        chars::string_of(out.as_slice())
    }
}

/// No line ending in it.
pub open spec fn one_line(s: Seq<char>) -> bool {
    forall|i: int| 0 <= i < s.len() ==> #[trigger] s[i] != '\n'
}

pub open spec fn opt_one_line(o: Option<Seq<char>>) -> bool {
    o matches Some(s) ==> one_line(s)
}

/// A number that is a real literal.
pub open spec fn is_written(o: Option<RealView>) -> bool {
    printed::is_plain(o) && (o matches Some(r) ==> numbers::is_real(r.literals[0]))
}

/// The numbers of a row are real literals.
pub open spec fn numbered_row(row: RowView) -> bool {
    &&& is_written(Some(row.time_seconds))
    &&& is_written(row.primal)
    &&& is_written(row.dual)
    &&& is_written(row.gap)
}

/// The event of a row, if it is of no known kind, is of one line.
pub open spec fn one_line_event(row: RowView) -> bool {
    row.event matches Some(EventView::Other(q)) ==> one_line(q)
}

pub open spec fn written_row(row: RowView) -> bool {
    numbered_row(row) && one_line_event(row)
}

/// The numbers of a log that a document holds are real literals.
pub open spec fn written_numbers(log: LogView) -> bool {
    &&& is_written(log.timing.wall_seconds)
    &&& is_written(log.timing.cpu_seconds)
    &&& is_written(log.timing.reading_seconds)
    &&& is_written(log.timing.presolve_seconds)
    &&& is_written(log.timing.root_relaxation_seconds)
    &&& is_written(log.bounds.primal)
    &&& is_written(log.bounds.dual)
    &&& is_written(log.bounds.gap)
    &&& forall|i: int| 0 <= i < log.progress.len() ==> numbered_row(#[trigger] log.progress[i])
}

/// What a document can hold: texts of one line, and cut families in order,
/// each once.
pub open spec fn writable(d: DocumentView) -> bool {
    let log = d.log;
    &&& opt_one_line(log.version)
    &&& opt_one_line(log.solver_git_hash)
    &&& opt_one_line(log.problem)
    &&& opt_one_line(log.termination.raw_reason)
    &&& table::in_order(log.cuts)
    &&& forall|i: int| 0 <= i < log.cuts.len() ==> one_line((#[trigger] log.cuts[i]).0)
    &&& log.progress.len() <= u64::MAX
    &&& forall|i: int| 0 <= i < log.progress.len() ==> one_line_event(#[trigger] log.progress[i])
    &&& one_line(d.version)
    &&& one_line(d.git)
}

/// What a document can hold, with numbers that are real literals.
pub open spec fn is_settled(d: DocumentView) -> bool {
    &&& writable(d)
    &&& written_numbers(d.log)
    &&& forall|i: int|
        0 <= i < d.log.progress.len() ==> written_row(#[trigger] d.log.progress[i])
}

} // verus!
