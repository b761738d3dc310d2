//! What a SCIP log says, and where.

use crate::chars;
use crate::json::Json;
use crate::json;
use crate::laws::layout;
use crate::laws::tallies;
use crate::matching::Groups;
use crate::matching::Margin;
use crate::matching;
use crate::numbers;
use crate::quantity::RealView;
use crate::quantity::Unit;
use crate::schema::{EventView, RowView, Status};
use crate::solvers::progress::{Open, ScanView};
use crate::solvers::progress;
use crate::solvers::scip;
use crate::table;
use vstd::prelude::*;

verus! {

/// A number, with plus signs before it or without; a dash is none.
pub open spec fn signed(o: Option<Seq<char>>) -> Option<RealView> {
    match o {
        Some(s) => if s == "-"@ {
            None
        } else {
            layout::number(Some(chars::front_trimmed(s, "+"@, false)), Unit::One)
        },
        None => None,
    }
}

/// What a SCIP log is known by.
pub proof fn law_recognized(text: Seq<char>)
    ensures
        scip::looks_right(text)
            <==> chars::contains(text, "SCIP version"@) || chars::contains(text, "SCIP Status"@),
{
}

/// The words in the brackets of the status line tell why the run stopped,
/// whatever the case of their letters.
pub proof fn law_words_tell_the_end(text: Seq<char>)
    ensures
        ({
            let log = scip::log_in(text);
            let status = r"SCIP Status\s*:\s*[^\[\n]*\[([^\]]+)\]"@;
            &&& layout::said(status, text, 1) is None
                ==> log.termination.status == Status::Unknown && log.termination.raw_reason is None
            &&& layout::said(status, text, 1) is Some ==> ({
            let t = log.termination;
            let r = chars::lowercase(layout::said(status, text, 1)->Some_0);
            let optimal = chars::contains(r, "optimal solution"@);
            let infeasible = chars::contains(r, "infeasible"@);
            let unbounded = chars::contains(r, "unbounded"@);
            let answered = optimal || infeasible || unbounded;
            let time = chars::contains(r, "time limit"@);
            let memory = chars::contains(r, "memory limit"@);
            let interrupt = chars::contains(r, "user interrupt"@) || chars::contains(r, "interrupt"@);
            let limit = chars::contains(r, "gap limit"@) || chars::contains(r, "node limit"@)
                || chars::contains(r, "sol limit"@);
            &&& t.raw_reason == layout::said(status, text, 1)
            &&& t.status == Status::Optimal <==> optimal
            &&& t.status == Status::InfeasibleOrUnbounded <==> !optimal && infeasible && unbounded
            &&& t.status == Status::Infeasible <==> !optimal && infeasible && !unbounded
            &&& t.status == Status::Unbounded <==> !optimal && !infeasible && unbounded
            &&& t.status == Status::TimeLimit <==> !answered && time
            &&& t.status == Status::MemoryLimit <==> !answered && !time && memory
            &&& t.status == Status::UserInterrupt <==> !answered && !time && !memory && interrupt
            &&& t.status == Status::OtherLimit <==> !answered && !time && !memory && !interrupt && limit
            &&& t.status == Status::Unknown <==> !answered && !time && !memory && !interrupt && !limit
        })
        }),
{
    reveal(scip::log_in);
    layout::lemma_commas();
}

/// The times are those written behind their words.
pub proof fn law_times(text: Seq<char>)
    ensures
        ({
            let log = scip::log_in(text);
            let solving_time = r"Solving Time \(sec\)\s*:\s*([\d.]+)"@;
            let presolving_time = r"Presolving Time\s*:\s*([\d.]+)"@;
            let root_lp_time = r"First LP Time\s*:\s*([\d.]+)"@;
            &&& log.timing.wall_seconds
                == layout::number(layout::said(solving_time, text, 1), Unit::One)
            &&& log.timing.presolve_seconds
                == layout::number(layout::said(presolving_time, text, 1), Unit::One)
            &&& log.timing.root_relaxation_seconds
                == layout::number(layout::said(root_lp_time, text, 1), Unit::One)
            &&& log.timing.cpu_seconds is None
            &&& log.timing.reading_seconds is None
        }),
{
    reveal(scip::log_in);
    layout::lemma_commas();
}

/// The bounds are the numbers behind their words, a plus sign aside.
pub proof fn law_bounds(text: Seq<char>)
    ensures
        ({
            let log = scip::log_in(text);
            let primal = r"Primal Bound\s*:\s*(\+?-?[\d.eE+\-]+|-)\s*(?:\((\d+) solutions\))?"@;
            let dual = r"(?:Final )?Dual Bound\s*:\s*(\+?-?[\d.eE+\-]+|-)"@;
            let gap = r"Gap\s*:\s*([\d.]+ ?%|infinite|-)"@;
            let first_solution = r"First Solution\s*:\s*(\+?-?[\d.eE+\-]+|-)\s*\(in run \d+, after \d+ nodes?, ([\d.]+) seconds"@;
            let integral = r"(?m)^\s*primal-dual\s*:\s*([\d.eE+\-]+)"@;
            let signed_value = r"\s*:\s*(\+?-?[\d.eE+\-]+|-)"@;
            &&& log.bounds.primal == signed(layout::said(primal, text, 1))
            &&& log.bounds.dual == signed(layout::said(dual, text, 1))
            &&& log.bounds.gap
                == (
                    match layout::said(gap, text, 1) {
                        Some(g) => progress::gap_of(g),
                        None => None,
                    }
                )
            &&& log.bounds.root_dual
                == signed(
                    layout::said(matching::escaped("Final Dual Bound"@) + signed_value, text, 1),
                )
            &&& log.bounds.first_primal == signed(layout::said(first_solution, text, 1))
            &&& log.bounds.first_primal_time_seconds
                == layout::number(layout::said(first_solution, text, 2), Unit::One)
            &&& log.bounds.primal_dual_integral
                == layout::number(layout::said(integral, text, 1), Unit::One)
        }),
{
    reveal(scip::log_in);
    layout::lemma_commas();
}

/// The counts of the search are those beside their words.
pub proof fn law_counts(text: Seq<char>)
    ensures
        ({
            let log = scip::log_in(text);
            let solving_nodes = r"Solving Nodes\s*:\s*(\d+)"@;
            let primal = r"Primal Bound\s*:\s*(\+?-?[\d.eE+\-]+|-)\s*(?:\((\d+) solutions\))?"@;
            let max_depth = r"(?m)^\s*max depth\s*:\s*(\d+)"@;
            let runs = r"number of runs\s*:\s*(\d+)"@;
            &&& log.tree.nodes_explored == layout::digits(layout::said(solving_nodes, text, 1))
            &&& log.tree.solutions_found == layout::digits(layout::said(primal, text, 2))
            &&& log.tree.max_depth == layout::small(layout::said(max_depth, text, 1))
            &&& log.tree.restarts == layout::small(layout::said(runs, text, 1))
        }),
{
    reveal(scip::log_in);
    layout::lemma_commas();
}

/// The rows of the model are its constraints, and the columns its variables.
pub proof fn law_sizes(text: Seq<char>)
    ensures
        ({
            let log = scip::log_in(text);
            let original = r"original problem has (\d+) variables[^\n]* and (\d+) constraints"@;
            let presolved = r"presolved problem has (\d+) variables[^\n]* and (\d+) constraints"@;
            &&& log.presolve.cols_before == layout::digits(layout::said(original, text, 1))
            &&& log.presolve.rows_before == layout::digits(layout::said(original, text, 2))
            &&& log.presolve.cols_after == layout::digits(layout::said(presolved, text, 1))
            &&& log.presolve.rows_after == layout::digits(layout::said(presolved, text, 2))
            &&& log.presolve.nonzeros_before is None
            &&& log.presolve.nonzeros_after is None
        }),
{
    reveal(scip::log_in);
    layout::lemma_commas();
}

/// The version and the hash are those that the log names.
pub proof fn law_identity(text: Seq<char>)
    ensures
        ({
            let log = scip::log_in(text);
            let version = r"SCIP version (\d+\.\d+(?:\.\d+)?)"@;
            let git_hash = r"SCIP version[^\n]*\[GitHash:\s*([^\]]+?)\s*\]"@;
            &&& log.version == layout::said(version, text, 1)
            &&& log.solver_git_hash == layout::said(git_hash, text, 1)
        }),
{
    reveal(scip::log_in);
    layout::lemma_commas();
}

/// Each cell of a row is read for what its heading says: the dual bound is the
/// number under `dualbound`, the primal bound the one under `primalbound`.
pub proof fn law_row(
    time: Seq<char>,
    node: Seq<char>,
    left: Seq<char>,
    lp_iter: Seq<char>,
    lp_it_n: Seq<char>,
    mem_heur: Seq<char>,
    mdpt: Seq<char>,
    vars: Seq<char>,
    cons: Seq<char>,
    rows: Seq<char>,
    cuts: Seq<char>,
    sepa: Seq<char>,
    confs: Seq<char>,
    strbr: Seq<char>,
    dualbound: Seq<char>,
    primalbound: Seq<char>,
    gap: Seq<char>,
    compl: Seq<char>,
    seconds: Seq<char>,
)
    requires
        layout::are_cells(
            seq![
                time,
                node,
                left,
                lp_iter,
                lp_it_n,
                mem_heur,
                mdpt,
                vars,
                cons,
                rows,
                cuts,
                sepa,
                confs,
                strbr,
                dualbound,
                primalbound,
                gap,
                compl,
            ],
        ),
        chars::trimmed(time) == seconds.push('s'),
        seconds.len() > 0,
        numbers::is_digit(seconds[0]),
        seconds.last() != 's',
        numbers::is_real(seconds),
    ensures
        scip::row_in(
            layout::barred(
                seq![
                    time,
                    node,
                    left,
                    lp_iter,
                    lp_it_n,
                    mem_heur,
                    mdpt,
                    vars,
                    cons,
                    rows,
                    cuts,
                    sepa,
                    confs,
                    strbr,
                    dualbound,
                    primalbound,
                    gap,
                    compl,
                ],
            ),
        ) == Some(
            RowView {
                time_seconds: layout::number_in(seconds, Unit::One),
                nodes_explored: numbers::u64_of(chars::trimmed(node)),
                primal: scip::cell_of(chars::trimmed(primalbound)),
                dual: scip::cell_of(chars::trimmed(dualbound)),
                gap: progress::gap_of(chars::trimmed(gap)),
                depth: numbers::u32_of(chars::trimmed(mdpt)),
                lp_iterations: numbers::u64_of(chars::trimmed(lp_iter)),
                event: None,
            },
        ),
{
    reveal_strlit("s");
    layout::law_cells_are_found(
        seq![
            time,
            node,
            left,
            lp_iter,
            lp_it_n,
            mem_heur,
            mdpt,
            vars,
            cons,
            rows,
            cuts,
            sepa,
            confs,
            strbr,
            dualbound,
            primalbound,
            gap,
            compl,
        ],
    );
    let t = seconds.push('s');
    assert("s"@.contains('s')) by {
        assert("s"@[0] == 's');
    }
    assert(t.drop_last() =~= seconds);
    assert(!"s"@.contains(seconds.last()));
    reveal_with_fuel(chars::back_trimmed, 3);
    assert(chars::back_trimmed(t, "s"@, false) == seconds);
}

/// A marker before the time is the event of the row, and nothing else about
/// the row changes.
pub proof fn law_marked_row(
    time: Seq<char>,
    node: Seq<char>,
    left: Seq<char>,
    lp_iter: Seq<char>,
    lp_it_n: Seq<char>,
    mem_heur: Seq<char>,
    mdpt: Seq<char>,
    vars: Seq<char>,
    cons: Seq<char>,
    rows: Seq<char>,
    cuts: Seq<char>,
    sepa: Seq<char>,
    confs: Seq<char>,
    strbr: Seq<char>,
    dualbound: Seq<char>,
    primalbound: Seq<char>,
    gap: Seq<char>,
    compl: Seq<char>,
    marker: char,
    blanks: Seq<char>,
    seconds: Seq<char>,
)
    requires
        layout::are_cells(
            seq![
                time,
                node,
                left,
                lp_iter,
                lp_it_n,
                mem_heur,
                mdpt,
                vars,
                cons,
                rows,
                cuts,
                sepa,
                confs,
                strbr,
                dualbound,
                primalbound,
                gap,
                compl,
            ],
        ),
        chars::trimmed(time) == seq![marker] + blanks + seconds.push('s'),
        chars::blank(blanks),
        !numbers::is_digit(marker),
        marker != '.',
        seconds.len() > 0,
        numbers::is_digit(seconds[0]),
        seconds.last() != 's',
        numbers::is_real(seconds),
    ensures
        scip::row_in(
            layout::barred(
                seq![
                    time,
                    node,
                    left,
                    lp_iter,
                    lp_it_n,
                    mem_heur,
                    mdpt,
                    vars,
                    cons,
                    rows,
                    cuts,
                    sepa,
                    confs,
                    strbr,
                    dualbound,
                    primalbound,
                    gap,
                    compl,
                ],
            ),
        ) == Some(
            RowView {
                time_seconds: layout::number_in(seconds, Unit::One),
                nodes_explored: numbers::u64_of(chars::trimmed(node)),
                primal: scip::cell_of(chars::trimmed(primalbound)),
                dual: scip::cell_of(chars::trimmed(dualbound)),
                gap: progress::gap_of(chars::trimmed(gap)),
                depth: numbers::u32_of(chars::trimmed(mdpt)),
                lp_iterations: numbers::u64_of(chars::trimmed(lp_iter)),
                event: Some(scip::event_for(marker)),
            },
        ),
{
    reveal_strlit("s");
    reveal_strlit("");
    layout::law_cells_are_found(
        seq![
            time,
            node,
            left,
            lp_iter,
            lp_it_n,
            mem_heur,
            mdpt,
            vars,
            cons,
            rows,
            cuts,
            sepa,
            confs,
            strbr,
            dualbound,
            primalbound,
            gap,
            compl,
        ],
    );
    let t = seconds.push('s');
    let first = seq![marker] + blanks + t;
    assert(first[0] == marker);
    assert(first.skip(1) =~= blanks + t);
    assert(t[0] == seconds[0]);
    assert(""@ =~= Seq::<char>::empty());
    layout::lemma_front_trimmed(blanks, t);
    assert("s"@[0] == 's');
    assert("s"@.contains('s'));
    assert(t.drop_last() =~= seconds);
    assert(!"s"@.contains(seconds.last()));
    reveal_with_fuel(chars::back_trimmed, 3);
    assert(chars::back_trimmed(t, "s"@, false) == seconds);
}

/// A bound in a cell is the number written in it, a plus sign aside; a dash is
/// none.
pub proof fn law_bound_cell(n: Seq<char>)
    requires
        layout::is_word(n),
        n[0] != '+',
    ensures
        n != "-"@ ==> scip::cell_of(n) == layout::number(Some(n), Unit::One),
        scip::cell_of(seq!['+'] + n) == layout::number(Some(n), Unit::One),
        scip::cell_of("-"@) is None,
{
    reveal_strlit("-");
    reveal_strlit("+");
    layout::lemma_word_is_trimmed(n);
    layout::lemma_word_is_trimmed("-"@);
    let p = seq!['+'] + n;
    assert forall|i: int| 0 <= i < p.len() implies !chars::is_space(#[trigger] p[i]) by {
        if i > 0 {
            assert(p[i] == n[i - 1]);
        }
    }
    layout::lemma_word_is_trimmed(p);
    assert(p.skip(1) =~= n);
    assert(p[0] == '+' && "-"@[0] == '-');
    assert("+"@[0] == '+');
    assert("+"@.contains('+'));
    assert(!"+"@.contains(n[0]));
    reveal_with_fuel(chars::front_trimmed, 3);
}

/// The star is a solution of the tree search; the letters of the heuristics
/// are a heuristic.
pub proof fn law_events(marker: char)
    ensures
        marker == '*' ==> scip::event_for(marker) == EventView::BranchSolution,
        marker == 'r' || marker == 'R' || marker == 'L' || marker == 'p' || marker == 'h'
            || marker == 'H' || marker == 'i'
            || marker == 'I' || marker == 'd' || marker == 'b' || marker == 'o' || marker == 's'
                ==> scip::event_for(marker) == EventView::Heuristic,
        marker != '*' && marker != 'r' && marker != 'R' && marker != 'L' && marker != 'p' && marker
            != 'h' && marker != 'H' && marker != 'i' && marker != 'I' && marker != 'd' && marker
            != 'b' && marker != 'o' && marker != 's' ==> scip::event_for(marker)
            == EventView::Other(seq![marker]),
{
}

/// The rows are the lines of cells below the header, in their order, up to
/// the report.
pub proof fn law_table(
    text: Seq<char>,
    before: Seq<Seq<char>>,
    header: Seq<char>,
    body: Seq<Seq<char>>,
    rows: Seq<RowView>,
    after: Seq<Seq<char>>,
)
    requires
        chars::lines(text) == before + (seq![header] + (body + after)),
        forall|i: int| 0 <= i < before.len()
            ==> !(
                chars::contains((#[trigger] before[i]), "| node"@)
                    && chars::contains(before[i], "LP iter"@)
                    && chars::contains(before[i], "dualbound"@)
            ),
        chars::contains(header, "| node"@),
        chars::contains(header, "LP iter"@),
        chars::contains(header, "dualbound"@),
        body.len() == rows.len(),
        forall|i: int|
            0 <= i < body.len()
                ==> !chars::blank(#[trigger] body[i])
                    && !(
                        chars::contains(body[i], "| node"@) && chars::contains(body[i], "LP iter"@)
                            && chars::contains(body[i], "dualbound"@)
                    )
                    && !(
                        chars::starts_with(chars::trimmed(body[i]), "SCIP Status"@)
                            || chars::starts_with(chars::trimmed(body[i]), "Solving Time"@)
                            || chars::starts_with(chars::trimmed(body[i]), "Solving Nodes"@)
                            || chars::starts_with(chars::trimmed(body[i]), "Primal Bound"@)
                            || chars::starts_with(chars::trimmed(body[i]), "Dual Bound"@)
                    ) && chars::contains(body[i], "|"@) && scip::row_in(body[i]) == Some(rows[i]),
        after.len() > 0
            ==> !(
                chars::contains(after[0], "| node"@) && chars::contains(after[0], "LP iter"@)
                    && chars::contains(after[0], "dualbound"@)
            ) && !chars::blank(after[0])
                && (
                    chars::starts_with(chars::trimmed(after[0]), "SCIP Status"@)
                        || chars::starts_with(chars::trimmed(after[0]), "Solving Time"@)
                        || chars::starts_with(chars::trimmed(after[0]), "Solving Nodes"@)
                        || chars::starts_with(chars::trimmed(after[0]), "Primal Bound"@)
                        || chars::starts_with(chars::trimmed(after[0]), "Dual Bound"@)
                ),
    ensures
        scip::log_in(text).progress == rows,
{
    reveal(scip::log_in);
    let format = scip::ScipTable;
    let start = progress::at_start();
    let open = ScanView { open: Open::Tree, ..start };
    let more = body + after;
    layout::lemma_closed(format, before, seq![header] + more);
    assert((seq![header] + more).skip(1) =~= more);
    layout::lemma_rows(format, open, body, rows, after, false);
    assert(rows + Seq::<RowView>::empty() =~= rows);
}

/// The figures of a heuristic, in the order of their columns.
pub proof fn law_heuristic_columns()
    ensures
        scip::heuristic_columns() == seq!["exec_time"@, "setup_time"@, "calls"@, "found"@, "best"@],
{
}

/// The figures of a separator, in the order of their columns.
pub proof fn law_separator_columns()
    ensures
        scip::separator_columns()
            == seq![
                "exec_time"@,
                "setup_time"@,
                "calls"@,
                "root_calls"@,
                "cutoffs"@,
                "dom_reds"@,
                "found_cuts"@,
                "via_pool_add"@,
                "direct_add"@,
                "applied"@,
                "via_pool_app"@,
                "direct_app"@,
                "conss"@,
            ],
{
}

/// The figures of a branching rule, in the order of their columns.
pub proof fn law_branching_columns()
    ensures
        scip::branching_columns()
            == seq![
                "exec_time"@,
                "setup_time"@,
                "branch_lp"@,
                "branch_ext"@,
                "branch_ps"@,
                "cutoffs"@,
                "dom_reds"@,
                "cuts"@,
                "conss"@,
                "children"@,
            ],
{
}

/// The figures of an LP, in the order of their columns.
pub proof fn law_lp_columns()
    ensures
        scip::lp_columns()
            == seq!["time"@, "calls"@, "iterations"@, "iter_per_call"@, "iter_per_sec"@],
{
}

/// The figures of a conflict analysis, in the order of their columns.
pub proof fn law_conflict_columns()
    ensures
        scip::conflict_columns()
            == seq!["time"@, "calls"@, "success"@, "dom_reds"@, "conflicts"@, "literals"@],
{
}

/// In a table each word of a row stands under the name of its column, and the
/// row under its own.
pub proof fn law_table_row(m: Groups, columns: Seq<Seq<char>>, k: int)
    requires
        0 <= k < columns.len(),
        k < chars::words(layout::part_of(Some(m), 2)).len(),
        forall|i: int, j: int| 0 <= i < j < columns.len() ==> columns[i] != columns[j],
        forall|i: int| 0 <= i < columns.len() ==> #[trigger] columns[i] != "name"@,
    ensures
        scip::table_row(m, columns) matches Json::Object(e) && table::get(e, columns[k]) == Some(
            scip::scalar_of(chars::words(layout::part_of(Some(m), 2))[k]),
        ) && table::get(e, "name"@) == Some(Json::Text(
            chars::trimmed(layout::part_of(Some(m), 1)),
        )),
{
    let words = chars::words(layout::part_of(Some(m), 2));
    let n = if columns.len() <= words.len() {
        columns.len()
    } else {
        words.len()
    };
    let named = table::put(
        json::no_entries(),
        "name"@,
        Json::Text(chars::trimmed(layout::part_of(Some(m), 1))),
    );
    layout::lemma_put("name"@);
    layout::lemma_no_fields();
    lemma_filled(named, columns, words, n, k, "name"@);
}

proof fn lemma_filled(
    e: Seq<(Seq<char>, Json)>,
    columns: Seq<Seq<char>>,
    words: Seq<Seq<char>>,
    n: nat,
    k: int,
    other: Seq<char>,
)
    requires
        table::in_order(e),
        n <= columns.len(),
        n <= words.len(),
        0 <= k < columns.len(),
        forall|i: int, j: int| 0 <= i < j < columns.len() ==> columns[i] != columns[j],
        forall|i: int| 0 <= i < columns.len() ==> #[trigger] columns[i] != other,
    ensures
        table::in_order(scip::filled(e, columns, words, n)),
        k < n
            ==> table::get(scip::filled(e, columns, words, n), columns[k])
                == Some(scip::scalar_of(words[k])),
        table::get(scip::filled(e, columns, words, n), other) == table::get(e, other),
    decreases n,
{
    if n > 0 {
        let less = scip::filled(e, columns, words, (n - 1) as nat);
        lemma_filled(e, columns, words, (n - 1) as nat, k, other);
        table::law_put_keeps_order(less, columns[n - 1], scip::scalar_of(words[n - 1]));
        table::law_get_after_put(less, columns[n - 1], scip::scalar_of(words[n - 1]), columns[k]);
        table::law_get_after_put(less, columns[n - 1], scip::scalar_of(words[n - 1]), other);
    }
}

/// A figure is an integer or a real number, signs of percent and commas at its
/// ends aside; a dash is nothing.
pub proof fn law_figures(w: Seq<char>)
    requires
        w.len() > 0,
        numbers::is_digit(w[0]),
        numbers::is_digit(w.last()),
    ensures
        numbers::i64_of(w) matches Some(n) ==> scip::scalar_of(w) == Json::Integer(n),
        numbers::i64_of(w) is None && numbers::is_finite(w) ==> scip::scalar_of(w) == Json::Real(w),
        numbers::i64_of(w) is None && !numbers::is_finite(w)
            ==> scip::scalar_of(w) == Json::Text(w),
        numbers::i64_of(w) matches Some(n) ==> scip::scalar_of(w.push('%')) == Json::Integer(n),
        scip::scalar_of("-"@) == Json::Null,
{
    reveal_strlit(",%");
    reveal_strlit("+");
    reveal_strlit("-");
    assert(",%"@[0] == ',' && ",%"@[1] == '%');
    assert(",%"@.contains('%'));
    assert("+"@[0] == '+');
    let p = w.push('%');
    assert(p.drop_last() =~= w);
    assert(p[0] == w[0]);
    assert(w != "-"@) by {
        assert("-"@[0] == '-');
    }
    reveal_with_fuel(chars::front_trimmed, 2);
    reveal_with_fuel(chars::back_trimmed, 3);
    assert(chars::front_trimmed(w, ",%"@, false) == w);
    assert(chars::back_trimmed(w, ",%"@, false) == w);
    assert(chars::front_trimmed(p, ",%"@, false) == p);
    assert(chars::back_trimmed(p, ",%"@, false) == w);
    assert(chars::front_trimmed(w, "+"@, false) == w);
    let d = "-"@;
    assert(d[0] == '-');
    assert(chars::front_trimmed(d, ",%"@, false) == d);
    assert(chars::back_trimmed(d, ",%"@, false) == d);
}

/// Where a solution came from stands under the names of its figures.
pub proof fn law_origin(m: Groups)
    ensures
        scip::origin_of(m) matches Json::Object(e)
            && table::get(e, "run"@) == Some(scip::scalar_of(layout::part_of(Some(m), 1)))
            && table::get(e, "nodes"@) == Some(scip::scalar_of(layout::part_of(Some(m), 2)))
            && table::get(e, "time_seconds"@) == Some(scip::scalar_of(layout::part_of(Some(m), 3)))
            && table::get(e, "depth"@) == Some(scip::scalar_of(layout::part_of(Some(m), 4)))
            && table::get(e, "heuristic"@) == Some(Json::Text(layout::part_of(Some(m), 5))),
{
    reveal_strlit("run");
    reveal_strlit("nodes");
    reveal_strlit("time_seconds");
    reveal_strlit("depth");
    reveal_strlit("heuristic");
    assert("run"@.len() != "nodes"@.len());
    assert("run"@.len() != "time_seconds"@.len());
    assert("run"@.len() != "depth"@.len());
    assert("run"@.len() != "heuristic"@.len());
    assert("nodes"@.len() != "time_seconds"@.len());
    assert("nodes"@[0] != "depth"@[0]);
    assert("nodes"@.len() != "heuristic"@.len());
    assert("time_seconds"@.len() != "depth"@.len());
    assert("time_seconds"@.len() != "heuristic"@.len());
    assert("depth"@.len() != "heuristic"@.len());
    layout::lemma_put("run"@);
    layout::lemma_put("nodes"@);
    layout::lemma_put("time_seconds"@);
    layout::lemma_put("depth"@);
    layout::lemma_put("heuristic"@);
    layout::lemma_no_fields();
}

/// An integral has its total and its average in percent.
pub proof fn law_integral(m: Groups)
    ensures
        scip::integral_of(m) matches Json::Object(e)
            && table::get(e, "total"@) == Some(scip::scalar_of(layout::part_of(Some(m), 2)))
            && table::get(e, "avg_pct"@) == Some(scip::scalar_of(layout::part_of(Some(m), 3))),
{
    reveal_strlit("total");
    reveal_strlit("avg_pct");
    layout::lemma_put("total"@);
    layout::lemma_put("avg_pct"@);
    layout::lemma_no_fields();
}

/// What the rest of the other data is read from.
pub proof fn law_sources_of_the_other_data(text: Seq<char>)
    ensures
        layout::entry(scip::log_in(text).other_data, "scip.root_node"@)
            == json::object_of(
                scip::root_from(
                    matching::block_rows(
                        r"(?m)^Root Node\s*:"@,
                        r"^\s+([A-Za-z][A-Za-z ]+?)\s*:\s+(\S+)"@,
                        10,
                        false,
                        Margin::Space,
                        text,
                    ),
                ),
            ),
        layout::entry(scip::log_in(text).other_data, "scip.tree"@)
            == json::object_of(
                scip::tree_figures(
                    matching::block_rows(
                        r"(?m)^B&B Tree\s*:"@,
                        r"^\s+([A-Za-z][A-Za-z. ]+?)\s*:\s+(\S.*)$"@,
                        20,
                        false,
                        Margin::Space,
                        text,
                    ),
                ),
            ),
        layout::entry(scip::log_in(text).other_data, "scip.solution_attribution"@)
            == scip::attribution_from(
                matching::regex_captures(scip::origin_pattern("First Solution"@), text),
                matching::regex_captures(scip::origin_pattern("Primal Bound"@), text),
            ),
        layout::entry(scip::log_in(text).other_data, "scip.heuristics"@)
            == scip::named_table(text, "Primal Heuristics"@, scip::heuristic_columns()),
        layout::entry(scip::log_in(text).other_data, "scip.separators"@)
            == scip::named_table(text, "Separators"@, scip::separator_columns()),
        layout::entry(scip::log_in(text).other_data, "scip.branching_rules"@)
            == scip::named_table(text, "Branching Rules"@, scip::branching_columns()),
        layout::entry(scip::log_in(text).other_data, "scip.lp_breakdown"@)
            == scip::named_table(text, "LP"@, scip::lp_columns()),
        layout::entry(scip::log_in(text).other_data, "scip.conflict_analysis"@)
            == scip::named_table(text, "Conflict Analysis"@, scip::conflict_columns()),
        layout::entry(scip::log_in(text).other_data, "scip.constraints_by_type"@)
            == scip::constraints_object(
                matching::regex_captures_iter(
                    r"(?m)^\s*(\d+) constraints? of type <([^>]+)>"@,
                    text,
                ),
            ),
        layout::entry(scip::log_in(text).other_data, "scip.integrals"@)
            == json::object_of(
                scip::integrals_from(
                    matching::block_rows(
                        r"(?m)^Integrals\s*:"@,
                        r"^\s+([a-z-]+)\s*:\s+(\S+)\s+(\S+)"@,
                        5,
                        true,
                        Margin::Space,
                        text,
                    ),
                ),
            ),
{
    assert(
        layout::entry(scip::log_in(text).other_data, "scip.root_node"@)
            == json::object_of(
                scip::root_from(
                    matching::block_rows(
                        scip::ROOT_HEADER@,
                        scip::ROOT_ROW@,
                        10,
                        false,
                        Margin::Space,
                        text,
                    ),
                ),
            )
    ) by {
        reveal(scip::log_in);
        layout::lemma_no_fields();
        reveal_strlit("scip.root_node");
        reveal_strlit("scip.tree");
        reveal_strlit("scip.solution_attribution");
        reveal_strlit("scip.heuristics");
        reveal_strlit("scip.separators");
        reveal_strlit("scip.branching_rules");
        reveal_strlit("scip.lp_breakdown");
        reveal_strlit("scip.conflict_analysis");
        reveal_strlit("scip.constraints_by_type");
        reveal_strlit("scip.integrals");
        assert("scip.root_node"@.len() != "scip.tree"@.len());
        assert("scip.root_node"@.len() != "scip.solution_attribution"@.len());
        assert("scip.root_node"@.len() != "scip.heuristics"@.len());
        assert("scip.root_node"@.len() != "scip.separators"@.len());
        assert("scip.root_node"@.len() != "scip.branching_rules"@.len());
        assert("scip.root_node"@.len() != "scip.lp_breakdown"@.len());
        assert("scip.root_node"@.len() != "scip.conflict_analysis"@.len());
        assert("scip.root_node"@.len() != "scip.constraints_by_type"@.len());
        assert("scip.root_node"@[5] != "scip.integrals"@[5]);
        layout::lemma_other("scip.root_node"@, "scip.root_node"@);
        layout::lemma_other("scip.tree"@, "scip.root_node"@);
        layout::lemma_other("scip.solution_attribution"@, "scip.root_node"@);
        layout::lemma_other("scip.heuristics"@, "scip.root_node"@);
        layout::lemma_other("scip.separators"@, "scip.root_node"@);
        layout::lemma_other("scip.branching_rules"@, "scip.root_node"@);
        layout::lemma_other("scip.lp_breakdown"@, "scip.root_node"@);
        layout::lemma_other("scip.conflict_analysis"@, "scip.root_node"@);
        layout::lemma_other("scip.constraints_by_type"@, "scip.root_node"@);
        layout::lemma_other("scip.integrals"@, "scip.root_node"@);
    }
    assert(
        layout::entry(scip::log_in(text).other_data, "scip.tree"@)
            == json::object_of(
                scip::tree_figures(
                    matching::block_rows(
                        scip::TREE_HEADER@,
                        scip::TREE_ROW@,
                        20,
                        false,
                        Margin::Space,
                        text,
                    ),
                ),
            )
    ) by {
        reveal(scip::log_in);
        layout::lemma_no_fields();
        reveal_strlit("scip.root_node");
        reveal_strlit("scip.tree");
        reveal_strlit("scip.solution_attribution");
        reveal_strlit("scip.heuristics");
        reveal_strlit("scip.separators");
        reveal_strlit("scip.branching_rules");
        reveal_strlit("scip.lp_breakdown");
        reveal_strlit("scip.conflict_analysis");
        reveal_strlit("scip.constraints_by_type");
        reveal_strlit("scip.integrals");
        assert("scip.tree"@.len() != "scip.root_node"@.len());
        assert("scip.tree"@.len() != "scip.solution_attribution"@.len());
        assert("scip.tree"@.len() != "scip.heuristics"@.len());
        assert("scip.tree"@.len() != "scip.separators"@.len());
        assert("scip.tree"@.len() != "scip.branching_rules"@.len());
        assert("scip.tree"@.len() != "scip.lp_breakdown"@.len());
        assert("scip.tree"@.len() != "scip.conflict_analysis"@.len());
        assert("scip.tree"@.len() != "scip.constraints_by_type"@.len());
        assert("scip.tree"@.len() != "scip.integrals"@.len());
        layout::lemma_other("scip.root_node"@, "scip.tree"@);
        layout::lemma_other("scip.tree"@, "scip.tree"@);
        layout::lemma_other("scip.solution_attribution"@, "scip.tree"@);
        layout::lemma_other("scip.heuristics"@, "scip.tree"@);
        layout::lemma_other("scip.separators"@, "scip.tree"@);
        layout::lemma_other("scip.branching_rules"@, "scip.tree"@);
        layout::lemma_other("scip.lp_breakdown"@, "scip.tree"@);
        layout::lemma_other("scip.conflict_analysis"@, "scip.tree"@);
        layout::lemma_other("scip.constraints_by_type"@, "scip.tree"@);
        layout::lemma_other("scip.integrals"@, "scip.tree"@);
    }
    assert(
        layout::entry(scip::log_in(text).other_data, "scip.solution_attribution"@)
            == scip::attribution_from(
                matching::regex_captures(scip::origin_pattern("First Solution"@), text),
                matching::regex_captures(scip::origin_pattern("Primal Bound"@), text),
            )
    ) by {
        reveal(scip::log_in);
        layout::lemma_no_fields();
        reveal_strlit("scip.root_node");
        reveal_strlit("scip.tree");
        reveal_strlit("scip.solution_attribution");
        reveal_strlit("scip.heuristics");
        reveal_strlit("scip.separators");
        reveal_strlit("scip.branching_rules");
        reveal_strlit("scip.lp_breakdown");
        reveal_strlit("scip.conflict_analysis");
        reveal_strlit("scip.constraints_by_type");
        reveal_strlit("scip.integrals");
        assert("scip.solution_attribution"@.len() != "scip.root_node"@.len());
        assert("scip.solution_attribution"@.len() != "scip.tree"@.len());
        assert("scip.solution_attribution"@.len() != "scip.heuristics"@.len());
        assert("scip.solution_attribution"@.len() != "scip.separators"@.len());
        assert("scip.solution_attribution"@.len() != "scip.branching_rules"@.len());
        assert("scip.solution_attribution"@.len() != "scip.lp_breakdown"@.len());
        assert("scip.solution_attribution"@.len() != "scip.conflict_analysis"@.len());
        assert("scip.solution_attribution"@.len() != "scip.constraints_by_type"@.len());
        assert("scip.solution_attribution"@.len() != "scip.integrals"@.len());
        layout::lemma_other("scip.root_node"@, "scip.solution_attribution"@);
        layout::lemma_other("scip.tree"@, "scip.solution_attribution"@);
        layout::lemma_other("scip.solution_attribution"@, "scip.solution_attribution"@);
        layout::lemma_other("scip.heuristics"@, "scip.solution_attribution"@);
        layout::lemma_other("scip.separators"@, "scip.solution_attribution"@);
        layout::lemma_other("scip.branching_rules"@, "scip.solution_attribution"@);
        layout::lemma_other("scip.lp_breakdown"@, "scip.solution_attribution"@);
        layout::lemma_other("scip.conflict_analysis"@, "scip.solution_attribution"@);
        layout::lemma_other("scip.constraints_by_type"@, "scip.solution_attribution"@);
        layout::lemma_other("scip.integrals"@, "scip.solution_attribution"@);
    }
    assert(
        layout::entry(scip::log_in(text).other_data, "scip.heuristics"@)
            == scip::named_table(text, "Primal Heuristics"@, scip::heuristic_columns())
    ) by {
        reveal(scip::log_in);
        layout::lemma_no_fields();
        reveal_strlit("scip.root_node");
        reveal_strlit("scip.tree");
        reveal_strlit("scip.solution_attribution");
        reveal_strlit("scip.heuristics");
        reveal_strlit("scip.separators");
        reveal_strlit("scip.branching_rules");
        reveal_strlit("scip.lp_breakdown");
        reveal_strlit("scip.conflict_analysis");
        reveal_strlit("scip.constraints_by_type");
        reveal_strlit("scip.integrals");
        assert("scip.heuristics"@.len() != "scip.root_node"@.len());
        assert("scip.heuristics"@.len() != "scip.tree"@.len());
        assert("scip.heuristics"@.len() != "scip.solution_attribution"@.len());
        assert("scip.heuristics"@[5] != "scip.separators"@[5]);
        assert("scip.heuristics"@.len() != "scip.branching_rules"@.len());
        assert("scip.heuristics"@.len() != "scip.lp_breakdown"@.len());
        assert("scip.heuristics"@.len() != "scip.conflict_analysis"@.len());
        assert("scip.heuristics"@.len() != "scip.constraints_by_type"@.len());
        assert("scip.heuristics"@.len() != "scip.integrals"@.len());
        layout::lemma_other("scip.root_node"@, "scip.heuristics"@);
        layout::lemma_other("scip.tree"@, "scip.heuristics"@);
        layout::lemma_other("scip.solution_attribution"@, "scip.heuristics"@);
        layout::lemma_other("scip.heuristics"@, "scip.heuristics"@);
        layout::lemma_other("scip.separators"@, "scip.heuristics"@);
        layout::lemma_other("scip.branching_rules"@, "scip.heuristics"@);
        layout::lemma_other("scip.lp_breakdown"@, "scip.heuristics"@);
        layout::lemma_other("scip.conflict_analysis"@, "scip.heuristics"@);
        layout::lemma_other("scip.constraints_by_type"@, "scip.heuristics"@);
        layout::lemma_other("scip.integrals"@, "scip.heuristics"@);
    }
    assert(
        layout::entry(scip::log_in(text).other_data, "scip.separators"@)
            == scip::named_table(text, "Separators"@, scip::separator_columns())
    ) by {
        reveal(scip::log_in);
        layout::lemma_no_fields();
        reveal_strlit("scip.root_node");
        reveal_strlit("scip.tree");
        reveal_strlit("scip.solution_attribution");
        reveal_strlit("scip.heuristics");
        reveal_strlit("scip.separators");
        reveal_strlit("scip.branching_rules");
        reveal_strlit("scip.lp_breakdown");
        reveal_strlit("scip.conflict_analysis");
        reveal_strlit("scip.constraints_by_type");
        reveal_strlit("scip.integrals");
        assert("scip.separators"@.len() != "scip.root_node"@.len());
        assert("scip.separators"@.len() != "scip.tree"@.len());
        assert("scip.separators"@.len() != "scip.solution_attribution"@.len());
        assert("scip.separators"@[5] != "scip.heuristics"@[5]);
        assert("scip.separators"@.len() != "scip.branching_rules"@.len());
        assert("scip.separators"@.len() != "scip.lp_breakdown"@.len());
        assert("scip.separators"@.len() != "scip.conflict_analysis"@.len());
        assert("scip.separators"@.len() != "scip.constraints_by_type"@.len());
        assert("scip.separators"@.len() != "scip.integrals"@.len());
        layout::lemma_other("scip.root_node"@, "scip.separators"@);
        layout::lemma_other("scip.tree"@, "scip.separators"@);
        layout::lemma_other("scip.solution_attribution"@, "scip.separators"@);
        layout::lemma_other("scip.heuristics"@, "scip.separators"@);
        layout::lemma_other("scip.separators"@, "scip.separators"@);
        layout::lemma_other("scip.branching_rules"@, "scip.separators"@);
        layout::lemma_other("scip.lp_breakdown"@, "scip.separators"@);
        layout::lemma_other("scip.conflict_analysis"@, "scip.separators"@);
        layout::lemma_other("scip.constraints_by_type"@, "scip.separators"@);
        layout::lemma_other("scip.integrals"@, "scip.separators"@);
    }
    assert(
        layout::entry(scip::log_in(text).other_data, "scip.branching_rules"@)
            == scip::named_table(text, "Branching Rules"@, scip::branching_columns())
    ) by {
        reveal(scip::log_in);
        layout::lemma_no_fields();
        reveal_strlit("scip.root_node");
        reveal_strlit("scip.tree");
        reveal_strlit("scip.solution_attribution");
        reveal_strlit("scip.heuristics");
        reveal_strlit("scip.separators");
        reveal_strlit("scip.branching_rules");
        reveal_strlit("scip.lp_breakdown");
        reveal_strlit("scip.conflict_analysis");
        reveal_strlit("scip.constraints_by_type");
        reveal_strlit("scip.integrals");
        assert("scip.branching_rules"@.len() != "scip.root_node"@.len());
        assert("scip.branching_rules"@.len() != "scip.tree"@.len());
        assert("scip.branching_rules"@.len() != "scip.solution_attribution"@.len());
        assert("scip.branching_rules"@.len() != "scip.heuristics"@.len());
        assert("scip.branching_rules"@.len() != "scip.separators"@.len());
        assert("scip.branching_rules"@.len() != "scip.lp_breakdown"@.len());
        assert("scip.branching_rules"@.len() != "scip.conflict_analysis"@.len());
        assert("scip.branching_rules"@.len() != "scip.constraints_by_type"@.len());
        assert("scip.branching_rules"@.len() != "scip.integrals"@.len());
        layout::lemma_other("scip.root_node"@, "scip.branching_rules"@);
        layout::lemma_other("scip.tree"@, "scip.branching_rules"@);
        layout::lemma_other("scip.solution_attribution"@, "scip.branching_rules"@);
        layout::lemma_other("scip.heuristics"@, "scip.branching_rules"@);
        layout::lemma_other("scip.separators"@, "scip.branching_rules"@);
        layout::lemma_other("scip.branching_rules"@, "scip.branching_rules"@);
        layout::lemma_other("scip.lp_breakdown"@, "scip.branching_rules"@);
        layout::lemma_other("scip.conflict_analysis"@, "scip.branching_rules"@);
        layout::lemma_other("scip.constraints_by_type"@, "scip.branching_rules"@);
        layout::lemma_other("scip.integrals"@, "scip.branching_rules"@);
    }
    assert(
        layout::entry(scip::log_in(text).other_data, "scip.lp_breakdown"@)
            == scip::named_table(text, "LP"@, scip::lp_columns())
    ) by {
        reveal(scip::log_in);
        layout::lemma_no_fields();
        reveal_strlit("scip.root_node");
        reveal_strlit("scip.tree");
        reveal_strlit("scip.solution_attribution");
        reveal_strlit("scip.heuristics");
        reveal_strlit("scip.separators");
        reveal_strlit("scip.branching_rules");
        reveal_strlit("scip.lp_breakdown");
        reveal_strlit("scip.conflict_analysis");
        reveal_strlit("scip.constraints_by_type");
        reveal_strlit("scip.integrals");
        assert("scip.lp_breakdown"@.len() != "scip.root_node"@.len());
        assert("scip.lp_breakdown"@.len() != "scip.tree"@.len());
        assert("scip.lp_breakdown"@.len() != "scip.solution_attribution"@.len());
        assert("scip.lp_breakdown"@.len() != "scip.heuristics"@.len());
        assert("scip.lp_breakdown"@.len() != "scip.separators"@.len());
        assert("scip.lp_breakdown"@.len() != "scip.branching_rules"@.len());
        assert("scip.lp_breakdown"@.len() != "scip.conflict_analysis"@.len());
        assert("scip.lp_breakdown"@.len() != "scip.constraints_by_type"@.len());
        assert("scip.lp_breakdown"@.len() != "scip.integrals"@.len());
        layout::lemma_other("scip.root_node"@, "scip.lp_breakdown"@);
        layout::lemma_other("scip.tree"@, "scip.lp_breakdown"@);
        layout::lemma_other("scip.solution_attribution"@, "scip.lp_breakdown"@);
        layout::lemma_other("scip.heuristics"@, "scip.lp_breakdown"@);
        layout::lemma_other("scip.separators"@, "scip.lp_breakdown"@);
        layout::lemma_other("scip.branching_rules"@, "scip.lp_breakdown"@);
        layout::lemma_other("scip.lp_breakdown"@, "scip.lp_breakdown"@);
        layout::lemma_other("scip.conflict_analysis"@, "scip.lp_breakdown"@);
        layout::lemma_other("scip.constraints_by_type"@, "scip.lp_breakdown"@);
        layout::lemma_other("scip.integrals"@, "scip.lp_breakdown"@);
    }
    assert(
        layout::entry(scip::log_in(text).other_data, "scip.conflict_analysis"@)
            == scip::named_table(text, "Conflict Analysis"@, scip::conflict_columns())
    ) by {
        reveal(scip::log_in);
        layout::lemma_no_fields();
        reveal_strlit("scip.root_node");
        reveal_strlit("scip.tree");
        reveal_strlit("scip.solution_attribution");
        reveal_strlit("scip.heuristics");
        reveal_strlit("scip.separators");
        reveal_strlit("scip.branching_rules");
        reveal_strlit("scip.lp_breakdown");
        reveal_strlit("scip.conflict_analysis");
        reveal_strlit("scip.constraints_by_type");
        reveal_strlit("scip.integrals");
        assert("scip.conflict_analysis"@.len() != "scip.root_node"@.len());
        assert("scip.conflict_analysis"@.len() != "scip.tree"@.len());
        assert("scip.conflict_analysis"@.len() != "scip.solution_attribution"@.len());
        assert("scip.conflict_analysis"@.len() != "scip.heuristics"@.len());
        assert("scip.conflict_analysis"@.len() != "scip.separators"@.len());
        assert("scip.conflict_analysis"@.len() != "scip.branching_rules"@.len());
        assert("scip.conflict_analysis"@.len() != "scip.lp_breakdown"@.len());
        assert("scip.conflict_analysis"@.len() != "scip.constraints_by_type"@.len());
        assert("scip.conflict_analysis"@.len() != "scip.integrals"@.len());
        layout::lemma_other("scip.root_node"@, "scip.conflict_analysis"@);
        layout::lemma_other("scip.tree"@, "scip.conflict_analysis"@);
        layout::lemma_other("scip.solution_attribution"@, "scip.conflict_analysis"@);
        layout::lemma_other("scip.heuristics"@, "scip.conflict_analysis"@);
        layout::lemma_other("scip.separators"@, "scip.conflict_analysis"@);
        layout::lemma_other("scip.branching_rules"@, "scip.conflict_analysis"@);
        layout::lemma_other("scip.lp_breakdown"@, "scip.conflict_analysis"@);
        layout::lemma_other("scip.conflict_analysis"@, "scip.conflict_analysis"@);
        layout::lemma_other("scip.constraints_by_type"@, "scip.conflict_analysis"@);
        layout::lemma_other("scip.integrals"@, "scip.conflict_analysis"@);
    }
    assert(
        layout::entry(scip::log_in(text).other_data, "scip.constraints_by_type"@)
            == scip::constraints_object(matching::regex_captures_iter(scip::CONSTRAINTS@, text))
    ) by {
        reveal(scip::log_in);
        layout::lemma_no_fields();
        reveal_strlit("scip.root_node");
        reveal_strlit("scip.tree");
        reveal_strlit("scip.solution_attribution");
        reveal_strlit("scip.heuristics");
        reveal_strlit("scip.separators");
        reveal_strlit("scip.branching_rules");
        reveal_strlit("scip.lp_breakdown");
        reveal_strlit("scip.conflict_analysis");
        reveal_strlit("scip.constraints_by_type");
        reveal_strlit("scip.integrals");
        assert("scip.constraints_by_type"@.len() != "scip.root_node"@.len());
        assert("scip.constraints_by_type"@.len() != "scip.tree"@.len());
        assert("scip.constraints_by_type"@.len() != "scip.solution_attribution"@.len());
        assert("scip.constraints_by_type"@.len() != "scip.heuristics"@.len());
        assert("scip.constraints_by_type"@.len() != "scip.separators"@.len());
        assert("scip.constraints_by_type"@.len() != "scip.branching_rules"@.len());
        assert("scip.constraints_by_type"@.len() != "scip.lp_breakdown"@.len());
        assert("scip.constraints_by_type"@.len() != "scip.conflict_analysis"@.len());
        assert("scip.constraints_by_type"@.len() != "scip.integrals"@.len());
        layout::lemma_other("scip.root_node"@, "scip.constraints_by_type"@);
        layout::lemma_other("scip.tree"@, "scip.constraints_by_type"@);
        layout::lemma_other("scip.solution_attribution"@, "scip.constraints_by_type"@);
        layout::lemma_other("scip.heuristics"@, "scip.constraints_by_type"@);
        layout::lemma_other("scip.separators"@, "scip.constraints_by_type"@);
        layout::lemma_other("scip.branching_rules"@, "scip.constraints_by_type"@);
        layout::lemma_other("scip.lp_breakdown"@, "scip.constraints_by_type"@);
        layout::lemma_other("scip.conflict_analysis"@, "scip.constraints_by_type"@);
        layout::lemma_other("scip.constraints_by_type"@, "scip.constraints_by_type"@);
        layout::lemma_other("scip.integrals"@, "scip.constraints_by_type"@);
    }
    assert(
        layout::entry(scip::log_in(text).other_data, "scip.integrals"@)
            == json::object_of(
                scip::integrals_from(
                    matching::block_rows(
                        scip::INTEGRALS_HEADER@,
                        scip::INTEGRALS_ROW@,
                        5,
                        true,
                        Margin::Space,
                        text,
                    ),
                ),
            )
    ) by {
        reveal(scip::log_in);
        layout::lemma_no_fields();
        reveal_strlit("scip.root_node");
        reveal_strlit("scip.tree");
        reveal_strlit("scip.solution_attribution");
        reveal_strlit("scip.heuristics");
        reveal_strlit("scip.separators");
        reveal_strlit("scip.branching_rules");
        reveal_strlit("scip.lp_breakdown");
        reveal_strlit("scip.conflict_analysis");
        reveal_strlit("scip.constraints_by_type");
        reveal_strlit("scip.integrals");
        assert("scip.integrals"@[5] != "scip.root_node"@[5]);
        assert("scip.integrals"@.len() != "scip.tree"@.len());
        assert("scip.integrals"@.len() != "scip.solution_attribution"@.len());
        assert("scip.integrals"@.len() != "scip.heuristics"@.len());
        assert("scip.integrals"@.len() != "scip.separators"@.len());
        assert("scip.integrals"@.len() != "scip.branching_rules"@.len());
        assert("scip.integrals"@.len() != "scip.lp_breakdown"@.len());
        assert("scip.integrals"@.len() != "scip.conflict_analysis"@.len());
        assert("scip.integrals"@.len() != "scip.constraints_by_type"@.len());
        layout::lemma_other("scip.root_node"@, "scip.integrals"@);
        layout::lemma_other("scip.tree"@, "scip.integrals"@);
        layout::lemma_other("scip.solution_attribution"@, "scip.integrals"@);
        layout::lemma_other("scip.heuristics"@, "scip.integrals"@);
        layout::lemma_other("scip.separators"@, "scip.integrals"@);
        layout::lemma_other("scip.branching_rules"@, "scip.integrals"@);
        layout::lemma_other("scip.lp_breakdown"@, "scip.integrals"@);
        layout::lemma_other("scip.conflict_analysis"@, "scip.integrals"@);
        layout::lemma_other("scip.constraints_by_type"@, "scip.integrals"@);
        layout::lemma_other("scip.integrals"@, "scip.integrals"@);
    }
}

/// The cuts are those of the table of the separators, without that of the cut
/// pool; the iterations are those of the LPs; the problem is the file that was
/// read.
pub proof fn law_tables_that_count(text: Seq<char>)
    ensures
        scip::log_in(text).cuts
            == progress::cuts_of(
                scip::table_matches(
                    r"(?m)^Separators\s*:\s+ExecTime.*?Applied"@,
                    r"^\s+([A-Za-z][A-Za-z0-9_]*)\s+:\s+[\d.-]+\s+[\d.-]+\s+[\d.-]+\s+[\d.-]+\s+[\d.-]+\s+[\d.-]+\s+[\d.-]+\s+[\d.-]+\s+[\d.-]+\s+(\d+)"@,
                    true,
                    true,
                    text,
                ),
                false,
                false,
            ),
        scip::log_in(text).tree.simplex_iterations
            == scip::iterations_of(
                matching::block_rows(
                    r"(?m)^LP\s*:\s+Time\s+Calls\s+Iterations"@,
                    r"^  \S[^:]*:\s+[\d.]+\s+[\d,]+\s+([\d,]+)"@,
                    usize::MAX as int,
                    true,
                    Margin::Space,
                    text,
                ),
            ),
        scip::log_in(text).problem
            == scip::problem_from(matching::regex_captures(r"read problem <([^>]+)>"@, text)),
{
    reveal(scip::log_in);
}

/// A table is the block below its heading, without its side rows.
pub proof fn law_named_tables(
    text: Seq<char>,
    header: Seq<char>,
    row: Seq<char>,
    hit: (Seq<char>, Seq<char>),
    pool: bool,
    blank_ends: bool,
)
    requires
        matching::regex_find(header, text) == Some(hit),
    ensures
        scip::table_matches(header, row, blank_ends, pool, text)
            == matching::line_matches(
                row,
                scip::main_rows(
                    matching::block(hit.1, usize::MAX as int, blank_ends, Margin::Space),
                    pool,
                ),
            ),
        scip::section_header("Separators"@)
            == "(?m)^"@ + matching::escaped("Separators"@) + r"\s*:"@,
        forall|section: Seq<char>, columns: Seq<Seq<char>>| #[trigger] scip::named_table(
            text,
            section,
            columns,
        )
            == json::array_of(
                scip::table_rows_of(
                    scip::table_matches(
                        scip::section_header(section),
                        r"^\s+([A-Za-z][A-Za-z0-9_ /()>.-]*?)\s*:\s+(.*)$"@,
                        false,
                        false,
                        text,
                    ),
                    columns,
                ),
            ),
{
}

/// The problem is named after its file, without the folders before it and
/// without the endings that a model can have.
pub proof fn law_name_of_the_problem(m: Groups, folder: Seq<char>, stem: Seq<char>)
    requires
        tallies::is_plain_name(stem),
        stem.len() > 0,
        stem != "."@,
        stem != ".."@,
        !chars::ends_with(stem, ".gz"@),
        !chars::ends_with(stem, ".mps"@),
        !chars::ends_with(stem, ".lp"@),
        layout::in_match(Some(m), 1) is Some,
    ensures
        ({
            let path = chars::trimmed(layout::in_match(Some(m), 1)->Some_0);
            path == folder + seq!['/'] + stem || path == folder + seq!['/'] + (stem + ".mps"@)
                || path == folder + seq!['/'] + (stem + ".lp"@)
                || path == folder + seq!['/'] + (stem + ".mps"@ + ".gz"@)
                || path == folder + seq!['/'] + (stem + ".lp"@ + ".gz"@)
                ==> scip::problem_from(Some(m)) == Some(stem)
        }),
{
    reveal_strlit(".gz");
    reveal_strlit(".mps");
    reveal_strlit(".lp");
    reveal_strlit(".");
    reveal_strlit("..");
    assert((stem + ".mps"@ + ".gz"@).len() > 2 && (stem + ".lp"@ + ".gz"@).len() > 2);
    assert("."@.len() == 1 && ".."@.len() == 2);
    lemma_file(folder, stem);
    lemma_file(folder, stem + ".mps"@);
    lemma_file(folder, stem + ".lp"@);
    lemma_file(folder, stem + ".mps"@ + ".gz"@);
    lemma_file(folder, stem + ".lp"@ + ".gz"@);
    let mps = stem + ".mps"@;
    let lp = stem + ".lp"@;
    tallies::lemma_suffix(stem, ".mps"@);
    tallies::lemma_suffix(stem, ".lp"@);
    tallies::lemma_suffix(mps, ".gz"@);
    tallies::lemma_suffix(lp, ".gz"@);
    tallies::lemma_other_suffix(mps, ".gz"@);
    tallies::lemma_other_suffix(lp, ".gz"@);
    tallies::lemma_other_suffix(lp, ".mps"@);
    assert(chars::without_suffixes(stem, ".gz"@) == stem);
    assert(chars::without_suffixes(stem, ".mps"@) == stem);
    assert(chars::without_suffixes(stem, ".lp"@) == stem);
    assert(chars::without_suffixes(mps, ".gz"@) == mps);
    assert(chars::without_suffixes(lp, ".gz"@) == lp);
    assert(chars::without_suffixes(lp, ".mps"@) == lp);
    assert(chars::without_suffixes(mps, ".mps"@) == stem);
    assert(chars::without_suffixes(lp, ".lp"@) == stem);
    assert(chars::without_suffixes(mps + ".gz"@, ".gz"@) == mps);
    assert(chars::without_suffixes(lp + ".gz"@, ".gz"@) == lp);
}

proof fn lemma_file(folder: Seq<char>, name: Seq<char>)
    requires
        forall|i: int| 0 <= i < name.len() ==> #[trigger] name[i] != '/',
        name.len() > 0,
        name != "."@,
        name != ".."@,
    ensures
        scip::file_name(chars::pieces(folder + seq!['/'] + name, '/')) == Some(name),
{
    tallies::lemma_last_piece(folder, name);
}

/// The first solution and the best one have each their origin, which stands
/// behind their label.
pub proof fn law_attribution(first: Option<Groups>, best: Option<Groups>, label: Seq<char>)
    ensures
        first is None && best is None ==> scip::attribution_from(first, best) is None,
        first is Some || best is Some
            ==> (scip::attribution_from(first, best) matches Some(Json::Object(e))
            && table::get(e, "first"@)
                == (match first { Some(m) => Some(scip::origin_of(m)), None => None })
            && table::get(e, "best"@)
                == (match best { Some(m) => Some(scip::origin_of(m)), None => None })),
        scip::origin_pattern(label)
            == matching::escaped(label)
                + r"\s*:\s*\+?-?[\d.eE+\-]+\s*\(in run (\d+), after (\d+) nodes?, ([\d.]+) seconds, depth (\d+), found by <([^>]+)>\)"@,
{
    reveal_strlit("first");
    reveal_strlit("best");
    assert("first"@.len() != "best"@.len());
    layout::lemma_put("first"@);
    layout::lemma_put("best"@);
    layout::lemma_no_fields();
}

} // verus!
