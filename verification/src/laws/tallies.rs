//! How what a log says in many places is put together: one more match, line
//! or row adds what it says, and nothing else.

use crate::chars;
use crate::json;
use crate::json::Json;
use crate::laws::layout;
use crate::matching;
use crate::matching::{Groups, Margin};
use crate::numbers;
use crate::quantity;
use crate::quantity::{RealView, Unit};
use crate::schema::RowView;
use crate::solvers::entries;
use crate::solvers::{copt, cplex, gurobi, highs, progress, scip, xpress};
use crate::table;
use vstd::prelude::*;

verus! {

/// A line of cuts names a family in its first group and counts it in its
/// second. A count above zero is that of the family from then on; any other
/// line adds nothing.
pub proof fn law_line_of_cuts(ms: Seq<Groups>, m: Groups, trim: bool, commas: bool)
    ensures
        ({
            let name = layout::part_of(Some(m), 1);
            let digits = layout::part_of(Some(m), 2);
            let family = if trim {
                chars::trimmed(name)
            } else {
                name
            };
            let count = numbers::u64_of(
                if commas {
                    chars::without(digits, ',')
                } else {
                    digits
                },
            );
            let before = progress::cuts_of(ms, trim, commas);
            &&& (count is Some && count->Some_0 > 0 ==> progress::cuts_of(ms.push(m), trim, commas)
                == table::put(before, family, count->Some_0))
            &&& (count is None || count->Some_0 == 0 ==> progress::cuts_of(
                ms.push(m),
                trim,
                commas,
            ) == before)
        }),
        progress::cuts_of(Seq::empty(), trim, commas).len() == 0,
{
    assert(ms.push(m).drop_last() =~= ms);
}

/// A block of lines goes on as long as its lines stand inside it, and a blank
/// line is none of them; it ends before a line that stands outside, or at a
/// blank line where that ends it.
pub proof fn law_end_of_a_block(
    kept: Seq<Seq<char>>,
    stop: Seq<char>,
    more: Seq<Seq<char>>,
    blank_ends: bool,
    margin: Margin,
)
    requires
        forall|i: int|
            0 <= i < kept.len() ==> !chars::blank(#[trigger] kept[i]) && !matching::outside(
                kept[i],
                margin,
            ),
    ensures
        blank_ends && chars::blank(stop) ==> matching::block_lines(
            kept + seq![stop] + more,
            blank_ends,
            margin,
        ) == kept,
        !chars::blank(stop) && matching::outside(stop, margin) ==> matching::block_lines(
            kept + seq![stop] + more,
            blank_ends,
            margin,
        ) == kept,
        !blank_ends && chars::blank(stop) ==> matching::block_lines(
            kept + seq![stop] + more,
            blank_ends,
            margin,
        ) == kept + matching::block_lines(more, blank_ends, margin),
        matching::block_lines(kept, blank_ends, margin) == kept,
    decreases kept.len(),
{
    let all = kept + seq![stop] + more;
    if kept.len() == 0 {
        assert(all[0] == stop);
        assert(all.skip(1) =~= more);
        assert(kept + matching::block_lines(more, blank_ends, margin) =~= matching::block_lines(
            more,
            blank_ends,
            margin,
        ));
        assert(kept =~= Seq::empty());
    } else {
        let rest = kept.skip(1);
        law_end_of_a_block(rest, stop, more, blank_ends, margin);
        assert(all[0] == kept[0]);
        assert(all.skip(1) =~= rest + seq![stop] + more);
        assert(seq![kept[0]] + rest =~= kept);
        assert(seq![kept[0]] + (rest + matching::block_lines(more, blank_ends, margin)) =~= kept
            + matching::block_lines(more, blank_ends, margin));
    }
}

/// A line stands outside of a block with a margin where it starts with no
/// space, or with less than two blanks.
pub proof fn law_margins(line: Seq<char>)
    ensures
        !matching::outside(line, Margin::Free),
        line.len() > 0 && chars::is_space(line[0]) ==> !matching::outside(line, Margin::Space),
        line.len() > 0 && !chars::is_space(line[0]) ==> matching::outside(line, Margin::Space),
        matching::outside(line, Margin::TwoBlanks) <==> !(line.len() >= 2 && line[0] == ' '
            && line[1] == ' '),
{
    reveal_strlit("  ");
    if line.len() >= 2 {
        assert(line.subrange(0, 2)[0] == line[0] && line.subrange(0, 2)[1] == line[1]);
        if line[0] == ' ' && line[1] == ' ' {
            assert(line.subrange(0, 2) =~= "  "@);
        }
    }
}

/// The rows of a block are the matches in its lines, from the line behind the
/// header on, no more lines than the limit allows.
pub proof fn law_rows_of_a_block(
    pattern: Seq<char>,
    lines: Seq<Seq<char>>,
    line: Seq<char>,
    rest: Seq<char>,
    limit: int,
)
    requires
        limit >= 0,
    ensures
        matching::line_matches(pattern, lines.push(line)) == (match matching::regex_captures(
            pattern,
            line,
        ) {
            Some(m) => matching::line_matches(pattern, lines).push(m),
            None => matching::line_matches(pattern, lines),
        }),
        matching::line_matches(pattern, Seq::empty()).len() == 0,
        matching::at_most(lines, limit).len() <= limit,
        lines.len() > limit ==> matching::at_most(lines, limit) == lines.take(limit),
        lines.len() <= limit ==> matching::at_most(lines, limit) == lines,
        chars::lines(rest).len() > 0 ==> matching::behind_first(chars::lines(rest)) == chars::lines(
            rest,
        ).skip(1),
{
    assert(lines.push(line).drop_last() =~= lines);
}

/// No slash is in the text.
pub open spec fn is_plain_name(s: Seq<char>) -> bool {
    forall|i: int| 0 <= i < s.len() ==> #[trigger] s[i] != '/'
}

proof fn lemma_index(a: Seq<char>, c: char, b: Seq<char>)
    requires
        forall|i: int| 0 <= i < a.len() ==> #[trigger] a[i] != c,
    ensures
        chars::index_of(a + seq![c] + b, c) == a.len(),
        chars::index_of(a, c) == a.len(),
    decreases a.len(),
{
    if a.len() > 0 {
        lemma_index(a.skip(1), c, b);
        assert((a + seq![c] + b).skip(1) =~= a.skip(1) + seq![c] + b);
        assert((a + seq![c] + b)[0] == a[0]);
    } else {
        assert((a + seq![c] + b)[0] == c);
    }
}

pub proof fn lemma_last_piece(folder: Seq<char>, name: Seq<char>)
    requires
        is_plain_name(name),
    ensures
        chars::pieces(name, '/') == seq![name],
        chars::pieces(folder + seq!['/'] + name, '/').len() > 0,
        chars::pieces(folder + seq!['/'] + name, '/').last() == name,
    decreases folder.len(),
{
    let path = folder + seq!['/'] + name;
    lemma_index(name, '/', Seq::empty());
    if is_plain_name(folder) {
        lemma_index(folder, '/', name);
        assert(path.skip(folder.len() as int + 1) =~= name);
    } else {
        let k = chars::index_of(path, '/') as int;
        let j = choose|j: int| 0 <= j < folder.len() && folder[j] == '/';
        lemma_first_slash(path, j);
        let rest = folder.skip(k + 1);
        assert(path.skip(k + 1) =~= rest + seq!['/'] + name);
        lemma_last_piece(rest, name);
    }
}

proof fn lemma_first_slash(path: Seq<char>, j: int)
    requires
        0 <= j < path.len(),
        path[j] == '/',
    ensures
        chars::index_of(path, '/') <= j,
    decreases path.len(),
{
    if path[0] != '/' {
        assert(path.skip(1)[j - 1] == path[j]);
        lemma_first_slash(path.skip(1), j - 1);
    }
}

/// A model is named after its file, without the folders before it and without
/// the ending: `.mps` or `.lp`, gzipped or not.
pub proof fn law_name_of_a_model(folder: Seq<char>, stem: Seq<char>)
    requires
        is_plain_name(stem),
    ensures
        progress::problem_in(Some(folder + seq!['/'] + (stem + ".mps"@))) == Some(stem),
        progress::problem_in(Some(folder + seq!['/'] + (stem + ".mps.gz"@))) == Some(stem),
        progress::problem_in(Some(folder + seq!['/'] + (stem + ".lp"@))) == Some(stem),
        progress::problem_in(Some(folder + seq!['/'] + (stem + ".lp.gz"@))) == Some(stem),
        progress::problem_in(Some(stem + ".mps"@)) == Some(stem),
        progress::problem_in(None) is None,
{
    reveal_strlit(".mps");
    reveal_strlit(".mps.gz");
    reveal_strlit(".lp");
    reveal_strlit(".lp.gz");
    assert(is_plain_name(stem + ".mps"@));
    assert(is_plain_name(stem + ".mps.gz"@));
    assert(is_plain_name(stem + ".lp"@));
    assert(is_plain_name(stem + ".lp.gz"@));
    lemma_last_piece(folder, stem + ".mps"@);
    lemma_last_piece(folder, stem + ".mps.gz"@);
    lemma_last_piece(folder, stem + ".lp"@);
    lemma_last_piece(folder, stem + ".lp.gz"@);
    law_stem_of_a_model(stem);
}

/// The ending of a file is dropped: `.mps` and `.mps.gz`, and where they are
/// allowed for also `.lp` and `.lp.gz`.
pub proof fn law_stem_of_a_model(stem: Seq<char>)
    ensures
        forall|lp: bool| #[trigger] progress::model_stem(stem + ".mps"@, lp) == stem,
        forall|lp: bool| #[trigger] progress::model_stem(stem + ".mps.gz"@, lp) == stem,
        progress::model_stem(stem + ".lp"@, true) == stem,
        progress::model_stem(stem + ".lp.gz"@, true) == stem,
        progress::model_stem(stem + ".lp"@, false) == stem + ".lp"@,
        progress::model_stem(stem + ".lp.gz"@, false) == stem + ".lp.gz"@,
{
    reveal_strlit(".mps");
    reveal_strlit(".mps.gz");
    reveal_strlit(".lp");
    reveal_strlit(".lp.gz");
    lemma_suffix(stem, ".mps"@);
    lemma_suffix(stem, ".mps.gz"@);
    lemma_suffix(stem, ".lp"@);
    lemma_suffix(stem, ".lp.gz"@);
    lemma_other_suffix(stem + ".mps"@, ".mps.gz"@);
    lemma_other_suffix(stem + ".lp"@, ".mps.gz"@);
    lemma_other_suffix(stem + ".lp"@, ".lp.gz"@);
    lemma_other_suffix(stem + ".lp.gz"@, ".mps"@);
    lemma_other_suffix(stem + ".lp"@, ".mps"@);
    let zipped = stem + ".lp.gz"@;
    if chars::ends_with(zipped, ".mps.gz"@) {
        let end = zipped.subrange(zipped.len() - 7, zipped.len() as int);
        assert(end[3] == 's');
        assert(end[3] == zipped[zipped.len() - 4]);
    }
}

pub proof fn lemma_suffix(stem: Seq<char>, end: Seq<char>)
    ensures
        chars::before_suffix(stem + end, end) == Some(stem),
{
    let all = stem + end;
    assert(all.subrange(all.len() - end.len(), all.len() as int) =~= end);
    assert(all.take(all.len() - end.len()) =~= stem);
}

pub proof fn lemma_other_suffix(all: Seq<char>, end: Seq<char>)
    requires
        all.len() > 0,
        end.len() > 0,
        all.last() != end.last(),
    ensures
        !chars::ends_with(all, end),
        chars::before_suffix(all, end) is None,
{
    if chars::ends_with(all, end) {
        let tail = all.subrange(all.len() - end.len(), all.len() as int);
        assert(tail[end.len() - 1] == all.last());
    }
}

/// The iterations of SCIP are the sum of those of its LPs.
pub proof fn law_iterations_add_up(ms: Seq<Groups>, m: Groups)
    ensures
        ({
            let more = numbers::u64_of(chars::without(layout::part_of(Some(m), 1), ','));
            let before = scip::iterations_of(ms);
            &&& more is None ==> scip::iterations_of(ms.push(m)) == before
            &&& (more is Some && before is None ==> scip::iterations_of(ms.push(m)) == more)
            &&& (more is Some && before is Some && before->Some_0 + more->Some_0 <= u64::MAX
                ==> scip::iterations_of(ms.push(m)) == Some(
                (before->Some_0 + more->Some_0) as u64,
            ))
        }),
        scip::iterations_of(Seq::empty()) is None,
{
    assert(ms.push(m).drop_last() =~= ms);
}

/// HiGHS tells of a restart in two lines; what starts with a heading of the
/// restarted model counts, and what says that it is restarting.
pub proof fn law_restarts(lines: Seq<Seq<char>>, line: Seq<char>)
    ensures
        chars::contains(line, "restarting"@) ==> highs::restart_lines(lines.push(line))
            == highs::restart_lines(lines) + 1,
        chars::starts_with(line, "Model after restart"@) ==> highs::restart_lines(lines.push(line))
            == highs::restart_lines(lines) + 1,
        !chars::contains(line, "restarting"@) && !chars::starts_with(line, "Model after restart"@)
            ==> highs::restart_lines(lines.push(line)) == highs::restart_lines(lines),
        highs::restart_lines(Seq::empty()) == 0,
{
    assert(lines.push(line).drop_last() =~= lines);
}

/// Two lines make a restart; a log without any says nothing of restarts.
pub proof fn law_two_lines_a_restart(text: Seq<char>, n: nat)
    requires
        n < 0x8000_0000,
    ensures
        highs::restart_lines(chars::lines(text)) == 2 * n && n > 0 ==> highs::restarts_in(text)
            == Some(n as u32),
        highs::restart_lines(chars::lines(text)) == 0 ==> highs::restarts_in(text) is None,
{
}

/// HiGHS counts a solution for each row whose primal bound is another than the
/// last one counted.
pub proof fn law_new_incumbents_are_counted(rows: Seq<RowView>, row: RowView)
    ensures
        ({
            let before = highs::incumbents(rows);
            let after = highs::incumbents(rows.push(row));
            &&& row.primal is None ==> after == before
            &&& (row.primal is Some && before.1 is None ==> after == (before.0 + 1, row.primal))
            &&& (row.primal is Some && before.1 is Some && quantity::numbers_apart(
                before.1->Some_0,
                row.primal->Some_0,
            ) ==> after == (before.0 + 1, row.primal))
            &&& (row.primal is Some && before.1 is Some && !quantity::numbers_apart(
                before.1->Some_0,
                row.primal->Some_0,
            ) ==> after == before)
        }),
        highs::incumbents(Seq::empty()).0 == 0,
        highs::incumbents(rows).0 == 0 ==> highs::solutions_in(rows) is None,
        0 < highs::incumbents(rows).0 <= u64::MAX ==> highs::solutions_in(rows) == Some(
            highs::incumbents(rows).0 as u64,
        ),
{
    assert(rows.push(row).drop_last() =~= rows);
}

/// COPT counts a solution for each row with an event.
pub proof fn law_marked_rows_are_counted(rows: Seq<RowView>, row: RowView)
    ensures
        row.event is Some ==> copt::event_rows(rows.push(row)) == copt::event_rows(rows) + 1,
        row.event is None ==> copt::event_rows(rows.push(row)) == copt::event_rows(rows),
        copt::event_rows(Seq::empty()) == 0,
{
    assert(rows.push(row).drop_last() =~= rows);
}

/// The presolve time of CPLEX is made of all times that are given for it, in
/// their order.
pub proof fn law_presolve_times_add_up(ms: Seq<Groups>, m: Groups)
    ensures
        ({
            let literal = layout::part_of(Some(m), 1);
            let before = cplex::sum_from(ms);
            let after = cplex::sum_from(ms.push(m));
            &&& !numbers::is_real(literal) ==> after == before
            &&& (numbers::is_real(literal) && before is None ==> after == Some(
                RealView { literals: seq![literal], unit: Unit::One },
            ))
            &&& (numbers::is_real(literal) && before is Some ==> after == Some(
                RealView { literals: before->Some_0.literals.push(literal), unit: Unit::One },
            ))
        }),
        cplex::sum_from(Seq::empty()) is None,
{
    let all = entries::column(ms.push(m), 1);
    assert(all.drop_last() =~= entries::column(ms, 1));
    assert(all.last() == matching::part(m, 1));
    let literal = layout::part_of(Some(m), 1);
    if numbers::is_real(literal) && cplex::sum_from(ms) is None {
        assert(cplex::real_texts(entries::column(ms, 1)) =~= Seq::empty());
        assert(cplex::real_texts(all) =~= seq![literal]);
    }
    assert(entries::column(Seq::empty(), 1) =~= Seq::empty());
}

/// What CPLEX eliminated is the sum of what its lines count.
pub proof fn law_eliminations_add_up(ms: Seq<Groups>, m: Groups, i: int)
    ensures
        ({
            let more = numbers::u64_of(layout::part_of(Some(m), i));
            &&& more is None ==> cplex::total_of(ms.push(m), i) == cplex::total_of(ms, i)
            &&& (more is Some && cplex::total_of(ms, i) + more->Some_0 <= u64::MAX
                ==> cplex::total_of(ms.push(m), i) == cplex::total_of(ms, i) + more->Some_0)
        }),
        cplex::total_of(Seq::empty(), i) == 0,
{
    assert(ms.push(m).drop_last() =~= ms);
}

/// The rows and columns that CPLEX eliminated stand under their names, unless
/// there are none.
pub proof fn law_elimination_details(eliminated: Seq<Groups>)
    ensures
        ({
            let rows = cplex::total_of(eliminated, 1);
            let cols = cplex::total_of(eliminated, 2);
            let made = cplex::details_from(eliminated, Seq::empty());
            &&& rows == 0 && cols == 0 ==> made is None
            &&& (rows > 0 || cols > 0 ==> (made matches Some(Json::Object(e)) && table::get(
                e,
                "eliminated_rows"@,
            ) == Some(Json::Count(rows)) && table::get(e, "eliminated_cols"@) == Some(
                Json::Count(cols),
            )))
        }),
{
    reveal_strlit("eliminated_rows");
    reveal_strlit("eliminated_cols");
    assert("eliminated_rows"@[11] != "eliminated_cols"@[11]);
    layout::lemma_put("eliminated_rows"@);
    layout::lemma_put("eliminated_cols"@);
    layout::lemma_no_fields();
}

/// A range has the smaller number first.
pub open spec fn range(m: Groups, low: int, high: int) -> Seq<(Seq<char>, Json)> {
    table::put(
        table::put(json::no_entries(), "min"@, layout::told(layout::part_of(Some(m), low))),
        "max"@,
        layout::told(layout::part_of(Some(m), high)),
    )
}

/// The ranges of coefficients stand under what their lines name: the smallest
/// and the largest, and for Xpress before and after presolve.
pub proof fn law_ranges(ms: Seq<Groups>, m: Groups)
    ensures
        entries::ranges_of(ms.push(m), false) == table::put(
            entries::ranges_of(ms, false),
            layout::part_of(Some(m), 1),
            Json::Object(range(m, 2, 3)),
        ),
        entries::ranges_of(ms.push(m), true) == table::put(
            entries::ranges_of(ms, true),
            chars::lowercase(layout::part_of(Some(m), 1)),
            Json::Object(range(m, 2, 3)),
        ),
        xpress::ranges_from(ms.push(m)) == table::put(
            xpress::ranges_from(ms),
            if layout::part_of(Some(m), 1) == "RHS and bounds"@ {
                "rhs_and_bounds"@
            } else {
                chars::lowercase(layout::part_of(Some(m), 1))
            },
            Json::Object(
                table::put(
                    table::put(json::no_entries(), "original"@, Json::Object(range(m, 2, 3))),
                    "solved"@,
                    Json::Object(range(m, 4, 5)),
                ),
            ),
        ),
{
    assert(ms.push(m).drop_last() =~= ms);
}

/// The figures of SCIP stand under what their lines call them, in lower case
/// and with underscores.
pub proof fn law_figures_of_scip(ms: Seq<Groups>, m: Groups)
    ensures
        ({
            let label = layout::part_of(Some(m), 1);
            let value = layout::part_of(Some(m), 2);
            let words = chars::words(chars::trimmed(value));
            &&& scip::root_from(ms.push(m)) == table::put(
                scip::root_from(ms),
                chars::replaced(chars::lowercase(chars::trimmed(label)), " "@, '_'),
                scip::scalar_of(value),
            )
            &&& words.len() > 0 ==> scip::tree_figures(ms.push(m)) == table::put(
                scip::tree_figures(ms),
                chars::replaced(chars::lowercase(chars::trimmed(label)), " ."@, '_'),
                scip::scalar_of(words[0]),
            )
            &&& scip::integrals_from(ms.push(m)) == table::put(
                scip::integrals_from(ms),
                chars::replaced(label, "-"@, '_'),
                scip::integral_of(m),
            )
            &&& (scip::constraints_from(ms) is Some && numbers::u64_of(label) is Some
                ==> scip::constraints_from(ms.push(m)) == Some(
                table::put(
                    scip::constraints_from(ms)->Some_0,
                    value,
                    Json::Count(numbers::u64_of(label)->Some_0),
                ),
            ))
        }),
{
    assert(ms.push(m).drop_last() =~= ms);
}

/// The table of SCIP has a row for each of its lines that names something.
pub proof fn law_rows_of_a_scip_table(ms: Seq<Groups>, m: Groups, columns: Seq<Seq<char>>)
    ensures
        chars::trimmed(layout::part_of(Some(m), 1)).len() > 0 ==> scip::table_rows_of(
            ms.push(m),
            columns,
        ) == scip::table_rows_of(ms, columns).push(scip::table_row(m, columns)),
        chars::trimmed(layout::part_of(Some(m), 1)).len() == 0 ==> scip::table_rows_of(
            ms.push(m),
            columns,
        ) == scip::table_rows_of(ms, columns),
        scip::table_rows_of(Seq::empty(), columns).len() == 0,
{
    assert(ms.push(m).drop_last() =~= ms);
}

/// The side rows of a SCIP table count for nothing: those that start with `>`
/// and, among the cuts, that of the cut pool.
pub proof fn law_side_rows(lines: Seq<Seq<char>>, blanks: Seq<char>, rest: Seq<char>, pool: bool)
    requires
        chars::blank(blanks),
        rest.len() > 0,
        !chars::is_space(rest[0]),
    ensures
        rest[0] == '>' || (pool && chars::starts_with(rest, "cut pool"@)) ==> scip::main_rows(
            lines.push(blanks + rest),
            pool,
        ) == scip::main_rows(lines, pool),
        rest[0] != '>' && !(pool && chars::starts_with(rest, "cut pool"@)) ==> scip::main_rows(
            lines.push(blanks + rest),
            pool,
        ) == scip::main_rows(lines, pool).push(blanks + rest),
{
    reveal_strlit(">");
    reveal_strlit("");
    assert(""@ =~= Seq::empty());
    layout::lemma_front_trimmed(blanks, rest);
    assert(lines.push(blanks + rest).drop_last() =~= lines);
    assert(rest.subrange(0, 1)[0] == rest[0]);
    if rest[0] == '>' {
        assert(rest.subrange(0, 1) =~= ">"@);
    }
    assert(">"@[0] == '>');
}

/// The measures of HiGHS stand under the words behind them, with underscores
/// for blanks and dots.
pub proof fn law_measures_of_highs(ms: Seq<Groups>, m: Groups)
    ensures
        highs::quality_from(ms.push(m)) == table::put(
            highs::quality_from(ms),
            highs::quality_name(layout::part_of(Some(m), 2)),
            layout::told_plainly(layout::part_of(Some(m), 1)),
        ),
        highs::breakdown_from(ms.push(m)) == table::put(
            highs::breakdown_from(ms),
            highs::share_name(layout::part_of(Some(m), 2)),
            layout::count_or(layout::part_of(Some(m), 1), Json::Null),
        ),
{
    assert(ms.push(m).drop_last() =~= ms);
}

/// The kinds of variables of COPT are counted before their names, and a
/// violation stands under what is violated.
pub proof fn law_entries_of_copt(ms: Seq<Groups>, m: Groups)
    ensures
        copt::types_of(ms.push(m)) == table::put(
            copt::types_of(ms),
            layout::part_of(Some(m), 2),
            layout::told(layout::part_of(Some(m), 1)),
        ),
        copt::violations_from(ms.push(m)) == table::put(
            copt::violations_from(ms),
            layout::part_of(Some(m), 1),
            copt::violation_of(m),
        ),
{
    assert(ms.push(m).drop_last() =~= ms);
}

/// The solution pool of Gurobi has its count and its best values.
pub proof fn law_pool_of_gurobi(m: Groups)
    ensures
        match numbers::u64_of(layout::part_of(Some(m), 1)) {
            Some(n) => gurobi::pool_from(Some(m)) matches Some(Json::Object(e)) && table::get(
                e,
                "count"@,
            ) == Some(Json::Count(n)) && table::get(e, "top_values"@) == Some(
                Json::Array(
                    entries::finite_numbers(chars::words(layout::part_of(Some(m), 2))),
                ),
            ),
            None => gurobi::pool_from(Some(m)) is None,
        },
        gurobi::pool_from(None) is None,
{
    reveal_strlit("count");
    reveal_strlit("top_values");
    assert("count"@.len() != "top_values"@.len());
    layout::lemma_put("count"@);
    layout::lemma_put("top_values"@);
    layout::lemma_no_fields();
}

/// Of a list of words those count that write finite numbers, in their order.
pub proof fn law_finite_words(words: Seq<Seq<char>>, w: Seq<char>)
    ensures
        numbers::is_finite(w) ==> entries::finite_numbers(words.push(w)) == entries::finite_numbers(
            words,
        ).push(Json::Real(w)),
        !numbers::is_finite(w) ==> entries::finite_numbers(words.push(w))
            == entries::finite_numbers(words),
        entries::finite_numbers(Seq::empty()).len() == 0,
{
    assert(words.push(w).drop_last() =~= words);
}

/// The heading of the symmetry of a problem and the four lines from its own on
/// make one line, with blanks between them.
pub proof fn law_one_line_of_several(
    header: Seq<char>,
    rest: Seq<char>,
    lines: Seq<Seq<char>>,
    line: Seq<char>,
)
    ensures
        lines.len() > 0 ==> xpress::in_one_line(lines.push(line)) == xpress::in_one_line(lines)
            + seq![' '] + line,
        xpress::in_one_line(seq![line]) == line,
        xpress::symmetry_block(header, rest) == header + xpress::in_one_line(
            if chars::lines(rest).len() <= 4 {
                chars::lines(rest)
            } else {
                chars::lines(rest).take(4)
            },
        ),
{
    assert(lines.push(line).drop_last() =~= lines);
}

/// The kinds of variables of COPT stand in the six lines from their heading on:
/// before presolve in the first that counts one, behind it in the first that
/// counts any.
pub proof fn law_kinds_of_variables(text: Seq<char>)
    ensures
        match matching::regex_find(r"(?m)^The original problem has:"@, text) {
            Some(hit) => copt::types_before(text) == json::object_of(
                copt::types_of(
                    matching::at_most(
                        matching::line_matches(
                            r"^\s+(\d+)\s+(binaries|integers|continuous)"@,
                            matching::at_most(chars::lines(hit.1), 6),
                        ),
                        1,
                    ),
                ),
            ),
            None => copt::types_before(text) is None,
        },
        match matching::regex_find(r"(?m)^The presolved problem has:"@, text) {
            Some(hit) => copt::types_after(text) == json::object_of(
                copt::types_of(
                    copt::first_matches(
                        r"(\d+)\s+(binaries|integers|continuous)"@,
                        matching::at_most(chars::lines(hit.1), 6),
                    ),
                ),
            ),
            None => copt::types_after(text) is None,
        },
{
}

/// Of several lines the first counts that has a match.
pub proof fn law_first_line_with_matches(
    pattern: Seq<char>,
    line: Seq<char>,
    lines: Seq<Seq<char>>,
)
    ensures
        matching::regex_captures_iter(pattern, line).len() > 0 ==> copt::first_matches(
            pattern,
            seq![line] + lines,
        ) == matching::regex_captures_iter(pattern, line),
        matching::regex_captures_iter(pattern, line).len() == 0 ==> copt::first_matches(
            pattern,
            seq![line] + lines,
        ) == copt::first_matches(pattern, lines),
{
    assert((seq![line] + lines).skip(1) =~= lines);
}

/// In a pattern a letter, a digit or a blank stands for itself; a mark that
/// would mean something has a backslash before it.
pub proof fn law_escaped_patterns(s: Seq<char>, c: char)
    ensures
        'a' <= c <= 'z' || 'A' <= c <= 'Z' || '0' <= c <= '9' || c == ' ' || c == ':' || c == '_'
            || c
            == '/' || c == '=' || c == ',' ==> matching::escaped(s.push(c)) == matching::escaped(
            s,
        ).push(c),
        c == '.' || c == '(' || c == ')' || c == '[' || c == ']' || c == '{' || c == '}' || c == '*'
            || c == '+' || c == '?' || c == '|' || c == '^' || c == '$' || c == '\\' || c == '-'
                || c
            == '#' || c == '&' || c == '~' ==> matching::escaped(s.push(c)) == matching::escaped(
            s,
        ).push('\\').push(c),
        matching::escaped(Seq::empty()).len() == 0,
{
    assert(s.push(c).drop_last() =~= s);
}

/// The margin of a row is its first two characters, where they are of ASCII.
pub proof fn law_margin_of_a_row(line: Seq<char>)
    requires
        line.len() >= 2,
        line[0] <= '\u{7f}',
        line[1] <= '\u{7f}',
    ensures
        progress::margin_of(line) == line.take(2),
{
}

} // verus!
