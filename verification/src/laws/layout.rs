//! Lines made of words, of cells and of other lines are taken apart again.

use crate::chars;
use crate::json;
use crate::json::Json;
use crate::matching;
use crate::matching::Groups;
use crate::numbers;
use crate::quantity;
use crate::quantity::{RealView, Unit};
use crate::schema::{EventView, RowView};
use crate::solvers::progress;
use crate::solvers::progress::{ScanView, StepView, TableFormat};
use crate::table;
use vstd::prelude::*;

verus! {

/// At least one character, and no space.
pub open spec fn is_word(s: Seq<char>) -> bool {
    s.len() > 0 && forall|i: int| 0 <= i < s.len() ==> !chars::is_space(#[trigger] s[i])
}

pub open spec fn are_words(words: Seq<Seq<char>>) -> bool {
    forall|i: int| 0 <= i < words.len() ==> is_word(#[trigger] words[i])
}

/// Spaces before each of `n` words; before the first there may be none.
pub open spec fn are_gaps(gaps: Seq<Seq<char>>, n: nat) -> bool {
    &&& gaps.len() == n
    &&& forall|i: int| 0 <= i < gaps.len() ==> chars::blank(#[trigger] gaps[i])
    &&& forall|i: int| 0 < i < gaps.len() ==> (#[trigger] gaps[i]).len() > 0
}

/// A line: each word behind its gap.
pub open spec fn laid_out(gaps: Seq<Seq<char>>, words: Seq<Seq<char>>) -> Seq<char>
    decreases words.len(),
{
    if words.len() == 0 {
        Seq::empty()
    } else {
        gaps[0] + words[0] + laid_out(gaps.skip(1), words.skip(1))
    }
}

proof fn lemma_words_behind_blank(gap: Seq<char>, s: Seq<char>)
    requires
        chars::blank(gap),
    ensures
        chars::words(gap + s) == chars::words(s),
    decreases gap.len(),
{
    if gap.len() == 0 {
        assert(gap + s =~= s);
    } else {
        let more = gap.skip(1);
        assert(chars::is_space(gap[0]));
        assert((gap + s)[0] == gap[0]);
        assert((gap + s).skip(1) =~= more + s);
        assert forall|i: int| 0 <= i < more.len() implies chars::is_space(#[trigger] more[i]) by {
            assert(more[i] == gap[i + 1]);
        }
        lemma_words_behind_blank(more, s);
    }
}

proof fn lemma_word_len(w: Seq<char>, rest: Seq<char>)
    requires
        forall|i: int| 0 <= i < w.len() ==> !chars::is_space(#[trigger] w[i]),
        rest.len() == 0 || chars::is_space(rest[0]),
    ensures
        chars::word_len(w + rest) == w.len(),
    decreases w.len(),
{
    if w.len() == 0 {
        assert(w + rest =~= rest);
    } else {
        let more = w.skip(1);
        assert((w + rest)[0] == w[0]);
        assert((w + rest).skip(1) =~= more + rest);
        assert forall|i: int| 0 <= i < more.len() implies !chars::is_space(#[trigger] more[i]) by {
            assert(more[i] == w[i + 1]);
        }
        lemma_word_len(more, rest);
    }
}

/// The words of a line are those that it was made of.
pub proof fn law_words_are_found(gaps: Seq<Seq<char>>, words: Seq<Seq<char>>)
    requires
        are_gaps(gaps, words.len()),
        are_words(words),
    ensures
        chars::words(laid_out(gaps, words)) == words,
    decreases words.len(),
{
    if words.len() == 0 {
        assert(words =~= Seq::empty());
    } else {
        let w = words[0];
        let more = words.skip(1);
        let more_gaps = gaps.skip(1);
        let rest = laid_out(more_gaps, more);
        assert(is_word(w));
        assert forall|i: int| 0 <= i < more.len() implies is_word(#[trigger] more[i]) by {
            assert(more[i] == words[i + 1]);
        }
        assert forall|i: int| 0 <= i < more_gaps.len() implies chars::blank(
            #[trigger] more_gaps[i],
        ) && more_gaps[i].len() > 0 by {
            assert(more_gaps[i] == gaps[i + 1]);
        }
        law_words_are_found(more_gaps, more);
        assert(laid_out(gaps, words) =~= gaps[0] + (w + rest));
        assert(chars::blank(gaps[0]));
        lemma_words_behind_blank(gaps[0], w + rest);
        if more.len() > 0 {
            assert(more_gaps[0].len() > 0 && chars::blank(more_gaps[0]));
            assert(rest[0] == more_gaps[0][0]);
        }
        let s = w + rest;
        let tail = w.skip(1);
        assert forall|i: int| 0 <= i < tail.len() implies !chars::is_space(#[trigger] tail[i]) by {
            assert(tail[i] == w[i + 1]);
        }
        lemma_word_len(tail, rest);
        assert(s.skip(1) =~= tail + rest);
        assert(s[0] == w[0]);
        if rest.len() == 0 {
            assert(s =~= w);
            if more.len() > 0 {
                assert(more_gaps[0].len() > 0);
            }
            assert(words =~= seq![w]);
        } else {
            assert(s.take(w.len() as int) =~= w);
            assert(s.skip(w.len() as int) =~= rest);
            assert(seq![w] + more =~= words);
        }
    }
}

pub proof fn lemma_starts(gaps: Seq<Seq<char>>, words: Seq<Seq<char>>)
    requires
        are_gaps(gaps, words.len()),
        are_words(words),
        words.len() > 0,
    ensures
        laid_out(gaps, words).len() > 0,
        gaps[0].len() > 0 ==> laid_out(gaps, words)[0] == gaps[0][0] && chars::is_space(gaps[0][0]),
        gaps[0].len() > 1 ==> laid_out(gaps, words)[1] == gaps[0][1],
        gaps[0].len() == 1 ==> laid_out(gaps, words)[1] == words[0][0],
        gaps[0].len() == 0 ==> laid_out(gaps, words)[0] == words[0][0],
{
    assert(is_word(words[0]));
    assert(chars::blank(gaps[0]));
}

pub proof fn lemma_second(gaps: Seq<Seq<char>>, words: Seq<Seq<char>>)
    requires
        are_gaps(gaps, words.len()),
        are_words(words),
        words.len() > 1,
        gaps[0].len() == 0,
        words[0].len() == 1,
    ensures
        laid_out(gaps, words).len() > 1,
        laid_out(gaps, words)[1] == gaps[1][0],
{
    let more = laid_out(gaps.skip(1), words.skip(1));
    assert(gaps[1].len() > 0);
    assert(gaps.skip(1)[0] == gaps[1]);
    assert(more[0] == gaps[1][0]);
}

/// Cells with bars between them.
pub open spec fn barred(cells: Seq<Seq<char>>) -> Seq<char>
    decreases cells.len(),
{
    if cells.len() == 0 {
        Seq::empty()
    } else if cells.len() == 1 {
        cells[0]
    } else {
        cells[0].push('|') + barred(cells.skip(1))
    }
}

pub open spec fn lacks(s: Seq<char>, c: char) -> bool {
    forall|i: int| 0 <= i < s.len() ==> #[trigger] s[i] != c
}

/// No cell has a bar in it.
pub open spec fn are_cells(cells: Seq<Seq<char>>) -> bool {
    forall|i: int| 0 <= i < cells.len() ==> lacks(#[trigger] cells[i], '|')
}

proof fn lemma_index_behind(s: Seq<char>, c: char, rest: Seq<char>)
    requires
        lacks(s, c),
    ensures
        chars::index_of(s, c) == s.len(),
        chars::index_of(s.push(c) + rest, c) == s.len(),
    decreases s.len(),
{
    if s.len() == 0 {
        assert((s.push(c) + rest)[0] == c);
    } else {
        let more = s.skip(1);
        assert(s[0] != c);
        assert forall|i: int| 0 <= i < more.len() implies #[trigger] more[i] != c by {
            assert(more[i] == s[i + 1]);
        }
        lemma_index_behind(more, c, rest);
        assert((s.push(c) + rest)[0] == s[0]);
        assert((s.push(c) + rest).skip(1) =~= more.push(c) + rest);
    }
}

/// The cells of a line are those that it was made of.
pub proof fn law_cells_are_found(cells: Seq<Seq<char>>)
    requires
        cells.len() > 0,
        are_cells(cells),
    ensures
        chars::pieces(barred(cells), '|') == cells,
    decreases cells.len(),
{
    let first = cells[0];
    assert(lacks(first, '|'));
    if cells.len() == 1 {
        lemma_index_behind(first, '|', Seq::empty());
        assert(cells =~= seq![first]);
    } else {
        let more = cells.skip(1);
        assert forall|i: int| 0 <= i < more.len() implies lacks(#[trigger] more[i], '|') by {
            assert(more[i] == cells[i + 1]);
        }
        law_cells_are_found(more);
        let rest = barred(more);
        let s = barred(cells);
        lemma_index_behind(first, '|', rest);
        assert(s.take(first.len() as int) =~= first);
        assert(s.skip((first.len() + 1) as int) =~= rest);
        assert(seq![first] + more =~= cells);
    }
}

/// Lines, each with its ending.
pub open spec fn ended_lines(lines: Seq<Seq<char>>) -> Seq<char>
    decreases lines.len(),
{
    if lines.len() == 0 {
        Seq::empty()
    } else {
        lines[0].push('\n') + ended_lines(lines.skip(1))
    }
}

/// The lines of a text are those that it was made of.
pub proof fn law_lines_are_found(lines: Seq<Seq<char>>)
    requires
        forall|i: int|
            0 <= i < lines.len() ==> lacks(#[trigger] lines[i], '\n') && lacks(lines[i], '\r'),
    ensures
        chars::lines(ended_lines(lines)) == lines,
    decreases lines.len(),
{
    if lines.len() == 0 {
        assert(lines =~= Seq::empty());
    } else {
        let first = lines[0];
        let more = lines.skip(1);
        assert(lacks(first, '\n') && lacks(first, '\r'));
        assert forall|i: int| 0 <= i < more.len() implies lacks(#[trigger] more[i], '\n') && lacks(
            more[i],
            '\r',
        ) by {
            assert(more[i] == lines[i + 1]);
        }
        law_lines_are_found(more);
        let rest = ended_lines(more);
        let s = ended_lines(lines);
        lemma_index_behind(first, '\n', rest);
        assert(s.take(first.len() as int) =~= first);
        assert(s.skip((first.len() + 1) as int) =~= rest);
        if first.len() > 0 {
            assert(first[first.len() - 1] != '\r');
        }
        assert(seq![first] + more =~= lines);
    }
}

pub proof fn lemma_front_trimmed(a: Seq<char>, s: Seq<char>)
    requires
        chars::blank(a),
        s.len() == 0 || !chars::is_space(s[0]),
    ensures
        chars::front_trimmed(a + s, Seq::empty(), true) == s,
    decreases a.len(),
{
    if a.len() == 0 {
        assert(a + s =~= s);
    } else {
        let more = a.skip(1);
        assert(chars::is_space(a[0]));
        assert((a + s).skip(1) =~= more + s);
        assert forall|i: int| 0 <= i < more.len() implies chars::is_space(#[trigger] more[i]) by {
            assert(more[i] == a[i + 1]);
        }
        lemma_front_trimmed(more, s);
    }
}

proof fn lemma_back_trimmed(s: Seq<char>, b: Seq<char>)
    requires
        chars::blank(b),
        s.len() == 0 || !chars::is_space(s.last()),
    ensures
        chars::back_trimmed(s + b, Seq::empty(), true) == s,
    decreases b.len(),
{
    if b.len() == 0 {
        assert(s + b =~= s);
    } else {
        let less = b.drop_last();
        assert(chars::is_space(b[b.len() - 1]));
        assert((s + b).drop_last() =~= s + less);
        lemma_back_trimmed(s, less);
    }
}

/// The spaces at the ends of a text go, and nothing else.
pub proof fn law_ends_are_trimmed(a: Seq<char>, s: Seq<char>, b: Seq<char>)
    requires
        chars::blank(a),
        chars::blank(b),
        s.len() > 0 ==> !chars::is_space(s[0]) && !chars::is_space(s.last()),
    ensures
        chars::trimmed(a + s + b) == s,
        chars::trimmed(s) == s,
{
    assert(a + s + b =~= a + (s + b));
    if s.len() > 0 {
        lemma_front_trimmed(a, s + b);
        lemma_back_trimmed(s, b);
    } else {
        assert(s + b =~= b);
        assert(a + (s + b) =~= (a + b) + s);
        lemma_front_trimmed(a + b, s);
        lemma_back_trimmed(s, s);
        assert(s + s =~= s);
    }
    let none = Seq::<char>::empty();
    assert(none + s =~= s);
    assert(s + none =~= s);
    lemma_front_trimmed(none, s);
    lemma_back_trimmed(s, none);
}

pub proof fn lemma_word_is_trimmed(w: Seq<char>)
    requires
        is_word(w),
    ensures
        chars::trimmed(w) == w,
{
    law_ends_are_trimmed(Seq::empty(), w, Seq::empty());
}

/// Words behind a colon, with spaces on either side of it.
pub proof fn lemma_behind_colon(gap: Seq<char>, blanks: Seq<char>, words: Seq<char>)
    requires
        chars::blank(gap),
        chars::blank(blanks),
        blanks.len() > 0,
        words.len() > 0 && !chars::is_space(words[0]) && !chars::is_space(words.last()),
    ensures
        chars::trimmed(
            chars::front_trimmed(
                chars::front_trimmed(gap + (seq![':'] + (blanks + words)), ""@, true),
                ":"@,
                false,
            ),
        ) == words,
{
    reveal_strlit("");
    reveal_strlit(":");
    let rest = seq![':'] + (blanks + words);
    assert(""@ =~= Seq::<char>::empty());
    assert(rest[0] == ':');
    lemma_front_trimmed(gap, rest);
    assert(":"@[0] == ':');
    assert(":"@.contains(':'));
    assert(rest.skip(1) =~= blanks + words);
    assert(chars::is_space(blanks[0]));
    assert((blanks + words)[0] == blanks[0]);
    assert(!":"@.contains(blanks[0]));
    reveal_with_fuel(chars::front_trimmed, 3);
    assert(chars::front_trimmed(rest, ":"@, false) == blanks + words);
    law_ends_are_trimmed(blanks, words, Seq::empty());
    assert(blanks + words + Seq::<char>::empty() =~= blanks + words);
}

/// Of several lines with a label the first one counts.
pub proof fn law_first_label_counts(
    before: Seq<Seq<char>>,
    line: Seq<char>,
    after: Seq<Seq<char>>,
    label: Seq<char>,
    words: Seq<char>,
)
    requires
        forall|i: int|
            0 <= i < before.len() ==> !chars::starts_with(
                chars::trimmed(#[trigger] before[i]),
                label,
            ),
        chars::trimmed(line) == label + words,
    ensures
        progress::first_labelled(before + seq![line] + after, label) == Some(words),
    decreases before.len(),
{
    let all = before + seq![line] + after;
    if before.len() == 0 {
        let l = label + words;
        assert(all[0] == line);
        assert(l.subrange(0, label.len() as int) =~= label);
        assert(l.skip(label.len() as int) =~= words);
    } else {
        let rest = before.skip(1);
        assert(all[0] == before[0]);
        assert(all.skip(1) =~= rest + seq![line] + after);
        assert forall|i: int| 0 <= i < rest.len() implies !chars::starts_with(
            chars::trimmed(#[trigger] rest[i]),
            label,
        ) by {
            assert(rest[i] == before[i + 1]);
        }
        law_first_label_counts(rest, line, after, label, words);
    }
}

pub proof fn lemma_no_label(lines: Seq<Seq<char>>, label: Seq<char>)
    requires
        forall|i: int|
            0 <= i < lines.len() ==> !chars::starts_with(
                chars::trimmed(#[trigger] lines[i]),
                label,
            ),
    ensures
        progress::first_labelled(lines, label) is None,
    decreases lines.len(),
{
    if lines.len() > 0 {
        let rest = lines.skip(1);
        assert forall|i: int| 0 <= i < rest.len() implies !chars::starts_with(
            chars::trimmed(#[trigger] rest[i]),
            label,
        ) by {
            assert(rest[i] == lines[i + 1]);
        }
        lemma_no_label(rest, label);
    }
}

/// Lines before a table give no rows.
pub proof fn lemma_closed<F: TableFormat>(
    format: F,
    before: Seq<Seq<char>>,
    more: Seq<Seq<char>>,
)
    requires
        forall|i: int|
            0 <= i < before.len() ==> format.meaning(
                progress::at_start(),
                false,
                #[trigger] before[i],
            ) == (progress::at_start(), StepView::Pass),
    ensures
        progress::rows_from(format, before + more, progress::at_start(), false)
            == progress::rows_from(format, more, progress::at_start(), false),
    decreases before.len(),
{
    if before.len() == 0 {
        assert(before + more =~= more);
    } else {
        let rest = before.skip(1);
        assert((before + more)[0] == before[0]);
        assert((before + more).skip(1) =~= rest + more);
        assert forall|i: int| 0 <= i < rest.len() implies format.meaning(
            progress::at_start(),
            false,
            #[trigger] rest[i],
        ) == (progress::at_start(), StepView::Pass) by {
            assert(rest[i] == before[i + 1]);
        }
        lemma_closed(format, rest, more);
    }
}

/// Lines that are rows give those rows.
pub proof fn lemma_rows<F: TableFormat>(
    format: F,
    scan: ScanView,
    body: Seq<Seq<char>>,
    rows: Seq<RowView>,
    after: Seq<Seq<char>>,
    any: bool,
)
    requires
        body.len() == rows.len(),
        forall|i: int, b: bool|
            0 <= i < body.len() ==> #[trigger] format.meaning(scan, b, body[i]) == (
                scan,
                StepView::Row(rows[i]),
            ),
    ensures
        progress::rows_from(format, body + after, scan, any) == rows + progress::rows_from(
            format,
            after,
            scan,
            any || body.len() > 0,
        ),
    decreases body.len(),
{
    if body.len() == 0 {
        assert(body + after =~= after);
        assert(rows =~= Seq::empty());
        assert(rows + progress::rows_from(format, after, scan, any) =~= progress::rows_from(
            format,
            after,
            scan,
            any,
        ));
    } else {
        let rest = body.skip(1);
        let more = rows.skip(1);
        assert((body + after)[0] == body[0]);
        assert((body + after).skip(1) =~= rest + after);
        assert(format.meaning(scan, any, body[0]) == (scan, StepView::Row(rows[0])));
        assert forall|i: int, b: bool| 0 <= i < rest.len() implies #[trigger] format.meaning(
            scan,
            b,
            rest[i],
        ) == (scan, StepView::Row(more[i])) by {
            assert(rest[i] == body[i + 1]);
            assert(format.meaning(scan, b, body[i + 1]) == (scan, StepView::Row(rows[i + 1])));
        }
        lemma_rows(format, scan, rest, more, after, true);
        let tail = progress::rows_from(format, after, scan, true);
        assert(seq![rows[0]] + (more + tail) =~= rows + tail);
    }
}

/// All characters but one.
pub open spec fn other_than(c: char) -> spec_fn(char) -> bool {
    |x: char| x != c
}

/// Dropping a character keeps all others, in their order.
pub proof fn law_without_keeps_the_rest(s: Seq<char>, c: char)
    ensures
        chars::without(s, c) == s.filter(other_than(c)),
    decreases s.len(),
{
    reveal(Seq::filter);
    if s.len() > 0 {
        law_without_keeps_the_rest(s.drop_last(), c);
    }
}

/// The number that a literal writes in a unit.
pub open spec fn number_in(s: Seq<char>, unit: Unit) -> RealView {
    RealView { literals: seq![s], unit }
}

/// The number that a text writes, if it is a real literal.
pub open spec fn number(o: Option<Seq<char>>, unit: Unit) -> Option<RealView> {
    match o {
        Some(s) => if numbers::is_real(s) {
            Some(number_in(s, unit))
        } else {
            None
        },
        None => None,
    }
}

/// The count that a text writes, if it does.
pub open spec fn digits(o: Option<Seq<char>>) -> Option<u64> {
    match o {
        Some(s) => numbers::u64_of(s),
        None => None,
    }
}

/// The small count that a text writes, if it does.
pub open spec fn small(o: Option<Seq<char>>) -> Option<u32> {
    match o {
        Some(s) => numbers::u32_of(s),
        None => None,
    }
}

/// A text without the spaces at its ends.
pub open spec fn trimmed_text(o: Option<Seq<char>>) -> Option<Seq<char>> {
    match o {
        Some(s) => Some(chars::trimmed(s)),
        None => None,
    }
}

/// The count that a text writes, commas between its digits aside.
pub open spec fn count(o: Option<Seq<char>>) -> Option<u64> {
    match o {
        Some(s) => numbers::u64_of(s.filter(other_than(','))),
        None => None,
    }
}

/// What a group of the first match of a pattern says.
pub open spec fn said(pattern: Seq<char>, text: Seq<char>, k: int) -> Option<Seq<char>> {
    in_match(matching::regex_captures(pattern, text), k)
}

/// What a group of a match says.
pub open spec fn in_match(m: Option<Groups>, k: int) -> Option<Seq<char>> {
    match m {
        Some(g) => if 0 <= k < g.len() {
            g[k]
        } else {
            None
        },
        None => None,
    }
}

/// Whether a pattern has a match.
pub open spec fn matches_in(pattern: Seq<char>, text: Seq<char>) -> bool {
    matching::regex_captures(pattern, text) is Some
}

/// The groups of the last match of a pattern, if it has one.
pub open spec fn last_match(pattern: Seq<char>, text: Seq<char>) -> Option<Groups> {
    let all = matching::regex_captures_iter(pattern, text);
    if all.len() > 0 {
        Some(all[all.len() - 1])
    } else {
        None
    }
}

pub proof fn lemma_commas()
    ensures
        forall|s: Seq<char>| #[trigger] chars::without(s, ',') == s.filter(other_than(',')),
{
    assert forall|s: Seq<char>| #[trigger] chars::without(s, ',') == s.filter(other_than(',')) by {
        law_without_keeps_the_rest(s, ',');
    }
}

/// A group of a match is read as the text, the number or the count in it.
pub proof fn law_groups_are_read(m: Option<Groups>, k: int)
    ensures
        matching::text_at(m, k) == in_match(m, k),
        matching::real_at(m, k) == number(in_match(m, k), Unit::One),
        matching::percent_at(m, k) == number(in_match(m, k), Unit::Percent),
        matching::u64_at(m, k) == digits(in_match(m, k)),
        matching::u32_at(m, k) == small(in_match(m, k)),
        matching::count_at(m, k) == count(in_match(m, k)),
        matching::trimmed_at(m, k) == trimmed_text(in_match(m, k)),
        matching::spaced_real_at(m, k) == number(trimmed_text(in_match(m, k)), Unit::One),
        matching::spaced_count_at(m, k) == count(trimmed_text(in_match(m, k))),
{
    lemma_commas();
}

/// The text of a group of a match; empty where it took no part.
pub open spec fn part_of(m: Option<Groups>, k: int) -> Seq<char> {
    match in_match(m, k) {
        Some(s) => s,
        None => Seq::empty(),
    }
}

/// A finite number as a number and anything else as a text, without the spaces
/// at its ends.
pub open spec fn told(s: Seq<char>) -> Json {
    told_plainly(chars::trimmed(s))
}

pub open spec fn told_plainly(s: Seq<char>) -> Json {
    if numbers::is_finite(s) {
        Json::Real(s)
    } else {
        Json::Text(s)
    }
}

/// A count, or something else where there is none.
pub open spec fn count_or(s: Seq<char>, other: Json) -> Json {
    match numbers::u64_of(s) {
        Some(n) => Json::Count(n),
        None => other,
    }
}

/// What stands under a name among the other data of a log.
pub open spec fn entry(others: Seq<(Seq<char>, Json)>, name: Seq<char>) -> Option<Json>
    decreases others.len(),
{
    if others.len() == 0 {
        None
    } else if others.last().0 == name {
        Some(others.last().1)
    } else {
        entry(others.drop_last(), name)
    }
}

/// What stands under a key of an object among the other data.
pub open spec fn field(
    others: Seq<(Seq<char>, Json)>,
    name: Seq<char>,
    key: Seq<char>,
) -> Option<Json> {
    match entry(others, name) {
        Some(Json::Object(e)) => table::get(e, key),
        _ => None,
    }
}

/// How many items an array among the other data has.
pub open spec fn items(others: Seq<(Seq<char>, Json)>, name: Seq<char>) -> nat {
    match entry(others, name) {
        Some(Json::Array(a)) => a.len(),
        _ => 0,
    }
}

/// What stands under a key of an object in an array among the other data.
pub open spec fn item_field(
    others: Seq<(Seq<char>, Json)>,
    name: Seq<char>,
    i: int,
    key: Seq<char>,
) -> Option<Json> {
    match entry(others, name) {
        Some(Json::Array(a)) => match a[i] {
            Json::Object(e) => table::get(e, key),
            _ => None,
        },
        _ => None,
    }
}

pub proof fn lemma_other(name: Seq<char>, wanted: Seq<char>)
    ensures
        forall|o: Seq<(Seq<char>, Json)>, v: Option<Json>|
            #[trigger] entry(progress::with_other(o, name, v), wanted) == (if name == wanted
                && v is Some {
                v
            } else {
                entry(o, wanted)
            }),
{
    assert forall|o: Seq<(Seq<char>, Json)>, v: Option<Json>|
        #[trigger] entry(progress::with_other(o, name, v), wanted) == (if name == wanted
            && v is Some {
            v
        } else {
            entry(o, wanted)
        }) by {
        if let Some(x) = v {
            assert(o.push((name, x)).drop_last() =~= o);
        }
    }
}

pub proof fn lemma_put(name: Seq<char>)
    ensures
        forall|e: Seq<(Seq<char>, Json)>, v: Json|
            table::in_order(e) ==> table::in_order(#[trigger] table::put(e, name, v)),
        forall|e: Seq<(Seq<char>, Json)>, v: Json, w: Seq<char>|
            table::in_order(e) ==> #[trigger] table::get(table::put(e, name, v), w) == (if w
                == name {
                Some(v)
            } else {
                table::get(e, w)
            }),
{
    assert forall|e: Seq<(Seq<char>, Json)>, v: Json| table::in_order(e) implies table::in_order(
        #[trigger] table::put(e, name, v),
    ) by {
        table::law_put_keeps_order(e, name, v);
    }
    assert forall|e: Seq<(Seq<char>, Json)>, v: Json, w: Seq<char>| table::in_order(
        e,
    ) implies #[trigger] table::get(table::put(e, name, v), w) == (if w == name {
        Some(v)
    } else {
        table::get(e, w)
    }) by {
        table::law_get_after_put(e, name, v, w);
    }
}

pub proof fn lemma_no_fields()
    ensures
        forall|w: Seq<char>| #[trigger] entry(Seq::empty(), w) is None,
        table::in_order(json::no_entries()),
        forall|w: Seq<char>| #[trigger] table::get(json::no_entries(), w) is None,
        forall|e: Seq<(Seq<char>, Json)>, w: Seq<char>|
            e.len() == 0 ==> #[trigger] table::get(e, w) is None,
{
}

/// A time is in seconds behind an `s` or with no letter, in minutes behind an
/// `m` and in hours behind an `h`.
pub proof fn law_time_has_its_unit(n: Seq<char>)
    requires
        is_word(n),
    ensures
        progress::time_of(n.push('s')) == number(Some(n), Unit::One),
        progress::time_of(n.push('m')) == number(Some(n), Unit::Minute),
        progress::time_of(n.push('h')) == number(Some(n), Unit::Hour),
        n.last() != 's' && n.last() != 'm' && n.last() != 'h' ==> progress::time_of(n) == number(
            Some(n),
            Unit::One,
        ),
{
    reveal_strlit("s");
    reveal_strlit("m");
    reveal_strlit("h");
    lemma_suffixed_word(n, 's');
    lemma_suffixed_word(n, 'm');
    lemma_suffixed_word(n, 'h');
    lemma_word_is_trimmed(n);
    lemma_one_char_end(n.push('s'), "s"@);
    lemma_one_char_end(n.push('m'), "m"@);
    lemma_one_char_end(n.push('h'), "h"@);
    assert(n.push('s').take(n.len() as int) =~= n);
    assert(n.push('m').take(n.len() as int) =~= n);
    assert(n.push('h').take(n.len() as int) =~= n);
    lemma_one_char_end(n.push('m'), "s"@);
    lemma_one_char_end(n.push('h'), "s"@);
    lemma_one_char_end(n.push('h'), "m"@);
    lemma_one_char_end(n, "s"@);
    lemma_one_char_end(n, "m"@);
    lemma_one_char_end(n, "h"@);
}

proof fn lemma_one_char_end(s: Seq<char>, end: Seq<char>)
    requires
        s.len() > 0,
        end.len() == 1,
    ensures
        chars::ends_with(s, end) <==> s.last() == end[0],
{
    let tail = s.subrange(s.len() - 1, s.len() as int);
    assert(tail[0] == s.last());
    if s.last() == end[0] {
        assert(tail =~= end);
    }
}

proof fn lemma_suffixed_word(n: Seq<char>, c: char)
    requires
        is_word(n),
        !chars::is_space(c),
    ensures
        chars::trimmed(n.push(c)) == n.push(c),
{
    let w = n.push(c);
    assert forall|i: int| 0 <= i < w.len() implies !chars::is_space(#[trigger] w[i]) by {
        if i < n.len() {
            assert(w[i] == n[i]);
        }
    }
    lemma_word_is_trimmed(w);
}

/// A gap is in percent, with the sign or without. A dash and an infinity are
/// none.
pub proof fn law_gap_is_in_percent(n: Seq<char>)
    requires
        is_word(n),
    ensures
        progress::gap_of(n.push('%')) == number(Some(n), Unit::Percent),
        n != "-"@ && chars::ascii_lowered(n) != "inf"@ && n.last() != '%' ==> progress::gap_of(n)
            == number(Some(n), Unit::Percent),
        progress::gap_of("-"@) is None,
        chars::ascii_lowered(n) == "inf"@ ==> progress::gap_of(n) is None,
{
    reveal_strlit("%");
    reveal_strlit("-");
    reveal_strlit("inf");
    let p = n.push('%');
    lemma_suffixed_word(n, '%');
    lemma_word_is_trimmed(n);
    lemma_one_char_end(p, "%"@);
    lemma_one_char_end(n, "%"@);
    assert(p.take(n.len() as int) =~= n);
    assert(p.last() == '%');
    assert(p != "-"@ && chars::ascii_lowered(p) != "inf"@) by {
        assert("-"@.last() == '-');
        assert(chars::ascii_lowered(p).last() == '%');
        assert("inf"@.last() == 'f');
    }
    lemma_word_is_trimmed("-"@);
}

/// A cell holds the number that is written in it; a dash is none.
pub proof fn law_cell_holds_its_number(n: Seq<char>)
    requires
        is_word(n),
    ensures
        progress::cell_of("-"@) is None,
        n != "-"@ ==> progress::cell_of(n) == number(Some(n), Unit::One),
{
    reveal_strlit("-");
    lemma_word_is_trimmed(n);
    lemma_word_is_trimmed("-"@);
}

/// What the marker of a row says.
pub proof fn law_markers(marker: char)
    ensures
        marker == 'H' || marker == 'h' ==> progress::event_of(marker) == Some(EventView::Heuristic),
        marker == '*' ==> progress::event_of(marker) == Some(EventView::BranchSolution),
        marker == ' ' || marker == '\t' ==> progress::event_of(marker) is None,
        marker != 'H' && marker != 'h' && marker != '*' && marker != ' ' && marker != '\t'
            ==> progress::event_of(marker) == Some(EventView::Other(seq![marker])),
{
}

/// A real literal is the number that it writes, in its own unit.
pub proof fn law_literal_is_its_number(s: Seq<char>, unit: Unit)
    ensures
        quantity::real_in(s, unit) == number(Some(s), unit),
        quantity::real_of(s) == number(Some(s), Unit::One),
        quantity::zero_real() == number_in("0"@, Unit::One),
{
}

} // verus!
