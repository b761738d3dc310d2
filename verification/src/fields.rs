//! The lines of a document: values behind their labels.

use crate::chars;
use crate::schema;
use vstd::prelude::*;
use vstd::slice::slice_subrange;

verus! {

/// A value of a line.
pub enum Value {
    /// A word that stands for itself.
    Bare(String),
    /// A text in quotes.
    Quoted(String),
}

/// What a [`Value`] holds.
pub enum ValueView {
    Bare(Seq<char>),
    Quoted(Seq<char>),
}

impl View for Value {
    type V = ValueView;

    open spec fn view(&self) -> ValueView {
        match self {
            Value::Bare(w) => ValueView::Bare(w@),
            Value::Quoted(q) => ValueView::Quoted(q@),
        }
    }
}

/// What a list of values holds.
pub open spec fn values_of(v: Seq<Value>) -> Seq<ValueView> {
    Seq::new(v.len(), |i: int| v[i]@)
}

/// The characters of a word.
pub open spec fn in_word(c: char) -> bool {
    ('a' <= c && c <= 'z') || ('A' <= c && c <= 'Z') || ('0' <= c && c <= '9') || c == '.' || c
        == '_' || c == '/' || c == ':' || c == '+' || c == '-'
}

/// A word goes no further than `c`. Where `slash` is set, a slash ends it too.
pub open spec fn ends_word(c: char, slash: bool) -> bool {
    !in_word(c) || (slash && c == '/')
}

/// The length of the word at the front.
pub open spec fn word_end(s: Seq<char>, slash: bool) -> nat
    decreases s.len(),
{
    if s.len() == 0 || ends_word(s[0], slash) {
        0
    } else {
        1 + word_end(s.skip(1), slash)
    }
}

/// The text up to the closing quote, and what stands behind the quote. In the
/// text, `\\` and `\"` stand for a backslash and a quote.
pub open spec fn unquoted(s: Seq<char>) -> Option<(Seq<char>, Seq<char>)>
    decreases s.len(),
{
    if s.len() == 0 {
        None
    } else if s[0] == '"' {
        Some((Seq::empty(), s.skip(1)))
    } else if s[0] == '\\' {
        if s.len() >= 2 && (s[1] == '\\' || s[1] == '"') {
            match unquoted(s.skip(2)) {
                Some((t, rest)) => Some((seq![s[1]] + t, rest)),
                None => None,
            }
        } else {
            None
        }
    } else {
        match unquoted(s.skip(1)) {
            Some((t, rest)) => Some((seq![s[0]] + t, rest)),
            None => None,
        }
    }
}

/// The value at the front, and what stands behind it.
pub open spec fn value_at(s: Seq<char>, slash: bool) -> Option<(ValueView, Seq<char>)> {
    if s.len() > 0 && s[0] == '"' {
        match unquoted(s.skip(1)) {
            Some((t, rest)) => Some((ValueView::Quoted(t), rest)),
            None => None,
        }
    } else {
        let n = word_end(s, slash) as int;
        if n == 0 {
            None
        } else {
            Some((ValueView::Bare(s.take(n)), s.skip(n)))
        }
    }
}

/// The values at the front, each behind its label, and what stands behind
/// the last one.
pub open spec fn fields_at(s: Seq<char>, labels: Seq<Seq<char>>, slash: bool) -> Option<
    (Seq<ValueView>, Seq<char>),
>
    decreases labels.len(),
{
    if labels.len() == 0 {
        Some((Seq::empty(), s))
    } else {
        match chars::after_prefix(s, labels[0]) {
            Some(from) => match value_at(from, slash) {
                Some((v, rest)) => match fields_at(rest, labels.skip(1), slash) {
                    Some((more, end)) => Some((seq![v] + more, end)),
                    None => None,
                },
                None => None,
            },
            None => None,
        }
    }
}

/// The values of a line that holds nothing else.
pub open spec fn fields(s: Seq<char>, labels: Seq<Seq<char>>, slash: bool) -> Option<
    Seq<ValueView>,
> {
    match fields_at(s, labels, slash) {
        Some((values, end)) => if end.len() == 0 {
            Some(values)
        } else {
            None
        },
        None => None,
    }
}

pub fn is_in_word(c: char) -> (out: bool)
    ensures
        out == in_word(c),
{
    ('a' <= c && c <= 'z') || ('A' <= c && c <= 'Z') || ('0' <= c && c <= '9') || c == '.' || c
        == '_' || c == '/' || c == ':' || c == '+' || c == '-'
}

fn find_word_end(s: &[char], start: usize, slash: bool) -> (end: usize)
    requires
        start <= s@.len(),
    ensures
        end == start + word_end(s@.skip(start as int), slash),
        end <= s@.len(),
{
    let mut i: usize = start;
    while i < s.len() && is_in_word(s[i]) && !(slash && s[i] == '/')
        invariant
            start <= i <= s@.len(),
            start + word_end(s@.skip(start as int), slash) == i + word_end(
                s@.skip(i as int),
                slash,
            ),
        decreases s@.len() - i,
    {
        assert(s@.skip(i as int).skip(1) =~= s@.skip(i + 1));
        i = i + 1;
    }
    i
}

/// Reads a text up to its closing quote. `start` is behind the opening one.
fn take_quoted(s: &[char], start: usize) -> (out: Option<(Vec<char>, usize)>)
    requires
        start <= s@.len(),
    ensures
        out matches Some((_, end)) ==> end <= s@.len(),
        unquoted(s@.skip(start as int)) == (match out {
            Some((t, end)) => Some((t@, s@.skip(end as int))),
            None => None,
        }),
{
    let ghost goal = unquoted(s@.skip(start as int));
    let mut text: Vec<char> = Vec::new();
    let mut i: usize = start;
    proof {
        if let Some((t, rest)) = goal {
            assert(Seq::<char>::empty() + t =~= t);
        }
    }
    while i < s.len()
        invariant
            start <= i <= s@.len(),
            goal == unquoted(s@.skip(start as int)),
            goal == (match unquoted(s@.skip(i as int)) {
                Some((t, rest)) => Some((text@ + t, rest)),
                None => None,
            }),
        decreases s@.len() - i,
    {
        let ghost rest = s@.skip(i as int);
        let c = s[i];
        assert(rest[0] == c);
        assert(rest.skip(1) =~= s@.skip(i + 1));
        if c == '"' {
            assert(text@ + Seq::<char>::empty() =~= text@);
            return Some((text, i + 1));
        }
        let ghost before = text@;
        if c == '\\' {
            if s.len() - i < 2 || (s[i + 1] != '\\' && s[i + 1] != '"') {
                return None;
            }
            text.push(s[i + 1]);
            assert(rest.skip(2) =~= s@.skip(i + 2));
            i = i + 2;
        } else {
            text.push(c);
            i = i + 1;
        }
        proof {
            if let Some((t, end)) = unquoted(s@.skip(i as int)) {
                assert(before + (seq![text@.last()] + t) =~= text@ + t);
            }
        }
    }
    assert(s@.skip(i as int) =~= Seq::empty());
    None
}

/// Reads the value at `start`.
fn take_value(s: &[char], start: usize, slash: bool) -> (out: Option<(Value, usize)>)
    requires
        start <= s@.len(),
    ensures
        out matches Some((_, end)) ==> end <= s@.len(),
        value_at(s@.skip(start as int), slash) == (match out {
            Some((v, end)) => Some((v@, s@.skip(end as int))),
            None => None,
        }),
{
    let ghost rest = s@.skip(start as int);
    if start < s.len() && s[start] == '"' {
        assert(rest.skip(1) =~= s@.skip(start + 1));
        match take_quoted(s, start + 1) {
            Some((t, end)) => Some((Value::Quoted(chars::string_of(t.as_slice())), end)),
            None => None,
        }
    } else {
        let end: usize = find_word_end(s, start, slash);
        if end == start {
            None
        } else {
            let word = slice_subrange(s, start, end);
            assert(word@ =~= rest.take(end - start));
            assert(rest.skip(end - start) =~= s@.skip(end as int));
            Some((Value::Bare(chars::string_of(word)), end))
        }
    }
}

/// Reads values from `start` on, each behind its label.
pub fn take_fields(s: &[char], start: usize, labels: &[&'static str], slash: bool) -> (out: Option<
    (Vec<Value>, usize),
>)
    requires
        start <= s@.len(),
    ensures
        out matches Some((values, end)) ==> start <= end <= s@.len(),
        fields_at(s@.skip(start as int), schema::strs(labels@), slash) == (match out {
            Some((values, end)) => Some((values_of(values@), s@.skip(end as int))),
            None => None,
        }),
{
    let ghost all = schema::strs(labels@);
    let ghost goal = fields_at(s@.skip(start as int), all, slash);
    let mut values: Vec<Value> = Vec::new();
    let mut at: usize = start;
    let mut i: usize = 0;
    assert(all.skip(0) =~= all);
    proof {
        if let Some((vs, rest)) = goal {
            assert(values_of(values@) + vs =~= vs);
        }
    }
    while i < labels.len()
        invariant
            i <= labels@.len(),
            at <= s@.len(),
            start <= at,
            all == schema::strs(labels@),
            goal == fields_at(s@.skip(start as int), all, slash),
            goal == (match fields_at(s@.skip(at as int), all.skip(i as int), slash) {
                Some((vs, rest)) => Some((values_of(values@) + vs, rest)),
                None => None,
            }),
        decreases labels@.len() - i,
    {
        let here = slice_subrange(s, at, s.len());
        assert(here@ =~= s@.skip(at as int));
        assert(all.skip(i as int)[0] == labels@[i as int]@);
        assert(all.skip(i as int).skip(1) =~= all.skip(i + 1));
        let after = match chars::strip_front(here, labels[i]) {
            Some(after) => after,
            None => {
                return None;
            },
        };
        let from: usize = s.len() - after.len();
        assert(s@.skip(from as int) =~= after@);
        match take_value(s, from, slash) {
            Some((v, end)) => {
                let ghost before = values_of(values@);
                let ghost w = v@;
                values.push(v);
                assert(values_of(values@) =~= before.push(w));
                proof {
                    if let Some((vs, rest)) = fields_at(
                        s@.skip(end as int),
                        all.skip(i + 1),
                        slash,
                    ) {
                        assert(before + (seq![w] + vs) =~= values_of(values@) + vs);
                    }
                    lemma_value_moves_on(s@.skip(from as int), slash);
                }
                at = end;
            },
            None => {
                return None;
            },
        }
        i = i + 1;
    }
    assert(all.skip(i as int) =~= Seq::empty());
    assert(values_of(values@) + Seq::<ValueView>::empty() =~= values_of(values@));
    Some((values, at))
}

/// Reads the values of a line that holds nothing else.
pub fn read_fields(s: &[char], labels: &[&'static str], slash: bool) -> (out: Option<Vec<Value>>)
    ensures
        fields(s@, schema::strs(labels@), slash) == (match out {
            Some(values) => Some(values_of(values@)),
            None => None,
        }),
        out matches Some(values) ==> values@.len() == labels@.len(),
{
    assert(s@.skip(0) =~= s@);
    proof {
        lemma_field_count(s@, schema::strs(labels@), slash);
    }
    match take_fields(s, 0, labels, slash) {
        Some((values, end)) => {
            if end == s.len() {
                Some(values)
            } else {
                None
            }
        },
        None => None,
    }
}

/// What stands behind a text is a part of what it was read from.
proof fn lemma_unquoted_moves_on(s: Seq<char>)
    ensures
        unquoted(s) matches Some((t, rest)) ==> rest.len() < s.len(),
    decreases s.len(),
{
    if s.len() > 0 {
        lemma_unquoted_moves_on(s.skip(1));
        if s.len() > 1 {
            lemma_unquoted_moves_on(s.skip(2));
        }
    }
}

/// A value takes at least one character.
proof fn lemma_value_moves_on(s: Seq<char>, slash: bool)
    ensures
        value_at(s, slash) matches Some((v, rest)) ==> rest.len() < s.len(),
{
    if s.len() > 0 {
        lemma_unquoted_moves_on(s.skip(1));
    }
    lemma_word_end(s, slash);
}

proof fn lemma_word_end(s: Seq<char>, slash: bool)
    ensures
        word_end(s, slash) <= s.len(),
    decreases s.len(),
{
    if s.len() > 0 {
        lemma_word_end(s.skip(1), slash);
    }
}

/// There is one value for each label.
pub proof fn lemma_field_count(s: Seq<char>, labels: Seq<Seq<char>>, slash: bool)
    ensures
        fields_at(s, labels, slash) matches Some((values, rest)) ==> values.len() == labels.len()
            && rest.len() <= s.len(),
    decreases labels.len(),
{
    if labels.len() > 0 {
        if let Some(from) = chars::after_prefix(s, labels[0]) {
            lemma_value_moves_on(from, slash);
            if let Some((v, rest)) = value_at(from, slash) {
                lemma_field_count(rest, labels.skip(1), slash);
            }
        }
    }
}

/// A character as it is written between quotes.
pub open spec fn escape_mark(c: char) -> Seq<char> {
    if c == '"' || c == '\\' {
        seq!['\\', c]
    } else {
        seq![c]
    }
}

/// A text as it is written between quotes.
pub open spec fn quotable(s: Seq<char>) -> Seq<char>
    decreases s.len(),
{
    if s.len() == 0 {
        Seq::empty()
    } else {
        escape_mark(s[0]) + quotable(s.skip(1))
    }
}

/// A value as it is written.
pub open spec fn written(v: ValueView) -> Seq<char> {
    match v {
        ValueView::Bare(w) => w,
        ValueView::Quoted(q) => seq!['"'] + quotable(q) + seq!['"'],
    }
}

/// Values as they are written, each behind its label.
pub open spec fn written_fields(labels: Seq<Seq<char>>, values: Seq<ValueView>) -> Seq<char>
    decreases labels.len(),
{
    if labels.len() == 0 {
        Seq::empty()
    } else {
        labels[0] + written(values[0]) + written_fields(labels.skip(1), values.skip(1))
    }
}

/// Writes a value behind `out`.
fn write_value(out: &mut Vec<char>, v: &Value)
    ensures
        final(out)@ == old(out)@ + written(v@),
{
    let ghost start = out@;
    match v {
        Value::Bare(w) => chars::append(out, w.as_str()),
        Value::Quoted(q) => {
            let all = chars::chars_of(q.as_str());
            out.push('"');
            let mut i: usize = 0;
            let ghost goal = start + (seq!['"'] + quotable(q@));
            assert(all@.skip(0) =~= q@);
            assert(out@ + quotable(q@) =~= goal);
            while i < all.len()
                invariant
                    i <= all@.len(),
                    out@ + quotable(all@.skip(i as int)) == goal,
                decreases all@.len() - i,
            {
                let ghost before = out@;
                let c = all[i];
                if c == '"' || c == '\\' {
                    out.push('\\');
                }
                out.push(c);
                assert(all@.skip(i as int).skip(1) =~= all@.skip(i + 1));
                assert(before + (escape_mark(c) + quotable(all@.skip(i + 1))) =~= out@ + quotable(
                    all@.skip(i + 1),
                ));
                i = i + 1;
            }
            assert(all@.skip(i as int) =~= Seq::empty());
            assert(out@ =~= goal);
            out.push('"');
            assert(out@ =~= start + written(v@));
        },
    }
}

/// Writes values behind `out`, each behind its label.
pub fn write_fields(out: &mut Vec<char>, labels: &[&'static str], values: &Vec<Value>)
    requires
        labels@.len() == values@.len(),
    ensures
        final(out)@ == old(out)@ + written_fields(schema::strs(labels@), values_of(values@)),
{
    let ghost all = schema::strs(labels@);
    let ghost vs = values_of(values@);
    let ghost goal = out@ + written_fields(all, vs);
    let mut i: usize = 0;
    assert(all.skip(0) =~= all);
    assert(vs.skip(0) =~= vs);
    while i < labels.len()
        invariant
            i <= labels@.len(),
            labels@.len() == values@.len(),
            all == schema::strs(labels@),
            vs == values_of(values@),
            out@ + written_fields(all.skip(i as int), vs.skip(i as int)) == goal,
        decreases labels@.len() - i,
    {
        let ghost before = out@;
        let ghost more = written_fields(all.skip(i + 1), vs.skip(i + 1));
        chars::append(out, labels[i]);
        write_value(out, &values[i]);
        assert(all.skip(i as int).skip(1) =~= all.skip(i + 1));
        assert(vs.skip(i as int).skip(1) =~= vs.skip(i + 1));
        assert(all.skip(i as int)[0] == labels@[i as int]@);
        assert(vs.skip(i as int)[0] == values@[i as int]@);
        assert(before + (labels@[i as int]@ + written(values@[i as int]@) + more) =~= out@ + more);
        i = i + 1;
    }
    assert(all.skip(i as int) =~= Seq::empty());
    assert(out@ + Seq::<char>::empty() =~= out@);
}

/// A value that can be told from what stands behind it.
pub open spec fn is_proper(v: ValueView, slash: bool) -> bool {
    match v {
        ValueView::Bare(w) => w.len() > 0 && forall|i: int|
            0 <= i < w.len() ==> !ends_word(#[trigger] w[i], slash),
        ValueView::Quoted(_) => true,
    }
}

/// What can stand behind a value.
pub open spec fn ends_value(rest: Seq<char>, slash: bool) -> bool {
    rest.len() == 0 || ends_word(rest[0], slash)
}

proof fn lemma_word_end_of(w: Seq<char>, rest: Seq<char>, slash: bool)
    requires
        forall|i: int| 0 <= i < w.len() ==> !ends_word(#[trigger] w[i], slash),
        ends_value(rest, slash),
    ensures
        word_end(w + rest, slash) == w.len(),
    decreases w.len(),
{
    if w.len() == 0 {
        assert(w + rest =~= rest);
    } else {
        assert((w + rest)[0] == w[0]);
        assert((w + rest).skip(1) =~= w.skip(1) + rest);
        assert forall|i: int| 0 <= i < w.skip(1).len() implies !ends_word(
            #[trigger] w.skip(1)[i],
            slash,
        ) by {
            assert(w.skip(1)[i] == w[i + 1]);
        }
        lemma_word_end_of(w.skip(1), rest, slash);
    }
}

proof fn lemma_unquoted_of(q: Seq<char>, rest: Seq<char>)
    ensures
        unquoted(quotable(q) + seq!['"'] + rest) == Some((q, rest)),
    decreases q.len(),
{
    let s = quotable(q) + seq!['"'] + rest;
    if q.len() == 0 {
        assert(s[0] == '"');
        assert(s.skip(1) =~= rest);
        assert(q =~= Seq::empty());
    } else {
        let c = q[0];
        let more = quotable(q.skip(1)) + seq!['"'] + rest;
        lemma_unquoted_of(q.skip(1), rest);
        assert(seq![c] + q.skip(1) =~= q);
        if c == '"' || c == '\\' {
            assert(s[0] == '\\' && s[1] == c);
            assert(s.skip(2) =~= more);
        } else {
            assert(s[0] == c);
            assert(s.skip(1) =~= more);
        }
    }
}

proof fn lemma_value_of(v: ValueView, rest: Seq<char>, slash: bool)
    requires
        is_proper(v, slash),
        ends_value(rest, slash),
    ensures
        value_at(written(v) + rest, slash) == Some((v, rest)),
{
    let s = written(v) + rest;
    match v {
        ValueView::Bare(w) => {
            lemma_word_end_of(w, rest, slash);
            assert(s[0] == w[0]);
            assert(s.take(w.len() as int) =~= w);
            assert(s.skip(w.len() as int) =~= rest);
        },
        ValueView::Quoted(q) => {
            lemma_unquoted_of(q, rest);
            assert(s[0] == '"');
            assert(s.skip(1) =~= quotable(q) + seq!['"'] + rest);
        },
    }
}

/// Labels that end the values before them.
pub open spec fn labels_part(labels: Seq<Seq<char>>, slash: bool) -> bool {
    forall|i: int|
        1 <= i < labels.len() ==> (#[trigger] labels[i]).len() > 0 && ends_word(
            labels[i][0],
            slash,
        )
}

pub open spec fn all_proper(values: Seq<ValueView>, slash: bool) -> bool {
    forall|i: int| 0 <= i < values.len() ==> is_proper(#[trigger] values[i], slash)
}

/// What is written is read back.
pub proof fn lemma_fields_of(
    labels: Seq<Seq<char>>,
    values: Seq<ValueView>,
    rest: Seq<char>,
    slash: bool,
)
    requires
        labels.len() == values.len(),
        labels_part(labels, slash),
        all_proper(values, slash),
        ends_value(rest, slash),
    ensures
        fields_at(written_fields(labels, values) + rest, labels, slash) == Some((values, rest)),
    decreases labels.len(),
{
    let s = written_fields(labels, values) + rest;
    if labels.len() == 0 {
        assert(s =~= rest);
        assert(values =~= Seq::empty());
    } else {
        let more = written_fields(labels.skip(1), values.skip(1)) + rest;
        let from = written(values[0]) + more;
        assert(s =~= labels[0] + from);
        assert(s.take(labels[0].len() as int) =~= labels[0]);
        assert(s.skip(labels[0].len() as int) =~= from);
        assert forall|i: int| 1 <= i < labels.skip(1).len() implies (#[trigger] labels.skip(
            1,
        )[i]).len() > 0 && ends_word(labels.skip(1)[i][0], slash) by {
            assert(labels.skip(1)[i] == labels[i + 1]);
        }
        assert forall|i: int| 0 <= i < values.skip(1).len() implies is_proper(
            #[trigger] values.skip(1)[i],
            slash,
        ) by {
            assert(values.skip(1)[i] == values[i + 1]);
        }
        lemma_fields_of(labels.skip(1), values.skip(1), rest, slash);
        assert(ends_value(more, slash)) by {
            if labels.len() > 1 {
                assert(labels.skip(1)[0] == labels[1]);
                assert(more[0] == labels[1][0]);
            } else {
                assert(more =~= rest);
            }
        }
        lemma_value_of(values[0], more, slash);
        assert(seq![values[0]] + values.skip(1) =~= values);
    }
}

} // verus!
