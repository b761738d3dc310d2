//! Free-form entries that several solvers report in the same way.

use crate::chars;
use crate::json;
use crate::json::{Entries, Json, JsonValue};
use crate::matching;
use crate::matching::{Captures, Groups};
use crate::numbers;
use crate::table;
use vstd::prelude::*;

verus! {

/// A range: the numbers between which something lies.
pub open spec fn range_of(low: Seq<char>, high: Seq<char>) -> Json {
    Json::Object(
        table::put(
            table::put(json::no_entries(), "min"@, json::real_or_text(chars::trimmed(low))),
            "max"@,
            json::real_or_text(chars::trimmed(high)),
        ),
    )
}

pub fn range(low: &[char], high: &[char]) -> (out: JsonValue)
    ensures
        json::json(out) == range_of(low@, high@),
{
    let mut e = Entries::new();
    e.put("min", json::number(chars::trim(low)));
    e.put("max", json::number(chars::trim(high)));
    e.object()
}

/// Named ranges: the name in group 1, in lower case if `lower`, and the two
/// ends in groups 2 and 3.
pub open spec fn ranges_of(ms: Seq<Groups>, lower: bool) -> Seq<(Seq<char>, Json)>
    decreases ms.len(),
{
    if ms.len() == 0 {
        json::no_entries()
    } else {
        let m = ms.last();
        let name = if lower {
            chars::lowercase(matching::part(m, 1))
        } else {
            matching::part(m, 1)
        };
        table::put(
            ranges_of(ms.drop_last(), lower),
            name,
            range_of(matching::part(m, 2), matching::part(m, 3)),
        )
    }
}

/// Collects named ranges.
pub fn collect_ranges(ms: &Vec<Captures>, lower: bool) -> (out: Option<JsonValue>)
    ensures
        json::opt_json(out) == json::object_of(ranges_of(matching::all_groups(ms@), lower)),
{
    let mut e = Entries::new();
    let mut i: usize = 0;
    let ghost all = matching::all_groups(ms@);
    while i < ms.len()
        invariant
            i <= ms@.len(),
            all == matching::all_groups(ms@),
            e@ == ranges_of(all.take(i as int), lower),
        decreases ms@.len() - i,
    {
        assert(all.take(i + 1).drop_last() =~= all.take(i as int));
        assert(all.take(i + 1).last() == ms@[i as int]@);
        let name = ms[i].part(1);
        let name = if lower {
            chars::to_lowercase(name.as_slice())
        } else {
            name
        };
        let name = chars::string_of(name.as_slice());
        let low = ms[i].part(2);
        let high = ms[i].part(3);
        e.put(name.as_str(), range(low.as_slice(), high.as_slice()));
        i = i + 1;
    }
    assert(all.take(i as int) =~= all);
    e.some_object()
}

/// Those of the words that write finite numbers.
pub open spec fn finite_numbers(words: Seq<Seq<char>>) -> Seq<Json>
    decreases words.len(),
{
    if words.len() == 0 {
        Seq::empty()
    } else {
        let before = finite_numbers(words.drop_last());
        if numbers::is_finite(words.last()) {
            before.push(Json::Real(words.last()))
        } else {
            before
        }
    }
}

/// Collects the words that write finite numbers.
pub fn collect_finite(words: &Vec<&[char]>) -> (out: Vec<JsonValue>)
    ensures
        json::jsons(out@) == finite_numbers(chars::views(words@)),
{
    let mut out: Vec<JsonValue> = Vec::new();
    let mut i: usize = 0;
    let ghost all = chars::views(words@);
    assert(json::jsons(out@) =~= Seq::empty());
    while i < words.len()
        invariant
            i <= words@.len(),
            all == chars::views(words@),
            json::jsons(out@) == finite_numbers(all.take(i as int)),
        decreases words@.len() - i,
    {
        assert(all.take(i + 1).drop_last() =~= all.take(i as int));
        assert(all.take(i + 1).last() == words@[i as int]@);
        if numbers::finite(words[i]) {
            let v = JsonValue::Real(chars::string_of(words[i]));
            proof {
                json::lemma_jsons_push(out@, v);
            }
            out.push(v);
        }
        i = i + 1;
    }
    assert(all.take(i as int) =~= all);
    out
}

/// The texts of one group of the matches.
pub open spec fn column(ms: Seq<Groups>, i: int) -> Seq<Seq<char>> {
    Seq::new(ms.len(), |k: int| matching::part(ms[k], i))
}

/// Those of the matches whose group 1 writes a finite number, as numbers.
pub fn collect_finite_matches(ms: &Vec<Captures>) -> (out: Option<JsonValue>)
    ensures
        json::opt_json(out) == json::array_of(
            finite_numbers(column(matching::all_groups(ms@), 1)),
        ),
{
    let mut out: Vec<JsonValue> = Vec::new();
    let mut i: usize = 0;
    let ghost all = column(matching::all_groups(ms@), 1);
    assert(json::jsons(out@) =~= Seq::empty());
    while i < ms.len()
        invariant
            i <= ms@.len(),
            all == column(matching::all_groups(ms@), 1),
            json::jsons(out@) == finite_numbers(all.take(i as int)),
        decreases ms@.len() - i,
    {
        assert(all.take(i + 1).drop_last() =~= all.take(i as int));
        let s = ms[i].part(1);
        assert(all.take(i + 1).last() == s@);
        if numbers::finite(s.as_slice()) {
            let v = JsonValue::Real(chars::string_of(s.as_slice()));
            proof {
                json::lemma_jsons_push(out@, v);
            }
            out.push(v);
        }
        i = i + 1;
    }
    assert(all.take(i as int) =~= all);
    json::some_array(out)
}

/// The number that group `i` writes, if it is finite.
pub open spec fn finite_at(m: Option<Groups>, i: int) -> Option<Json> {
    match matching::text_at(m, i) {
        Some(s) => if numbers::is_finite(s) {
            Some(Json::Real(s))
        } else {
            None
        },
        None => None,
    }
}

pub fn finite_entry(m: &Option<Captures>, i: usize) -> (out: Option<JsonValue>)
    ensures
        json::opt_json(out) == finite_at(matching::opt_groups(*m), i as int),
{
    match matching::found(m, i) {
        Some(s) => if numbers::finite(s.as_slice()) {
            Some(JsonValue::Real(chars::string_of(s.as_slice())))
        } else {
            None
        },
        None => None,
    }
}

/// The text of group `i`.
pub open spec fn text_entry_at(m: Option<Groups>, i: int) -> Option<Json> {
    match matching::text_at(m, i) {
        Some(s) => Some(Json::Text(s)),
        None => None,
    }
}

pub fn text_entry(m: &Option<Captures>, i: usize) -> (out: Option<JsonValue>)
    ensures
        json::opt_json(out) == text_entry_at(matching::opt_groups(*m), i as int),
{
    match matching::found(m, i) {
        Some(s) => Some(json::text(s.as_slice())),
        None => None,
    }
}

/// A number, or else text, without the spaces around it.
pub open spec fn value_of(s: Seq<char>) -> Json {
    json::real_or_text(chars::trimmed(s))
}

pub fn value(s: &[char]) -> (out: JsonValue)
    ensures
        json::json(out) == value_of(s@),
{
    json::number(chars::trim(s))
}

/// The number or text in group `i`.
pub open spec fn value_at(m: Option<Groups>, i: int) -> Option<Json> {
    match m {
        Some(g) => Some(value_of(matching::part(g, i))),
        None => None,
    }
}

pub fn value_entry(m: &Option<Captures>, i: usize) -> (out: Option<JsonValue>)
    ensures
        json::opt_json(out) == value_at(matching::opt_groups(*m), i as int),
{
    match m {
        Some(c) => {
            let s = c.part(i);
            Some(value(s.as_slice()))
        },
        None => None,
    }
}

/// How the text of a group becomes a value.
#[derive(Clone, Copy, PartialEq, Eq, Structural)]
pub enum Kind {
    /// The text itself.
    Text,
    /// The text without the spaces around it.
    Trimmed,
    /// A number, or else text.
    Number,
    /// A number, or else text, without the spaces around it.
    Value,
    /// A count, zero where it is none.
    Count,
    /// A count, null where it is none.
    CountOrNull,
}

pub open spec fn as_kind(s: Seq<char>, kind: Kind) -> Json {
    match kind {
        Kind::Text => Json::Text(s),
        Kind::Trimmed => Json::Text(chars::trimmed(s)),
        Kind::Number => json::real_or_text(s),
        Kind::Value => value_of(s),
        Kind::Count => json::count_or_zero(s),
        Kind::CountOrNull => json::count_or_null(s),
    }
}

pub fn make_kind(s: &[char], kind: Kind) -> (out: JsonValue)
    ensures
        json::json(out) == as_kind(s@, kind),
{
    match kind {
        Kind::Text => json::text(s),
        Kind::Trimmed => json::text(chars::trim(s)),
        Kind::Number => json::number(s),
        Kind::Value => value(s),
        Kind::Count => json::count(s),
        Kind::CountOrNull => json::some_count(s),
    }
}

/// The entries with group `i` of a match under `name`.
pub open spec fn with_group(
    e: Seq<(Seq<char>, Json)>,
    m: Groups,
    i: int,
    name: Seq<char>,
    kind: Kind,
) -> Seq<(Seq<char>, Json)> {
    table::put(e, name, as_kind(matching::part(m, i), kind))
}

/// Puts group `i` of a match under `name`.
pub fn put_group(e: &mut Entries, m: &Captures, i: usize, name: &str, kind: Kind)
    ensures
        final(e)@ == with_group(old(e)@, m@, i as int, name@, kind),
{
    let s = m.part(i);
    e.put(name, make_kind(s.as_slice(), kind));
}

/// The entries with group `i` of what was found under `name`; unchanged, if
/// nothing was found.
pub open spec fn with_found(
    e: Seq<(Seq<char>, Json)>,
    m: Option<Groups>,
    i: int,
    name: Seq<char>,
    kind: Kind,
) -> Seq<(Seq<char>, Json)> {
    match m {
        Some(g) => with_group(e, g, i, name, kind),
        None => e,
    }
}

/// Puts group `i` of what was found under `name`.
pub fn put_found(e: &mut Entries, m: &Option<Captures>, i: usize, name: &str, kind: Kind)
    ensures
        final(e)@ == with_found(old(e)@, matching::opt_groups(*m), i as int, name@, kind),
{
    if let Some(c) = m {
        put_group(e, c, i, name, kind);
    }
}

/// The last match, if there is one.
pub open spec fn last_of(ms: Seq<Groups>) -> Option<Groups> {
    if ms.len() > 0 {
        Some(ms.last())
    } else {
        None
    }
}

/// Takes the last match out of a list.
pub fn take_last(ms: Vec<Captures>) -> (out: Option<Captures>)
    ensures
        matching::opt_groups(out) == last_of(matching::all_groups(ms@)),
{
    let mut ms = ms;
    let ghost all = matching::all_groups(ms@);
    let out = ms.pop();
    assert(all.len() > 0 ==> out is Some && all.last() == out->Some_0@);
    out
}

} // verus!
