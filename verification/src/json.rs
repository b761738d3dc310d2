//! Free-form values for what the common schema has no field for.

use crate::chars;
use crate::numbers;
use crate::table;
use vstd::prelude::*;

verus! {

/// A value in the shape of a JSON document. Numbers that are not counts keep
/// the characters they were written with.
#[derive(Debug, PartialEq)]
pub enum JsonValue {
    Null,
    Bool(bool),
    Count(u64),
    Integer(i64),
    Real(String),
    Text(String),
    Array(Vec<JsonValue>),
    Object(Vec<(String, JsonValue)>),
}

/// What a [`JsonValue`] holds. The entries of an object stand in the order of
/// their names.
pub enum Json {
    Null,
    Bool(bool),
    Count(u64),
    Integer(i64),
    Real(Seq<char>),
    Text(Seq<char>),
    Array(Seq<Json>),
    Object(Seq<(Seq<char>, Json)>),
}

/// What the value holds.
pub open spec fn json(v: JsonValue) -> Json
    decreases v,
{
    match v {
        JsonValue::Null => Json::Null,
        JsonValue::Bool(b) => Json::Bool(b),
        JsonValue::Count(n) => Json::Count(n),
        JsonValue::Integer(n) => Json::Integer(n),
        JsonValue::Real(s) => Json::Real(s@),
        JsonValue::Text(s) => Json::Text(s@),
        JsonValue::Array(a) => Json::Array(
            Seq::new(
                a@.len(),
                |i: int|
                    if 0 <= i < a@.len() {
                        json(a@[i])
                    } else {
                        Json::Null
                    },
            ),
        ),
        JsonValue::Object(o) => Json::Object(
            Seq::new(
                o@.len(),
                |i: int|
                    if 0 <= i < o@.len() {
                        (o@[i].0@, json(o@[i].1))
                    } else {
                        (Seq::empty(), Json::Null)
                    },
            ),
        ),
    }
}

impl View for JsonValue {
    type V = Json;

    open spec fn view(&self) -> Json {
        json(*self)
    }
}

impl Clone for JsonValue {
    fn clone(&self) -> (out: JsonValue)
        ensures
            out@ == self@,
        decreases self,
    {
        match self {
            JsonValue::Null => JsonValue::Null,
            JsonValue::Bool(b) => JsonValue::Bool(*b),
            JsonValue::Count(n) => JsonValue::Count(*n),
            JsonValue::Integer(n) => JsonValue::Integer(*n),
            JsonValue::Real(s) => JsonValue::Real(s.clone()),
            JsonValue::Text(s) => JsonValue::Text(s.clone()),
            JsonValue::Array(items) => {
                let mut out: Vec<JsonValue> = Vec::new();
                let mut i: usize = 0;
                while i < items.len()
                    invariant
                        i <= items@.len(),
                        *self == JsonValue::Array(*items),
                        out@.len() == i,
                        forall|j: int| 0 <= j < i ==> json(#[trigger] out@[j]) == json(items@[j]),
                    decreases items@.len() - i,
                {
                    let item = &items[i];
                    assert(decreases_to!(*self => self->Array_0));
                    assert(decreases_to!(*items => items@));
                    assert(decreases_to!(items@ => items@[i as int]));
                    out.push(item.clone());
                    i = i + 1;
                }
                let out = JsonValue::Array(out);
                assert(json(out)->Array_0 =~= json(*self)->Array_0);
                out
            },
            JsonValue::Object(entries) => {
                let mut out: Vec<(String, JsonValue)> = Vec::new();
                let mut i: usize = 0;
                while i < entries.len()
                    invariant
                        i <= entries@.len(),
                        *self == JsonValue::Object(*entries),
                        out@.len() == i,
                        forall|j: int|
                            0 <= j < i ==> (#[trigger] out@[j]).0@ == entries@[j].0@ && json(
                                out@[j].1,
                            ) == json(entries@[j].1),
                    decreases entries@.len() - i,
                {
                    let entry = &entries[i];
                    assert(decreases_to!(*self => self->Object_0));
                    assert(decreases_to!(*entries => entries@));
                    assert(decreases_to!(entries@ => entries@[i as int]));
                    assert(decreases_to!(entries@[i as int] => entries@[i as int].1));
                    out.push((entry.0.clone(), entry.1.clone()));
                    i = i + 1;
                }
                let out = JsonValue::Object(out);
                assert(json(out)->Object_0 =~= json(*self)->Object_0);
                out
            },
        }
    }
}

/// What a list of values holds.
pub open spec fn jsons(v: Seq<JsonValue>) -> Seq<Json> {
    Seq::new(v.len(), |i: int| json(v[i]))
}

/// What a list of named values holds.
pub open spec fn named(v: Seq<(String, JsonValue)>) -> Seq<(Seq<char>, Json)> {
    Seq::new(v.len(), |i: int| (v[i].0@, json(v[i].1)))
}

pub open spec fn opt_json(o: Option<JsonValue>) -> Option<Json> {
    match o {
        Some(v) => Some(json(v)),
        None => None,
    }
}

/// An object, or nothing where it would be empty.
pub open spec fn object_of(entries: Seq<(Seq<char>, Json)>) -> Option<Json> {
    if entries.len() > 0 {
        Some(Json::Object(entries))
    } else {
        None
    }
}

/// An array, or nothing where it would be empty.
pub open spec fn array_of(items: Seq<Json>) -> Option<Json> {
    if items.len() > 0 {
        Some(Json::Array(items))
    } else {
        None
    }
}

/// A finite number as a number, anything else as text.
pub open spec fn real_or_text(s: Seq<char>) -> Json {
    if numbers::is_finite(s) {
        Json::Real(s)
    } else {
        Json::Text(s)
    }
}

/// A count; zero where there is none.
pub open spec fn count_or_zero(s: Seq<char>) -> Json {
    match numbers::u64_of(s) {
        Some(n) => Json::Count(n),
        None => Json::Count(0),
    }
}

/// A count; null where there is none.
pub open spec fn count_or_null(s: Seq<char>) -> Json {
    match numbers::u64_of(s) {
        Some(n) => Json::Count(n),
        None => Json::Null,
    }
}

pub open spec fn no_entries() -> Seq<(Seq<char>, Json)> {
    Seq::empty()
}

/// Named values in the order of their names, to become an object.
pub struct Entries {
    pub list: Vec<(String, JsonValue)>,
}

impl View for Entries {
    type V = Seq<(Seq<char>, Json)>;

    open spec fn view(&self) -> Seq<(Seq<char>, Json)> {
        named(self.list@)
    }
}

impl Entries {
    pub fn new() -> (out: Entries)
        ensures
            out@ == no_entries(),
    {
        let out = Entries { list: Vec::new() };
        assert(out@ =~= no_entries());
        out
    }

    /// The place of `name`: how many names come before it.
    fn place(&self, name: &[char]) -> (out: usize)
        ensures
            out == table::rank(self@, name@),
            out <= self.list@.len(),
    {
        let mut i: usize = 0;
        assert(self@.skip(0) =~= self@);
        while i < self.list.len()
            invariant
                i <= self.list@.len(),
                table::rank(self@, name@) == i + table::rank(self@.skip(i as int), name@),
            decreases self.list@.len() - i,
        {
            let key = chars::chars_of(self.list[i].0.as_str());
            if !table::comes_before(key.as_slice(), name) {
                return i;
            }
            assert(self@.skip(i as int).skip(1) =~= self@.skip(i + 1));
            i = i + 1;
        }
        i
    }

    /// Sets the value under `name`.
    pub fn put(&mut self, name: &str, value: JsonValue)
        ensures
            final(self)@ == table::put(old(self)@, name@, json(value)),
    {
        let key = chars::chars_of(name);
        let i: usize = self.place(key.as_slice());
        let ghost before = self@;
        let ghost v = json(value);
        let entry = (name.to_string(), value);
        if i < self.list.len() && chars::same(key.as_slice(), self.list[i].0.as_str()) {
            self.list.set(i, entry);
            assert(self@ =~= before.update(i as int, (name@, v)));
        } else {
            self.list.insert(i, entry);
            assert(self@ =~= before.insert(i as int, (name@, v)));
        }
    }

    /// The object with these entries.
    pub fn object(self) -> (out: JsonValue)
        ensures
            json(out) == Json::Object(self@),
    {
        let out = JsonValue::Object(self.list);
        assert(json(out)->Object_0 =~= self@);
        out
    }

    /// The object with these entries, if there are any.
    pub fn some_object(self) -> (out: Option<JsonValue>)
        ensures
            opt_json(out) == object_of(self@),
    {
        if self.list.len() == 0 {
            None
        } else {
            Some(self.object())
        }
    }
}

/// The array with these items.
pub fn array(items: Vec<JsonValue>) -> (out: JsonValue)
    ensures
        json(out) == Json::Array(jsons(items@)),
{
    let out = JsonValue::Array(items);
    assert(json(out)->Array_0 =~= jsons(items@));
    out
}

/// The array with these items, if there are any.
pub fn some_array(items: Vec<JsonValue>) -> (out: Option<JsonValue>)
    ensures
        opt_json(out) == array_of(jsons(items@)),
{
    if items.len() == 0 {
        None
    } else {
        Some(array(items))
    }
}

pub proof fn lemma_jsons_push(v: Seq<JsonValue>, x: JsonValue)
    ensures
        jsons(v.push(x)) == jsons(v).push(json(x)),
{
    assert(jsons(v.push(x)) =~= jsons(v).push(json(x)));
}

/// Text as a value.
pub fn text(s: &[char]) -> (out: JsonValue)
    ensures
        json(out) == Json::Text(s@),
{
    JsonValue::Text(chars::string_of(s))
}

/// A finite number as a number, anything else as text.
pub fn number(s: &[char]) -> (out: JsonValue)
    ensures
        json(out) == real_or_text(s@),
{
    if numbers::finite(s) {
        JsonValue::Real(chars::string_of(s))
    } else {
        JsonValue::Text(chars::string_of(s))
    }
}

/// A count; zero where there is none.
pub fn count(s: &[char]) -> (out: JsonValue)
    ensures
        json(out) == count_or_zero(s@),
{
    match numbers::read_u64(s) {
        Some(n) => JsonValue::Count(n),
        None => JsonValue::Count(0),
    }
}

/// A count; null where there is none.
pub fn some_count(s: &[char]) -> (out: JsonValue)
    ensures
        json(out) == count_or_null(s@),
{
    match numbers::read_u64(s) {
        Some(n) => JsonValue::Count(n),
        None => JsonValue::Null,
    }
}

} // verus!
