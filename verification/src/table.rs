//! Lists of named values in the order of their names.

use crate::chars;
use vstd::prelude::*;

verus! {

/// The order of texts: the first character in which they differ decides,
/// and a text comes before what it begins.
pub open spec fn less(a: Seq<char>, b: Seq<char>) -> bool
    decreases a.len(),
{
    if b.len() == 0 {
        false
    } else if a.len() == 0 {
        true
    } else if a[0] != b[0] {
        a[0] < b[0]
    } else {
        less(a.skip(1), b.skip(1))
    }
}

/// How many of the names at the front come before `name`.
pub open spec fn rank<V>(s: Seq<(Seq<char>, V)>, name: Seq<char>) -> nat
    decreases s.len(),
{
    if s.len() > 0 && less(s[0].0, name) {
        1 + rank(s.skip(1), name)
    } else {
        0
    }
}

/// The list with `value` under `name`, in place of what stood there.
pub open spec fn put<V>(s: Seq<(Seq<char>, V)>, name: Seq<char>, value: V) -> Seq<
    (Seq<char>, V),
> {
    let i = rank(s, name) as int;
    if i < s.len() && s[i].0 == name {
        s.update(i, (name, value))
    } else {
        s.insert(i, (name, value))
    }
}

/// What stands under `name`.
pub open spec fn get<V>(s: Seq<(Seq<char>, V)>, name: Seq<char>) -> Option<V> {
    if exists|i: int| 0 <= i < s.len() && (#[trigger] s[i]).0 == name {
        let i = choose|i: int| 0 <= i < s.len() && (#[trigger] s[i]).0 == name;
        Some(s[i].1)
    } else {
        None
    }
}

/// Each name comes before the next one.
pub open spec fn in_order<V>(s: Seq<(Seq<char>, V)>) -> bool {
    forall|i: int, j: int|
        0 <= i < j < s.len() ==> less((#[trigger] s[i]).0, (#[trigger] s[j]).0)
}

pub proof fn lemma_less_not_itself(a: Seq<char>)
    ensures
        !less(a, a),
    decreases a.len(),
{
    if a.len() > 0 {
        lemma_less_not_itself(a.skip(1));
    }
}

pub proof fn lemma_less_passes_on(a: Seq<char>, b: Seq<char>, c: Seq<char>)
    requires
        less(a, b),
        less(b, c),
    ensures
        less(a, c),
    decreases a.len(),
{
    if a.len() > 0 && a[0] == b[0] && b[0] == c[0] {
        lemma_less_passes_on(a.skip(1), b.skip(1), c.skip(1));
    }
}

pub proof fn lemma_less_or_same(a: Seq<char>, b: Seq<char>)
    ensures
        less(a, b) || a == b || less(b, a),
    decreases a.len(),
{
    if a.len() > 0 && b.len() > 0 && a[0] == b[0] {
        lemma_less_or_same(a.skip(1), b.skip(1));
        if a.skip(1) == b.skip(1) {
            assert(a =~= seq![a[0]] + a.skip(1));
            assert(b =~= seq![b[0]] + b.skip(1));
        }
    } else if a.len() == 0 && b.len() == 0 {
        assert(a =~= b);
    }
}

proof fn lemma_rank<V>(s: Seq<(Seq<char>, V)>, name: Seq<char>)
    ensures
        rank(s, name) <= s.len(),
        forall|i: int| 0 <= i < rank(s, name) ==> less((#[trigger] s[i]).0, name),
        rank(s, name) < s.len() ==> !less(s[rank(s, name) as int].0, name),
    decreases s.len(),
{
    if s.len() > 0 && less(s[0].0, name) {
        lemma_rank(s.skip(1), name);
        assert forall|i: int| 0 <= i < rank(s, name) implies less((#[trigger] s[i]).0, name) by {
            if i > 0 {
                assert(s[i] == s.skip(1)[i - 1]);
            }
        }
    }
}

/// Putting a value into a list in order keeps it in order.
pub proof fn law_put_keeps_order<V>(s: Seq<(Seq<char>, V)>, name: Seq<char>, value: V)
    requires
        in_order(s),
    ensures
        in_order(put(s, name, value)),
{
    lemma_rank(s, name);
    let r = rank(s, name) as int;
    let t = put(s, name, value);
    if r < s.len() && s[r].0 == name {
        assert forall|i: int, j: int| 0 <= i < j < t.len() implies less(
            (#[trigger] t[i]).0,
            (#[trigger] t[j]).0,
        ) by {
            assert(t[i].0 == s[i].0);
            assert(t[j].0 == s[j].0);
            assert(less(s[i].0, s[j].0));
        }
    } else {
        assert forall|i: int, j: int| 0 <= i < j < t.len() implies less(
            (#[trigger] t[i]).0,
            (#[trigger] t[j]).0,
        ) by {
            if j < r {
                assert(less(s[i].0, s[j].0));
            } else if j == r {
                assert(less(s[i].0, name));
            } else {
                lemma_less_or_same(s[r].0, name);
                assert(less(name, s[r].0));
                if j - 1 > r {
                    assert(less(s[r].0, s[j - 1].0));
                    lemma_less_passes_on(name, s[r].0, s[j - 1].0);
                }
                if i < r {
                    assert(less(s[i].0, s[j - 1].0));
                } else if i > r {
                    assert(less(s[i - 1].0, s[j - 1].0));
                }
            }
        }
    }
}

/// A name behind all others goes to the end.
pub proof fn lemma_put_last<V>(s: Seq<(Seq<char>, V)>, name: Seq<char>, value: V)
    requires
        forall|i: int| 0 <= i < s.len() ==> less((#[trigger] s[i]).0, name),
    ensures
        put(s, name, value) == s.push((name, value)),
{
    lemma_rank_last(s, name);
    assert(s.insert(s.len() as int, (name, value)) =~= s.push((name, value)));
}

proof fn lemma_rank_last<V>(s: Seq<(Seq<char>, V)>, name: Seq<char>)
    requires
        forall|i: int| 0 <= i < s.len() ==> less((#[trigger] s[i]).0, name),
    ensures
        rank(s, name) == s.len(),
    decreases s.len(),
{
    if s.len() > 0 {
        let more = s.skip(1);
        assert forall|i: int| 0 <= i < more.len() implies less((#[trigger] more[i]).0, name) by {
            assert(more[i] == s[i + 1]);
        }
        assert(less(s[0].0, name));
        lemma_rank_last(more, name);
    }
}

proof fn lemma_only_place<V>(s: Seq<(Seq<char>, V)>, i: int)
    requires
        in_order(s),
        0 <= i < s.len(),
    ensures
        get(s, s[i].0) == Some(s[i].1),
{
    let name = s[i].0;
    let j = choose|j: int| 0 <= j < s.len() && (#[trigger] s[j]).0 == name;
    lemma_less_not_itself(name);
    if i < j {
        assert(less(s[i].0, s[j].0));
    } else if j < i {
        assert(less(s[j].0, s[i].0));
    }
}

/// What was put under a name is what stands there, and what stands under
/// another name is what stood there.
pub proof fn law_get_after_put<V>(
    s: Seq<(Seq<char>, V)>,
    name: Seq<char>,
    value: V,
    other: Seq<char>,
)
    requires
        in_order(s),
    ensures
        get(put(s, name, value), name) == Some(value),
        other != name ==> get(put(s, name, value), other) == get(s, other),
{
    law_put_keeps_order(s, name, value);
    lemma_rank(s, name);
    let r = rank(s, name) as int;
    let t = put(s, name, value);
    assert(t[r] == (name, value));
    lemma_only_place(t, r);
    if other != name {
        if exists|i: int| 0 <= i < s.len() && (#[trigger] s[i]).0 == other {
            let i = choose|i: int| 0 <= i < s.len() && (#[trigger] s[i]).0 == other;
            let j = if r < s.len() && s[r].0 == name {
                i
            } else if i < r {
                i
            } else {
                i + 1
            };
            assert(t[j] == s[i]);
            lemma_only_place(t, j);
            lemma_only_place(s, i);
        } else {
            assert forall|j: int| 0 <= j < t.len() implies (#[trigger] t[j]).0 != other by {
                if j != r {
                    let i = if r < s.len() && s[r].0 == name {
                        j
                    } else if j < r {
                        j
                    } else {
                        j - 1
                    };
                    assert(t[j] == s[i]);
                }
            }
        }
    }
}

/// Whether the text `a` comes before the text `b`.
pub fn comes_before(a: &[char], b: &[char]) -> (out: bool)
    ensures
        out == less(a@, b@),
{
    let mut i: usize = 0;
    assert(a@.skip(0) =~= a@);
    assert(b@.skip(0) =~= b@);
    loop
        invariant
            i <= a@.len(),
            i <= b@.len(),
            less(a@.skip(i as int), b@.skip(i as int)) == less(a@, b@),
        decreases a@.len() - i,
    {
        if i == b.len() {
            return false;
        }
        if i == a.len() {
            return true;
        }
        if a[i] != b[i] {
            return a[i] < b[i];
        }
        assert(a@.skip(i as int).skip(1) =~= a@.skip(i + 1));
        assert(b@.skip(i as int).skip(1) =~= b@.skip(i + 1));
        i = i + 1;
    }
}

/// Counts by name, in the order of their names, each name once.
#[derive(Debug, Clone, PartialEq)]
pub struct CutCounts {
    pub entries: Vec<(String, u64)>,
}

impl View for CutCounts {
    type V = Seq<(Seq<char>, u64)>;

    open spec fn view(&self) -> Seq<(Seq<char>, u64)> {
        Seq::new(self.entries@.len(), |i: int| (self.entries@[i].0@, self.entries@[i].1))
    }
}

impl CutCounts {
    /// Each name once, in order.
    pub open spec fn well_formed(&self) -> bool {
        in_order(self@)
    }

    pub fn new() -> (out: CutCounts)
        ensures
            out@ == Seq::<(Seq<char>, u64)>::empty(),
            out.well_formed(),
    {
        let out = CutCounts { entries: Vec::new() };
        assert(out@ =~= Seq::empty());
        out
    }

    /// The place of `name`: how many names come before it.
    fn place(&self, name: &[char]) -> (out: usize)
        ensures
            out == rank(self@, name@),
            out <= self.entries@.len(),
    {
        let mut i: usize = 0;
        assert(self@.skip(0) =~= self@);
        while i < self.entries.len()
            invariant
                i <= self.entries@.len(),
                rank(self@, name@) == i + rank(self@.skip(i as int), name@),
            decreases self.entries@.len() - i,
        {
            let key = chars::chars_of(self.entries[i].0.as_str());
            if !comes_before(key.as_slice(), name) {
                return i;
            }
            assert(self@.skip(i as int).skip(1) =~= self@.skip(i + 1));
            i = i + 1;
        }
        i
    }

    /// Sets the count under `name`.
    pub fn insert(&mut self, name: String, count: u64)
        requires
            old(self).well_formed(),
        ensures
            final(self)@ == put(old(self)@, name@, count),
            final(self).well_formed(),
    {
        let key = chars::chars_of(name.as_str());
        let i: usize = self.place(key.as_slice());
        let ghost before = self@;
        proof {
            law_put_keeps_order(before, name@, count);
            lemma_rank(before, name@);
        }
        if i < self.entries.len() && chars::same(key.as_slice(), self.entries[i].0.as_str()) {
            self.entries.set(i, (name, count));
            assert(self@ =~= before.update(i as int, (name@, count)));
        } else {
            self.entries.insert(i, (name, count));
            assert(self@ =~= before.insert(i as int, (name@, count)));
        }
    }

    /// The count under `name`.
    pub fn get(&self, name: &str) -> (out: Option<u64>)
        requires
            self.well_formed(),
        ensures
            out == get(self@, name@),
    {
        let key = chars::chars_of(name);
        let mut i: usize = 0;
        while i < self.entries.len()
            invariant
                i <= self.entries@.len(),
                in_order(self@),
                key@ == name@,
                forall|j: int| 0 <= j < i ==> (#[trigger] self@[j]).0 != name@,
            decreases self.entries@.len() - i,
        {
            if chars::same(key.as_slice(), self.entries[i].0.as_str()) {
                proof {
                    assert(self@[i as int].0 == name@);
                    lemma_only_place(self@, i as int);
                }
                return Some(self.entries[i].1);
            }
            assert(self@[i as int].0 != name@);
            i = i + 1;
        }
        None
    }

    pub fn len(&self) -> (out: usize)
        ensures
            out == self@.len(),
    {
        self.entries.len()
    }

    pub fn is_empty(&self) -> (out: bool)
        ensures
            out == (self@.len() == 0),
    {
        self.entries.len() == 0
    }
}

/// No count of zero.
pub open spec fn counts_positive(s: Seq<(Seq<char>, u64)>) -> bool {
    forall|i: int| 0 <= i < s.len() ==> (#[trigger] s[i]).1 > 0
}

pub proof fn lemma_put_positive(s: Seq<(Seq<char>, u64)>, name: Seq<char>, count: u64)
    requires
        counts_positive(s),
        count > 0,
    ensures
        counts_positive(put(s, name, count)),
{
    lemma_rank(s, name);
    let r = rank(s, name) as int;
    let t = put(s, name, count);
    assert forall|j: int| 0 <= j < t.len() implies (#[trigger] t[j]).1 > 0 by {
        if r < s.len() && s[r].0 == name {
            if j != r {
                assert(t[j] == s[j]);
            }
        } else if j < r {
            assert(t[j] == s[j]);
        } else if j > r {
            assert(t[j] == s[j - 1]);
        }
    }
}

} // verus!
