//! Real numbers in a parsed log.

use crate::chars;
use crate::doubles;
use crate::numbers;
use vstd::prelude::*;

verus! {

/// What one unit of a written number is worth.
#[derive(Debug, Clone, Copy, PartialEq, Eq, Structural)]
pub enum Unit {
    /// The number itself.
    One,
    /// A hundredth.
    Percent,
    /// Sixty.
    Minute,
    /// Three thousand six hundred.
    Hour,
}

/// A real number: the sum of the literals it was written with, in their
/// order, in some unit.
#[derive(Debug, PartialEq)]
pub struct Real {
    literals: Vec<String>,
    unit: Unit,
}

/// What a [`Real`] holds.
pub struct RealView {
    pub literals: Seq<Seq<char>>,
    pub unit: Unit,
}

pub proof fn lemma_texts_push(v: Seq<String>, s: String)
    ensures
        texts(v.push(s)) == texts(v).push(s@),
{
    assert(texts(v.push(s)) =~= texts(v).push(s@));
}

/// The contents of a list of strings.
pub open spec fn texts(v: Seq<String>) -> Seq<Seq<char>> {
    Seq::new(v.len(), |i: int| v[i]@)
}

impl View for Real {
    type V = RealView;

    closed spec fn view(&self) -> RealView {
        RealView { literals: texts(self.literals@), unit: self.unit }
    }
}

/// The number that one literal writes.
pub open spec fn literal(s: Seq<char>) -> RealView {
    scaled(s, Unit::One)
}

/// The number that one literal writes in a unit.
pub open spec fn scaled(s: Seq<char>, unit: Unit) -> RealView {
    RealView { literals: seq![s], unit }
}

/// The number that `s` writes, if it is a real literal.
pub open spec fn real_of(s: Seq<char>) -> Option<RealView> {
    real_in(s, Unit::One)
}

/// The number that `s` writes in a unit, if it is a real literal.
pub open spec fn real_in(s: Seq<char>, unit: Unit) -> Option<RealView> {
    if numbers::is_real(s) {
        Some(scaled(s, unit))
    } else {
        None
    }
}

pub open spec fn zero_real() -> RealView {
    literal("0"@)
}

/// A number written as one literal whose value is zero.
pub open spec fn reads_zero(r: RealView) -> bool {
    r.unit == Unit::One && r.literals.len() == 1 && numbers::is_zero(r.literals[0])
}

/// A number written as one literal whose value is more than zero.
pub open spec fn reads_positive(r: RealView) -> bool {
    r.unit == Unit::One && r.literals.len() == 1 && numbers::is_positive(r.literals[0])
}

/// Two numbers, each written as one literal, that differ by more than a
/// billionth in double precision.
pub open spec fn numbers_apart(a: RealView, b: RealView) -> bool {
    a.unit == Unit::One && b.unit == Unit::One && a.literals.len() == 1 && b.literals.len() == 1
        && doubles::far_apart(a.literals[0], b.literals[0])
}

pub open spec fn opt_real(o: Option<Real>) -> Option<RealView> {
    match o {
        Some(r) => Some(r@),
        None => None,
    }
}

impl Real {
    /// There is at least one literal, and each is one of a real number.
    #[verifier::type_invariant]
    spec fn well_written(self) -> bool {
        &&& self.literals@.len() > 0
        &&& forall|i: int|
            0 <= i < self.literals@.len() ==> numbers::is_real(#[trigger] self.literals@[i]@)
    }

    /// Reads a literal in some unit.
    pub fn read_in(s: &[char], unit: Unit) -> (out: Option<Real>)
        ensures
            opt_real(out) == real_in(s@, unit),
    {
        if numbers::real_ok(s) {
            let text = chars::string_of(s);
            let out = Real { literals: vec![text], unit };
            assert(texts(out.literals@) =~= seq![s@]);
            Some(out)
        } else {
            None
        }
    }

    /// Reads a literal.
    pub fn read(s: &[char]) -> (out: Option<Real>)
        ensures
            opt_real(out) == real_of(s@),
    {
        Real::read_in(s, Unit::One)
    }

    pub fn zero() -> (out: Real)
        ensures
            out@ == zero_real(),
    {
        let text = "0".to_string();
        proof {
            reveal_strlit("0");
            lemma_zero_is_real(text@);
        }
        let out = Real { literals: vec![text], unit: Unit::One };
        assert(texts(out.literals@) =~= seq!["0"@]);
        out
    }

    /// The sum of two numbers in the same unit: the literals of both, in their order.
    pub fn plus(&self, other: &Real) -> (out: Real)
        ensures
            out@.literals == self@.literals + other@.literals,
            out@.unit == self@.unit,
    {
        proof {
            use_type_invariant(self);
            use_type_invariant(other);
        }
        let mut literals: Vec<String> = Vec::new();
        let mut i: usize = 0;
        while i < self.literals.len()
            invariant
                i <= self.literals@.len(),
                texts(literals@) == texts(self.literals@).take(i as int),
                self.well_written(),
            decreases self.literals@.len() - i,
        {
            let next = self.literals[i].clone();
            proof {
                lemma_texts_push(literals@, next);
            }
            literals.push(next);
            assert(texts(literals@) =~= texts(self.literals@).take(i + 1));
            i = i + 1;
        }
        let mut k: usize = 0;
        assert(texts(self.literals@).take(i as int) =~= texts(self.literals@));
        assert(texts(literals@) =~= texts(self.literals@) + texts(other.literals@).take(0));
        while k < other.literals.len()
            invariant
                k <= other.literals@.len(),
                texts(literals@) == texts(self.literals@) + texts(other.literals@).take(k as int),
            decreases other.literals@.len() - k,
        {
            let next = other.literals[k].clone();
            proof {
                lemma_texts_push(literals@, next);
            }
            literals.push(next);
            assert(texts(literals@) =~= texts(self.literals@) + texts(other.literals@).take(k + 1));
            k = k + 1;
        }
        assert(texts(other.literals@).take(k as int) =~= texts(other.literals@));
        assert forall|j: int| 0 <= j < literals@.len() implies numbers::is_real(
            #[trigger] literals@[j]@,
        ) by {
            assert(literals@[j]@ == texts(literals@)[j]);
            if j < self.literals@.len() {
                assert(literals@[j]@ == self.literals@[j]@);
            } else {
                assert(literals@[j]@ == other.literals@[j - self.literals@.len()]@);
            }
        }
        assert(literals@.len() == texts(literals@).len());
        Real { literals, unit: self.unit }
    }

    /// Another value that holds the same number.
    pub fn copy(&self) -> (out: Real)
        ensures
            out@ == self@,
    {
        proof {
            use_type_invariant(self);
        }
        let mut literals: Vec<String> = Vec::new();
        let mut i: usize = 0;
        while i < self.literals.len()
            invariant
                i <= self.literals@.len(),
                texts(literals@) == texts(self.literals@).take(i as int),
            decreases self.literals@.len() - i,
        {
            let next = self.literals[i].clone();
            proof {
                lemma_texts_push(literals@, next);
            }
            literals.push(next);
            assert(texts(literals@) =~= texts(self.literals@).take(i + 1));
            i = i + 1;
        }
        assert(texts(self.literals@).take(i as int) =~= texts(self.literals@));
        assert forall|j: int| 0 <= j < literals@.len() implies numbers::is_real(
            #[trigger] literals@[j]@,
        ) by {
            assert(literals@[j]@ == texts(literals@)[j]);
            assert(texts(self.literals@)[j] == self.literals@[j]@);
        }
        assert(literals@.len() == texts(literals@).len());
        Real { literals, unit: self.unit }
    }

    /// The literals, each of them one of a real number.
    pub fn literals(&self) -> (out: &Vec<String>)
        ensures
            texts(out@) == self@.literals,
            out@.len() > 0,
            forall|i: int| 0 <= i < out@.len() ==> numbers::is_real(#[trigger] out@[i]@),
    {
        proof {
            use_type_invariant(self);
        }
        &self.literals
    }

    pub fn unit(&self) -> (out: Unit)
        ensures
            out == self@.unit,
    {
        self.unit
    }

    /// Whether this is one literal whose value is zero.
    pub fn is_zero(&self) -> (out: bool)
        ensures
            out == reads_zero(self@),
    {
        if self.unit == Unit::One && self.literals.len() == 1 {
            let s = chars::chars_of(self.literals[0].as_str());
            numbers::zero(s.as_slice())
        } else {
            false
        }
    }
}

impl Real {
    /// Whether this is one literal whose value is more than zero.
    pub fn is_positive(&self) -> (out: bool)
        ensures
            out == reads_positive(self@),
    {
        if self.unit == Unit::One && self.literals.len() == 1 {
            let s = chars::chars_of(self.literals[0].as_str());
            numbers::positive(s.as_slice())
        } else {
            false
        }
    }

    /// Whether this number and another, each written as one literal, differ
    /// by more than a billionth.
    pub fn apart(&self, other: &Real) -> (out: bool)
        ensures
            out == numbers_apart(self@, other@),
    {
        if self.unit == Unit::One && other.unit == Unit::One && self.literals.len() == 1
            && other.literals.len() == 1 {
            let a = chars::chars_of(self.literals[0].as_str());
            let b = chars::chars_of(other.literals[0].as_str());
            doubles::apart(a.as_slice(), b.as_slice())
        } else {
            false
        }
    }
}

impl Clone for Real {
    fn clone(&self) -> (out: Real)
        ensures
            out@ == self@,
    {
        self.copy()
    }
}

proof fn lemma_zero_is_real(s: Seq<char>)
    requires
        s.len() == 1,
        s[0] == '0',
    ensures
        numbers::is_real(s),
{
    reveal_with_fuel(numbers::exponent_at, 2);
    reveal_with_fuel(chars::index_of, 2);
    assert(numbers::exponent_at(s) == 1);
    assert(chars::index_of(s, '.') == 1);
    assert(numbers::is_number(s));
}

/// Another value that holds the same optional number.
pub fn copy_opt(o: &Option<Real>) -> (out: Option<Real>)
    ensures
        opt_real(out) == opt_real(*o),
{
    match o {
        Some(r) => Some(r.copy()),
        None => None,
    }
}

} // verus!
