//! What the literals of a log are worth, and how names are ordered.

use crate::chars;
use crate::doubles;
use crate::numbers;
use crate::table;
use vstd::arithmetic::div_mod::lemma_fundamental_div_mod;
use vstd::prelude::*;

verus! {

/// A digit behind others makes ten times what they write, and itself.
pub proof fn law_digits(s: Seq<char>, c: char)
    requires
        '0' <= c <= '9',
    ensures
        numbers::value(Seq::empty()) == 0,
        numbers::value(s.push(c)) == 10 * numbers::value(s) + (c as int - '0' as int),
        numbers::is_number(s.push(c)) <==> s.len() == 0 || numbers::is_number(s),
{
    assert(s.push(c).drop_last() =~= s);
    if s.len() > 0 {
        if numbers::is_number(s.push(c)) {
            assert forall|i: int| 0 <= i < s.len() implies numbers::is_digit(#[trigger] s[i]) by {
                assert(s.push(c)[i] == s[i]);
            }
        }
    }
}

/// A count is what its digits write, with a plus sign before them or without,
/// as far as it fits; a minus sign makes an integer negative and is none of a
/// count.
pub proof fn law_integers(s: Seq<char>)
    requires
        numbers::is_number(s),
    ensures
        numbers::value(s) <= 0xffff_ffff_ffff_ffff ==> numbers::u64_of(s) == Some(
            numbers::value(s) as u64,
        ) && numbers::u64_of(seq!['+'] + s) == numbers::u64_of(s),
        numbers::value(s) > 0xffff_ffff_ffff_ffff ==> numbers::u64_of(s) is None,
        numbers::value(s) <= 0xffff_ffff ==> numbers::u32_of(s) == Some(numbers::value(s) as u32),
        numbers::value(s) > 0xffff_ffff ==> numbers::u32_of(s) is None,
        numbers::value(s) <= 0x7fff_ffff_ffff_ffff ==> numbers::i64_of(s) == Some(
            numbers::value(s) as i64,
        ) && numbers::i64_of(seq!['-'] + s) == Some((-(numbers::value(s) as int)) as i64),
        numbers::u64_of(seq!['-'] + s) is None,
{
    assert(numbers::is_digit(s[0]));
    assert((seq!['+'] + s).skip(1) =~= s);
    assert((seq!['-'] + s).skip(1) =~= s);
    assert((seq!['+'] + s)[0] == '+');
    assert((seq!['-'] + s)[0] == '-');
    assert(!numbers::is_digit((seq!['-'] + s)[0]));
}

proof fn lemma_no_mark(a: Seq<char>, c: char, b: Seq<char>)
    requires
        forall|i: int| 0 <= i < a.len() ==> #[trigger] a[i] != c,
    ensures
        chars::index_of(a, c) == a.len(),
        chars::index_of(a + seq![c] + b, c) == a.len(),
    decreases a.len(),
{
    let all = a + seq![c] + b;
    if a.len() > 0 {
        lemma_no_mark(a.skip(1), c, b);
        assert(all.skip(1) =~= a.skip(1) + seq![c] + b);
        assert(all[0] == a[0]);
    } else {
        assert(all[0] == c);
    }
}

proof fn lemma_no_exponent(a: Seq<char>, c: char, b: Seq<char>)
    requires
        forall|i: int| 0 <= i < a.len() ==> #[trigger] a[i] != 'e' && a[i] != 'E',
        c == 'e' || c == 'E',
    ensures
        numbers::exponent_at(a) == a.len(),
        numbers::exponent_at(a + seq![c] + b) == a.len(),
    decreases a.len(),
{
    let all = a + seq![c] + b;
    if a.len() > 0 {
        lemma_no_exponent(a.skip(1), c, b);
        assert(all.skip(1) =~= a.skip(1) + seq![c] + b);
        assert(all[0] == a[0]);
    } else {
        assert(all[0] == c);
    }
}

/// Digits before and behind a point are one number: all the digits, with as
/// many of them behind the point as there are.
pub proof fn law_points(a: Seq<char>, b: Seq<char>)
    requires
        numbers::is_number(a),
        numbers::all_digits(b),
    ensures
        numbers::is_real(a),
        numbers::is_real(a + seq!['.'] + b),
        numbers::is_real(seq!['-'] + (a + seq!['.'] + b)),
        numbers::coefficient(a + seq!['.'] + b) == a + b,
        numbers::scale(a + seq!['.'] + b) == -(b.len() as int),
        numbers::coefficient(a) == a,
        numbers::scale(a) == 0,
{
    let s = a + seq!['.'] + b;
    lemma_no_mark(a, '.', b);
    assert(numbers::is_digit(a[0]));
    assert forall|i: int| 0 <= i < s.len() implies #[trigger] s[i] != 'e' && s[i] != 'E' by {
        if i < a.len() {
            assert(s[i] == a[i]);
            assert(numbers::is_digit(a[i]));
        } else if i > a.len() {
            assert(s[i] == b[i - a.len() - 1]);
            assert(numbers::is_digit(b[i - a.len() - 1]));
        }
    }
    assert forall|i: int| 0 <= i < a.len() implies #[trigger] a[i] != 'e' && a[i] != 'E' by {
        assert(numbers::is_digit(a[i]));
    }
    lemma_no_exponent(s, 'e', Seq::empty());
    lemma_no_exponent(a, 'e', Seq::empty());
    assert(s.take(a.len() as int) =~= a);
    assert(s.skip(a.len() as int + 1) =~= b);
    assert(s[0] == a[0]);
    assert((seq!['-'] + s).skip(1) =~= s);
}

/// An exponent is worth that many powers of ten, up or down.
pub proof fn law_exponents(a: Seq<char>, e: Seq<char>)
    requires
        numbers::is_number(a),
        numbers::is_number(e),
    ensures
        numbers::is_real(a + seq!['e'] + e),
        numbers::coefficient(a + seq!['e'] + e) == a,
        numbers::scale(a + seq!['e'] + e) == numbers::value(e),
        numbers::is_real(a + seq!['e'] + (seq!['-'] + e)),
        numbers::coefficient(a + seq!['e'] + (seq!['-'] + e)) == a,
        numbers::scale(a + seq!['e'] + (seq!['-'] + e)) == -(numbers::value(e) as int),
{
    let down = seq!['-'] + e;
    let s = a + seq!['e'] + e;
    let t = a + seq!['e'] + down;
    assert(numbers::is_digit(a[0]));
    assert(numbers::is_digit(e[0]));
    assert forall|i: int| 0 <= i < a.len() implies #[trigger] a[i] != 'e' && a[i] != 'E' && a[i]
        != '.' by {
        assert(numbers::is_digit(a[i]));
    }
    lemma_no_exponent(a, 'e', e);
    lemma_no_exponent(a, 'e', down);
    lemma_no_mark(a, '.', Seq::empty());
    assert(s.take(a.len() as int) =~= a);
    assert(t.take(a.len() as int) =~= a);
    assert(s.skip(a.len() as int + 1) =~= e);
    assert(t.skip(a.len() as int + 1) =~= down);
    assert(down.skip(1) =~= e);
    assert(s[0] == a[0]);
    assert(t[0] == a[0]);
}

/// The words for what is no finite number are real literals, a lone sign is
/// none.
pub proof fn law_words_for_numbers()
    ensures
        numbers::is_real("inf"@) && !numbers::is_finite("inf"@),
        numbers::is_real("nan"@) && !numbers::is_finite("nan"@),
        !numbers::is_real("-"@),
        !numbers::is_real(""@),
        numbers::is_negative("-"@ + "inf"@),
        !numbers::is_negative("inf"@),
{
    reveal_strlit("inf");
    reveal_strlit("nan");
    reveal_strlit("infinity");
    reveal_strlit("-");
    reveal_strlit("");
    assert(chars::ascii_lowered("inf"@) =~= "inf"@);
    assert(chars::ascii_lowered("nan"@) =~= "nan"@);
    assert("-"@.skip(1).len() == 0);
    assert(numbers::unsign("inf"@) == "inf"@);
    assert(numbers::unsign("nan"@) == "nan"@);
    let none = "-"@.skip(1);
    assert(none =~= ""@);
    assert(chars::ascii_lowered(none).len() == 0);
    assert("inf"@.len() == 3 && "nan"@.len() == 3 && "infinity"@.len() == 8);
}

proof fn lemma_ten_grows(a: nat, b: nat)
    requires
        a <= b,
    ensures
        0 < numbers::ten(a) <= numbers::ten(b),
    decreases b,
{
    if a < b {
        lemma_ten_grows(a, (b - 1) as nat);
    } else {
        numbers::lemma_ten_positive(a);
    }
}

proof fn lemma_plain_reaches(s: Seq<char>, limit: Seq<char>)
    requires
        numbers::is_number(s),
    ensures
        numbers::reaches(s, limit) <==> numbers::value(s) >= numbers::value(limit),
        numbers::is_real(s),
        numbers::unsign(s) == s,
        numbers::is_decimal(s),
        !numbers::is_nan(s),
{
    law_points(s, Seq::empty());
    reveal_strlit("inf");
    reveal_strlit("infinity");
    reveal_strlit("nan");
    assert(numbers::is_digit(s[0]));
    assert("inf"@[0] == 'i' && "infinity"@[0] == 'i' && "nan"@[0] == 'n');
    assert(chars::ascii_lowered(s)[0] == s[0]);
    reveal_with_fuel(numbers::ten, 1);
    let c = numbers::value(s);
    let d = numbers::value(limit);
    assert(numbers::ten(0) == 1);
    assert(c * 1 == c && d * 1 == d);
}

/// A whole number of at most 308 digits is finite, one of more than 309 is
/// not.
pub proof fn law_size_of_finite_numbers(s: Seq<char>)
    requires
        numbers::is_number(s),
    ensures
        s.len() <= 308 ==> numbers::is_finite(s),
        s.len() > 309 && s[0] != '0' ==> !numbers::is_finite(s),
{
    reveal_strlit("179769313486231580793728971405303415079934132710037826936173778980444968292764750946649017977587207096330286416692887910946555547851940402630657488671505820681908902000708383676273854845817711531764475730270069855571366959622842914819860834936475292719074168444365510704342711559699508093042880177904174497792");
    let limit = numbers::OVERFLOW@;
    assert(limit.len() == 309 && limit[0] == '1');
    assert(numbers::is_digit(s[0]));
    numbers::lemma_value_bounds(s);
    numbers::lemma_value_bounds(limit);
    lemma_plain_reaches(s, limit);
    if s.len() <= 308 {
        lemma_ten_grows(s.len(), 308);
    } else if s.len() > 309 {
        lemma_ten_grows(309, (s.len() - 1) as nat);
    }
}

/// A whole number of at most forty digits lies below the sentinel of 1e40, one
/// of more than 41 does not.
pub proof fn law_size_of_the_sentinel(s: Seq<char>)
    requires
        numbers::is_number(s),
    ensures
        s.len() <= 40 ==> !numbers::reaches(s, numbers::SENTINEL@),
        s.len() > 41 && s[0] != '0' ==> numbers::reaches(s, numbers::SENTINEL@),
{
    reveal_strlit("10000000000000000908248938234318254243840");
    let limit = numbers::SENTINEL@;
    assert(limit.len() == 41 && limit[0] == '1');
    assert(numbers::is_digit(s[0]));
    numbers::lemma_value_bounds(s);
    numbers::lemma_value_bounds(limit);
    lemma_plain_reaches(s, limit);
    if s.len() <= 40 {
        lemma_ten_grows(s.len(), 40);
    } else if s.len() > 41 {
        lemma_ten_grows(41, (s.len() - 1) as nat);
    }
}

/// A whole number is zero only where all its digits are, and is positive
/// otherwise; with a minus sign before it, it is never positive.
pub proof fn law_zero_and_positive(s: Seq<char>)
    requires
        numbers::is_number(s),
    ensures
        numbers::value(s) == 0 <==> numbers::is_zero(s),
        numbers::value(s) > 0 <==> numbers::is_positive(s),
        !numbers::is_positive(seq!['-'] + s),
{
    reveal_strlit("24703282292062327208828439643411068618252990130716238221279284125033775363510437593264991818081799618989828234772285886546332835517796989819938739800539093906315035659515570226392290858392449105184435931802849936536152500319370457678249219365623669863658480757001585769269903706311928279558551332927834338409351978015531246597263579574622766465272827220056374006485499977096599470454020828166226237857393450736339007967761930577506740176324673600968951340535537458516661134223766678604162159680461914467291840300530057530849048765391711386591646239524912623653881879636239373280423891018672348497668235089863388587925628302755995657524455507255189313690836254779186948667994968324049705821028513185451396213837722826145437693412532098591327667236328125");
    let least = numbers::UNDERFLOW@;
    assert(least.len() == 752);
    numbers::lemma_value_bounds(least);
    lemma_plain_reaches(s, least);
    law_points(s, Seq::empty());
    lemma_ten_grows(752, 1075);
    let c = numbers::value(s);
    let t = numbers::ten(1075);
    let u = numbers::value(least);
    assert(numbers::ten(0) == 1) by {
        reveal_with_fuel(numbers::ten, 1);
    }
    assert(u * 1 == u);
    if c > 0 {
        assert(c * t >= t) by (nonlinear_arith)
            requires
                c > 0,
                t > 0,
        ;
    } else {
        assert(c * t == 0) by (nonlinear_arith)
            requires
                c == 0,
        ;
    }
    assert((seq!['-'] + s)[0] == '-');
}

/// Rounding gives a whole number no further than a half away, and the even one
/// of two that are as near.
pub proof fn law_rounding(p: nat, d: nat)
    requires
        d > 0,
    ensures
        ({
            let k = doubles::round_even(p, d);
            &&& 2 * (k * d) <= 2 * p + d
            &&& 2 * p <= 2 * (k * d) + d
            &&& (2 * (k * d) == 2 * p + d || 2 * p == 2 * (k * d) + d) ==> k % 2 == 0
        }),
{
    let q = p / d;
    let r = p % d;
    lemma_fundamental_div_mod(p as int, d as int);
    assert(p == q * d + r) by (nonlinear_arith)
        requires
            p == d * q + r,
    ;
    assert((q + 1) * d == q * d + d) by (nonlinear_arith);
}

/// Doubles below two to the 53 stand one unit apart; twice as far out they
/// stand twice as far apart.
pub proof fn law_spacing(n: nat)
    ensures
        n < 0x20_0000_0000_0000 ==> doubles::spacing(n) == 1,
        n >= 0x10_0000_0000_0000 ==> doubles::spacing(2 * n) == 2 * doubles::spacing(n),
        n >= 0x10_0000_0000_0000 ==> doubles::spacing(2 * n + 1) == 2 * doubles::spacing(n),
{
    assert((2 * n) / 2 == n);
    assert((2 * n + 1) / 2 == n);
}

/// Two numbers are apart both ways round or not at all, none is apart from
/// itself, and what is not a number is apart from nothing.
pub proof fn law_apart_both_ways(a: Seq<char>, b: Seq<char>)
    ensures
        doubles::far_apart(a, b) == doubles::far_apart(b, a),
        !doubles::far_apart(a, a),
        numbers::is_nan(numbers::unsign(a)) ==> !doubles::far_apart(a, b),
{
    assert(doubles::spacing(0) == 1);
    assert(0nat / 1 == 0 && 0nat % 1 == 0);
    assert(doubles::nearest(0, 1) == 0);
}

/// Two finite numbers of one sign are apart where their difference is more
/// than the double of `1e-9`; an infinity is apart from every finite number.
pub proof fn law_apart_by_a_billionth(a: Seq<char>, b: Seq<char>)
    requires
        numbers::is_finite(a),
    ensures
        numbers::is_finite(b) && numbers::is_negative(a) == numbers::is_negative(b)
            && doubles::units(
            a,
        ) >= doubles::units(b) ==> (doubles::far_apart(a, b) <==> doubles::nearest(
            (doubles::units(a) - doubles::units(b)) as nat,
            1,
        ) > doubles::units("1e-9"@)),
        numbers::is_finite(b) && numbers::is_negative(a) != numbers::is_negative(b) ==> (
        doubles::far_apart(a, b) <==> doubles::nearest(doubles::units(a) + doubles::units(b), 1)
            > doubles::units("1e-9"@)),
        numbers::is_infinity(numbers::unsign(b)) ==> doubles::far_apart(a, b),
{
    reveal_strlit("1e-9");
    let one = seq!['1'];
    let nine = seq!['9'];
    assert("1e-9"@ =~= one + seq!['e'] + (seq!['-'] + nine));
    assert(one.drop_last() =~= Seq::empty() && nine.drop_last() =~= Seq::empty());
    assert(numbers::value(Seq::<char>::empty()) == 0);
    assert(numbers::value(one) == 1);
    assert(numbers::value(nine) == 9);
    law_exponents(one, nine);
    assert(numbers::unsign("1e-9"@) == "1e-9"@);
    if numbers::is_infinity(numbers::unsign(b)) {
        reveal_strlit("inf");
        reveal_strlit("infinity");
        reveal_strlit("nan");
        assert("inf"@[0] == 'i' && "infinity"@[0] == 'i' && "nan"@[0] == 'n');
        assert(!numbers::is_finite(b));
        assert(!numbers::is_nan(numbers::unsign(b)));
    }
}

/// Names are in the order of the first character in which they differ, and a
/// name comes before what it begins.
pub proof fn law_order_of_names(p: Seq<char>, a: Seq<char>, b: Seq<char>, c: char, d: char)
    requires
        c < d,
    ensures
        table::less(p + (seq![c] + a), p + (seq![d] + b)),
        !table::less(p + (seq![d] + b), p + (seq![c] + a)),
        table::less(p, p + (seq![c] + a)),
        !table::less(p + (seq![c] + a), p),
    decreases p.len(),
{
    let x = p + (seq![c] + a);
    let y = p + (seq![d] + b);
    if p.len() > 0 {
        law_order_of_names(p.skip(1), a, b, c, d);
        assert(x.skip(1) =~= p.skip(1) + (seq![c] + a));
        assert(y.skip(1) =~= p.skip(1) + (seq![d] + b));
        assert(x[0] == p[0] && y[0] == p[0]);
    } else {
        assert(x[0] == c && y[0] == d);
    }
}

/// Letters of ASCII have a lower case, and no other character changes.
pub proof fn law_lower_case(s: Seq<char>, i: int)
    requires
        0 <= i < s.len(),
    ensures
        chars::ascii_lowered(s).len() == s.len(),
        'A' <= s[i] <= 'Z' ==> chars::ascii_lowered(s)[i] as int == s[i] as int + 32,
        !('A' <= s[i] <= 'Z') ==> chars::ascii_lowered(s)[i] == s[i],
{
}

/// Marks are replaced one by one, and doubled ones are made single.
pub proof fn law_marks_replaced(s: Seq<char>, set: Seq<char>, to: char, i: int)
    requires
        0 <= i < s.len(),
    ensures
        chars::replaced(s, set, to).len() == s.len(),
        set.contains(s[i]) ==> chars::replaced(s, set, to)[i] == to,
        !set.contains(s[i]) ==> chars::replaced(s, set, to)[i] == s[i],
        chars::pairs_merged(seq![to, to] + s, to) == seq![to] + chars::pairs_merged(s, to),
        s[0] != to
            ==> chars::pairs_merged(s, to) == seq![s[0]] + chars::pairs_merged(s.skip(1), to),
{
    assert((seq![to, to] + s).skip(2) =~= s);
}

/// The limits of double precision, digit by digit.
pub proof fn law_limits()
    ensures
        numbers::OVERFLOW@
            == "179769313486231580793728971405303415079934132710037826936173778980444968292764750946649017977587207096330286416692887910946555547851940402630657488671505820681908902000708383676273854845817711531764475730270069855571366959622842914819860834936475292719074168444365510704342711559699508093042880177904174497792"@,
        numbers::UNDERFLOW@
            == "24703282292062327208828439643411068618252990130716238221279284125033775363510437593264991818081799618989828234772285886546332835517796989819938739800539093906315035659515570226392290858392449105184435931802849936536152500319370457678249219365623669863658480757001585769269903706311928279558551332927834338409351978015531246597263579574622766465272827220056374006485499977096599470454020828166226237857393450736339007967761930577506740176324673600968951340535537458516661134223766678604162159680461914467291840300530057530849048765391711386591646239524912623653881879636239373280423891018672348497668235089863388587925628302755995657524455507255189313690836254779186948667994968324049705821028513185451396213837722826145437693412532098591327667236328125"@,
        numbers::SENTINEL@ == "10000000000000000908248938234318254243840"@,
{
}

} // verus!
