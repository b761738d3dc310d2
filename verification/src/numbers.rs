//! Numbers as they are written in a log: integers, and the literals that
//! stand for double-precision values.
//!
//! A real number keeps the characters it was written with. What has to be
//! decided about it (is it zero, is it finite, is it past a threshold) is
//! decided on the decimal value of those characters.

use crate::chars;
use vstd::prelude::*;

verus! {

pub open spec fn is_digit(c: char) -> bool {
    '0' <= c <= '9'
}

pub open spec fn digit(c: char) -> nat {
    if is_digit(c) {
        (c as int - '0' as int) as nat
    } else {
        0
    }
}

pub open spec fn all_digits(s: Seq<char>) -> bool {
    forall|i: int| 0 <= i < s.len() ==> is_digit(#[trigger] s[i])
}

/// The number that a sequence of decimal digits writes.
pub open spec fn value(s: Seq<char>) -> nat
    decreases s.len(),
{
    if s.len() == 0 {
        0
    } else {
        value(s.drop_last()) * 10 + digit(s.last())
    }
}

/// At least one digit, and nothing else.
pub open spec fn is_number(s: Seq<char>) -> bool {
    s.len() > 0 && all_digits(s)
}

/// The digits of an unsigned integer, behind an optional `+`.
pub open spec fn without_plus(s: Seq<char>) -> Seq<char> {
    if s.len() > 0 && s[0] == '+' {
        s.skip(1)
    } else {
        s
    }
}

/// An unsigned integer of at most `max`: an optional `+`, then digits.
pub open spec fn unsigned(s: Seq<char>, max: nat) -> Option<nat> {
    let digits = without_plus(s);
    if is_number(digits) && value(digits) <= max {
        Some(value(digits))
    } else {
        None
    }
}

/// The `u64` that `s` writes.
pub open spec fn u64_of(s: Seq<char>) -> Option<u64> {
    match unsigned(s, u64::MAX as nat) {
        Some(n) => Some(n as u64),
        None => None,
    }
}

/// The `u32` that `s` writes.
pub open spec fn u32_of(s: Seq<char>) -> Option<u32> {
    match unsigned(s, u32::MAX as nat) {
        Some(n) => Some(n as u32),
        None => None,
    }
}

/// The `i64` that `s` writes: an optional sign, then digits.
pub open spec fn i64_of(s: Seq<char>) -> Option<i64> {
    if s.len() > 0 && s[0] == '-' {
        let digits = s.skip(1);
        if is_number(digits) && value(digits) <= 0x8000_0000_0000_0000 {
            Some((-(value(digits) as int)) as i64)
        } else {
            None
        }
    } else {
        match unsigned(s, i64::MAX as nat) {
            Some(n) => Some(n as i64),
            None => None,
        }
    }
}

/// `s` without one leading sign.
pub open spec fn unsign(s: Seq<char>) -> Seq<char> {
    if s.len() > 0 && (s[0] == '+' || s[0] == '-') {
        s.skip(1)
    } else {
        s
    }
}

/// How many characters stand before the first `e` or `E`.
pub open spec fn exponent_at(s: Seq<char>) -> nat
    decreases s.len(),
{
    if s.len() == 0 || s[0] == 'e' || s[0] == 'E' {
        0
    } else {
        1 + exponent_at(s.skip(1))
    }
}

/// Digits with at most one point among them, and at least one digit.
pub open spec fn is_mantissa(s: Seq<char>) -> bool {
    let k = chars::index_of(s, '.') as int;
    if k >= s.len() {
        is_number(s)
    } else {
        s.len() > 1 && all_digits(s.take(k)) && all_digits(s.skip(k + 1))
    }
}

/// A mantissa with an optional exponent.
pub open spec fn is_decimal(s: Seq<char>) -> bool {
    let k = exponent_at(s) as int;
    if k >= s.len() {
        is_mantissa(s)
    } else {
        is_mantissa(s.take(k)) && is_number(unsign(s.skip(k + 1)))
    }
}

pub open spec fn is_infinity(s: Seq<char>) -> bool {
    chars::ascii_lowered(s) == "inf"@ || chars::ascii_lowered(s) == "infinity"@
}

pub open spec fn is_nan(s: Seq<char>) -> bool {
    chars::ascii_lowered(s) == "nan"@
}

/// The literals of a double-precision number: an optional sign before
/// `inf`, `infinity`, `nan` (in any case) or a decimal number.
pub open spec fn is_real(s: Seq<char>) -> bool {
    let body = unsign(s);
    is_infinity(body) || is_nan(body) || is_decimal(body)
}

/// The digits of a decimal number, before and behind the point.
pub open spec fn coefficient(s: Seq<char>) -> Seq<char> {
    let k = exponent_at(s) as int;
    let mantissa = if k >= s.len() {
        s
    } else {
        s.take(k)
    };
    let p = chars::index_of(mantissa, '.') as int;
    if p >= mantissa.len() {
        mantissa
    } else {
        mantissa.take(p) + mantissa.skip(p + 1)
    }
}

/// How many of the digits stand behind the point.
pub open spec fn fraction_len(s: Seq<char>) -> nat {
    let k = exponent_at(s) as int;
    let mantissa = if k >= s.len() {
        s
    } else {
        s.take(k)
    };
    let p = chars::index_of(mantissa, '.') as int;
    if p >= mantissa.len() {
        0
    } else {
        (mantissa.len() - p - 1) as nat
    }
}

/// The exponent that is written behind the `e`.
pub open spec fn written_exponent(s: Seq<char>) -> int {
    let k = exponent_at(s) as int;
    if k >= s.len() {
        0
    } else {
        let e = s.skip(k + 1);
        if e.len() > 0 && e[0] == '-' {
            -(value(unsign(e)) as int)
        } else {
            value(unsign(e)) as int
        }
    }
}

/// The power of ten that the coefficient is to be multiplied with.
pub open spec fn scale(s: Seq<char>) -> int {
    written_exponent(s) - fraction_len(s)
}

/// Ten to the power of `n`.
pub open spec fn ten(n: nat) -> nat
    decreases n,
{
    if n == 0 {
        1
    } else {
        10 * ten((n - 1) as nat)
    }
}

/// `a` times ten to the `ea` is more than `b` times ten to the `eb`.
pub open spec fn more(a: nat, ea: int, b: nat, eb: int) -> bool {
    let low = if ea <= eb {
        ea
    } else {
        eb
    };
    a * ten((ea - low) as nat) > b * ten((eb - low) as nat)
}

/// The magnitude from which on a double-precision number is infinite.
pub const OVERFLOW: &'static str = "179769313486231580793728971405303415079934132710037826936173778980444968292764750946649017977587207096330286416692887910946555547851940402630657488671505820681908902000708383676273854845817711531764475730270069855571366959622842914819860834936475292719074168444365510704342711559699508093042880177904174497792";

/// The digits of the magnitude, times ten to the -1075, up to which a
/// double-precision number is zero.
pub const UNDERFLOW: &'static str = "24703282292062327208828439643411068618252990130716238221279284125033775363510437593264991818081799618989828234772285886546332835517796989819938739800539093906315035659515570226392290858392449105184435931802849936536152500319370457678249219365623669863658480757001585769269903706311928279558551332927834338409351978015531246597263579574622766465272827220056374006485499977096599470454020828166226237857393450736339007967761930577506740176324673600968951340535537458516661134223766678604162159680461914467291840300530057530849048765391711386591646239524912623653881879636239373280423891018672348497668235089863388587925628302755995657524455507255189313690836254779186948667994968324049705821028513185451396213837722826145437693412532098591327667236328125";

/// The magnitude from which on a double-precision number is more than 1e40.
pub const SENTINEL: &'static str = "10000000000000000908248938234318254243840";

/// A real literal whose magnitude is at least the number with these digits.
pub open spec fn reaches(s: Seq<char>, digits: Seq<char>) -> bool {
    let body = unsign(s);
    is_infinity(body) || (is_decimal(body) && !more(
        value(digits),
        0,
        value(coefficient(body)),
        scale(body),
    ))
}

/// A real literal whose double-precision value is finite.
pub open spec fn is_finite(s: Seq<char>) -> bool {
    is_real(s) && !is_nan(unsign(s)) && !reaches(s, OVERFLOW@)
}

/// A real literal whose double-precision value is zero.
pub open spec fn is_zero(s: Seq<char>) -> bool {
    let body = unsign(s);
    is_decimal(body) && !more(value(coefficient(body)), scale(body), value(UNDERFLOW@), -1075)
}

/// The `u64` between zero and `max` that the digits write.
fn read_digits(s: &[char], max: u64) -> (out: Option<u64>)
    ensures
        out == (if is_number(s@) && value(s@) <= max {
            Some(value(s@) as u64)
        } else {
            None
        }),
{
    if s.len() == 0 {
        return None;
    }
    let mut acc: u64 = 0;
    let mut i: usize = 0;
    let mut over = false;
    while i < s.len()
        invariant
            i <= s@.len(),
            all_digits(s@.take(i as int)),
            !over ==> acc == value(s@.take(i as int)),
            !over ==> acc <= max,
            over ==> value(s@.take(i as int)) > max,
        decreases s@.len() - i,
    {
        let c = s[i];
        let ghost next = s@.take(i + 1);
        assert(next.drop_last() =~= s@.take(i as int));
        if !(('0' <= c) && (c <= '9')) {
            assert(!is_digit(s@[i as int]));
            return None;
        }
        let d: u64 = (c as u32 - '0' as u32) as u64;
        assert(d == digit(c));
        assert forall|j: int| 0 <= j < next.len() implies is_digit(#[trigger] next[j]) by {
            if j < i {
                assert(next[j] == s@.take(i as int)[j]);
            }
        }
        if !over {
            if acc > max / 10 {
                assert(acc * 10 > max);
                over = true;
            } else {
                let m: u64 = acc * 10;
                if d > max - m {
                    over = true;
                } else {
                    acc = m + d;
                }
            }
        }
        i = i + 1;
    }
    assert(s@.take(i as int) =~= s@);
    if over {
        None
    } else {
        Some(acc)
    }
}

/// Reads an unsigned integer of at most `max`.
fn read_unsigned(s: &[char], max: u64) -> (out: Option<u64>)
    ensures
        out == (match unsigned(s@, max as nat) {
            Some(n) => Some(n as u64),
            None => None,
        }),
{
    if s.len() > 0 && s[0] == '+' {
        read_digits(chars::from(s, 1), max)
    } else {
        read_digits(s, max)
    }
}

pub fn read_u64(s: &[char]) -> (out: Option<u64>)
    ensures
        out == u64_of(s@),
{
    read_unsigned(s, u64::MAX)
}

pub fn read_u32(s: &[char]) -> (out: Option<u32>)
    ensures
        out == u32_of(s@),
{
    match read_unsigned(s, u32::MAX as u64) {
        Some(n) => Some(n as u32),
        None => None,
    }
}

pub fn read_i64(s: &[char]) -> (out: Option<i64>)
    ensures
        out == i64_of(s@),
{
    if s.len() > 0 && s[0] == '-' {
        match read_digits(chars::from(s, 1), 0x8000_0000_0000_0000) {
            Some(n) => if n == 0x8000_0000_0000_0000 {
                Some(i64::MIN)
            } else {
                Some(-(n as i64))
            },
            None => None,
        }
    } else {
        match read_unsigned(s, i64::MAX as u64) {
            Some(n) => Some(n as i64),
            None => None,
        }
    }
}

/// Whether there is nothing but digits.
fn only_digits(s: &[char]) -> (out: bool)
    ensures
        out == all_digits(s@),
{
    let mut i: usize = 0;
    while i < s.len()
        invariant
            i <= s@.len(),
            forall|j: int| 0 <= j < i ==> is_digit(#[trigger] s@[j]),
        decreases s@.len() - i,
    {
        let c = s[i];
        if !('0' <= c && c <= '9') {
            return false;
        }
        i = i + 1;
    }
    true
}

/// `s` without one leading sign.
pub(crate) fn drop_sign(s: &[char]) -> (out: &[char])
    ensures
        out@ == unsign(s@),
{
    if s.len() > 0 && (s[0] == '+' || s[0] == '-') {
        chars::from(s, 1)
    } else {
        s
    }
}

/// The position of the first `e` or `E`.
fn find_exponent(s: &[char]) -> (k: usize)
    ensures
        k <= s@.len(),
        k == exponent_at(s@),
{
    let mut k: usize = 0;
    assert(s@.skip(0) =~= s@);
    while k < s.len() && s[k] != 'e' && s[k] != 'E'
        invariant
            k <= s@.len(),
            exponent_at(s@) == k + exponent_at(s@.skip(k as int)),
        decreases s@.len() - k,
    {
        assert(s@.skip(k as int).skip(1) =~= s@.skip(k + 1));
        k = k + 1;
    }
    k
}

fn mantissa_ok(s: &[char]) -> (out: bool)
    ensures
        out == is_mantissa(s@),
{
    let k: usize = chars::find_char(s, 0, '.');
    assert(s@.skip(0) =~= s@);
    if k >= s.len() {
        s.len() > 0 && only_digits(s)
    } else {
        s.len() > 1 && only_digits(chars::upto(s, k)) && only_digits(chars::from(s, k + 1))
    }
}

fn decimal_ok(s: &[char]) -> (out: bool)
    ensures
        out == is_decimal(s@),
{
    let k: usize = find_exponent(s);
    if k >= s.len() {
        mantissa_ok(s)
    } else {
        let e = drop_sign(chars::from(s, k + 1));
        mantissa_ok(chars::upto(s, k)) && e.len() > 0 && only_digits(e)
    }
}

/// Whether `s` is a literal of a double-precision number.
pub fn real_ok(s: &[char]) -> (out: bool)
    ensures
        out == is_real(s@),
{
    let body = drop_sign(s);
    let low = chars::lower(body);
    chars::same(low.as_slice(), "inf") || chars::same(low.as_slice(), "infinity") || chars::same(
        low.as_slice(),
        "nan",
    ) || decimal_ok(body)
}

pub(crate) proof fn lemma_ten_positive(n: nat)
    ensures
        ten(n) >= 1,
    decreases n,
{
    if n > 0 {
        lemma_ten_positive((n - 1) as nat);
    }
}

proof fn lemma_times_one(x: nat)
    ensures
        x * ten(0) == x,
        ten(0) * x == x,
{
    assert(x * ten(0) == x && ten(0) * x == x) by (nonlinear_arith)
        requires
            ten(0) == 1,
    ;
}

pub(crate) proof fn lemma_ten_adds(a: nat, b: nat)
    ensures
        ten(a + b) == ten(a) * ten(b),
    decreases a,
{
    if a > 0 {
        lemma_ten_adds((a - 1) as nat, b);
        assert((a + b - 1) as nat == ((a - 1) as nat) + b);
        assert(10 * (ten((a - 1) as nat) * ten(b)) == (10 * ten((a - 1) as nat)) * ten(b))
            by (nonlinear_arith);
    } else {
        lemma_times_one(ten(b));
    }
}

proof fn lemma_ten_grows(a: nat, b: nat)
    requires
        a <= b,
    ensures
        ten(a) <= ten(b),
    decreases b - a,
{
    if a < b {
        lemma_ten_grows(a, (b - 1) as nat);
        lemma_ten_positive((b - 1) as nat);
    }
}

/// What a sequence of digits writes is bounded by its length, from above and,
/// where the first digit is not zero, from below.
pub(crate) proof fn lemma_value_bounds(s: Seq<char>)
    ensures
        value(s) < ten(s.len()),
        s.len() > 0 && digit(s[0]) > 0 ==> value(s) >= ten((s.len() - 1) as nat),
    decreases s.len(),
{
    if s.len() > 0 {
        lemma_value_bounds(s.drop_last());
        if s.len() > 1 {
            assert(s.drop_last()[0] == s[0]);
        }
    }
}

pub(crate) proof fn lemma_value_joined(x: Seq<char>, y: Seq<char>)
    ensures
        value(x + y) == value(x) * ten(y.len()) + value(y),
    decreases y.len(),
{
    if y.len() == 0 {
        assert(x + y =~= x);
        lemma_times_one(value(x));
    } else {
        assert((x + y).drop_last() =~= x + y.drop_last());
        lemma_value_joined(x, y.drop_last());
        let t = ten((y.len() - 1) as nat);
        assert((value(x) * t) * 10 == value(x) * (10 * t)) by (nonlinear_arith);
    }
}

/// The first digit counts as often as the length of the rest says.
pub(crate) proof fn lemma_value_front(s: Seq<char>)
    requires
        s.len() > 0,
    ensures
        value(s) == digit(s[0]) * ten((s.len() - 1) as nat) + value(s.skip(1)),
{
    let head = seq![s[0]];
    assert(head + s.skip(1) =~= s);
    lemma_value_joined(head, s.skip(1));
    assert(value(head.drop_last()) == 0);
    assert(value(head) == digit(s[0]));
}

/// Of two numbers of the same length the first digit in which they differ decides.
proof fn lemma_first_difference(x: Seq<char>, y: Seq<char>, i: int)
    requires
        x.len() == y.len(),
        0 <= i < x.len(),
        forall|j: int| 0 <= j < i ==> digit(#[trigger] x[j]) == digit(y[j]),
        digit(x[i]) > digit(y[i]),
    ensures
        value(x) > value(y),
    decreases x.len(),
{
    lemma_value_front(x);
    lemma_value_front(y);
    let t = ten((x.len() - 1) as nat);
    if i == 0 {
        lemma_value_bounds(y.skip(1));
        assert(digit(x[0]) * t >= digit(y[0]) * t + t) by (nonlinear_arith)
            requires
                digit(x[0]) >= digit(y[0]) + 1,
        ;
    } else {
        assert(digit(x[0]) == digit(y[0]));
        assert forall|j: int| 0 <= j < i - 1 implies digit(#[trigger] x.skip(1)[j]) == digit(
            y.skip(1)[j],
        ) by {
            assert(x.skip(1)[j] == x[j + 1]);
        }
        lemma_first_difference(x.skip(1), y.skip(1), i - 1);
    }
}

proof fn lemma_same_digits(x: Seq<char>, y: Seq<char>)
    requires
        x.len() == y.len(),
        forall|j: int| 0 <= j < x.len() ==> digit(#[trigger] x[j]) == digit(y[j]),
    ensures
        value(x) == value(y),
    decreases x.len(),
{
    if x.len() > 0 {
        assert forall|j: int| 0 <= j < x.len() - 1 implies digit(#[trigger] x.drop_last()[j])
            == digit(y.drop_last()[j]) by {
            assert(x.drop_last()[j] == x[j]);
        }
        lemma_same_digits(x.drop_last(), y.drop_last());
        assert(digit(x[x.len() - 1]) == digit(y[x.len() - 1]));
    }
}

/// The number whose leading digit stands higher is the larger one.
proof fn lemma_higher_lead(x: Seq<char>, ex: int, y: Seq<char>, ey: int)
    requires
        x.len() > 0,
        digit(x[0]) > 0,
        x.len() + ex > y.len() + ey,
    ensures
        more(value(x), ex, value(y), ey),
        !more(value(y), ey, value(x), ex),
{
    let low = if ex <= ey {
        ex
    } else {
        ey
    };
    let a = (x.len() - 1) as nat;
    let b = (ex - low) as nat;
    let c = y.len();
    let d = (ey - low) as nat;
    lemma_value_bounds(x);
    lemma_value_bounds(y);
    lemma_ten_adds(a, b);
    lemma_ten_adds(c, d);
    lemma_ten_grows(c + d, a + b);
    lemma_ten_positive(d);
    assert(value(x) * ten(b) >= ten(a) * ten(b)) by (nonlinear_arith)
        requires
            value(x) >= ten(a),
    ;
    assert(value(y) * ten(d) < ten(c) * ten(d)) by (nonlinear_arith)
        requires
            value(y) < ten(c),
            ten(d) >= 1,
    ;
}

proof fn lemma_nothing_more(e: int, b: nat, eb: int)
    ensures
        !more(0, e, b, eb),
{
    let low = if e <= eb {
        e
    } else {
        eb
    };
    assert(0 * ten((e - low) as nat) == 0);
    assert(b * ten((eb - low) as nat) >= 0) by (nonlinear_arith);
}

proof fn lemma_more_than_nothing(x: Seq<char>, e: int, eb: int)
    requires
        x.len() > 0,
        digit(x[0]) > 0,
    ensures
        more(value(x), e, 0, eb),
{
    let low = if e <= eb {
        e
    } else {
        eb
    };
    lemma_value_bounds(x);
    lemma_ten_positive((x.len() - 1) as nat);
    lemma_ten_positive((e - low) as nat);
    assert(value(x) * ten((e - low) as nat) >= 1) by (nonlinear_arith)
        requires
            value(x) >= 1,
            ten((e - low) as nat) >= 1,
    ;
    assert(0 * ten((eb - low) as nat) == 0);
}

/// The digit that a character stands for.
pub(crate) fn digit_of(c: char) -> (out: u32)
    ensures
        out == digit(c),
{
    if '0' <= c && c <= '9' {
        c as u32 - '0' as u32
    } else {
        0
    }
}

/// `s` without its leading zeros.
fn drop_zeros(s: &[char]) -> (out: &[char])
    ensures
        value(out@) == value(s@),
        out@.len() > 0 ==> digit(out@[0]) > 0,
        out@.len() <= s@.len(),
{
    let mut i: usize = 0;
    assert(s@.skip(0) =~= s@);
    while i < s.len() && digit_of(s[i]) == 0
        invariant
            i <= s@.len(),
            value(s@.skip(i as int)) == value(s@),
        decreases s@.len() - i,
    {
        proof {
            lemma_value_front(s@.skip(i as int));
            assert(s@.skip(i as int).skip(1) =~= s@.skip(i + 1));
            assert(0 * ten((s@.len() - i - 1) as nat) == 0);
        }
        i = i + 1;
    }
    chars::from(s, i)
}

/// `s` with `k` zeros behind it.
fn with_zeros(s: &[char], k: usize) -> (out: Vec<char>)
    ensures
        out@.len() == s@.len() + k,
        value(out@) == value(s@) * ten(k as nat),
        forall|j: int| 0 <= j < s@.len() ==> out@[j] == s@[j],
{
    let mut out = vstd::slice::slice_to_vec(s);
    let mut i: usize = 0;
    proof {
        lemma_times_one(value(s@));
    }
    while i < k
        invariant
            i <= k,
            out@.len() == s@.len() + i,
            value(out@) == value(s@) * ten(i as nat),
            forall|j: int| 0 <= j < s@.len() ==> out@[j] == s@[j],
        decreases k - i,
    {
        let ghost before = out@;
        out.push('0');
        assert(out@.drop_last() =~= before);
        assert((value(s@) * ten(i as nat)) * 10 == value(s@) * (10 * ten(i as nat)))
            by (nonlinear_arith);
        i = i + 1;
    }
    out
}

/// Whether the first of two numbers of the same length is the larger one.
fn larger(x: &[char], y: &[char]) -> (out: bool)
    requires
        x@.len() == y@.len(),
    ensures
        out == (value(x@) > value(y@)),
{
    let mut i: usize = 0;
    while i < x.len()
        invariant
            i <= x@.len(),
            x@.len() == y@.len(),
            forall|j: int| 0 <= j < i ==> digit(#[trigger] x@[j]) == digit(y@[j]),
        decreases x@.len() - i,
    {
        let a: u32 = digit_of(x[i]);
        let b: u32 = digit_of(y[i]);
        if a > b {
            proof {
                lemma_first_difference(x@, y@, i as int);
            }
            return true;
        }
        if a < b {
            proof {
                assert forall|j: int| 0 <= j < i implies digit(#[trigger] y@[j]) == digit(
                    x@[j],
                ) by {
                    assert(digit(x@[j]) == digit(y@[j]));
                }
                lemma_first_difference(y@, x@, i as int);
            }
            return false;
        }
        i = i + 1;
    }
    proof {
        lemma_same_digits(x@, y@);
    }
    false
}

/// A bound on exponents that leaves room for lengths.
const FAR: i128 = 1_000_000_000_000_000_000_000_000_000_000;

/// Whether `a` times ten to the `ea` is more than `b` times ten to the `eb`.
fn is_more(a: &[char], ea: i128, b: &[char], eb: i128) -> (out: bool)
    requires
        -FAR <= ea <= FAR,
        -FAR <= eb <= FAR,
    ensures
        out == more(value(a@), ea as int, value(b@), eb as int),
{
    let ghost va = value(a@);
    let ghost vb = value(b@);
    let a = drop_zeros(a);
    let b = drop_zeros(b);
    let ghost low = if ea <= eb {
        ea as int
    } else {
        eb as int
    };
    if a.len() == 0 {
        proof {
            lemma_nothing_more(ea as int, vb, eb as int);
        }
        return false;
    }
    if b.len() == 0 {
        proof {
            lemma_more_than_nothing(a@, ea as int, eb as int);
        }
        return true;
    }
    let pa: i128 = a.len() as i128 + ea;
    let pb: i128 = b.len() as i128 + eb;
    if pa > pb {
        proof {
            lemma_higher_lead(a@, ea as int, b@, eb as int);
        }
        return true;
    }
    if pa < pb {
        proof {
            lemma_higher_lead(b@, eb as int, a@, ea as int);
        }
        return false;
    }
    if a.len() <= b.len() {
        let x = with_zeros(a, b.len() - a.len());
        assert((ea - low) as nat == (b@.len() - a@.len()) as nat);
        proof {
            lemma_times_one(vb);
        }
        larger(x.as_slice(), b)
    } else {
        let y = with_zeros(b, a.len() - b.len());
        assert((eb - low) as nat == (a@.len() - b@.len()) as nat);
        proof {
            lemma_times_one(va);
        }
        larger(a, y.as_slice())
    }
}

/// What the digits write, as long as that is less than [`FAR`].
fn read_capped(s: &[char]) -> (out: i128)
    ensures
        0 <= out <= 11 * FAR,
        out < FAR ==> out == value(s@),
        out >= FAR ==> value(s@) >= FAR,
{
    let mut acc: i128 = 0;
    let mut i: usize = 0;
    while i < s.len()
        invariant
            i <= s@.len(),
            0 <= acc <= 10 * FAR + 9,
            acc < FAR ==> acc == value(s@.take(i as int)),
            acc >= FAR ==> value(s@.take(i as int)) >= FAR,
        decreases s@.len() - i,
    {
        assert(s@.take(i + 1).drop_last() =~= s@.take(i as int));
        if acc < FAR {
            acc = acc * 10 + digit_of(s[i]) as i128;
        }
        i = i + 1;
    }
    assert(s@.take(i as int) =~= s@);
    acc
}

/// A decimal number, read apart.
struct Decimal {
    /// Its digits.
    digits: Vec<char>,
    /// The power of ten that they are to be multiplied with; past half of
    /// [`FAR`] on either side it only says on which side the power lies.
    power: i128,
}

/// Reads a decimal number apart.
fn take_apart(s: &[char]) -> (out: Decimal)
    requires
        is_decimal(s@),
    ensures
        out.digits@ == coefficient(s@),
        -12 * FAR <= out.power <= 12 * FAR,
        -FAR / 2 < out.power < FAR / 2 ==> out.power == scale(s@),
        out.power >= FAR / 2 ==> scale(s@) >= FAR / 2,
        out.power <= -FAR / 2 ==> scale(s@) <= -FAR / 2,
{
    let k: usize = find_exponent(s);
    let mantissa = if k >= s.len() {
        s
    } else {
        chars::upto(s, k)
    };
    let p: usize = chars::find_char(mantissa, 0, '.');
    assert(mantissa@.skip(0) =~= mantissa@);
    let mut fraction: i128 = 0;
    let digits = if p >= mantissa.len() {
        vstd::slice::slice_to_vec(mantissa)
    } else {
        fraction = (mantissa.len() - p - 1) as i128;
        let back = chars::string_of(chars::from(mantissa, p + 1));
        chars::join(chars::upto(mantissa, p), back.as_str())
    };
    let mut power: i128 = 0;
    if k < s.len() {
        let e = chars::from(s, k + 1);
        let m: i128 = read_capped(drop_sign(e));
        power = if e.len() > 0 && e[0] == '-' {
            -m
        } else {
            m
        };
    }
    Decimal { digits, power: power - fraction }
}

/// Whether a decimal number is more than the number with the digits `b`,
/// times ten to the `eb`.
pub(crate) fn decimal_more(s: &[char], b: &[char], eb: i128) -> (out: bool)
    requires
        is_decimal(s@),
        -2000 <= eb <= 2000,
    ensures
        out == more(value(coefficient(s@)), scale(s@), value(b@), eb as int),
{
    let d = take_apart(s);
    if d.power >= FAR / 2 {
        let x = drop_zeros(d.digits.as_slice());
        if x.len() == 0 {
            proof {
                lemma_nothing_more(scale(s@), value(b@), eb as int);
            }
            return false;
        }
        let n: usize = b.len();
        proof {
            lemma_higher_lead(x@, scale(s@), b@, eb as int);
        }
        return true;
    }
    if d.power <= -FAR / 2 {
        let y = drop_zeros(b);
        let n: usize = d.digits.len();
        if y.len() == 0 {
            let x = drop_zeros(d.digits.as_slice());
            proof {
                if x@.len() == 0 {
                    lemma_nothing_more(scale(s@), value(b@), eb as int);
                } else {
                    lemma_more_than_nothing(x@, scale(s@), eb as int);
                }
            }
            return x.len() > 0;
        }
        proof {
            lemma_higher_lead(y@, eb as int, d.digits@, scale(s@));
        }
        return false;
    }
    is_more(d.digits.as_slice(), d.power, b, eb)
}

/// Whether a decimal number is less than the number with the digits `b`,
/// times ten to the `eb`.
pub(crate) fn decimal_less(s: &[char], b: &[char], eb: i128) -> (out: bool)
    requires
        is_decimal(s@),
        -2000 <= eb <= 2000,
    ensures
        out == more(value(b@), eb as int, value(coefficient(s@)), scale(s@)),
{
    let d = take_apart(s);
    if d.power >= FAR / 2 {
        let x = drop_zeros(d.digits.as_slice());
        let y = drop_zeros(b);
        let n: usize = b.len();
        if x.len() == 0 {
            proof {
                if y@.len() == 0 {
                    lemma_nothing_more(eb as int, 0, scale(s@));
                } else {
                    lemma_more_than_nothing(y@, eb as int, scale(s@));
                }
            }
            return y.len() > 0;
        }
        proof {
            lemma_higher_lead(x@, scale(s@), b@, eb as int);
        }
        return false;
    }
    if d.power <= -FAR / 2 {
        let y = drop_zeros(b);
        let n: usize = d.digits.len();
        if y.len() == 0 {
            proof {
                lemma_nothing_more(eb as int, value(d.digits@), scale(s@));
            }
            return false;
        }
        proof {
            lemma_higher_lead(y@, eb as int, d.digits@, scale(s@));
        }
        return true;
    }
    is_more(b, eb, d.digits.as_slice(), d.power)
}

/// Whether the magnitude of a real literal is at least the number with the digits `bound`.
fn at_least(s: &[char], bound: &str) -> (out: bool)
    ensures
        out == reaches(s@, bound@),
{
    let body = drop_sign(s);
    let low = chars::lower(body);
    if chars::same(low.as_slice(), "inf") || chars::same(low.as_slice(), "infinity") {
        return true;
    }
    decimal_ok(body) && !decimal_less(body, chars::chars_of(bound).as_slice(), 0)
}

/// Whether the double-precision value of a literal is finite.
pub fn finite(s: &[char]) -> (out: bool)
    ensures
        out == is_finite(s@),
{
    let body = drop_sign(s);
    let low = chars::lower(body);
    real_ok(s) && !chars::same(low.as_slice(), "nan") && !at_least(s, OVERFLOW)
}

/// Whether the double-precision value of a literal is zero.
pub fn zero(s: &[char]) -> (out: bool)
    ensures
        out == is_zero(s@),
{
    let body = drop_sign(s);
    decimal_ok(body) && !decimal_more(body, chars::chars_of(UNDERFLOW).as_slice(), -1075)
}

/// Whether the double-precision value of a literal is more than 1e40 in magnitude.
pub fn past_sentinel(s: &[char]) -> (out: bool)
    ensures
        out == reaches(s@, SENTINEL@),
{
    at_least(s, SENTINEL)
}

pub open spec fn is_negative(s: Seq<char>) -> bool {
    s.len() > 0 && s[0] == '-'
}

/// A real literal whose double-precision value is more than zero.
pub open spec fn is_positive(s: Seq<char>) -> bool {
    is_real(s) && !is_nan(unsign(s)) && !is_negative(s) && !is_zero(s)
}

/// Whether the double-precision value of a literal is more than zero.
pub fn positive(s: &[char]) -> (out: bool)
    ensures
        out == is_positive(s@),
{
    let low = chars::lower(drop_sign(s));
    real_ok(s) && !chars::same(low.as_slice(), "nan") && !(s.len() > 0 && s[0] == '-') && !zero(s)
}

/// The sum of two counts, as far as 64 bits hold it.
pub open spec fn wrapped_sum(a: u64, b: u64) -> u64 {
    ((a + b) % 0x1_0000_0000_0000_0000) as u64
}

/// Adds two counts within 64 bits.
pub fn add_wrapping(a: u64, b: u64) -> (out: u64)
    ensures
        out == wrapped_sum(a, b),
{
    a.wrapping_add(b)
}

/// `s` with zeros before it, `n` digits long.
pub(crate) fn pad_front(s: &[char], n: usize) -> (out: Vec<char>)
    requires
        s@.len() <= n,
    ensures
        out@.len() == n,
        value(out@) == value(s@),
{
    let mut out: Vec<char> = Vec::new();
    let mut k: usize = 0;
    let zeros: usize = n - s.len();
    while k < zeros
        invariant
            k <= zeros,
            out@.len() == k,
            value(out@) == 0,
        decreases zeros - k,
    {
        let ghost before = out@;
        out.push('0');
        assert(out@.drop_last() =~= before);
        k = k + 1;
    }
    let mut i: usize = 0;
    assert(value(s@.take(0)) == 0);
    while i < s.len()
        invariant
            i <= s@.len(),
            zeros + s@.len() == n,
            out@.len() == zeros + i,
            value(out@) == value(s@.take(i as int)),
        decreases s@.len() - i,
    {
        let ghost before = out@;
        out.push(s[i]);
        assert(out@.drop_last() =~= before);
        assert(s@.take(i + 1).drop_last() =~= s@.take(i as int));
        i = i + 1;
    }
    assert(s@.take(i as int) =~= s@);
    out
}

/// The character of a digit.
pub(crate) fn digit_char(d: u32) -> (out: char)
    requires
        d <= 9,
    ensures
        digit(out) == d,
{
    (48 + d as u8) as char
}

/// The sum of two numbers of the same length.
fn sum_digits(x: &[char], y: &[char]) -> (out: Vec<char>)
    requires
        x@.len() == y@.len() < usize::MAX,
    ensures
        value(out@) == value(x@) + value(y@),
        out@.len() == x@.len() + 1,
{
    let n: usize = x.len();
    let nothing: Vec<char> = Vec::new();
    let mut r = pad_front(nothing.as_slice(), n + 1);
    let mut i: usize = n;
    let mut carry: u32 = 0;
    proof {
        assert(value(x@.skip(n as int)) == 0);
        assert(value(y@.skip(n as int)) == 0);
        assert(value(r@.skip(n + 1)) == 0);
        lemma_times_one(0);
    }
    while i > 0
        invariant
            n == x@.len(),
            n == y@.len(),
            n < usize::MAX,
            i <= n,
            r@.len() == n + 1,
            carry <= 1,
            value(x@.skip(i as int)) + value(y@.skip(i as int)) == carry * ten((n - i) as nat)
                + value(r@.skip(i + 1)),
        decreases i,
    {
        let ghost t = ten((n - i) as nat);
        let ghost old_r = r@;
        let ghost c0 = carry as int;
        i = i - 1;
        let dx: u32 = digit_of(x[i]);
        let dy: u32 = digit_of(y[i]);
        let d: u32 = dx + dy + carry;
        r.set(i + 1, digit_char(d % 10));
        carry = d / 10;
        proof {
            lemma_value_front(x@.skip(i as int));
            lemma_value_front(y@.skip(i as int));
            lemma_value_front(r@.skip(i + 1));
            assert(x@.skip(i as int).skip(1) =~= x@.skip(i + 1));
            assert(y@.skip(i as int).skip(1) =~= y@.skip(i + 1));
            assert(r@.skip(i + 1).skip(1) =~= old_r.skip(i + 2));
            assert(r@.skip(i + 1)[0] == r@[i + 1]);
            assert(ten((n - i) as nat) == 10 * t);
            assert(dx * t + dy * t + c0 * t == (d / 10) * (10 * t) + (d % 10) * t)
                by (nonlinear_arith)
                requires
                    dx + dy + c0 == d,
                    d == (d / 10) * 10 + d % 10,
            ;
        }
    }
    let ghost low_digits = r@.skip(1);
    r.set(0, digit_char(carry));
    proof {
        assert(r@.skip(1) =~= low_digits);
        lemma_value_front(r@);
        assert(x@.skip(0) =~= x@);
        assert(y@.skip(0) =~= y@);
    }
    r
}

/// The sum of two numbers.
pub(crate) fn add_digits(x: &[char], y: &[char]) -> (out: Vec<char>)
    requires
        x@.len() < usize::MAX,
        y@.len() < usize::MAX,
    ensures
        value(out@) == value(x@) + value(y@),
{
    if x.len() <= y.len() {
        let x = pad_front(x, y.len());
        sum_digits(x.as_slice(), y)
    } else {
        let y = pad_front(y, x.len());
        sum_digits(x, y.as_slice())
    }
}

/// Whether the number `x` is larger than the number `y`.
pub(crate) fn exceeds(x: &[char], y: &[char]) -> (out: bool)
    ensures
        out == (value(x@) > value(y@)),
{
    proof {
        lemma_times_one(value(x@));
        lemma_times_one(value(y@));
    }
    is_more(x, 0, y, 0)
}

pub proof fn lemma_exponent_at(s: Seq<char>)
    ensures
        exponent_at(s) <= s.len(),
        exponent_at(s) < s.len() ==> s[exponent_at(s) as int] == 'e' || s[exponent_at(s) as int]
            == 'E',
    decreases s.len(),
{
    if s.len() > 0 {
        lemma_exponent_at(s.skip(1));
    }
}

pub proof fn lemma_index_of(s: Seq<char>, c: char)
    ensures
        chars::index_of(s, c) <= s.len(),
        chars::index_of(s, c) < s.len() ==> s[chars::index_of(s, c) as int] == c,
    decreases s.len(),
{
    if s.len() > 0 {
        lemma_index_of(s.skip(1), c);
    }
}

/// The decimal digits of a number, without leading zeros.
pub open spec fn decimal(n: nat) -> Seq<char>
    decreases n,
{
    if n < 10 {
        seq![(48 + n) as char]
    } else {
        decimal(n / 10).push((48 + n % 10) as char)
    }
}

/// Writes a number in decimal digits.
pub fn write_u64(n: u64) -> (out: Vec<char>)
    ensures
        out@ == decimal(n as nat),
        out@.len() <= 20,
    decreases n,
{
    proof {
        reveal_with_fuel(ten, 21);
        lemma_decimal_len(n as nat, 20);
    }
    if n < 10 {
        let c = (48 + n as u8) as char;
        let out: Vec<char> = vec![c];
        assert(out@ =~= seq![c]);
        out
    } else {
        let mut out = write_u64(n / 10);
        out.push((48 + (n % 10) as u8) as char);
        out
    }
}

pub(crate) proof fn lemma_decimal_digits(n: nat)
    ensures
        is_number(decimal(n)),
        value(decimal(n)) == n,
    decreases n,
{
    let s = decimal(n);
    if n < 10 {
        assert(value(s.drop_last()) == 0);
        assert(s.last() == (48 + n) as char);
    } else {
        lemma_decimal_digits(n / 10);
        assert(s.drop_last() =~= decimal(n / 10));
        assert forall|i: int| 0 <= i < s.len() implies is_digit(#[trigger] s[i]) by {
            if i < s.len() - 1 {
                assert(s[i] == decimal(n / 10)[i]);
            }
        }
    }
}

/// A number below ten to the `k` has at most `k` digits.
proof fn lemma_decimal_len(n: nat, k: nat)
    requires
        n < ten(k),
        k > 0,
    ensures
        decimal(n).len() <= k,
    decreases k,
{
    if n >= 10 {
        reveal_with_fuel(ten, 2);
        lemma_decimal_len(n / 10, (k - 1) as nat);
    }
}

/// What is written in decimal digits is read back.
pub proof fn law_written_count_is_read(n: u64)
    ensures
        u64_of(decimal(n as nat)) == Some(n),
        is_number(decimal(n as nat)),
{
    lemma_decimal_digits(n as nat);
    let s = decimal(n as nat);
    assert(is_digit(s[0]));
}

} // verus!
