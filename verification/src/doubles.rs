//! Real literals as double-precision values.
//!
//! Every finite double is a whole multiple of 2 to the -1074, the smallest one
//! above zero. So a double's magnitude is held as a number of such units, and
//! what is decided about doubles is decided in whole numbers.

use crate::chars;
use crate::numbers;
use vstd::prelude::*;

verus! {

/// `b` to the power of `n`.
pub open spec fn power(b: nat, n: nat) -> nat
    decreases n,
{
    if n == 0 {
        1
    } else {
        b * power(b, (n - 1) as nat)
    }
}

pub open spec fn two(n: nat) -> nat {
    power(2, n)
}

/// How far the doubles around a number of units stand from each other: a
/// double has 53 binary digits.
pub open spec fn spacing(n: nat) -> nat
    decreases n,
{
    if n < 0x20_0000_0000_0000 {
        1
    } else {
        2 * spacing(n / 2)
    }
}

/// `p / d` rounded to a whole number, to the even one where two are as near.
pub open spec fn round_even(p: nat, d: nat) -> nat {
    let k = p / d;
    let r = p % d;
    if 2 * r < d || (2 * r == d && k % 2 == 0) {
        k
    } else {
        k + 1
    }
}

/// The double nearest to `p / q` units.
pub open spec fn nearest(p: nat, q: nat) -> nat {
    let e = spacing(p / q);
    round_even(p, q * e) * e
}

/// Ten to the power of `e` where that is whole.
pub open spec fn up(e: int) -> nat {
    if e >= 0 {
        numbers::ten(e as nat)
    } else {
        1
    }
}

/// The magnitude of the double that a decimal literal, of digits `c` times ten
/// to the `e`, stands for.
pub open spec fn double_of(c: nat, e: int) -> nat {
    nearest(c * up(e) * two(1074), up(-e))
}

/// The magnitude of the double that a literal stands for.
pub open spec fn units(s: Seq<char>) -> nat {
    let body = numbers::unsign(s);
    double_of(numbers::value(numbers::coefficient(body)), numbers::scale(body))
}

/// The magnitude of the exact difference of two doubles.
pub open spec fn distance(x: nat, x_negative: bool, y: nat, y_negative: bool) -> nat {
    if x_negative != y_negative {
        x + y
    } else if x >= y {
        (x - y) as nat
    } else {
        (y - x) as nat
    }
}

/// Two real literals whose double-precision values differ, in double
/// precision, by more than a billionth. What is not a number differs from
/// nothing, an infinity from everything but itself.
pub open spec fn far_apart(a: Seq<char>, b: Seq<char>) -> bool {
    if !numbers::is_real(a) || !numbers::is_real(b) || numbers::is_nan(numbers::unsign(a))
        || numbers::is_nan(numbers::unsign(b)) {
        false
    } else if !numbers::is_finite(a) || !numbers::is_finite(b) {
        numbers::is_finite(a) != numbers::is_finite(b) || numbers::is_negative(a)
            != numbers::is_negative(b)
    } else {
        nearest(
            distance(units(a), numbers::is_negative(a), units(b), numbers::is_negative(b)),
            1,
        ) > double_of(1, -9)
    }
}

proof fn lemma_power_positive(b: nat, n: nat)
    requires
        b > 0,
    ensures
        power(b, n) > 0,
    decreases n,
{
    if n > 0 {
        lemma_power_positive(b, (n - 1) as nat);
        let x = power(b, (n - 1) as nat);
        assert(b * x > 0) by (nonlinear_arith)
            requires
                b > 0,
                x > 0,
        ;
    }
}

proof fn lemma_power_adds(b: nat, m: nat, n: nat)
    ensures
        power(b, m + n) == power(b, m) * power(b, n),
    decreases m,
{
    if m > 0 {
        lemma_power_adds(b, (m - 1) as nat, n);
        let x = power(b, (m - 1) as nat);
        let y = power(b, n);
        assert((m + n - 1) as nat == (m - 1) as nat + n);
        assert(b * (x * y) == (b * x) * y) by (nonlinear_arith);
    } else {
        assert(1 * power(b, n) == power(b, n));
    }
}

proof fn lemma_two_grows(m: nat, n: nat)
    requires
        m <= n,
    ensures
        two(m) <= two(n),
    decreases n - m,
{
    if m < n {
        lemma_two_grows(m, (n - 1) as nat);
        lemma_power_positive(2, (n - 1) as nat);
    }
}

proof fn lemma_ten_is_two_times_five(n: nat)
    ensures
        numbers::ten(n) == power(5, n) * two(n),
    decreases n,
{
    if n > 0 {
        lemma_ten_is_two_times_five((n - 1) as nat);
        let x = power(5, (n - 1) as nat);
        let y = two((n - 1) as nat);
        assert(10 * (x * y) == (5 * x) * (2 * y)) by (nonlinear_arith);
    } else {
        assert(numbers::ten(0) == 1);
        assert(power(5, 0) * two(0) == 1) by (nonlinear_arith)
            requires
                power(5, 0) == 1,
                two(0) == 1,
        ;
    }
}

/// Ten to the `3n` is at most two to the `10n`.
proof fn lemma_ten_below_two(n: nat)
    ensures
        numbers::ten(3 * n) <= two(10 * n),
    decreases n,
{
    if n > 0 {
        let m = (n - 1) as nat;
        lemma_ten_below_two(m);
        reveal_with_fuel(numbers::ten, 4);
        reveal_with_fuel(power, 11);
        assert(3 * n == 3 * m + 3);
        assert(10 * n == 10 * m + 10);
        numbers::lemma_ten_adds(3, 3 * m);
        lemma_power_adds(2, 10, 10 * m);
        assert(numbers::ten(3) == 1000);
        assert(two(10) == 1024);
        assert(1000 * numbers::ten(3 * m) <= 1024 * two(10 * m)) by (nonlinear_arith)
            requires
                numbers::ten(3 * m) <= two(10 * m),
        ;
    }
}

/// The power of two that gives the spacing around `n`.
proof fn lemma_spacing(n: nat) -> (t: nat)
    ensures
        spacing(n) == two(t),
        n < two(53 + t),
        t > 0 ==> n >= two(52 + t),
    decreases n,
{
    lemma_small_powers();
    if n < 0x20_0000_0000_0000 {
        0
    } else {
        let t = lemma_spacing(n / 2);
        assert(two(53 + (t + 1)) == 2 * two(53 + t));
        assert(two(52 + (t + 1)) == 2 * two(52 + t));
        t + 1
    }
}

proof fn lemma_small_powers()
    ensures
        two(0) == 1,
        two(29) == 0x2000_0000,
        two(30) == 0x4000_0000,
        two(41) == 0x200_0000_0000,
        two(52) == 0x10_0000_0000_0000,
        two(53) == 0x20_0000_0000_0000,
{
    reveal_with_fuel(power, 54);
}

/// The spacing is the power of two that fits.
proof fn lemma_spacing_is(n: nat, t: nat)
    requires
        n < two(53 + t),
        t > 0 ==> n >= two(52 + t),
    ensures
        spacing(n) == two(t),
{
    let u = lemma_spacing(n);
    if u < t {
        lemma_two_grows(53 + u, 52 + t);
    } else if t < u {
        lemma_two_grows(53 + t, 52 + u);
    }
}

/// Quotient and remainder are told by the multiples on either side.
proof fn lemma_quotient(p: nat, d: nat, k: nat)
    requires
        k * d <= p < (k + 1) * d,
    ensures
        d > 0,
        p / d == k,
        p % d == p - k * d,
{
    assert(d > 0) by (nonlinear_arith)
        requires
            k * d < (k + 1) * d,
    ;
    assert((k + 1) * d == k * d + d) by (nonlinear_arith);
    vstd::arithmetic::div_mod::lemma_fundamental_div_mod_converse(
        p as int,
        d as int,
        k as int,
        p - k * d,
    );
}

/// A fraction is rounded as told by the multiples on either side and the
/// middle between them.
proof fn lemma_round_even(p: nat, d: nat, k: nat)
    requires
        k * d <= p < (k + 1) * d,
    ensures
        round_even(p, d) == (if 2 * p < (2 * k + 1) * d || (2 * p == (2 * k + 1) * d && k % 2
            == 0) {
            k
        } else {
            k + 1
        }),
{
    lemma_quotient(p, d, k);
    assert((2 * k + 1) * d == 2 * (k * d) + d) by (nonlinear_arith);
}

proof fn lemma_below_quotient(p: nat, q: nat, n: nat)
    requires
        q > 0,
    ensures
        p / q < n <==> p < n * q,
{
    let k = p / q;
    vstd::arithmetic::div_mod::lemma_fundamental_div_mod(p as int, q as int);
    assert(q * k == k * q) by (nonlinear_arith);
    if k < n {
        assert((k + 1) * q <= n * q) by (nonlinear_arith)
            requires
                k + 1 <= n,
        ;
        assert((k + 1) * q == k * q + q) by (nonlinear_arith);
    } else {
        assert(n * q <= k * q) by (nonlinear_arith)
            requires
                n <= k,
        ;
    }
}

/// The double nearest to `p / q` is `m` times two to the `t`, or the next one.
proof fn lemma_nearest(p: nat, q: nat, t: nat, m: nat)
    requires
        q > 0,
        p < two(53 + t) * q,
        t > 0 ==> p >= two(52 + t) * q,
        2 * p >= m * two(t + 1) * q,
        2 * p < (m + 1) * two(t + 1) * q,
    ensures
        nearest(p, q) == (if 2 * p < (2 * m + 1) * two(t) * q || (2 * p == (2 * m + 1) * two(t) * q
            && m % 2 == 0) {
            m
        } else {
            m + 1
        }) * two(t),
{
    lemma_below_quotient(p, q, two(53 + t));
    lemma_below_quotient(p, q, two(52 + t));
    lemma_spacing_is(p / q, t);
    let e = two(t);
    let d = q * e;
    assert(two(t + 1) == 2 * e);
    assert(m * (2 * e) * q == 2 * (m * d)) by (nonlinear_arith)
        requires
            d == q * e,
    ;
    assert((m + 1) * (2 * e) * q == 2 * ((m + 1) * d)) by (nonlinear_arith)
        requires
            d == q * e,
    ;
    assert((2 * m + 1) * e * q == (2 * m + 1) * d) by (nonlinear_arith)
        requires
            d == q * e,
    ;
    lemma_round_even(p, d, m);
}

/// Two to the `t - 1075`, as digits times a power of ten.
pub open spec fn binary_digits(t: nat) -> nat {
    if t >= 1075 {
        two((t - 1075) as nat)
    } else {
        power(5, (1075 - t) as nat)
    }
}

pub open spec fn binary_scale(t: nat) -> int {
    if t >= 1075 {
        0
    } else {
        t - 1075
    }
}

/// A decimal literal is held against a multiple of a power of two by holding
/// their decimal digits against each other.
proof fn lemma_against_binary(c: nat, e: int, k: nat, t: nat)
    ensures
        numbers::more(k * binary_digits(t), binary_scale(t), c, e) <==> 2 * (c * up(e) * two(1074))
            < k * two(t) * up(-e),
        numbers::more(c, e, k * binary_digits(t), binary_scale(t)) <==> 2 * (c * up(e) * two(1074))
            > k * two(t) * up(-e),
        up(e) > 0,
        up(-e) > 0,
{
    let f = binary_digits(t);
    let pw = binary_scale(t);
    let low = if pw <= e {
        pw
    } else {
        e
    };
    let ta = numbers::ten((pw - low) as nat);
    let tb = numbers::ten((e - low) as nat);
    let n = (-pw) as nat;
    let ep: nat = if e >= 0 {
        e as nat
    } else {
        0
    };
    let em: nat = if e >= 0 {
        0
    } else {
        (-e) as nat
    };
    assert(up(e) == numbers::ten(ep));
    assert(up(-e) == numbers::ten(em));
    let b = ((pw - low) + ep) as nat;
    numbers::lemma_ten_adds((pw - low) as nat, ep);
    numbers::lemma_ten_adds((e - low) as nat, em);
    assert(b + n == (e - low) as nat + em);
    numbers::lemma_ten_adds(n, b);
    assert(n + b == b + n);
    numbers::lemma_ten_positive(ep);
    numbers::lemma_ten_positive(em);
    numbers::lemma_ten_positive((e - low) as nat);
    let x = up(e) * two(1075);
    let y = two(t) * up(-e);
    // What stands before the counts is in the same proportion on both sides.
    assert(f * two(1075) == numbers::ten(n) * two(t)) by {
        if t >= 1075 {
            lemma_power_adds(2, (t - 1075) as nat, 1075);
            assert(1 * two(t) == two(t));
        } else {
            lemma_power_adds(2, n, t);
            lemma_ten_is_two_times_five(n);
            assert(f * (two(n) * two(t)) == (f * two(n)) * two(t)) by (nonlinear_arith);
        }
    }
    assert((f * ta) * x == tb * y) by {
        assert((f * ta) * (up(e) * two(1075)) == (f * two(1075)) * (ta * up(e)))
            by (nonlinear_arith);
        assert((numbers::ten(n) * two(t)) * numbers::ten(b) == (numbers::ten(n) * numbers::ten(b))
            * two(t)) by (nonlinear_arith);
        assert((tb * up(-e)) * two(t) == tb * (two(t) * up(-e))) by (nonlinear_arith);
    }
    lemma_power_positive(2, 1075);
    assert(x > 0) by (nonlinear_arith)
        requires
            x == up(e) * two(1075),
            up(e) > 0,
            two(1075) > 0,
    ;
    let l = (k * f) * ta;
    let r = c * tb;
    assert(l * x == tb * (k * y)) by {
        assert(((k * f) * ta) * x == k * ((f * ta) * x)) by (nonlinear_arith);
        assert(k * (tb * y) == tb * (k * y)) by (nonlinear_arith);
    }
    assert(r * x == tb * (c * x)) by (nonlinear_arith)
        requires
            r == c * tb,
    ;
    assert((l > r) == (k * y > c * x)) by (nonlinear_arith)
        requires
            l * x == tb * (k * y),
            r * x == tb * (c * x),
            x > 0,
            tb > 0,
    ;
    assert((r > l) == (c * x > k * y)) by (nonlinear_arith)
        requires
            l * x == tb * (k * y),
            r * x == tb * (c * x),
            x > 0,
            tb > 0,
    ;
    assert(two(1075) == 2 * two(1074));
    assert(c * (up(e) * (2 * two(1074))) == 2 * (c * up(e) * two(1074))) by (nonlinear_arith);
    assert(k * (two(t) * up(-e)) == k * two(t) * up(-e)) by (nonlinear_arith);
}

/// A finite literal is less than two to the 1030, which is two to the 2105
/// half units.
proof fn lemma_finite_is_bounded(s: Seq<char>)
    requires
        numbers::is_finite(s),
    ensures
        numbers::is_decimal(numbers::unsign(s)),
        ({
            let body = numbers::unsign(s);
            let c = numbers::value(numbers::coefficient(body));
            let e = numbers::scale(body);
            2 * (c * up(e) * two(1074)) < two(2105) * up(-e)
        }),
{
    let body = numbers::unsign(s);
    let c = numbers::value(numbers::coefficient(body));
    let e = numbers::scale(body);
    let o = numbers::value(numbers::OVERFLOW@);
    reveal_strlit("179769313486231580793728971405303415079934132710037826936173778980444968292764750946649017977587207096330286416692887910946555547851940402630657488671505820681908902000708383676273854845817711531764475730270069855571366959622842914819860834936475292719074168444365510704342711559699508093042880177904174497792");
    assert(numbers::OVERFLOW@.len() == 309);
    numbers::lemma_value_bounds(numbers::OVERFLOW@);
    lemma_ten_below_two(103);
    assert(numbers::more(o, 0, c, e));
    // With the larger bound in place of the digits of the overflow.
    let f = two(1030);
    let low = if 0 <= e {
        0
    } else {
        e
    };
    let t0 = numbers::ten((0 - low) as nat);
    assert(f * t0 >= o * t0) by (nonlinear_arith)
        requires
            f >= o,
    ;
    assert(numbers::more(f, 0, c, e));
    lemma_against_binary(c, e, 1, 2105);
    assert(1 * binary_digits(2105) == f);
    assert(1 * two(2105) == two(2105));
}

/// The digits times `k`.
fn times(x: &[char], k: u64) -> (out: Vec<char>)
    requires
        k <= 0x100_0000_0000_0000,
    ensures
        numbers::value(out@) == numbers::value(x@) * k,
        out@.len() <= x@.len() + 20,
{
    let n: usize = x.len();
    let nothing: Vec<char> = Vec::new();
    let mut r = numbers::pad_front(nothing.as_slice(), n);
    let mut i: usize = n;
    let mut carry: u64 = 0;
    proof {
        assert(numbers::value(x@.skip(n as int)) == 0);
        assert(numbers::value(r@.skip(n as int)) == 0);
    }
    while i > 0
        invariant
            n == x@.len(),
            i <= n,
            r@.len() == n,
            carry <= k,
            k <= 0x100_0000_0000_0000,
            numbers::value(x@.skip(i as int)) * k == carry * numbers::ten((n - i) as nat)
                + numbers::value(r@.skip(i as int)),
        decreases i,
    {
        let ghost t = numbers::ten((n - i) as nat);
        let ghost old_r = r@;
        let ghost c0 = carry as int;
        let ghost rest = numbers::value(x@.skip(i as int));
        i = i - 1;
        let dx: u64 = numbers::digit_of(x[i]) as u64;
        assert(dx * k <= 9 * k) by (nonlinear_arith)
            requires
                dx <= 9,
        ;
        let d: u64 = dx * k + carry;
        r.set(i, numbers::digit_char((d % 10) as u32));
        carry = d / 10;
        proof {
            numbers::lemma_value_front(x@.skip(i as int));
            numbers::lemma_value_front(r@.skip(i as int));
            assert(x@.skip(i as int).skip(1) =~= x@.skip(i + 1));
            assert(r@.skip(i as int).skip(1) =~= old_r.skip(i + 1));
            assert(numbers::ten((n - i) as nat) == 10 * t);
            assert((dx * t + rest) * k == (dx * k) * t + rest * k) by (nonlinear_arith);
            assert((dx * k) * t + c0 * t == (d / 10) * (10 * t) + (d % 10) * t)
                by (nonlinear_arith)
                requires
                    dx * k + c0 == d,
                    d == (d / 10) * 10 + d % 10,
            ;
        }
    }
    let mut out = numbers::write_u64(carry);
    let ghost head = out@;
    chars::extend(&mut out, r.as_slice());
    proof {
        assert(x@.skip(0) =~= x@);
        assert(r@.skip(0) =~= r@);
        assert(out@ =~= head + r@);
        numbers::lemma_value_joined(head, r@);
        numbers::lemma_decimal_digits(carry as nat);
    }
    out
}

/// `k` times `b` to the power of `n`, as digits; `chunk` is `b` to the power
/// of 12.
fn raise(k: u64, b: u64, chunk: u64, n: usize) -> (out: Vec<char>)
    requires
        k <= 0x100_0000_0000_0000,
        b <= 5,
        chunk <= 0x100_0000_0000_0000,
        chunk == power(b as nat, 12),
    ensures
        numbers::value(out@) == k * power(b as nat, n as nat),
        out@.len() <= 20 * (n + 1),
{
    let mut out = numbers::write_u64(k);
    proof {
        numbers::lemma_decimal_digits(k as nat);
        assert(k * power(b as nat, 0) == k) by (nonlinear_arith)
            requires
                power(b as nat, 0) == 1,
        ;
    }
    let mut i: usize = 0;
    while n - i >= 12
        invariant
            i <= n,
            chunk <= 0x100_0000_0000_0000,
            chunk == power(b as nat, 12),
            numbers::value(out@) == k * power(b as nat, i as nat),
            out@.len() <= 20 * (i + 1),
        decreases n - i,
    {
        out = times(out.as_slice(), chunk);
        proof {
            lemma_power_adds(b as nat, i as nat, 12);
            let x = power(b as nat, i as nat);
            assert((k * x) * chunk == k * (x * chunk)) by (nonlinear_arith);
        }
        i = i + 12;
    }
    while i < n
        invariant
            i <= n,
            b <= 5,
            numbers::value(out@) == k * power(b as nat, i as nat),
            out@.len() <= 20 * (i + 1),
        decreases n - i,
    {
        out = times(out.as_slice(), b);
        proof {
            let x = power(b as nat, i as nat);
            assert((k * x) * b == k * (b * x)) by (nonlinear_arith);
        }
        i = i + 1;
    }
    out
}

/// `k` times two to the power of `t`, as digits.
fn shifted(k: u64, t: usize) -> (out: Vec<char>)
    requires
        k <= 0x100_0000_0000_0000,
    ensures
        numbers::value(out@) == k * two(t as nat),
        out@.len() <= 20 * (t + 1),
{
    proof {
        reveal_with_fuel(power, 13);
        assert(power(2, 12) == 4096);
    }
    raise(k, 2, 4096, t)
}

/// The digits of two to the `t - 1075`.
fn binary(t: usize) -> (out: Vec<char>)
    requires
        t <= 3000,
    ensures
        numbers::value(out@) == binary_digits(t as nat),
{
    if t >= 1075 {
        shifted(1, t - 1075)
    } else {
        proof {
            reveal_with_fuel(power, 13);
            assert(power(5, 12) == 244_140_625);
        }
        raise(1, 5, 244_140_625, 1075 - t)
    }
}

/// Where a decimal literal lies against a multiple of a power of two.
enum Side {
    Below,
    At,
    Above,
}

/// Holds a decimal literal against `k` times two to the `t - 1075`, whose
/// digits for `k` of one are `digits`.
fn side(body: &[char], k: u64, t: usize, digits: &Vec<char>) -> (out: Side)
    requires
        numbers::is_decimal(body@),
        k <= 0x100_0000_0000_0000,
        t <= 3000,
        numbers::value(digits@) == binary_digits(t as nat),
    ensures
        ({
            let c = numbers::value(numbers::coefficient(body@));
            let e = numbers::scale(body@);
            let p = 2 * (c * up(e) * two(1074));
            let q = k * two(t as nat) * up(-e);
            match out {
                Side::Below => p < q,
                Side::At => p == q,
                Side::Above => p > q,
            }
        }),
{
    let power: i128 = if t >= 1075 {
        0
    } else {
        t as i128 - 1075
    };
    let b = times(digits.as_slice(), k);
    proof {
        let f = binary_digits(t as nat);
        assert(f * k == k * f) by (nonlinear_arith);
        lemma_against_binary(
            numbers::value(numbers::coefficient(body@)),
            numbers::scale(body@),
            k as nat,
            t as nat,
        );
    }
    if numbers::decimal_less(body, b.as_slice(), power) {
        Side::Below
    } else if numbers::decimal_more(body, b.as_slice(), power) {
        Side::Above
    } else {
        Side::At
    }
}

/// A double's magnitude: `digits` times two to the `shift`, in units.
struct Double {
    digits: u64,
    shift: usize,
}

/// The spacing of the doubles around a finite literal, as a power of two.
fn find_shift(s: &[char], body: &[char]) -> (t: usize)
    requires
        numbers::is_finite(s@),
        body@ == numbers::unsign(s@),
    ensures
        t <= 2051,
        ({
            let c = numbers::value(numbers::coefficient(body@));
            let e = numbers::scale(body@);
            let p = c * up(e) * two(1074);
            let q = up(-e);
            &&& p < two((53 + t) as nat) * q
            &&& t > 0 ==> p >= two((52 + t) as nat) * q
        }),
{
    let ghost c = numbers::value(numbers::coefficient(body@));
    let ghost e = numbers::scale(body@);
    let ghost p = c * up(e) * two(1074);
    let ghost q = up(-e);
    proof {
        lemma_finite_is_bounded(s@);
    }
    let mut low: usize = 0;
    let mut high: usize = 2051;
    while low < high
        invariant
            numbers::is_decimal(body@),
            low <= high <= 2051,
            c == numbers::value(numbers::coefficient(body@)),
            e == numbers::scale(body@),
            p == c * up(e) * two(1074),
            q == up(-e),
            2 * p < two((54 + high) as nat) * q,
            low > 0 ==> 2 * p >= two((53 + low) as nat) * q,
        decreases high - low,
    {
        let mid: usize = low + (high - low) / 2;
        let digits = binary(54 + mid);
        assert(1 * two((54 + mid) as nat) == two((54 + mid) as nat));
        match side(body, 1, 54 + mid, &digits) {
            Side::Below => {
                high = mid;
            },
            _ => {
                low = mid + 1;
            },
        }
    }
    proof {
        let a = two((53 + low) as nat);
        assert(two((54 + low) as nat) == 2 * a);
        assert((2 * a) * q == 2 * (a * q)) by (nonlinear_arith);
        if low > 0 {
            let b = two((52 + low) as nat);
            assert((2 * b) * q == 2 * (b * q)) by (nonlinear_arith);
        }
    }
    low
}

/// The double that a finite literal stands for.
fn read_double(s: &[char]) -> (out: Double)
    requires
        numbers::is_finite(s@),
    ensures
        out.digits <= 0x20_0000_0000_0000,
        out.shift <= 2051,
        out.digits * two(out.shift as nat) == units(s@),
{
    let body = numbers::drop_sign(s);
    let ghost c = numbers::value(numbers::coefficient(body@));
    let ghost e = numbers::scale(body@);
    let ghost p = c * up(e) * two(1074);
    let ghost q = up(-e);
    let t: usize = find_shift(s, body);
    let even = binary(t + 1);
    let mut low: u64 = 0;
    let mut high: u64 = 0x20_0000_0000_0000;
    proof {
        lemma_finite_is_bounded(s@);
        lemma_against_binary(c, e, 1, 0);
        lemma_small_powers();
        let a = two((53 + t) as nat);
        lemma_power_adds(2, 53, (t + 1) as nat);
        assert(53 + (t + 1) as nat == (54 + t) as nat);
        assert(two((54 + t) as nat) == 2 * a);
        assert((2 * a) * q == 2 * (a * q)) by (nonlinear_arith);
        let z = two((t + 1) as nat);
        assert(0 * z * q == 0) by (nonlinear_arith);
    }
    while high - low > 1
        invariant
            numbers::is_decimal(body@),
            low < high <= 0x20_0000_0000_0000,
            t <= 2051,
            c == numbers::value(numbers::coefficient(body@)),
            e == numbers::scale(body@),
            p == c * up(e) * two(1074),
            q == up(-e),
            numbers::value(even@) == binary_digits((t + 1) as nat),
            2 * p >= low * two((t + 1) as nat) * q,
            2 * p < high * two((t + 1) as nat) * q,
        decreases high - low,
    {
        let mid: u64 = low + (high - low) / 2;
        match side(body, mid, t + 1, &even) {
            Side::Below => {
                high = mid;
            },
            _ => {
                low = mid;
            },
        }
    }
    let middle = binary(t);
    let above = match side(body, 2 * low + 1, t, &middle) {
        Side::Below => false,
        Side::At => low % 2 != 0,
        Side::Above => true,
    };
    proof {
        assert(high == low + 1);
        lemma_nearest(p, q, t as nat, low as nat);
    }
    Double {
        digits: if above {
            low + 1
        } else {
            low
        },
        shift: t,
    }
}

/// The odd multiple of two to the 991 that lies in the middle between the
/// double of a billionth and the next one.
const MIDDLE: u64 = 9_671_406_556_917_035;

/// The double of a billionth.
proof fn lemma_billionth()
    ensures
        double_of(1, -9) == 4_835_703_278_458_517 * two(992),
{
    let big = two(992);
    let nine = numbers::ten(9);
    lemma_small_powers();
    assert(nine == 1_000_000_000) by {
        reveal_with_fuel(numbers::ten, 10);
    }
    lemma_power_adds(2, 41, 41);
    let w = two(82);
    assert(w == 4_835_703_278_458_516_698_824_704);
    lemma_power_adds(2, 82, 992);
    let p = two(1074);
    assert(up(-9) == 1);
    assert(1 * up(-9) * p == p) by (nonlinear_arith)
        requires
            up(-9) == 1,
    ;
    assert(up(9) == nine);
    lemma_power_positive(2, 992);
    // The spacing there.
    lemma_power_adds(2, 30, 1044);
    lemma_power_adds(2, 29, 1045);
    let a = two(1044);
    let b = two(1045);
    assert(a * nine <= p) by (nonlinear_arith)
        requires
            p == 0x4000_0000 * a,
            nine == 1_000_000_000,
    ;
    lemma_power_positive(2, 1045);
    assert(b * nine > p) by (nonlinear_arith)
        requires
            p == 0x2000_0000 * b,
            nine == 1_000_000_000,
            b > 0,
    ;
    lemma_below_quotient(p, nine, a);
    lemma_below_quotient(p, nine, b);
    lemma_spacing_is(p / nine, 992);
    let d = nine * big;
    let k: nat = 4_835_703_278_458_516;
    assert(k * d <= p && p < (k + 1) * d && 2 * p > (2 * k + 1) * d) by (nonlinear_arith)
        requires
            d == 1_000_000_000 * big,
            p == 4_835_703_278_458_516_698_824_704 * big,
            k == 4_835_703_278_458_516,
            big > 0,
    ;
    lemma_round_even(p, d, k);
}

/// In double precision a difference is more than a billionth from the middle
/// above it on: there it is rounded away from it.
proof fn lemma_threshold(d: nat)
    ensures
        nearest(d, 1) > double_of(1, -9) <==> d >= MIDDLE * two(991),
{
    lemma_billionth();
    lemma_small_powers();
    let c: nat = 4_835_703_278_458_517;
    let big = two(992);
    let h = two(991);
    assert(big == 2 * h);
    lemma_power_positive(2, 991);
    lemma_power_adds(2, 52, 992);
    lemma_power_adds(2, 53, 992);
    assert(two(1044) == 0x10_0000_0000_0000 * big);
    assert(two(1045) == 0x20_0000_0000_0000 * big);
    assert(d / 1 == d);
    let t = lemma_spacing(d);
    let e = two(t);
    lemma_power_positive(2, t);
    assert(1 * e == e);
    let k = d / e;
    vstd::arithmetic::div_mod::lemma_fundamental_div_mod(d as int, e as int);
    assert(e * k == k * e) by (nonlinear_arith);
    assert((k + 1) * e == k * e + e) by (nonlinear_arith);
    lemma_round_even(d, e, k);
    let r = round_even(d, e);
    assert(nearest(d, 1) == r * e);
    lemma_below_quotient(d, e, two(53));
    lemma_power_adds(2, 53, t);
    assert(k < two(53));
    assert(r * e <= two(53) * e) by (nonlinear_arith)
        requires
            r <= two(53),
    ;
    if t > 992 {
        lemma_power_adds(2, 52, t);
        lemma_below_quotient(d, e, two(52));
        assert(r * e >= two(52) * e) by (nonlinear_arith)
            requires
                r >= two(52),
        ;
        lemma_two_grows(1045, 52 + t);
        assert(MIDDLE * h <= two(1045)) by (nonlinear_arith)
            requires
                MIDDLE == 9_671_406_556_917_035,
                two(1045) == 0x20_0000_0000_0000 * big,
                big == 2 * h,
        ;
        assert(c * big < two(1045)) by (nonlinear_arith)
            requires
                c == 4_835_703_278_458_517,
                two(1045) == 0x20_0000_0000_0000 * big,
                big > 0,
        ;
    } else if t < 992 {
        lemma_two_grows(53 + t, 1044);
        assert(MIDDLE * h > two(1044)) by (nonlinear_arith)
            requires
                MIDDLE == 9_671_406_556_917_035,
                two(1044) == 0x10_0000_0000_0000 * big,
                big == 2 * h,
                h > 0,
        ;
        assert(c * big >= two(1044)) by (nonlinear_arith)
            requires
                c == 4_835_703_278_458_517,
                two(1044) == 0x10_0000_0000_0000 * big,
        ;
    } else {
        assert(e == big);
        assert((r * big > c * big) == (r > c)) by (nonlinear_arith)
            requires
                big > 0,
        ;
        assert((2 * c + 1) * big == 2 * (MIDDLE * h)) by (nonlinear_arith)
            requires
                c == 4_835_703_278_458_517,
                MIDDLE == 9_671_406_556_917_035,
                big == 2 * h,
        ;
        if k > c {
            assert((2 * k + 1) * big >= (2 * c + 1) * big && k * big >= (c + 1) * big)
                by (nonlinear_arith)
                requires
                    k >= c + 1,
            ;
            assert(2 * ((c + 1) * big) >= (2 * c + 1) * big) by (nonlinear_arith);
        } else if k < c {
            assert((k + 1) * big <= c * big) by (nonlinear_arith)
                requires
                    k + 1 <= c,
            ;
            assert(2 * (c * big) < (2 * c + 1) * big) by (nonlinear_arith)
                requires
                    big > 0,
            ;
        }
    }
}

/// Whether the double-precision values of two literals differ by more than a
/// billionth.
pub fn apart(a: &[char], b: &[char]) -> (out: bool)
    ensures
        out == far_apart(a@, b@),
{
    let x = chars::lower(numbers::drop_sign(a));
    let y = chars::lower(numbers::drop_sign(b));
    if !numbers::real_ok(a) || !numbers::real_ok(b) || chars::same(x.as_slice(), "nan")
        || chars::same(y.as_slice(), "nan") {
        return false;
    }
    let text = chars::string_of(b);
    if chars::same(a, text.as_str()) {
        proof {
            lemma_threshold(0);
            lemma_power_positive(2, 991);
            assert(MIDDLE * two(991) > 0) by (nonlinear_arith)
                requires
                    MIDDLE == 9_671_406_556_917_035,
                    two(991) > 0,
            ;
        }
        return false;
    }
    let a_negative = a.len() > 0 && a[0] == '-';
    let b_negative = b.len() > 0 && b[0] == '-';
    let a_finite = numbers::finite(a);
    let b_finite = numbers::finite(b);
    if !a_finite || !b_finite {
        return a_finite != b_finite || a_negative != b_negative;
    }
    let m = read_double(a);
    let n = read_double(b);
    let p = shifted(m.digits, m.shift);
    let q = shifted(n.digits, n.shift);
    let d = shifted(MIDDLE, 991);
    proof {
        lemma_threshold(
            distance(
                units(a@),
                numbers::is_negative(a@),
                units(b@),
                numbers::is_negative(b@),
            ),
        );
    }
    if a_negative == b_negative {
        let qd = numbers::add_digits(q.as_slice(), d.as_slice());
        let pd = numbers::add_digits(p.as_slice(), d.as_slice());
        !numbers::exceeds(qd.as_slice(), p.as_slice()) || !numbers::exceeds(
            pd.as_slice(),
            q.as_slice(),
        )
    } else {
        let both = numbers::add_digits(p.as_slice(), q.as_slice());
        !numbers::exceeds(d.as_slice(), both.as_slice())
    }
}

} // verus!
