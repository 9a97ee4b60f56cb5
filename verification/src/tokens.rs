//! Token counts as the header shows them. Counts are divided as binary64 numbers, whose
//! significands have 53 bits, and the quotients are then rounded to a few digits.

use vstd::prelude::*;
use crate::number::{decimal, push_decimal};

verus! {

/// The least integer that takes 53 bits.
pub const LEAST_SIGNIFICAND: u128 = 0x10_0000_0000_0000;

/// The least integer that takes 54 bits.
pub const SIGNIFICAND_LIMIT: u128 = 0x20_0000_0000_0000;

/// The integer nearest to `a / b`, and of two equally near ones the even one.
pub open spec fn half_even(a: nat, b: nat) -> nat {
    let below = a / b;
    let rest = a % b;
    if 2 * rest < b || (2 * rest == b && below % 2 == 0) {
        below
    } else {
        below + 1
    }
}

/// The spacing of binary64 numbers at `n`, or 1 where that is smaller.
pub open spec fn spacing(n: nat) -> nat
    decreases n,
{
    if n < SIGNIFICAND_LIMIT {
        1
    } else {
        2 * spacing(n / 2)
    }
}

/// The binary64 number nearest to `n`.
pub open spec fn nearest(n: nat) -> nat {
    half_even(n, spacing(n)) * spacing(n)
}

/// `a` doubled until `a / b` takes 53 bits before the point, and by how much it grew.
pub open spec fn scaled(a: nat, b: nat) -> (nat, nat)
    decreases 2 * (LEAST_SIGNIFICAND * b) - a,
{
    if a == 0 || a >= LEAST_SIGNIFICAND * b {
        (a, 1)
    } else {
        let (x, d) = scaled(2 * a, b);
        (x, 2 * d)
    }
}

/// The binary64 number nearest to `a / b`, as a fraction.
pub open spec fn quotient(a: nat, b: nat) -> (nat, nat) {
    let (x, d) = scaled(a, b);
    (half_even(x, b), d)
}

/// How many tenths of a unit `n` shows.
pub open spec fn tenths(n: nat, unit: nat) -> nat {
    let (m, d) = quotient(nearest(n), unit);
    half_even(10 * m, d)
}

/// A number of tenths as a decimal number.
pub open spec fn one_decimal(tenths: nat) -> Seq<char> {
    decimal(tenths / 10) + "."@ + decimal(tenths % 10)
}

/// A number of tokens: in millions or thousands with one digit behind the point, or
/// below a thousand as it is.
pub open spec fn tokens_text(n: nat) -> Seq<char> {
    if n >= 1_000_000 {
        one_decimal(tenths(n, 1_000_000)) + "M"@
    } else if n >= 1_000 {
        one_decimal(tenths(n, 1_000)) + "k"@
    } else {
        decimal(n)
    }
}

/// A limit on tokens: whole thousands below a million without a digit behind the point.
pub open spec fn limit_text(n: nat) -> Seq<char> {
    if 1_000 <= n < 1_000_000 && n % 1_000 == 0 {
        decimal(n / 1_000) + "k"@
    } else {
        tokens_text(n)
    }
}

/// How many percent of `limit` are `n`, at most a hundred.
pub open spec fn percent(n: nat, limit: nat) -> nat {
    let a = nearest(n);
    let b = nearest(limit);
    if a == 0 {
        0
    } else if a >= b {
        100
    } else {
        let (m, d) = quotient(a, b);
        half_even(nearest(100 * m), d)
    }
}

/// The token counts of the header: the context, how much of the model's window it
/// takes where that is known, and what was generated.
pub open spec fn usage_text(context: nat, limit: nat, output: nat) -> Seq<char> {
    if limit > 0 {
        "ctx:"@ + tokens_text(context) + "/"@ + limit_text(limit) + " ("@ + decimal(
            percent(context, limit),
        ) + "%) · out:"@ + tokens_text(output) + " "@
    } else if context > 0 {
        "ctx:"@ + tokens_text(context) + " · out:"@ + tokens_text(output) + " "@
    } else {
        Seq::empty()
    }
}

fn nearest_integer(a: u128, b: u128) -> (r: u128)
    requires
        0 < b < 0x4000_0000_0000_0000_0000_0000_0000_0000,
        a < 0x4000_0000_0000_0000_0000_0000_0000_0000,
    ensures
        r == half_even(a as nat, b as nat),
{
    let below = a / b;
    let rest = a % b;
    assert(below <= a) by (nonlinear_arith)
        requires
            below == a / b,
            b > 0,
    ;
    if 2 * rest < b || (2 * rest == b && below % 2 == 0) {
        below
    } else {
        below + 1
    }
}

/// Rounding keeps within one spacing.
proof fn lemma_half_even(a: nat, b: nat)
    requires
        b > 0,
    ensures
        2 * (half_even(a, b) * b) <= 2 * a + b,
        2 * a <= 2 * (half_even(a, b) * b) + b,
        half_even(a, b) <= a / b + 1,
{
    let q = a / b;
    let r = a % b;
    assert(a == q * b + r && r < b) by {
        vstd::arithmetic::div_mod::lemma_fundamental_div_mod(a as int, b as int);
        assert(b * q == q * b) by (nonlinear_arith);
    }
    assert((q + 1) * b == q * b + b) by (nonlinear_arith);
}

fn nearest_number(n: u128) -> (r: u128)
    requires
        n <= u64::MAX,
    ensures
        r == nearest(n as nat),
        r <= 2 * n,
        n > 0 ==> r > 0,
{
    let mut x: u128 = n;
    let mut d: u128 = 1;
    while x >= SIGNIFICAND_LIMIT
        invariant
            n <= u64::MAX,
            d > 0,
            d * x <= n,
            x <= n,
            d <= n || n < SIGNIFICAND_LIMIT,
            spacing(n as nat) == d * spacing(x as nat),
            n > 0 ==> x > 0,
            d == 1 || x >= LEAST_SIGNIFICAND,
        decreases x,
    {
        let ghost rest = spacing((x / 2) as nat);
        proof {
            assert(d * (2 * rest) == (2 * d) * rest) by (nonlinear_arith);
            assert((2 * d) * (x / 2) <= d * x) by (nonlinear_arith)
                requires
                    d > 0,
                    x >= 0,
            ;
            assert(2 * d <= (2 * d) * (x / 2)) by (nonlinear_arith)
                requires
                    d > 0,
                    x >= 2,
            ;
        }
        x = x / 2;
        d = d * 2;
    }
    proof {
        lemma_half_even(n as nat, d as nat);
        assert(d * 1 == d);
        assert(spacing(n as nat) == d);
        assert(d == 1 || 2 * d <= n) by {
            if d != 1 {
                assert(2 * d <= d * x) by (nonlinear_arith)
                    requires
                        d > 0,
                        x >= 2,
                ;
            }
        }
        let h = half_even(n as nat, d as nat);
        if d == 1 {
            assert(h * 1 == h);
            assert(n as nat % 1 == 0);
            assert(h == n);
        } else {
            assert(h > 0) by {
                if h == 0 {
                    assert(0 * (d as int) == 0);
                    assert(2 * n <= d);
                }
            }
            assert(h * d > 0) by (nonlinear_arith)
                requires
                    h > 0,
                    d > 0,
            ;
        }
    }
    nearest_integer(n, d) * d
}

fn divide(a: u128, b: u128) -> (r: (u128, u128))
    requires
        0 < a,
        0 < b <= 0x2_0000_0000_0000_0000,
        a < LEAST_SIGNIFICAND * b,
    ensures
        (r.0 as nat, r.1 as nat) == quotient(a as nat, b as nat),
        r.0 <= SIGNIFICAND_LIMIT,
        0 < r.1 < 0x4000_0000_0000_0000_0000_0000_0000_0000,
{
    let mut x: u128 = a;
    let mut d: u128 = 1;
    let least: u128 = LEAST_SIGNIFICAND * b;
    while x < least
        invariant
            0 < a,
            0 < b <= 0x2_0000_0000_0000_0000,
            least == LEAST_SIGNIFICAND * b,
            d > 0,
            x == a * d,
            x < 2 * least,
            scaled(a as nat, b as nat) == (
                scaled(x as nat, b as nat).0,
                (d * scaled(x as nat, b as nat).1) as nat,
            ),
        decreases 2 * least - x,
    {
        proof {
            assert(x > 0 && d <= x) by (nonlinear_arith)
                requires
                    x == a * d,
                    a > 0,
                    d > 0,
            ;
            let rest = scaled((2 * x) as nat, b as nat).1;
            assert(d * (2 * rest) == (2 * d) * rest) by (nonlinear_arith);
            assert(a * (2 * d) == 2 * (a * d)) by (nonlinear_arith);
        }
        x = x * 2;
        d = d * 2;
    }
    proof {
        assert(d <= x) by (nonlinear_arith)
            requires
                x == a * d,
                a > 0,
                d > 0,
        ;
        assert(scaled(x as nat, b as nat) == (x as nat, 1nat));
        assert(d * 1 == d);
        lemma_half_even(x as nat, b as nat);
        assert(x / b < SIGNIFICAND_LIMIT) by (nonlinear_arith)
            requires
                x < 2 * (LEAST_SIGNIFICAND * b),
                b > 0,
        ;
    }
    (nearest_integer(x, b), d)
}

fn count_tenths(n: u64, unit: u64) -> (r: u64)
    requires
        (unit == 1_000 && n < 1_000_000) || unit == 1_000_000,
        n >= unit,
    ensures
        r == tenths(n as nat, unit as nat),
{
    let a = nearest_number(n as u128);
    let (m, d) = divide(a, unit as u128);
    let r = nearest_integer(10 * m, d);
    proof {
        lemma_half_even((10 * m) as nat, d as nat);
        assert((10 * m) / d as int <= 10 * m) by (nonlinear_arith)
            requires
                d > 0,
                m >= 0,
        ;
    }
    r as u64
}

fn push_one_decimal(s: &mut String, tenths: u64)
    ensures
        final(s)@ == old(s)@ + one_decimal(tenths as nat),
{
    push_decimal(s, tenths / 10);
    s.append(".");
    push_decimal(s, tenths % 10);
    assert(s@ =~= old(s)@ + one_decimal(tenths as nat));
}

/// A number of tokens as the header shows it.
pub fn format_tokens(n: u64) -> (r: String)
    ensures
        r@ == tokens_text(n as nat),
{
    let mut s = String::new();
    if n >= 1_000_000 {
        push_one_decimal(&mut s, count_tenths(n, 1_000_000));
        s.append("M");
    } else if n >= 1_000 {
        push_one_decimal(&mut s, count_tenths(n, 1_000));
        s.append("k");
    } else {
        push_decimal(&mut s, n);
    }
    assert(s@ =~= tokens_text(n as nat));
    s
}

/// A limit on tokens as the header shows it.
pub fn format_limit(n: u64) -> (r: String)
    ensures
        r@ == limit_text(n as nat),
{
    if n >= 1_000 && n < 1_000_000 && n % 1_000 == 0 {
        let mut s = String::new();
        push_decimal(&mut s, n / 1_000);
        s.append("k");
        assert(s@ =~= limit_text(n as nat));
        s
    } else {
        format_tokens(n)
    }
}

/// How many percent of a limit are in use.
pub fn context_percent(n: u64, limit: u64) -> (r: u64)
    requires
        limit > 0,
    ensures
        r == percent(n as nat, limit as nat),
        r <= 100,
{
    let a = nearest_number(n as u128);
    let b = nearest_number(limit as u128);
    if a == 0 {
        0
    } else if a >= b {
        100
    } else {
        let (m, d) = divide(a, b);
        let p = nearest_number(100 * m);
        proof {
            lemma_at_most_a_hundred(a as nat, b as nat);
        }
        nearest_integer(p, d) as u64
    }
}

/// The token counts of the header.
pub fn usage_label(context: u64, limit: u64, output: u64) -> (r: String)
    ensures
        r@ == usage_text(context as nat, limit as nat, output as nat),
{
    if limit > 0 {
        let mut s = "ctx:".to_string();
        s.append(format_tokens(context).as_str());
        s.append("/");
        s.append(format_limit(limit).as_str());
        s.append(" (");
        push_decimal(&mut s, context_percent(context, limit));
        s.append("%) · out:");
        s.append(format_tokens(output).as_str());
        s.append(" ");
        s
    } else if context > 0 {
        let mut s = "ctx:".to_string();
        s.append(format_tokens(context).as_str());
        s.append(" · out:");
        s.append(format_tokens(output).as_str());
        s.append(" ");
        s
    } else {
        let s = String::new();
        assert(s@ =~= Seq::empty());
        s
    }
}

/// What scaling leaves as it is.
proof fn lemma_scaled(a: nat, b: nat)
    requires
        a > 0,
        b > 0,
    ensures
        scaled(a, b).1 > 0,
        scaled(a, b).0 == a * scaled(a, b).1,
        scaled(a, b).0 >= LEAST_SIGNIFICAND * b,
        a < SIGNIFICAND_LIMIT * b ==> scaled(a, b).0 < SIGNIFICAND_LIMIT * b,
    decreases 2 * (LEAST_SIGNIFICAND * b) - a,
{
    if a < LEAST_SIGNIFICAND * b {
        lemma_scaled(2 * a, b);
        let d = scaled(2 * a, b).1;
        assert((2 * a) * d == a * (2 * d)) by (nonlinear_arith);
    } else {
        assert(a * 1 == a);
    }
}

/// Numbers lie no further apart than their 53rd bit weighs.
proof fn lemma_spacing(n: nat)
    ensures
        spacing(n) > 0,
        spacing(n) == 1 || spacing(n) * LEAST_SIGNIFICAND <= n,
    decreases n,
{
    if n >= SIGNIFICAND_LIMIT {
        lemma_spacing(n / 2);
    }
}

/// Where `a` is below `b`, no more than a hundred percent come out.
proof fn lemma_at_most_a_hundred(a: nat, b: nat)
    requires
        0 < a < b,
    ensures
        ({
            let (m, d) = quotient(a, b);
            half_even(nearest(100 * m), d) <= 100
        }),
{
    let (x, d) = scaled(a, b);
    let m = half_even(x, b);
    lemma_scaled(a, b);
    lemma_half_even(x, b);
    assert(x < d * b) by (nonlinear_arith)
        requires
            x == a * d,
            a < b,
            d > 0,
    ;
    assert(x / b < d) by (nonlinear_arith)
        requires
            x < d * b,
            b > 0,
    ;
    assert(m <= d);
    let p = 100 * m;
    let s = spacing(p);
    lemma_spacing(p);
    lemma_half_even(p, s);
    let near = nearest(p);
    assert(2 * near <= 2 * p + s);
    assert(d >= LEAST_SIGNIFICAND) by (nonlinear_arith)
        requires
            x < d * b,
            x >= LEAST_SIGNIFICAND * b,
            b > 0,
    ;
    lemma_half_even(near, d);
    let h = half_even(near, d);
    if h > 100 {
        assert(h * d >= 101 * d) by (nonlinear_arith)
            requires
                h >= 101,
                d > 0,
        ;
        assert(false);
    }
}

/// Integers of up to 53 bits are binary64 numbers.
proof fn lemma_nearest_itself(n: nat)
    requires
        n < SIGNIFICAND_LIMIT,
    ensures
        nearest(n) == n,
{
    assert(n % 1 == 0);
    assert(n / 1 == n);
    assert(spacing(n) == 1);
    assert(half_even(n, 1) == n);
    assert(n * 1 == n);
}

/// A number of whole tenths of a thousand, or of a million, is shown as it is.
pub proof fn whole_tenths_are_shown_exactly(t: nat, unit: nat)
    requires
        unit == 1_000 || unit == 1_000_000,
        10 <= t,
        t * (unit / 10) < SIGNIFICAND_LIMIT,
    ensures
        tenths(t * (unit / 10), unit) == t,
{
    let n = t * (unit / 10);
    assert(10 * n == t * unit && n > 0) by (nonlinear_arith)
        requires
            n == t * (unit / 10),
            unit == 1_000 || unit == 1_000_000,
            t > 0,
    ;
    lemma_nearest_itself(n);
    let (x, d) = scaled(n, unit);
    lemma_scaled(n, unit);
    let m = half_even(x, unit);
    lemma_half_even(x, unit);
    assert(10 * x == (t * d) * unit) by (nonlinear_arith)
        requires
            x == n * d,
            10 * n == t * unit,
    ;
    let y = t * d;
    assert(20 * (m * unit) <= 2 * (y * unit) + 10 * unit);
    assert(2 * (y * unit) <= 20 * (m * unit) + 10 * unit);
    assert(10 * m <= y + 5 && y <= 10 * m + 5) by (nonlinear_arith)
        requires
            20 * (m * unit) <= 2 * (y * unit) + 10 * unit,
            2 * (y * unit) <= 20 * (m * unit) + 10 * unit,
            unit > 0,
    ;
    assert(d > 10) by (nonlinear_arith)
        requires
            x == n * d,
            n < SIGNIFICAND_LIMIT,
            x >= LEAST_SIGNIFICAND * unit,
            unit >= 1_000,
    ;
    lemma_half_even(10 * m, d);
    let h = half_even(10 * m, d);
    if h > t {
        assert(h * d >= y + d) by (nonlinear_arith)
            requires
                h >= t + 1,
                y == t * d,
                d > 0,
        ;
        assert(false);
    }
    if h < t {
        assert(h * d <= y - d) by (nonlinear_arith)
            requires
                h <= t - 1,
                y == t * d,
                d > 0,
        ;
        assert(false);
    }
}

/// Tenths are rounded to the nearest: they differ from the exact quotient by no more than
/// half of a tenth and a hundredth of one, which the division may add.
pub proof fn tenths_are_rounded_to_the_nearest(n: nat, unit: nat)
    requires
        unit == 1_000 || unit == 1_000_000,
        0 < n < SIGNIFICAND_LIMIT,
    ensures
        100 * (tenths(n, unit) * unit) <= 100 * (10 * n) + 51 * unit,
        100 * (10 * n) <= 100 * (tenths(n, unit) * unit) + 51 * unit,
{
    lemma_nearest_itself(n);
    let (x, d) = scaled(n, unit);
    lemma_scaled(n, unit);
    let m = half_even(x, unit);
    lemma_half_even(x, unit);
    let h = half_even(10 * m, d);
    lemma_half_even(10 * m, d);
    assert(d >= 500) by (nonlinear_arith)
        requires
            x == n * d,
            n < SIGNIFICAND_LIMIT,
            x >= LEAST_SIGNIFICAND * unit,
            unit >= 1_000,
    ;
    lemma_error_stays_small(h, m, n, d, unit, 10, 0);
}

/// Two roundings one after another add up to little more than the second.
proof fn lemma_error_stays_small(
    h: nat,
    m: nat,
    n: nat,
    d: nat,
    unit: nat,
    factor: nat,
    extra: nat,
)
    requires
        unit > 0,
        d > 0,
        2 * (h * d) <= 2 * (factor * m) + d + extra,
        2 * (factor * m) <= 2 * (h * d) + d + extra,
        2 * (m * unit) <= 2 * (n * d) + unit,
        2 * (n * d) <= 2 * (m * unit) + unit,
        100 * (extra + factor) <= 2 * d,
    ensures
        100 * (h * unit) <= 100 * (factor * n) + 51 * unit,
        100 * (factor * n) <= 100 * (h * unit) + 51 * unit,
{
    let hu = h * unit;
    let scaled_up = factor * n;
    assert(2 * (hu * d) <= 2 * (factor * (m * unit)) + (d + extra) * unit) by (nonlinear_arith)
        requires
            hu == h * unit,
            2 * (h * d) <= 2 * (factor * m) + d + extra,
    ;
    assert(2 * (factor * (m * unit)) <= 2 * (hu * d) + (d + extra) * unit) by (nonlinear_arith)
        requires
            hu == h * unit,
            2 * (factor * m) <= 2 * (h * d) + d + extra,
    ;
    assert(2 * (factor * (m * unit)) <= 2 * (scaled_up * d) + factor * unit) by (nonlinear_arith)
        requires
            scaled_up == factor * n,
            2 * (m * unit) <= 2 * (n * d) + unit,
    ;
    assert(2 * (scaled_up * d) <= 2 * (factor * (m * unit)) + factor * unit) by (nonlinear_arith)
        requires
            scaled_up == factor * n,
            2 * (n * d) <= 2 * (m * unit) + unit,
    ;
    let slack = (d + extra) * unit + factor * unit;
    assert(100 * slack <= 102 * (unit * d)) by (nonlinear_arith)
        requires
            slack == (d + extra) * unit + factor * unit,
            100 * (extra + factor) <= 2 * d,
    ;
    assert(100 * (2 * (hu * d)) <= 100 * (2 * (scaled_up * d)) + 102 * (unit * d));
    assert(100 * (2 * (scaled_up * d)) <= 100 * (2 * (hu * d)) + 102 * (unit * d));
    assert(100 * hu <= 100 * scaled_up + 51 * unit) by (nonlinear_arith)
        requires
            100 * (2 * (hu * d)) <= 100 * (2 * (scaled_up * d)) + 102 * (unit * d),
            d > 0,
    ;
    assert(100 * scaled_up <= 100 * hu + 51 * unit) by (nonlinear_arith)
        requires
            100 * (2 * (scaled_up * d)) <= 100 * (2 * (hu * d)) + 102 * (unit * d),
            d > 0,
    ;
}

/// Percentages are rounded to the nearest: they differ from the exact ones by no more than
/// half of a percent and a hundredth of one, which the division may add. What reaches the
/// limit is a hundred percent, however much it is.
pub proof fn percentages_are_rounded_to_the_nearest(n: nat, limit: nat)
    requires
        n < SIGNIFICAND_LIMIT,
        0 < limit < SIGNIFICAND_LIMIT,
    ensures
        n >= limit ==> percent(n, limit) == 100,
        n < limit ==> 100 * (percent(n, limit) * limit) <= 100 * (100 * n) + 51 * limit,
        n < limit ==> 100 * (100 * n) <= 100 * (percent(n, limit) * limit) + 51 * limit,
{
    lemma_nearest_itself(n);
    lemma_nearest_itself(limit);
    if 0 < n < limit {
        let (x, d) = scaled(n, limit);
        lemma_scaled(n, limit);
        let m = half_even(x, limit);
        lemma_half_even(x, limit);
        assert(d >= LEAST_SIGNIFICAND) by (nonlinear_arith)
            requires
                x == n * d,
                0 < n < limit,
                x >= LEAST_SIGNIFICAND * limit,
        ;
        assert(m <= d) by (nonlinear_arith)
            requires
                x == n * d,
                n < limit,
                d > 0,
                2 * (m * limit) <= 2 * x + limit,
        ;
        let a = 100 * m;
        let s = spacing(a);
        lemma_spacing(a);
        lemma_half_even(a, s);
        let near = half_even(a, s) * s;
        let h = half_even(near, d);
        lemma_half_even(near, d);
        assert(s <= 1 + d / 1_000_000) by (nonlinear_arith)
            requires
                s == 1 || s * LEAST_SIGNIFICAND <= a,
                a <= 100 * d,
                d >= LEAST_SIGNIFICAND,
        ;
        assert(percent(n, limit) == h);
        lemma_error_stays_small(h, m, n, d, limit, 100, s);
    } else if n == 0 {
        assert(percent(n, limit) == 0);
        assert(0 * limit == 0);
    }
}

/// A count is shown as it is below a thousand, in thousands below a million, and else in
/// millions: whole units, a point and one digit for the tenths.
pub proof fn counts_are_shown_in_their_unit(n: nat)
    ensures
        n < 1_000 ==> tokens_text(n) == decimal(n),
        1_000 <= n < 1_000_000 ==> tokens_text(n) == decimal(tenths(n, 1_000) / 10) + "."@
            + decimal(tenths(n, 1_000) % 10) + "k"@,
        n >= 1_000_000 ==> tokens_text(n) == decimal(tenths(n, 1_000_000) / 10) + "."@ + decimal(
            tenths(n, 1_000_000) % 10,
        ) + "M"@,
{
}

/// A limit of whole thousands below a million is shown without a point, and every other
/// limit as a count.
pub proof fn limits_are_shown_in_whole_thousands(k: nat, n: nat)
    ensures
        0 < k < 1_000 ==> limit_text(k * 1_000) == decimal(k) + "k"@,
        n < 1_000 || n >= 1_000_000 || n % 1_000 != 0 ==> limit_text(n) == tokens_text(n),
{
    assert((k * 1_000) % 1_000 == 0 && (k * 1_000) / 1_000 == k);
}

/// The header shows the context, the limit and its percentage where there is a limit, and
/// the output. Without a limit it shows nothing before there is a context.
pub proof fn usage_is_shown_where_it_is_known(context: nat, limit: nat, output: nat)
    ensures
        limit > 0 ==> usage_text(context, limit, output) == "ctx:"@ + tokens_text(context) + "/"@
            + limit_text(limit) + " ("@ + decimal(percent(context, limit)) + "%) · out:"@
            + tokens_text(output) + " "@,
        limit == 0 && context > 0 ==> usage_text(context, limit, output) == "ctx:"@ + tokens_text(
            context,
        ) + " · out:"@ + tokens_text(output) + " "@,
        limit == 0 && context == 0 ==> usage_text(context, limit, output).len() == 0,
{
}

/// Rounding goes to the nearest integer, and where two are equally near to the even one.
pub proof fn rounding_goes_to_the_nearest(a: nat, b: nat)
    requires
        b > 0,
    ensures
        2 * (half_even(a, b) * b) <= 2 * a + b,
        2 * a <= 2 * (half_even(a, b) * b) + b,
        2 * (half_even(a, b) * b) == 2 * a + b || 2 * a == 2 * (half_even(a, b) * b) + b
            ==> half_even(a, b) % 2 == 0,
{
    let q = a / b;
    let r = a % b;
    assert(a == q * b + r && r < b) by {
        vstd::arithmetic::div_mod::lemma_fundamental_div_mod(a as int, b as int);
        assert(b * q == q * b) by (nonlinear_arith);
    }
    assert((q + 1) * b == q * b + b) by (nonlinear_arith);
}

/// Whether a number is reached from one by doubling.
pub open spec fn is_doubled(d: nat) -> bool
    decreases d,
{
    d == 1 || (d > 1 && d % 2 == 0 && is_doubled(d / 2))
}

/// A quotient is the nearest fraction whose numerator takes 53 bits and whose denominator
/// is a power of two.
pub proof fn quotients_are_the_nearest_of_53_bits(a: nat, b: nat)
    requires
        b > 0,
        0 < a < SIGNIFICAND_LIMIT * b,
    ensures
        ({
            let (m, d) = quotient(a, b);
            &&& is_doubled(d)
            &&& LEAST_SIGNIFICAND <= m <= SIGNIFICAND_LIMIT
            &&& 2 * (m * b) <= 2 * (a * d) + b
            &&& 2 * (a * d) <= 2 * (m * b) + b
            &&& 2 * (m * b) == 2 * (a * d) + b || 2 * (a * d) == 2 * (m * b) + b ==> m % 2 == 0
        }),
{
    let (x, d) = scaled(a, b);
    lemma_scaled(a, b);
    lemma_scaled_by_doubling(a, b);
    rounding_goes_to_the_nearest(x, b);
    let m = half_even(x, b);
    assert(LEAST_SIGNIFICAND <= m) by (nonlinear_arith)
        requires
            x >= LEAST_SIGNIFICAND * b,
            2 * x <= 2 * (m * b) + b,
            b > 0,
    ;
    assert(m <= SIGNIFICAND_LIMIT) by (nonlinear_arith)
        requires
            x < SIGNIFICAND_LIMIT * b,
            2 * (m * b) <= 2 * x + b,
            b > 0,
    ;
}

proof fn lemma_scaled_by_doubling(a: nat, b: nat)
    requires
        a > 0,
        b > 0,
    ensures
        is_doubled(scaled(a, b).1),
    decreases 2 * (LEAST_SIGNIFICAND * b) - a,
{
    if a < LEAST_SIGNIFICAND * b {
        lemma_scaled_by_doubling(2 * a, b);
        let d = scaled(2 * a, b).1;
        assert((2 * d) / 2 == d && (2 * d) % 2 == 0);
    }
}

/// A count is taken to the nearest integer of 53 bits times a power of two, and so stays
/// as it is where it has no more bits.
pub proof fn counts_are_taken_to_53_bits(n: nat)
    ensures
        is_doubled(spacing(n)),
        n < SIGNIFICAND_LIMIT ==> spacing(n) == 1 && nearest(n) == n,
        n >= SIGNIFICAND_LIMIT ==> LEAST_SIGNIFICAND * spacing(n) <= n < SIGNIFICAND_LIMIT
            * spacing(n),
        nearest(n) == half_even(n, spacing(n)) * spacing(n),
{
    lemma_spacing_is_doubled(n);
    if n < SIGNIFICAND_LIMIT {
        lemma_nearest_itself(n);
    }
}

proof fn lemma_spacing_is_doubled(n: nat)
    ensures
        is_doubled(spacing(n)),
        n < SIGNIFICAND_LIMIT * spacing(n),
        n >= SIGNIFICAND_LIMIT ==> LEAST_SIGNIFICAND * spacing(n) <= n,
    decreases n,
{
    if n >= SIGNIFICAND_LIMIT {
        lemma_spacing_is_doubled(n / 2);
        let s = spacing(n / 2);
        assert((2 * s) / 2 == s && (2 * s) % 2 == 0);
        if n / 2 < SIGNIFICAND_LIMIT {
            assert(s == 1);
        }
    }
}

} // verus!
