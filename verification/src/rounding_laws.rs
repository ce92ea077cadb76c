//! How near the rounded numbers come.

use crate::rounding;
use crate::rounding::Double;
use crate::text;
use vstd::arithmetic::power2::*;
use vstd::prelude::*;

verus! {

/// Rounding gives a nearest integer, and of two that are equally near the even one.
pub proof fn law_rounding_gives_a_nearest_integer(num: int, den: int)
    requires
        den > 0,
    ensures
        2 * (den * rounding::round_half_even(num, den) - num) <= den,
        2 * (num - den * rounding::round_half_even(num, den)) <= den,
        2 * (den * rounding::round_half_even(num, den) - num) == den || 2 * (num - den
            * rounding::round_half_even(num, den)) == den ==> rounding::round_half_even(num, den)
            % 2 == 0,
{
    vstd::arithmetic::div_mod::lemma_fundamental_div_mod(num, den);
    let below = num / den;
    assert(den * (below + 1) == den * below + den) by (nonlinear_arith);
}

/// The floating-point number nearest to a quotient has a mantissa of 53 bits, and is off by half
/// of its last bit at most.
pub proof fn law_nearest_double_is_near(num: nat, den: nat)
    requires
        num > 0,
        den > 0,
    ensures
        ({
            let d = rounding::nearest_double(num, den);
            if d.exponent >= 0 {
                let unit = den * pow2(d.exponent as nat);
                &&& unit * pow2(52) <= num < unit * pow2(53)
                &&& 2 * (d.mantissa * unit - num) <= unit
                &&& 2 * (num - d.mantissa * unit) <= unit
            } else {
                let scaled = num * pow2((-d.exponent) as nat);
                &&& den * pow2(52) <= scaled < den * pow2(53)
                &&& 2 * (d.mantissa * den - scaled) <= den
                &&& 2 * (scaled - d.mantissa * den) <= den
            }
        }),
        pow2(52) <= rounding::nearest_double(num, den).mantissa <= pow2(53),
{
    rounding::lemma_scaled(num, den);
    let d = rounding::nearest_double(num, den);
    if d.exponent >= 0 {
        let p = pow2(d.exponent as nat);
        lemma_pow2_pos(d.exponent as nat);
        let unit = den * p;
        assert(unit > 0) by (nonlinear_arith)
            requires
                den > 0,
                p > 0,
                unit == den * p,
        ;
        let m = rounding::round_half_even(num as int, unit as int);
        law_rounding_gives_a_nearest_integer(num as int, unit as int);
        lemma_mantissa(num as int, unit as int, m);
        assert(m * unit == unit * m) by (nonlinear_arith);
    } else {
        let scaled = (num * pow2((-d.exponent) as nat)) as int;
        let m = rounding::round_half_even(scaled, den as int);
        law_rounding_gives_a_nearest_integer(scaled, den as int);
        lemma_mantissa(scaled, den as int, m);
        assert(m * den == den * m) by (nonlinear_arith);
    }
}

proof fn lemma_mantissa(num: int, den: int, m: int)
    requires
        den > 0,
        den * pow2(52) <= num < den * pow2(53),
        2 * (den * m - num) <= den,
        2 * (num - den * m) <= den,
    ensures
        pow2(52) <= m <= pow2(53),
{
    let low = pow2(52) as int;
    let high = pow2(53) as int;
    assert(low <= m <= high) by (nonlinear_arith)
        requires
            den > 0,
            den * low <= num < den * high,
            2 * (den * m - num) <= den,
            2 * (num - den * m) <= den,
    ;
}

/// Integers of up to 53 bits are floating-point numbers; a greater one is off by half of its last
/// bit at most.
pub proof fn law_double_of_an_integer_is_near(n: nat)
    ensures
        n < pow2(53) ==> rounding::double_of(n) == n,
        n >= pow2(53) ==> exists|e: nat| #[trigger]
            pow2(e) * pow2(52) <= n < pow2(e) * pow2(53) && 2 * (rounding::double_of(n) - n)
                <= pow2(e) && 2 * (n - rounding::double_of(n)) <= pow2(e),
{
    if n >= pow2(53) {
        lemma2_to64_rest();
        lemma2_to64();
        rounding::lemma_floor_log2(n);
        let k = rounding::floor_log2(n);
        if k < 52 {
            lemma_pow2_strictly_increases(k, 52);
            lemma_pow2_unfold(k + 1);
            lemma_pow2_unfold(53);
            assert(false);
        }
        let e = (k - 52) as nat;
        lemma_pow2_adds(e, 52);
        lemma_pow2_adds(e, 53);
        lemma_pow2_pos(e);
        let m = rounding::round_half_even(n as int, pow2(e) as int);
        law_rounding_gives_a_nearest_integer(n as int, pow2(e) as int);
        lemma_mantissa(n as int, pow2(e) as int, m);
        assert(m * pow2(e) == pow2(e) * m) by (nonlinear_arith);
        assert(m * pow2(e) >= 0) by (nonlinear_arith)
            requires
                m >= 0,
        ;
        assert(pow2(e) * pow2(52) <= n < pow2(e) * pow2(53));
    }
}

/// The integer part and the tenths of a floating-point number below one bit of precision: the
/// former rounds down, the latter to the nearest.
pub proof fn law_parts_of_a_double(d: Double)
    requires
        d.exponent < 0,
    ensures
        ({
            let unit = pow2((-d.exponent) as nat);
            &&& unit * d.floor() <= d.mantissa < unit * (d.floor() + 1)
            &&& 2 * (unit * d.tenths() - 10 * d.mantissa) <= unit
            &&& 2 * (10 * d.mantissa - unit * d.tenths()) <= unit
        }),
{
    let unit = pow2((-d.exponent) as nat);
    lemma_pow2_pos((-d.exponent) as nat);
    vstd::arithmetic::div_mod::lemma_fundamental_div_mod(d.mantissa as int, unit as int);
    assert(unit * (d.floor() + 1) == unit * d.floor() + unit) by (nonlinear_arith);
    let ten = (10 * d.mantissa) as int;
    law_rounding_gives_a_nearest_integer(ten, unit as int);
    let r = rounding::round_half_even(ten, unit as int);
    assert(ten / unit as int >= 0) by (nonlinear_arith)
        requires
            ten >= 0,
            unit > 0,
    ;
    assert(r >= 0);
}

proof fn lemma_tenths_of_quotient(n: nat, den: nat)
    requires
        0 < den <= n < pow2(53),
        den < pow2(53),
        rounding::quotient_log2(n, den) < 52,
    ensures
        ({
            let d = rounding::double_quotient(n, den);
            let unit = pow2((-d.exponent) as nat);
            &&& d.exponent == rounding::quotient_log2(n, den) - 52
            &&& 2 * unit * (d.tenths() * den - 10 * n) <= unit * den + 10 * den
            &&& 2 * unit * (10 * n - d.tenths() * den) <= unit * den + 10 * den
        }),
{
    let d = rounding::double_quotient(n, den);
    law_double_of_an_integer_is_near(n);
    law_double_of_an_integer_is_near(den);
    law_nearest_double_is_near(n, den);
    law_parts_of_a_double(d);
    let unit = pow2((-d.exponent) as nat) as int;
    let t = d.tenths() as int;
    let m = d.mantissa as int;
    let x = n as int;
    let y = den as int;
    assert(2 * unit * (t * y - 10 * x) <= unit * y + 10 * y && 2 * unit * (10 * x - t * y) <= unit
        * y + 10 * y) by (nonlinear_arith)
        requires
            y > 0,
            2 * (m * y - x * unit) <= y,
            2 * (x * unit - m * y) <= y,
            2 * (unit * t - 10 * m) <= unit,
            2 * (10 * m - unit * t) <= unit,
    ;
}

/// A count from a thousand up is told in thousands with one digit behind the point: no more than
/// half of that digit off. From a million up it is told in millions, and below a thousand as it
/// is.
pub proof fn law_counts_are_told_to_the_tenth(n: u64)
    requires
        n < 0x20_0000_0000_0000,
    ensures
        n < 1000 ==> text::count_text(n) == text::decimal_text(n as int),
        1000 <= n < 1_000_000 ==> exists|tenths: nat|
            text::count_text(n) == #[trigger] text::point_text(tenths) + "K"@ && 100 * tenths - n
                <= 50 && n - 100 * tenths <= 50,
        n >= 1_000_000 ==> exists|tenths: nat|
            text::count_text(n) == #[trigger] text::point_text(tenths) + "M"@ && 100_000 * tenths
                - n <= 50_001 && n - 100_000 * tenths <= 50_001,
{
    lemma2_to64();
    lemma2_to64_rest();
    if n >= 1000 {
        let den: nat = if n >= 1_000_000 {
            1_000_000
        } else {
            1000
        };
        let k = rounding::quotient_log2(n as nat, den);
        rounding::lemma_quotient_log2(n as nat, den);
        assert(k >= 0);
        let bound: nat = if n >= 1_000_000 {
            34
        } else {
            10
        };
        if k >= bound {
            if k > bound {
                lemma_pow2_strictly_increases(bound, k as nat);
            }
            assert(den * pow2(k as nat) >= den * pow2(bound)) by (nonlinear_arith)
                requires
                    pow2(k as nat) >= pow2(bound),
            ;
            assert(false);
        }
        lemma_tenths_of_quotient(n as nat, den);
        let d = rounding::double_quotient(n as nat, den);
        let e = (-d.exponent) as nat;
        let unit = pow2(e) as int;
        let t = d.tenths() as int;
        let x = n as int;
        if n >= 1_000_000 {
            if e > 19 {
                lemma_pow2_strictly_increases(19, e);
            }
            assert(unit >= 0x8_0000);
            assert(2 * (t * 1_000_000 - 10 * x) <= 1_000_020 && 2 * (10 * x - t * 1_000_000)
                <= 1_000_020) by (nonlinear_arith)
                requires
                    unit >= 0x8_0000,
                    2 * unit * (t * 1_000_000 - 10 * x) <= unit * 1_000_000 + 10_000_000,
                    2 * unit * (10 * x - t * 1_000_000) <= unit * 1_000_000 + 10_000_000,
            ;
            assert(text::count_text(n) == text::point_text(t as nat) + "M"@);
        } else {
            if e > 43 {
                lemma_pow2_strictly_increases(43, e);
            }
            assert(unit >= 0x800_0000_0000);
            assert(2 * (t * 1000 - 10 * x) <= 1000 && 2 * (10 * x - t * 1000) <= 1000)
                by (nonlinear_arith)
                requires
                    unit >= 0x800_0000_0000,
                    2 * unit * (t * 1000 - 10 * x) <= unit * 1000 + 10_000,
                    2 * unit * (10 * x - t * 1000) <= unit * 1000 + 10_000,
            ;
            assert(text::count_text(n) == text::point_text(t as nat) + "K"@);
        }
    }
}

/// The product of a floating-point number with a hundred, in units of the last bit of the
/// number.
proof fn lemma_hundredfold(d: Double)
    requires
        pow2(52) <= d.mantissa <= pow2(53),
    ensures
        ({
            let product = d.times(100);
            let shift = product.exponent - d.exponent;
            let unit = pow2(shift as nat);
            &&& 0 <= shift <= 7
            &&& unit <= 128
            &&& 2 * (product.mantissa * unit - 100 * d.mantissa) <= unit
            &&& 2 * (100 * d.mantissa - product.mantissa * unit) <= unit
        }),
{
    lemma2_to64();
    lemma2_to64_rest();
    let n = d.mantissa * 100;
    let product = rounding::nearest_double(n, 1);
    rounding::lemma_product_exponent(n);
    law_nearest_double_is_near(n, 1);
    let shift = product.exponent as nat;
    let unit = pow2(shift);
    assert(1 * unit == unit);
    if shift > 7 {
        if shift > 8 {
            lemma_pow2_strictly_increases(8, shift);
        }
        assert(unit * pow2(52) >= 256 * pow2(52)) by (nonlinear_arith)
            requires
                unit >= 256,
        ;
        assert(false);
    } else if shift < 7 {
        lemma_pow2_strictly_increases(shift, 7);
    }
}

/// The percentage of a share of less than one: the exact share lies between it and the next one.
proof fn lemma_percent_of_part(a: nat, b: nat)
    requires
        0 < a < b < 0x1000_0000_0000,
    ensures
        ({
            let f = rounding::double_quotient(a, b).times(100).floor();
            f * b <= 100 * a <= (f + 1) * b
        }),
{
    lemma2_to64();
    lemma2_to64_rest();
    law_double_of_an_integer_is_near(a);
    law_double_of_an_integer_is_near(b);
    law_nearest_double_is_near(a, b);
    rounding::lemma_quotient_log2(a, b);
    let d = rounding::double_quotient(a, b);
    let product = d.times(100);
    lemma_hundredfold(d);
    let down = (-d.exponent) as nat;
    let shift = (product.exponent - d.exponent) as nat;
    let w = pow2(down) as int;
    if down > 52 {
        lemma_pow2_strictly_increases(52, down);
    }
    law_parts_of_a_double(product);
    let rest = (-product.exponent) as nat;
    lemma_pow2_adds(rest, shift);
    assert(rest + shift == down);
    let unit = pow2(shift) as int;
    let small = pow2(rest) as int;
    let f = product.floor() as int;
    let m = d.mantissa as int;
    let p = product.mantissa as int;
    assert(w * f <= p * unit < w * (f + 1)) by (nonlinear_arith)
        requires
            w == small * unit,
            unit > 0,
            small * f <= p < small * (f + 1),
    ;
    let x = a as int;
    let y = b as int;
    assert(2 * w * (f * y - 100 * x) <= 228 * y) by (nonlinear_arith)
        requires
            y > 0,
            unit <= 128,
            w * f <= p * unit,
            2 * (p * unit - 100 * m) <= unit,
            2 * (m * y - x * w) <= y,
    ;
    assert(2 * w * (100 * x - (f + 1) * y) <= 228 * y) by (nonlinear_arith)
        requires
            y > 0,
            unit <= 128,
            p * unit < w * (f + 1),
            2 * (100 * m - p * unit) <= unit,
            2 * (x * w - m * y) <= y,
    ;
    assert(f * y - 100 * x < 1) by (nonlinear_arith)
        requires
            2 * w * (f * y - 100 * x) <= 228 * y,
            w >= 0x10_0000_0000_0000,
            0 < y < 0x1000_0000_0000,
    ;
    assert(100 * x - (f + 1) * y < 1) by (nonlinear_arith)
        requires
            2 * w * (100 * x - (f + 1) * y) <= 228 * y,
            w >= 0x10_0000_0000_0000,
            0 < y < 0x1000_0000_0000,
    ;
}

/// A multiple of `unit` that is no more than half of it below another multiple is not below it.
proof fn lemma_multiples(unit: int, p: int, q: int)
    requires
        unit > 0,
        2 * (unit * q - unit * p) <= unit,
    ensures
        unit * q <= unit * p,
{
    assert(q <= p) by (nonlinear_arith)
        requires
            unit > 0,
            2 * (unit * q - unit * p) <= unit,
    ;
    assert(unit * q <= unit * p) by (nonlinear_arith)
        requires
            unit > 0,
            q <= p,
    ;
}

/// The percentage of a share of one or more is a hundred at least.
proof fn lemma_percent_of_whole(a: nat, b: nat)
    requires
        0 < b <= a < 0x20_0000_0000_0000,
    ensures
        rounding::double_quotient(a, b).times(100).floor() >= 100,
{
    lemma2_to64();
    lemma2_to64_rest();
    law_double_of_an_integer_is_near(a);
    law_double_of_an_integer_is_near(b);
    law_nearest_double_is_near(a, b);
    rounding::lemma_quotient_log2(a, b);
    let d = rounding::double_quotient(a, b);
    let product = d.times(100);
    lemma_hundredfold(d);
    let k = rounding::quotient_log2(a, b);
    assert(k >= 0);
    if k > 52 {
        if k > 53 {
            lemma_pow2_strictly_increases(53, k as nat);
        }
        assert(b * pow2(k as nat) >= pow2(53)) by (nonlinear_arith)
            requires
                b >= 1,
                pow2(k as nat) >= pow2(53),
        ;
        assert(false);
    }
    let down = (-d.exponent) as nat;
    let shift = (product.exponent - d.exponent) as nat;
    let unit = pow2(shift) as int;
    let p = product.mantissa as int;
    lemma_pow2_adds(shift, (52 - shift) as nat);
    lemma_pow2_pos(shift);
    let q = 100 * pow2((52 - shift) as nat) as int;
    assert(unit * q == 100 * pow2(52)) by (nonlinear_arith)
        requires
            unit * pow2((52 - shift) as nat) == pow2(52),
            q == 100 * pow2((52 - shift) as nat),
    ;
    assert(unit * p == p * unit) by (nonlinear_arith);
    lemma_multiples(unit, p, q);
    let w = pow2(down) as int;
    lemma_pow2_pos(down);
    if down < 52 {
        lemma_pow2_strictly_increases(down, 52);
    }
    assert(p * unit >= 100 * w);
    let f = product.floor() as int;
    if product.exponent >= 0 {
        let up = product.exponent as nat;
        lemma_pow2_adds(up, down);
        assert(up + down == shift);
        let scale = pow2(up) as int;
        assert(p * scale >= 100) by (nonlinear_arith)
            requires
                unit == scale * w,
                w > 0,
                p * unit >= 100 * w,
        ;
    } else {
        let rest = (-product.exponent) as nat;
        lemma_pow2_adds(rest, shift);
        assert(rest + shift == down);
        law_parts_of_a_double(product);
        let small = pow2(rest) as int;
        assert(f + 1 > 100) by (nonlinear_arith)
            requires
                w == small * unit,
                unit > 0,
                w > 0,
                p < small * (f + 1),
                p * unit >= 100 * w,
        ;
    }
}

/// A percentage of the screens is the share, rounded down but for an error in the last bit: the
/// exact share lies between it and the next one. It is a hundred where everything is done, and
/// nothing where nothing is done or nothing is to be done.
pub proof fn law_percent_is_the_share(done: u64, total: u64)
    requires
        done < 0x20_0000_0000_0000,
        total < 0x1000_0000_0000,
    ensures
        rounding::percent_of(done, total) <= 100,
        done == 0 || total == 0 ==> rounding::percent_of(done, total) == 0,
        done >= total > 0 ==> rounding::percent_of(done, total) == 100,
        0 < done < total ==> rounding::percent_of(done, total) * total <= 100 * done <= (
        rounding::percent_of(done, total) + 1) * total,
{
    if total > 0 && done >= total {
        lemma_percent_of_whole(done as nat, total as nat);
    } else if 0 < done < total {
        lemma_percent_of_part(done as nat, total as nat);
        let f = rounding::double_quotient(done as nat, total as nat).times(100).floor();
        assert(f <= 100) by (nonlinear_arith)
            requires
                f * total <= 100 * done,
                done < total,
        ;
    }
}

/// Whatever their size, counts and percentages come from floating-point quotients: a count in
/// millions or thousands from the tenths of one, and a percentage from the integer part of one
/// times a hundred, cut off at a hundred.
pub proof fn law_counts_and_percentages_come_from_quotients(n: u64, done: u64, total: u64)
    ensures
        ({
            let quotient = |num: u64, den: nat|
                rounding::nearest_double(rounding::double_of(num as nat), rounding::double_of(den));
            let percent = quotient(done, total as nat).times(100).floor();
            &&& n < 1000 ==> text::count_text(n) == text::decimal_text(n as int)
            &&& 1000 <= n < 1_000_000 ==> text::count_text(n) == text::point_text(
                quotient(n, 1000).tenths(),
            ) + "K"@
            &&& n >= 1_000_000 ==> text::count_text(n) == text::point_text(
                quotient(n, 1_000_000).tenths(),
            ) + "M"@
            &&& done > 0 && total > 0 ==> rounding::percent_of(done, total) == (if percent < 100 {
                percent
            } else {
                100
            })
            &&& done == 0 || total == 0 ==> rounding::percent_of(done, total) == 0
        }),
{
}

} // verus!
