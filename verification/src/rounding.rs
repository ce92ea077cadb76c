//! Quotients of counts as 64-bit binary floating point gives them, computed with integers.
//!
//! A floating-point number is taken as a mantissa of 53 bits and a power of two. Every operation
//! gives the number that is nearest to the exact result; of two that are equally near, the one
//! with an even mantissa.

use vstd::arithmetic::power2::*;
use vstd::prelude::*;

verus! {

/// The integer nearest to `num / den`; of two that are equally near, the even one.
pub open spec fn round_half_even(num: int, den: int) -> int {
    let below = num / den;
    let rest = num % den;
    if 2 * rest < den || (2 * rest == den && below % 2 == 0) {
        below
    } else {
        below + 1
    }
}

/// The greatest `k` such that `2^k` is at most `n`.
pub open spec fn floor_log2(n: nat) -> nat
    decreases n,
{
    if n < 2 {
        0
    } else {
        1 + floor_log2(n / 2)
    }
}

/// The greatest `k` such that `2^k` is at most `num / den`.
pub open spec fn quotient_log2(num: nat, den: nat) -> int {
    if num >= den {
        floor_log2(num / den) as int
    } else {
        -1 - floor_log2(((den - 1) as nat) / num)
    }
}

/// The number `mantissa * 2^exponent`.
pub struct Double {
    pub mantissa: nat,
    pub exponent: int,
}

/// The floating-point number nearest to `num / den`.
pub open spec fn nearest_double(num: nat, den: nat) -> Double {
    let exponent = quotient_log2(num, den) - 52;
    let mantissa = if exponent >= 0 {
        round_half_even(num as int, (den * pow2(exponent as nat)) as int)
    } else {
        round_half_even((num * pow2((-exponent) as nat)) as int, den as int)
    };
    Double { mantissa: mantissa as nat, exponent }
}

/// The floating-point number nearest to an integer, which is an integer itself.
pub open spec fn double_of(n: nat) -> nat {
    if n < pow2(53) {
        n
    } else {
        let exponent = (floor_log2(n) - 52) as nat;
        (round_half_even(n as int, pow2(exponent) as int) * pow2(exponent)) as nat
    }
}

/// The floating-point quotient of two integers.
pub open spec fn double_quotient(num: nat, den: nat) -> Double {
    nearest_double(double_of(num), double_of(den))
}

impl Double {
    /// The floating-point product with an integer.
    pub open spec fn times(self, factor: nat) -> Double {
        let product = nearest_double(self.mantissa * factor, 1);
        Double { mantissa: product.mantissa, exponent: product.exponent + self.exponent }
    }

    /// The integer part.
    pub open spec fn floor(self) -> nat {
        if self.exponent >= 0 {
            self.mantissa * pow2(self.exponent as nat)
        } else {
            self.mantissa / pow2((-self.exponent) as nat)
        }
    }

    /// The number in tenths, rounded to the nearest; of two that are equally near, the even one.
    pub open spec fn tenths(self) -> nat {
        if self.exponent >= 0 {
            10 * self.mantissa * pow2(self.exponent as nat)
        } else {
            round_half_even(
                (10 * self.mantissa) as int,
                pow2((-self.exponent) as nat) as int,
            ) as nat
        }
    }
}

// ---------------------------------------------------------------------------
// Powers of two
// ---------------------------------------------------------------------------

/// Two to the power of `n`.
fn power_of_two(n: u32) -> (power: u128)
    requires
        n <= 127,
    ensures
        power as nat == pow2(n as nat),
{
    let mut power: u128 = 1;
    let mut i: u32 = 0;
    proof {
        lemma2_to64();
    }
    while i < n
        invariant
            i <= n <= 127,
            power as nat == pow2(i as nat),
        decreases n - i,
    {
        proof {
            lemma_pow2_unfold((i + 1) as nat);
            lemma_pow2_bound(i as nat);
        }
        power = power * 2;
        i += 1;
    }
    power
}

/// Two to a power of at most 126 is less than half of what a `u128` holds.
proof fn lemma_pow2_bound(n: nat)
    requires
        n <= 126,
    ensures
        pow2(n) <= pow2(126),
        pow2(126) == 0x4000_0000_0000_0000_0000_0000_0000_0000,
{
    lemma2_to64();
    lemma2_to64_rest();
    lemma_pow2_adds(63, 63);
    assert(pow2(63) * pow2(63) == 0x4000_0000_0000_0000_0000_0000_0000_0000) by (nonlinear_arith)
        requires
            pow2(63) == 0x8000_0000_0000_0000,
    ;
    if n < 126 {
        lemma_pow2_strictly_increases(n, 126);
    }
}

pub proof fn lemma_floor_log2(n: nat)
    requires
        n > 0,
    ensures
        pow2(floor_log2(n)) <= n < pow2(floor_log2(n) + 1),
    decreases n,
{
    lemma2_to64();
    if n >= 2 {
        lemma_floor_log2(n / 2);
        lemma_pow2_unfold(floor_log2(n));
        lemma_pow2_unfold(floor_log2(n) + 1);
    }
}

/// A number below `2^k` has a logarithm below `k`.
proof fn lemma_log2_below(n: nat, k: nat)
    requires
        0 < n < pow2(k),
    ensures
        floor_log2(n) < k,
{
    lemma_floor_log2(n);
    if floor_log2(n) > k {
        lemma_pow2_strictly_increases(k, floor_log2(n));
    }
}

fn log2(n: u128) -> (k: u32)
    requires
        n > 0,
    ensures
        k as nat == floor_log2(n as nat),
        k <= 127,
    decreases n,
{
    if n < 2 {
        0
    } else {
        let half = log2(n / 2);
        proof {
            lemma_pow2_bound(126);
            lemma_pow2_unfold(127);
            lemma_log2_below((n / 2) as nat, 127);
        }
        half + 1
    }
}

// ---------------------------------------------------------------------------
// Rounding
// ---------------------------------------------------------------------------

/// A quotient between two integers is rounded to a value between them.
proof fn lemma_round_between(num: int, den: int, low: int, high: int)
    requires
        den > 0,
        den * low <= num < den * high,
    ensures
        low <= round_half_even(num, den) <= high,
{
    vstd::arithmetic::div_mod::lemma_fundamental_div_mod(num, den);
    let below = num / den;
    assert(low <= below < high) by (nonlinear_arith)
        requires
            den > 0,
            den * low <= num < den * high,
            num == den * below + num % den,
            0 <= num % den < den,
    ;
}

fn rounded(num: u128, den: u128) -> (r: u128)
    requires
        0 < den <= 0x4000_0000_0000_0000_0000_0000_0000_0000,
    ensures
        r as int == round_half_even(num as int, den as int),
{
    let below: u128 = num / den;
    let rest: u128 = num % den;
    if 2 * rest < den || (2 * rest == den && below % 2 == 0) {
        below
    } else {
        assert(den >= 2);
        assert(below <= num / 2) by (nonlinear_arith)
            requires
                den >= 2,
                below == num / den,
        ;
        below + 1
    }
}

/// A quotient lies between the power of two of its logarithm and the next.
pub proof fn lemma_quotient_log2(num: nat, den: nat)
    requires
        num > 0,
        den > 0,
    ensures
        ({
            let k = quotient_log2(num, den);
            if k >= 0 {
                den * pow2(k as nat) <= num < den * pow2((k + 1) as nat)
            } else {
                num * pow2((-k - 1) as nat) < den <= num * pow2((-k) as nat)
            }
        }),
{
    if num >= den {
        let q = num / den;
        assert(q >= 1) by (nonlinear_arith)
            requires
                num >= den,
                den > 0,
                q == num / den,
        ;
        lemma_floor_log2(q);
        lemma_between(num, den, q, pow2(floor_log2(q)), pow2(floor_log2(q) + 1));
    } else {
        let b = (den - 1) as nat;
        let q = b / num;
        assert(q >= 1) by (nonlinear_arith)
            requires
                b >= num,
                num > 0,
                q == b / num,
        ;
        lemma_floor_log2(q);
        lemma_between(b, num, q, pow2(floor_log2(q)), pow2(floor_log2(q) + 1));
    }
}

proof fn lemma_between(num: nat, den: nat, q: nat, low: nat, high: nat)
    requires
        den > 0,
        q == num / den,
        low <= q < high,
    ensures
        den * low <= num < den * high,
{
    vstd::arithmetic::div_mod::lemma_fundamental_div_mod(num as int, den as int);
    assert(den * low <= num < den * high) by (nonlinear_arith)
        requires
            num == den * q + num % den,
            0 <= num % den < den,
            low <= q < high,
    ;
}

/// What is divided and what it is divided by, once scaled for a mantissa of 53 bits.
pub proof fn lemma_scaled(num: nat, den: nat)
    requires
        num > 0,
        den > 0,
    ensures
        ({
            let e = quotient_log2(num, den) - 52;
            if e >= 0 {
                &&& den * pow2(e as nat) * pow2(52) <= num < den * pow2(e as nat) * pow2(53)
                &&& den * pow2(e as nat) <= num
            } else {
                den * pow2(52) <= num * pow2((-e) as nat) < den * pow2(53)
            }
        }),
{
    let k = quotient_log2(num, den);
    let e = k - 52;
    lemma_quotient_log2(num, den);
    lemma2_to64();
    lemma2_to64_rest();
    if e >= 0 {
        let p = pow2(e as nat);
        lemma_pow2_adds(e as nat, 52);
        lemma_pow2_adds(e as nat, 53);
        assert(den * (p * pow2(52)) == den * p * pow2(52)) by (nonlinear_arith);
        assert(den * (p * pow2(53)) == den * p * pow2(53)) by (nonlinear_arith);
        assert(den * p <= den * p * pow2(52)) by (nonlinear_arith)
            requires
                pow2(52) >= 1,
                den * p >= 0,
        ;
    } else if k >= 0 {
        let p = pow2((-e) as nat);
        lemma_pow2_adds(k as nat, (-e) as nat);
        lemma_pow2_adds((k + 1) as nat, (-e) as nat);
        lemma_pow2_pos((-e) as nat);
        let low = pow2(k as nat);
        let high = pow2((k + 1) as nat);
        assert(den * (low * p) <= num * p < den * (high * p)) by (nonlinear_arith)
            requires
                den * low <= num < den * high,
                p > 0,
        ;
    } else {
        let half = pow2((-k - 1) as nat);
        let whole = pow2((-k) as nat);
        lemma_pow2_unfold((-k) as nat);
        lemma_pow2_adds((-k) as nat, 52);
        lemma_pow2_unfold(53);
        assert(num * (whole * pow2(52)) >= den * pow2(52)) by (nonlinear_arith)
            requires
                den <= num * whole,
                pow2(52) > 0,
        ;
        assert(num * (whole * pow2(52)) < den * (2 * pow2(52))) by (nonlinear_arith)
            requires
                num * half < den,
                whole == 2 * half,
                pow2(52) > 0,
        ;
    }
}

/// A floating-point number.
struct Float {
    mantissa: u128,
    exponent: i32,
}

impl View for Float {
    type V = Double;

    closed spec fn view(&self) -> Double {
        Double { mantissa: self.mantissa as nat, exponent: self.exponent as int }
    }
}

/// The number nearest to `num / den`.
fn nearest(num: u128, den: u128) -> (d: Float)
    requires
        0 < num <= 0x1_0000_0000_0000_0000,
        0 < den <= 0x1_0000_0000_0000_0000,
    ensures
        d@ == nearest_double(num as nat, den as nat),
        0x10_0000_0000_0000 <= d@.mantissa <= 0x20_0000_0000_0000,
        -117 <= d@.exponent <= 12,
{
    let k: i32 = if num >= den {
        proof {
            lemma_log_bound(num as nat, den as nat);
        }
        log2(num / den) as i32
    } else {
        proof {
            lemma_log_bound((den - 1) as nat, num as nat);
        }
        -1 - log2((den - 1) / num) as i32
    };
    let exponent: i32 = k - 52;
    proof {
        lemma_scaled(num as nat, den as nat);
        lemma2_to64();
        lemma2_to64_rest();
    }
    if exponent >= 0 {
        let scale = power_of_two(exponent as u32);
        let ghost p = pow2(exponent as nat);
        proof {
            lemma_pow2_pos(exponent as nat);
            assert(den * p > 0) by (nonlinear_arith)
                requires
                    den > 0,
                    p > 0,
            ;
        }
        let scaled: u128 = den * scale;
        proof {
            lemma_round_between(num as int, scaled as int, pow2(52) as int, pow2(53) as int);
        }
        Float { mantissa: rounded(num, scaled), exponent }
    } else {
        let scale = power_of_two((-exponent) as u32);
        assert(den * pow2(53) <= 0x1_0000_0000_0000_0000 * 0x20_0000_0000_0000)
            by (nonlinear_arith)
            requires
                den <= 0x1_0000_0000_0000_0000,
                pow2(53) == 0x20_0000_0000_0000,
        ;
        let scaled: u128 = num * scale;
        proof {
            lemma_round_between(scaled as int, den as int, pow2(52) as int, pow2(53) as int);
        }
        Float { mantissa: rounded(scaled, den), exponent }
    }
}

/// A quotient of numbers of at most 65 bits has a logarithm of at most 64.
proof fn lemma_log_bound(num: nat, den: nat)
    requires
        0 < den <= num,
        num <= 0x1_0000_0000_0000_0000,
    ensures
        num / den > 0,
        floor_log2(num / den) <= 64,
{
    assert(0 < num / den <= num) by (nonlinear_arith)
        requires
            0 < den <= num,
    ;
    lemma2_to64();
    lemma_pow2_unfold(65);
    lemma_log2_below(num / den, 65);
}

/// The number nearest to an integer.
fn nearest_integer(n: u64) -> (d: u128)
    ensures
        d as nat == double_of(n as nat),
        d <= 0x1_0000_0000_0000_0000,
        n > 0 ==> d > 0,
{
    proof {
        lemma2_to64();
        lemma2_to64_rest();
    }
    if n < 0x20_0000_0000_0000 {
        return n as u128;
    }
    let k = log2(n as u128);
    proof {
        lemma_log2_below(n as nat, 64);
        lemma_floor_log2(n as nat);
        if k < 53 {
            if k < 52 {
                lemma_pow2_strictly_increases((k + 1) as nat, 53);
            }
        }
    }
    let exponent: u32 = k - 52;
    let unit = power_of_two(exponent);
    let ghost p = pow2(exponent as nat);
    proof {
        lemma_pow2_pos(exponent as nat);
        lemma_pow2_adds(exponent as nat, 52);
        lemma_pow2_adds(exponent as nat, 53);
        lemma_pow2_bound(exponent as nat);
        lemma_round_between(n as int, p as int, pow2(52) as int, pow2(53) as int);
        if k < 63 {
            lemma_pow2_strictly_increases((k + 1) as nat, 64);
        }
    }
    let mantissa = rounded(n as u128, unit);
    proof {
        assert(0 < mantissa * p <= pow2(53) * p) by (nonlinear_arith)
            requires
                pow2(52) <= mantissa <= pow2(53),
                pow2(52) > 0,
                p > 0,
        ;
        assert(pow2(53) * p == p * pow2(53)) by (nonlinear_arith);
    }
    mantissa * unit
}

/// A quotient in tenths.
pub fn quotient_in_tenths(num: u64, den: u64) -> (tenths: u128)
    requires
        0 < den <= num,
    ensures
        tenths as nat == double_quotient(num as nat, den as nat).tenths(),
{
    let d = nearest(nearest_integer(num), nearest_integer(den));
    if d.exponent >= 0 {
        let scale = power_of_two(d.exponent as u32);
        proof {
            lemma2_to64();
            if d.exponent < 12 {
                lemma_pow2_strictly_increases(d.exponent as nat, 12);
            }
            assert(10 * d.mantissa * scale <= 10 * 0x20_0000_0000_0000 * 4096) by (nonlinear_arith)
                requires
                    d.mantissa <= 0x20_0000_0000_0000,
                    scale <= 4096,
            ;
        }
        10 * d.mantissa * scale
    } else {
        let scale = power_of_two((-d.exponent) as u32);
        proof {
            lemma_pow2_bound((-d.exponent) as nat);
            lemma_pow2_pos((-d.exponent) as nat);
        }
        rounded(10 * d.mantissa, scale)
    }
}

/// The share of `done` in `total` in percent, at most a hundred; none of nothing.
pub open spec fn percent_of(done: u64, total: u64) -> nat {
    if done == 0 || total == 0 {
        0
    } else {
        let percent = double_quotient(done as nat, total as nat).times(100).floor();
        if percent > 100 {
            100
        } else {
            percent
        }
    }
}

/// How far something is, in percent.
pub fn percent(done: u64, total: u64) -> (p: u16)
    ensures
        p as nat == percent_of(done, total),
{
    if done == 0 || total == 0 {
        return 0;
    }
    let q = nearest(nearest_integer(done), nearest_integer(total));
    let product = nearest(q.mantissa * 100, 1);
    let exponent: i32 = product.exponent + q.exponent;
    let whole: u128 = if exponent >= 0 {
        let scale = power_of_two(exponent as u32);
        proof {
            lemma2_to64();
            if exponent < 24 {
                lemma_pow2_strictly_increases(exponent as nat, 24);
            }
            assert(product.mantissa * scale <= 0x20_0000_0000_0000 * 0x100_0000)
                by (nonlinear_arith)
                requires
                    product.mantissa <= 0x20_0000_0000_0000,
                    scale <= 0x100_0000,
            ;
        }
        product.mantissa * scale
    } else {
        proof {
            lemma_product_exponent((q.mantissa * 100) as nat);
            lemma_pow2_pos((-exponent) as nat);
        }
        product.mantissa / power_of_two((-exponent) as u32)
    };
    if whole > 100 {
        100
    } else {
        whole as u16
    }
}

/// An integer of more than 53 bits has no part below one.
pub proof fn lemma_product_exponent(n: nat)
    requires
        n >= 0x10_0000_0000_0000,
    ensures
        nearest_double(n, 1).exponent >= 0,
{
    lemma2_to64();
    lemma2_to64_rest();
    lemma_floor_log2(n);
    assert(n / 1 == n);
    if floor_log2(n) < 52 {
        if floor_log2(n) + 1 < 52 {
            lemma_pow2_strictly_increases(floor_log2(n) + 1, 52);
        }
    }
}

} // verus!
