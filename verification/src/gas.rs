//! Gas amounts as the trace header shows them: `g` below a thousand, else
//! `g / 1000` with one decimal and `K`, from a million on `g / 10^6` with two
//! decimals and `M`. The quotient is the one that IEEE-754 double precision
//! gives (`g` converted to the nearest double, then divided with correct
//! rounding), and the decimals are those of Rust's fixed-precision
//! formatting of that double (the exact value rounded half to even). Here all
//! of it is computed exactly on integers.

use vstd::prelude::*;
use vstd::arithmetic::power2::*;
use crate::text::{decimal, decimal_digit, decimal_digit_char, push_char, push_decimal, decimal_string};

verus! {

/// `p / q` rounded to the nearest integer, halves to the even neighbour.
pub open spec fn div_round_even(p: nat, q: nat) -> nat {
    let f = p / q;
    let r = p % q;
    if 2 * r > q || (2 * r == q && f % 2 == 1) {
        f + 1
    } else {
        f
    }
}

/// `floor(log2(p / q))` for `p >= q > 0` (and `0` when `p < 2q`).
pub open spec fn floor_log2(p: nat, q: nat) -> nat
    decreases p - q,
{
    if q == 0 || p < 2 * q {
        0
    } else {
        1 + floor_log2(p, 2 * q)
    }
}

/// The double-precision number nearest to `p / q` (`p >= q > 0`, below
/// `2^1024`), ties to an even significand, as a fraction `(num, den)`: with
/// `e = floor(log2(p / q))` the significand has 53 bits, so the value is a
/// multiple of `2^(e - 52)`.
pub open spec fn nearest_double(p: nat, q: nat) -> (nat, nat) {
    let e = floor_log2(p, q);
    if e <= 52 {
        let den = pow2((52 - e) as nat);
        (div_round_even(p * den, q), den)
    } else {
        let unit = pow2((e - 52) as nat);
        (div_round_even(p, q * unit) * unit, 1)
    }
}

/// `d / 10` and one decimal: `{:.1}` of `d / 10`.
pub open spec fn one_decimal(d: nat) -> Seq<char> {
    decimal(d / 10) + seq!['.', decimal_digit(d % 10)]
}

/// `d / 100` and two decimals: `{:.2}` of `d / 100`.
pub open spec fn two_decimals(d: nat) -> Seq<char> {
    decimal(d / 100) + seq!['.', decimal_digit((d % 100) / 10), decimal_digit(d % 10)]
}

/// The text of a gas amount: `gas` itself below 1000, else the double
/// nearest to `gas` divided by 1000 (resp. 10^6 from 10^6 on), written with one
/// (resp. two) decimals rounded half to even, followed by `K` (resp. `M`).
pub open spec fn gas_text(gas: nat) -> Seq<char> {
    let (xn, xd) = nearest_double(gas, 1);
    if gas >= 1_000_000 {
        let (yn, yd) = nearest_double(xn, xd * 1_000_000);
        two_decimals(div_round_even(yn * 100, yd)) + seq!['M']
    } else if gas >= 1000 {
        let (yn, yd) = nearest_double(xn, xd * 1000);
        one_decimal(div_round_even(yn * 10, yd)) + seq!['K']
    } else {
        decimal(gas)
    }
}

fn div_round_even_exec(p: u128, q: u128) -> (r: u128)
    requires
        0 < q < 0x8000_0000_0000_0000_0000_0000_0000_0000,
    ensures
        r == div_round_even(p as nat, q as nat),
        r <= p as nat / q as nat + 1,
{
    let f = p / q;
    let r = p % q;
    assert(f * q + r == p && r < q) by (nonlinear_arith)
        requires f == p / q, r == p % q, q > 0;
    if 2 * r > q || (2 * r == q && f % 2 == 1) {
        assert(f < p) by (nonlinear_arith)
            requires f * q + r == p, r > 0, q >= 2;
        f + 1
    } else {
        f
    }
}

fn pow2_exec(n: u32) -> (r: u128)
    requires
        n < 128,
    ensures
        r == pow2(n as nat),
{
    let mut r: u128 = 1;
    let mut i: u32 = 0;
    proof {
        lemma2_to64();
    }
    while i < n
        invariant
            i <= n < 128,
            r == pow2(i as nat),
        decreases n - i,
    {
        proof {
            lemma_pow2_unfold((i + 1) as nat);
            lemma_pow2_strictly_increases((i + 1) as nat, 128);
            lemma_pow2_adds(64, 64);
            lemma2_to64();
        }
        r = 2 * r;
        i = i + 1;
    }
    r
}


fn floor_log2_exec(p: u128, q: u128) -> (e: u32)
    requires
        0 < q,
        p < 0x1_0000_0000_0000_0000_0000_0000_0000,
    ensures
        e == floor_log2(p as nat, q as nat),
        e < 124,
        q <= p ==> q * pow2(e as nat) <= p,
        p < q ==> e == 0,
        p < q * pow2((e + 1) as nat),
{
    let mut t: u128 = q;
    let mut e: u32 = 0;
    proof {
        lemma2_to64();
    }
    while t <= p / 2
        invariant
            0 < q,
            p < 0x1_0000_0000_0000_0000_0000_0000_0000,
            t == q * pow2(e as nat),
            pow2(e as nat) <= t,
            q <= t,
            q <= p ==> t <= p,
            p < q ==> e == 0,
            floor_log2(p as nat, q as nat) == e + floor_log2(p as nat, t as nat),
        decreases p - t,
    {
        proof {
            lemma_pow2_unfold((e + 1) as nat);
            assert(t <= p);
            assert(2 * t <= p);
            if e >= 123 {
                if e > 123 {
                    lemma_pow2_strictly_increases(123, e as nat);
                }
                lemma_pow2_adds(64, 59);
                lemma2_to64();
                lemma2_to64_rest();
                assert(false);
            }
            assert(q * pow2((e + 1) as nat) == 2 * t) by (nonlinear_arith)
                requires t == q * pow2(e as nat), pow2((e + 1) as nat) == 2 * pow2(e as nat);
        }
        t = 2 * t;
        e = e + 1;
    }
    proof {
        lemma_pow2_unfold((e + 1) as nat);
        assert(q * pow2((e + 1) as nat) == 2 * t) by (nonlinear_arith)
            requires t == q * pow2(e as nat), pow2((e + 1) as nat) == 2 * pow2(e as nat);
        if e >= 124 {
            lemma_pow2_strictly_increases(123, e as nat);
            assert(pow2(e as nat) <= t);
            lemma_pow2_adds(64, 59);
            lemma2_to64();
            lemma2_to64_rest();
        }
    }
    e
}

fn nearest_double_exec(p: u128, q: u128) -> (r: (u128, u128))
    requires
        0 < q <= 0x200_0000_0000_0000_0000,
        p <= 0x400_0000_0000_0000_0000_0000_0000,
    ensures
        (r.0 as nat, r.1 as nat) == nearest_double(p as nat, q as nat),
        1 <= r.1 <= 0x10_0000_0000_0000,
        r.0 <= 2 * p + 0x20_0000_0000_0000,
{
    let e = floor_log2_exec(p, q);
    proof {
        lemma2_to64();
        lemma2_to64_rest();
        lemma_pow2_pos(e as nat);
    }
    if e <= 52 {
        let den = pow2_exec(52 - e);
        proof {
            lemma_pow2_adds((e + 1) as nat, (52 - e) as nat);
            assert((e + 1) as nat + (52 - e) as nat == 53);
            if e > 0 {
                lemma_pow2_strictly_increases((52 - e) as nat, 52);
            }
            assert(p * den < q * pow2(53)) by (nonlinear_arith)
                requires
                    p < q * pow2((e + 1) as nat),
                    den == pow2((52 - e) as nat),
                    den > 0,
                    pow2(53) == pow2((e + 1) as nat) * pow2((52 - e) as nat);
            assert(q * pow2(53) <= 0x200_0000_0000_0000_0000 * 0x20_0000_0000_0000) by (nonlinear_arith)
                requires q <= 0x200_0000_0000_0000_0000, pow2(53) == 0x20_0000_0000_0000;
            assert(((p * den) as int) / (q as int) < pow2(53)) by (nonlinear_arith)
                requires p * den < q * pow2(53), q > 0;
        }
        let num = div_round_even_exec(p * den, q);
        (num, den)
    } else {
        let unit = pow2_exec(e - 52);
        proof {
            lemma_pow2_pos((e - 52) as nat);
            lemma_pow2_strictly_increases((e - 52) as nat, e as nat);
            assert(q <= p);
            assert(q * unit <= q * pow2(e as nat)) by (nonlinear_arith)
                requires unit < pow2(e as nat), q > 0;
            assert(unit <= q * unit) by (nonlinear_arith)
                requires q > 0, unit > 0;
        }
        let f = div_round_even_exec(p, q * unit);
        proof {
            assert(f * unit <= 2 * p) by (nonlinear_arith)
                requires
                    f <= (p as int) / ((q * unit) as int) + 1,
                    q * unit <= p,
                    q > 0,
                    unit > 0,
                    unit <= q * unit;
        }
        (f * unit, 1)
    }
}

/// Human-readable gas amount: `951`, `29.8K`, `1.25M`.
pub fn format_gas(gas: u64) -> (r: String)
    ensures
        r@ == gas_text(gas as nat),
{
    let (xn, xd) = nearest_double_exec(gas as u128, 1);
    if gas >= 1_000_000 {
        let (yn, yd) = nearest_double_exec(xn, xd * 1_000_000);
        let d = div_round_even_exec(yn * 100, yd);
        let mut out = String::new();
        push_decimal(&mut out, d / 100);
        push_char(&mut out, '.');
        push_char(&mut out, decimal_digit_char((d % 100) / 10));
        push_char(&mut out, decimal_digit_char(d % 10));
        push_char(&mut out, 'M');
        assert(out@ =~= gas_text(gas as nat));
        out
    } else if gas >= 1000 {
        let (yn, yd) = nearest_double_exec(xn, xd * 1000);
        let d = div_round_even_exec(yn * 10, yd);
        let mut out = String::new();
        push_decimal(&mut out, d / 10);
        push_char(&mut out, '.');
        push_char(&mut out, decimal_digit_char(d % 10));
        push_char(&mut out, 'K');
        assert(out@ =~= gas_text(gas as nat));
        out
    } else {
        decimal_string(gas as u128)
    }
}

} // verus!
