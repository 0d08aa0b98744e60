//! Exact decimal numbers `m * 10^e` and the integer division helpers the
//! axis engine is built on.
//!
//! Every tick spacing and axis bound the nice-number algorithm produces is
//! of this shape, so the whole engine can be computed exactly: a `Dec` is
//! read as the rational `dec_num / dec_den`.

use vstd::prelude::*;
use vstd::arithmetic::power::{
    pow, lemma_pow0, lemma_pow1, lemma_pow_adds, lemma_pow_positive,
    lemma_pow_strictly_increases,
};
use vstd::arithmetic::div_mod::{
    lemma_fundamental_div_mod, lemma_fundamental_div_mod_converse, lemma_mod_bound,
};

verus! {

/// Ten to the power `e`.
pub open spec fn pow10(e: nat) -> int {
    pow(10, e)
}

/// A decimal number with value `m * 10^e`.
#[derive(Clone, Copy, Debug, PartialEq, Eq, Structural)]
pub struct Dec {
    pub m: i64,
    pub e: i32,
}

/// Numerator of the rational value of `d`; its denominator is `dec_den(d)`.
pub open spec fn dec_num(d: Dec) -> int {
    if d.e >= 0 {
        d.m * pow10(d.e as nat)
    } else {
        d.m as int
    }
}

/// Denominator of the rational value of `d`; always at least 1.
pub open spec fn dec_den(d: Dec) -> int {
    if d.e >= 0 {
        1
    } else {
        pow10((-d.e) as nat)
    }
}

/// `d` has the exact rational value `n / den`.
pub open spec fn dec_is(d: Dec, n: int, den: int) -> bool {
    den > 0 && dec_num(d) * den == n * dec_den(d)
}

pub proof fn lemma_pow10_pos(e: nat)
    ensures
        pow10(e) >= 1,
{
    lemma_pow_positive(10, e);
}

pub proof fn lemma_pow10_unfold(e: nat)
    ensures
        pow10(e + 1) == 10 * pow10(e),
{
    lemma_pow_adds(10, e, 1);
    lemma_pow1(10);
}

pub proof fn lemma_pow10_le(a: nat, b: nat)
    requires
        a <= b,
    ensures
        pow10(a) <= pow10(b),
{
    if a < b {
        lemma_pow_strictly_increases(10, a, b);
    }
}

pub proof fn lemma_pow10_values()
    ensures
        pow10(0) == 1,
        pow10(1) == 10,
        pow10(2) == 100,
        pow10(3) == 1000,
        pow10(4) == 10000,
        pow10(5) == 100000,
        pow10(6) == 1000000,
        pow10(7) == 10000000,
        pow10(8) == 100000000,
        pow10(9) == 1000000000,
        pow10(10) == 10000000000,
        pow10(11) == 100000000000,
        pow10(12) == 1000000000000,
        pow10(13) == 10000000000000,
        pow10(14) == 100000000000000,
        pow10(15) == 1000000000000000,
        pow10(16) == 10000000000000000,
        pow10(17) == 100000000000000000,
        pow10(18) == 1000000000000000000,
{
    lemma_pow0(10);
    lemma_pow10_unfold(0);
    lemma_pow10_unfold(1);
    lemma_pow10_unfold(2);
    lemma_pow10_unfold(3);
    lemma_pow10_unfold(4);
    lemma_pow10_unfold(5);
    lemma_pow10_unfold(6);
    lemma_pow10_unfold(7);
    lemma_pow10_unfold(8);
    lemma_pow10_unfold(9);
    lemma_pow10_unfold(10);
    lemma_pow10_unfold(11);
    lemma_pow10_unfold(12);
    lemma_pow10_unfold(13);
    lemma_pow10_unfold(14);
    lemma_pow10_unfold(15);
    lemma_pow10_unfold(16);
    lemma_pow10_unfold(17);
}

/// Ten to the power `e`, executable.
pub fn pow10_u64(e: u32) -> (r: u64)
    requires
        e <= 18,
    ensures
        r == pow10(e as nat),
        r >= 1,
{
    proof {
        lemma_pow10_values();
    }
    let mut r: u64 = 1;
    let mut i: u32 = 0;
    while i < e
        invariant
            i <= e,
            e <= 18,
            r == pow10(i as nat),
            pow10(18) == 1000000000000000000,
        decreases e - i,
    {
        proof {
            lemma_pow10_unfold(i as nat);
            lemma_pow10_le((i + 1) as nat, 18);
            lemma_pow10_pos(i as nat);
        }
        r = r * 10;
        i = i + 1;
    }
    proof {
        lemma_pow10_pos(e as nat);
    }
    r
}

/// Ceiling of `a / b`, for `b > 0`.
pub open spec fn ceil_div(a: int, b: int) -> int {
    if a % b == 0 {
        a / b
    } else {
        a / b + 1
    }
}

pub proof fn lemma_ceil_div_bounds(a: int, b: int)
    requires
        b >= 1,
    ensures
        a >= 0 ==> 0 <= ceil_div(a, b) <= a + 1,
        a < 0 ==> a <= ceil_div(a, b) <= 0,
{
    lemma_fundamental_div_mod(a, b);
    lemma_mod_bound(a, b);
    let q = a / b;
    let r = a % b;
    if a >= 0 {
        assert(q >= 0) by (nonlinear_arith)
            requires
                a == b * q + r,
                a >= 0,
                b >= 1,
                0 <= r < b,
        ;
        assert(q <= a) by (nonlinear_arith)
            requires
                a == b * q + r,
                q >= 0,
                b >= 1,
                r >= 0,
        ;
    } else {
        assert(q <= -1) by (nonlinear_arith)
            requires
                a == b * q + r,
                a < 0,
                b >= 1,
                0 <= r < b,
        ;
        assert(a <= q) by (nonlinear_arith)
            requires
                a == b * q + r,
                q <= -1,
                b >= 1,
                0 <= r < b,
        ;
    }
}

/// Ceiling division of a signed value by a positive one.
pub fn ceil_div_i64(a: i64, b: i64) -> (r: i64)
    requires
        1 <= b,
        i64::MIN < a,
    ensures
        r as int == ceil_div(a as int, b as int),
{
    if a >= 0 {
        let ua = a as u64;
        let ub = b as u64;
        let q = ua / ub;
        let rem = ua % ub;
        proof {
            lemma_fundamental_div_mod(ua as int, ub as int);
            lemma_fundamental_div_mod_converse(a as int, b as int, q as int, rem as int);
        }
        if rem == 0 {
            q as i64
        } else {
            proof {
                if ub == 1 {
                    lemma_mod_bound(ua as int, 1);
                }
                assert(2 * q <= ua) by (nonlinear_arith)
                    requires
                        ua as int == (ub as int) * (q as int) + rem,
                        ub >= 2,
                        q >= 0,
                        rem >= 0,
                ;
            }
            (q + 1) as i64
        }
    } else {
        let ua = (-a) as u64;
        let ub = b as u64;
        let q = ua / ub;
        let rem = ua % ub;
        proof {
            lemma_fundamental_div_mod(ua as int, ub as int);
            lemma_mod_bound(ua as int, ub as int);
            if rem == 0 {
                assert(a as int == (-(q as int)) * (b as int) + 0) by (nonlinear_arith)
                    requires
                        ua as int == (ub as int) * (q as int) + rem,
                        a as int == -(ua as int),
                        ub == b,
                        rem == 0,
                ;
                lemma_fundamental_div_mod_converse(a as int, b as int, -(q as int), 0);
            } else {
                assert(a as int == (-(q as int) - 1) * (b as int) + ((b as int) - (rem as int)))
                    by (nonlinear_arith)
                    requires
                        ua as int == (ub as int) * (q as int) + rem,
                        a as int == -(ua as int),
                        ub == b,
                ;
                lemma_fundamental_div_mod_converse(
                    a as int,
                    b as int,
                    -(q as int) - 1,
                    b - rem,
                );
            }
        }
        -(q as i64)
    }
}

/// Floor of `a / b` for a positive divisor, on wide intermediates.
pub fn floor_div_i128(a: i128, b: i128) -> (r: i128)
    requires
        1 <= b,
        i128::MIN < a,
    ensures
        r as int == a as int / b as int,
{
    if a >= 0 {
        let ua = a as u128;
        let ub = b as u128;
        let q = ua / ub;
        proof {
            lemma_fundamental_div_mod(ua as int, ub as int);
            lemma_fundamental_div_mod_converse(
                a as int,
                b as int,
                q as int,
                (ua % ub) as int,
            );
        }
        q as i128
    } else {
        let ua = (-a) as u128;
        let ub = b as u128;
        let q = ua / ub;
        let rem = ua % ub;
        proof {
            lemma_fundamental_div_mod(ua as int, ub as int);
            lemma_mod_bound(ua as int, ub as int);
            if rem == 0 {
                assert(a as int == (-(q as int)) * (b as int) + 0) by (nonlinear_arith)
                    requires
                        ua as int == (ub as int) * (q as int) + rem,
                        a as int == -(ua as int),
                        ub == b,
                        rem == 0,
                ;
                lemma_fundamental_div_mod_converse(a as int, b as int, -(q as int), 0);
            } else {
                assert(a as int == (-(q as int) - 1) * (b as int) + ((b as int) - (rem as int)))
                    by (nonlinear_arith)
                    requires
                        ua as int == (ub as int) * (q as int) + rem,
                        a as int == -(ua as int),
                        ub == b,
                ;
                lemma_fundamental_div_mod_converse(
                    a as int,
                    b as int,
                    -(q as int) - 1,
                    b - rem,
                );
                if ub == 1 {
                    lemma_mod_bound(ua as int, 1);
                }
                assert(2 * q <= ua) by (nonlinear_arith)
                    requires
                        ua as int == (ub as int) * (q as int) + rem,
                        ub >= 2,
                        q >= 0,
                        rem >= 0,
                ;
            }
        }
        if rem == 0 {
            -(q as i128)
        } else {
            -((q + 1) as i128)
        }
    }
}

/// Numerator and denominator of `d` as machine integers, for callers and
/// tests that compare decimal values exactly.
pub fn dec_parts(d: &Dec) -> (r: (i64, i64))
    requires
        -18 <= d.e <= 18,
        d.e >= 0 ==> -1000000000000000000 <= d.m * pow10(d.e as nat)
            <= 1000000000000000000,
    ensures
        r.0 as int == dec_num(*d),
        r.1 as int == dec_den(*d),
        r.1 >= 1,
{
    proof {
        lemma_pow10_values();
    }
    if d.e >= 0 {
        let p = pow10_u64(d.e as u32);
        proof {
            lemma_pow10_pos(d.e as nat);
            lemma_pow10_le(d.e as nat, 18);
        }
        (d.m * (p as i64), 1)
    } else {
        let p = pow10_u64((-d.e) as u32);
        proof {
            lemma_pow10_le((-d.e) as nat, 18);
        }
        (d.m, p as i64)
    }
}

} // verus!
