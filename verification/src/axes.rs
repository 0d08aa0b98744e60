//! The axis engine: the "nice numbers" tick-spacing algorithm and the
//! rounded axis bounds derived from it.
//!
//! A nice number is a value `m * 10^e` whose mantissa `m` lies in
//! {1, 2, 5, 10}.  Given a positive rational `p / q`, `nice_num_frac`
//! normalizes it to a mantissa in [1, 10) by the floor of its decimal
//! logarithm, snaps the mantissa up (or to the nearest nice value when
//! rounding), and rescales by the same power of ten.  Everything is
//! computed exactly over integers.

use vstd::prelude::*;
use crate::dec::{
    Dec, pow10, dec_num, dec_den, ceil_div, lemma_pow10_pos, lemma_pow10_unfold,
    lemma_pow10_le, lemma_pow10_values, pow10_u64, ceil_div_i64,
};
use crate::dec::{dec_parts, lemma_ceil_div_bounds};
use vstd::arithmetic::mul::{lemma_mul_inequality, lemma_mul_left_inequality};

verus! {

/// Largest magnitude a data value on an axis may have.
pub const VAL_LIMIT: i64 = 1_000_000_000_000;

/// Largest viewport dimension, in pixels.
pub const VIEW_LIMIT: u32 = 1_000_000;

/// Largest allowed tick budget.
pub const TICKS_LIMIT: usize = 10_000;

/// `e` is the floor of the decimal logarithm of `p / q`:
/// `10^e <= p/q < 10^(e+1)`.
pub open spec fn is_log10_floor(p: int, q: int, e: int) -> bool {
    if e >= 0 {
        q * pow10(e as nat) <= p && p < q * pow10((e + 1) as nat)
    } else {
        q <= p * pow10((-e) as nat) && p * pow10((-e - 1) as nat) < q
    }
}

/// The floor of the decimal logarithm of `p / q`; well defined for
/// `p, q >= 1` by `lemma_log10_floor_val`.
pub open spec fn log10_floor(p: int, q: int) -> int {
    choose|e: int| is_log10_floor(p, q, e)
}

proof fn lemma_log10_floor_unique(p: int, q: int, e1: int, e2: int)
    requires
        p >= 1,
        q >= 1,
        is_log10_floor(p, q, e1),
        is_log10_floor(p, q, e2),
    ensures
        e1 == e2,
{
    if e1 != e2 {
        let lo = if e1 < e2 { e1 } else { e2 };
        let hi = if e1 < e2 { e2 } else { e1 };
        if lo >= 0 {
            // q * 10^(lo+1) <= q * 10^hi <= p < q * 10^(lo+1)
            lemma_pow10_le((lo + 1) as nat, hi as nat);
            lemma_mul_left_inequality(q, pow10((lo + 1) as nat), pow10(hi as nat));
        } else if hi >= 0 {
            // From lo < 0: p * 10^(-lo-1) < q; from hi >= 0: q * 10^hi <= p.
            lemma_pow10_pos((-lo - 1) as nat);
            lemma_pow10_pos(hi as nat);
            assert(p <= p * pow10((-lo - 1) as nat)) by {
                lemma_mul_left_inequality(p, 1, pow10((-lo - 1) as nat));
            }
            assert(q <= q * pow10(hi as nat)) by {
                lemma_mul_left_inequality(q, 1, pow10(hi as nat));
            }
            // So p < q <= p: impossible.
        } else {
            // Both negative: -lo > -hi >= 1, so
            // q <= p * 10^(-hi) <= p * 10^(-lo-1) < q.
            lemma_pow10_le((-hi) as nat, (-lo - 1) as nat);
            lemma_mul_left_inequality(p, pow10((-hi) as nat), pow10((-lo - 1) as nat));
        }
    }
}

/// Every positive rational has a decimal-logarithm floor, so
/// `log10_floor` is well defined on them.
pub proof fn lemma_log10_floor_exists(p: int, q: int)
    requires
        p >= 1,
        q >= 1,
    ensures
        is_log10_floor(p, q, log10_floor(p, q)),
    decreases
            if p >= q {
                p - q
            } else {
                q - p
            },
{
    lemma_pow10_values();
    if p >= q {
        if p < q * 10 {
            assert(is_log10_floor(p, q, 0)) by {
                vstd::arithmetic::power::lemma_pow0(10);
                lemma_pow10_unfold(0);
            }
        } else {
            lemma_log10_floor_exists(p, 10 * q);
            let e = log10_floor(p, 10 * q);
            assert(is_log10_floor(p, 10 * q, e));
            // e >= 0 there, since p >= 10 * q; shift the base down.
            if e < 0 {
                lemma_pow10_pos((-e - 1) as nat);
                assert(p * 1 <= p * pow10((-e - 1) as nat)) by {
                    lemma_mul_left_inequality(p, 1, pow10((-e - 1) as nat));
                }
            }
            assert(is_log10_floor(p, q, e + 1)) by {
                lemma_pow10_unfold(e as nat);
                lemma_pow10_unfold((e + 1) as nat);
                assert((10 * q) * pow10(e as nat) == q * (10 * pow10(e as nat)))
                    by (nonlinear_arith);
                assert((10 * q) * pow10((e + 1) as nat) == q * (10 * pow10((e + 1) as nat)))
                    by (nonlinear_arith);
            }
        }
    } else {
        if 10 * p >= q {
            assert(is_log10_floor(p, q, -1)) by {
                vstd::arithmetic::power::lemma_pow0(10);
                lemma_pow10_unfold(0);
            }
        } else {
            lemma_log10_floor_exists(10 * p, q);
            let e = log10_floor(10 * p, q);
            assert(is_log10_floor(10 * p, q, e));
            // e < 0 there, since 10 * p < q; shift one further down.
            if e >= 0 {
                lemma_pow10_pos(e as nat);
                assert(q * 1 <= q * pow10(e as nat)) by {
                    lemma_mul_left_inequality(q, 1, pow10(e as nat));
                }
            }
            assert(is_log10_floor(p, q, e - 1)) by {
                lemma_pow10_unfold((-e) as nat);
                lemma_pow10_unfold((-e - 1) as nat);
                assert((10 * p) * pow10((-e) as nat) == p * (10 * pow10((-e) as nat)))
                    by (nonlinear_arith);
                assert((10 * p) * pow10((-e - 1) as nat) == p * (10 * pow10((-e - 1) as nat)))
                    by (nonlinear_arith);
            }
        }
    }
    let w = choose|w: int| is_log10_floor(p, q, w);
    assert(is_log10_floor(p, q, w));
}

pub proof fn lemma_log10_floor_val(p: int, q: int, e: int)
    requires
        p >= 1,
        q >= 1,
        is_log10_floor(p, q, e),
    ensures
        log10_floor(p, q) == e,
{
    let w = choose|w: int| is_log10_floor(p, q, w);
    assert(is_log10_floor(p, q, w));
    lemma_log10_floor_unique(p, q, w, e);
}

/// Numerator of the normalized mantissa `f = (p/q) / 10^e`, in `[1, 10)`.
pub open spec fn mant_num(p: int, q: int) -> int {
    let e = log10_floor(p, q);
    if e >= 0 {
        p
    } else {
        p * pow10((-e) as nat)
    }
}

/// Denominator of the normalized mantissa `f = (p/q) / 10^e`.
pub open spec fn mant_den(p: int, q: int) -> int {
    let e = log10_floor(p, q);
    if e >= 0 {
        q * pow10(e as nat)
    } else {
        q
    }
}

/// The nice mantissa for `p / q`: the fraction `f` in `[1, 10)` snapped to
/// {1, 2, 5, 10}, with rounding thresholds 1.5 / 3 / 7 when `rround` and
/// ceiling thresholds 1 / 2 / 5 otherwise.
pub open spec fn nice_mant(p: int, q: int, rround: bool) -> int {
    let a = mant_num(p, q);
    let b = mant_den(p, q);
    if rround {
        if 2 * a < 3 * b {
            1
        } else if a < 3 * b {
            2
        } else if a < 7 * b {
            5
        } else {
            10
        }
    } else {
        if a <= b {
            1
        } else if a <= 2 * b {
            2
        } else if a <= 5 * b {
            5
        } else {
            10
        }
    }
}

/// The nice number for `p / q` as an exact decimal.
pub open spec fn nice_dec(p: int, q: int, rround: bool) -> Dec {
    Dec { m: nice_mant(p, q, rround) as i64, e: log10_floor(p, q) as i32 }
}

/// The law of the ceiling-mode nice number: it never falls short of
/// its input.  With `e` the floor of the input's decimal logarithm,
/// the snapped mantissa is at least the exact one, so the nice value
/// is at least `p / q`.
pub proof fn lemma_nice_num_covers(p: int, q: int)
    requires
        p >= 1,
        q >= 1,
    ensures
        nice_mant(p, q, false) * mant_den(p, q) >= mant_num(p, q),
{
    lemma_log10_floor_exists(p, q);
    let e = log10_floor(p, q);
    let a = mant_num(p, q);
    let b = mant_den(p, q);
    if a > 5 * b {
        // The mantissa is below ten: a < 10 * b, from the floor bound.
        if e >= 0 {
            lemma_pow10_unfold(e as nat);
            assert(q * (10 * pow10(e as nat)) == 10 * (q * pow10(e as nat)))
                by (nonlinear_arith);
        } else {
            lemma_pow10_unfold((-e - 1) as nat);
            assert(p * (10 * pow10((-e - 1) as nat)) == 10 * (p * pow10((-e - 1) as nat)))
                by (nonlinear_arith);
        }
    }
}

/// Snaps the positive rational `p / q` to a nice number `m * 10^e` with
/// `m` in {1, 2, 5, 10} and `e` the floor of the decimal logarithm of
/// `p / q`.
pub fn nice_num_frac(p: u64, q: u64, rround: bool) -> (r: Dec)
    requires
        1 <= p <= 100_000_000_000_000_000u64,
        1 <= q <= 100_000_000_000_000_000u64,
    ensures
        r == nice_dec(p as int, q as int, rround),
        is_log10_floor(p as int, q as int, r.e as int),
        1 <= r.m <= 10,
{
    proof {
        lemma_pow10_values();
    }
    let (a, b, e): (u64, u64, i32) = if p >= q {
        let mut ex: u32 = 0;
        let mut acc: u64 = q;
        proof {
            assert(acc == q * pow10(0)) by {
                vstd::arithmetic::power::lemma_pow0(10);
            }
        }
        while acc * 10 <= p
            invariant
                1 <= q,
                q <= acc <= p,
                p <= 100_000_000_000_000_000u64,
                acc == q * pow10(ex as nat),
                ex <= 17,
            decreases p - acc,
        {
            proof {
                lemma_pow10_unfold(ex as nat);
                lemma_pow10_pos(ex as nat);
                assert(q * (10 * pow10(ex as nat)) == 10 * (q * pow10(ex as nat)))
                    by (nonlinear_arith);
                // 10^(ex+1) <= q * 10^(ex+1) = 10 * acc <= p < 10^18.
                assert(ex + 1 <= 17) by {
                    if ex + 1 >= 18 {
                        lemma_pow10_le(18, (ex + 1) as nat);
                        assert(1 * pow10((ex + 1) as nat) <= q * pow10((ex + 1) as nat)) by {
                            lemma_mul_inequality(1, q as int, pow10((ex + 1) as nat));
                        }
                        lemma_pow10_values();
                    }
                }
            }
            acc = acc * 10;
            ex = ex + 1;
        }
        proof {
            lemma_pow10_unfold(ex as nat);
            assert(q * (10 * pow10(ex as nat)) == 10 * (q * pow10(ex as nat)))
                by (nonlinear_arith);
            assert(is_log10_floor(p as int, q as int, ex as int));
            lemma_log10_floor_val(p as int, q as int, ex as int);
            // The exponent stays small: 10^ex <= q * 10^ex = acc <= p < 10^18.
            assert(ex <= 17) by {
                if ex >= 18 {
                    lemma_pow10_le(18, ex as nat);
                    assert(1 * pow10(ex as nat) <= q * pow10(ex as nat)) by {
                        lemma_mul_inequality(1, q as int, pow10(ex as nat));
                    }
                    lemma_pow10_values();
                }
            }
        }
        (p, acc, ex as i32)
    } else {
        let mut k: u32 = 1;
        let mut acc: u64 = p * 10;
        proof {
            assert(p * pow10(1) == p * 10 && p * pow10(0) == p) by {
                lemma_pow10_values();
                vstd::arithmetic::power::lemma_pow0(10);
            }
        }
        while acc < q
            invariant
                1 <= k <= 18,
                q <= 100_000_000_000_000_000u64,
                acc == p * pow10(k as nat),
                p * pow10((k - 1) as nat) < q,
                1 <= p,
                1 <= acc,
            decreases 18 - k,
        {
            proof {
                lemma_pow10_unfold(k as nat);
                lemma_pow10_pos(k as nat);
                assert(p * (10 * pow10(k as nat)) == 10 * (p * pow10(k as nat)))
                    by (nonlinear_arith);
                // k stays small: 10^k <= p * 10^k < q <= 10^17.
                assert(k <= 17) by {
                    if k >= 18 {
                        lemma_pow10_le(18, k as nat);
                        assert(1 * pow10(k as nat) <= p * pow10(k as nat)) by {
                            lemma_mul_inequality(1, p as int, pow10(k as nat));
                        }
                        lemma_pow10_values();
                    }
                }
                assert(acc * 10 <= u64::MAX) by {
                    lemma_pow10_pos(k as nat);
                }
            }
            acc = acc * 10;
            k = k + 1;
        }
        proof {
            assert(is_log10_floor(p as int, q as int, -(k as int)));
            lemma_log10_floor_val(p as int, q as int, -(k as int));
            // acc = 10 * (p * 10^(k-1)) < 10 * q, so the threshold
            // comparisons below stay in range.
            lemma_pow10_unfold((k - 1) as nat);
            assert(p as int * (10 * pow10((k - 1) as nat))
                == 10 * (p as int * pow10((k - 1) as nat))) by (nonlinear_arith);
        }
        (acc, q, -(k as i32))
    };
    let m: u64 = if rround {
        if 2 * a < 3 * b {
            1
        } else if a < 3 * b {
            2
        } else if a < 7 * b {
            5
        } else {
            10
        }
    } else {
        if a <= b {
            1
        } else if a <= 2 * b {
            2
        } else if a <= 5 * b {
            5
        } else {
            10
        }
    };
    Dec { m: m as i64, e }
}

/// One axis of the chart: a label and the data range it covers.
#[derive(Clone, Debug)]
pub struct Scale {
    pub label: String,
    pub min: i64,
    pub max: i64,
}

/// The viewport size, in whole pixels.
#[derive(Clone, Copy, Debug, PartialEq, Eq, Structural)]
pub struct Size {
    pub width: u32,
    pub height: u32,
}

impl Default for Size {
    fn default() -> (r: Size)
        ensures
            r.width == 0 && r.height == 0,
    {
        Size { width: 0, height: 0 }
    }
}

/// The chart's axes: the two data ranges, the viewport they are drawn
/// into, and the most tick labels an axis may carry.
#[derive(Clone, Debug)]
pub struct Axes {
    pub x: Scale,
    pub y: Scale,
    pub view_size: Size,
    pub max_ticks: usize,
}

impl Axes {
    /// All fields within the ranges the exact tick arithmetic needs.
    pub open spec fn wf(&self) -> bool {
        &&& 2 <= self.max_ticks <= TICKS_LIMIT
        &&& -VAL_LIMIT <= self.x.min <= VAL_LIMIT
        &&& -VAL_LIMIT <= self.x.max <= VAL_LIMIT
        &&& -VAL_LIMIT <= self.y.min <= VAL_LIMIT
        &&& -VAL_LIMIT <= self.y.max <= VAL_LIMIT
        &&& self.view_size.width <= VIEW_LIMIT
        &&& self.view_size.height <= VIEW_LIMIT
    }

    /// Fresh axes: both ranges 0..100, an empty viewport, ten ticks.
    pub fn new() -> (r: Axes)
        ensures
            r.wf(),
            r.x.min == 0 && r.x.max == 100,
            r.y.min == 0 && r.y.max == 100,
            r.x.label@ == "x"@ && r.y.label@ == "y"@,
            r.view_size.width == 0 && r.view_size.height == 0,
            r.max_ticks == 10,
    {
        Axes {
            x: Scale { label: "x".to_owned(), min: 0, max: 100 },
            y: Scale { label: "y".to_owned(), min: 0, max: 100 },
            view_size: Size::default(),
            max_ticks: 10,
        }
    }
}

impl Axes {
    /// What a window resize does: the viewport takes the new size and
    /// nothing else moves.
    pub fn set_view_size(&mut self, width: u32, height: u32)
        requires
            old(self).wf(),
            width <= VIEW_LIMIT,
            height <= VIEW_LIMIT,
        ensures
            final(self).wf(),
            final(self).view_size.width == width,
            final(self).view_size.height == height,
            final(self).x == old(self).x,
            final(self).y == old(self).y,
            final(self).max_ticks == old(self).max_ticks,
    {
        self.view_size.width = width;
        self.view_size.height = height;
    }
}

/// The nice-number width of the x data range.
pub open spec fn spec_range(a: Axes) -> Dec {
    nice_dec(a.x.max - a.x.min, 1, false)
}

/// `spec_range` as an integer (its exponent is nonnegative).
pub open spec fn spec_range_int(a: Axes) -> int {
    spec_range(a).m * pow10(spec_range(a).e as nat)
}

/// The tick spacing: the nice range divided into one fewer intervals
/// than the tick budget, snapped to a nice number with rounding.
pub open spec fn spec_tick_spacing(a: Axes) -> Dec {
    nice_dec(spec_range_int(a), a.max_ticks - 1, true)
}

/// An axis bound: the data value `v` pushed up to the next multiple of
/// the tick spacing.
pub open spec fn spec_scale_bound(v: int, ts: Dec) -> Dec {
    Dec { m: (ceil_div(v * dec_den(ts), dec_num(ts)) * ts.m) as i64, e: ts.e }
}

/// The shape every tick spacing has: a small positive mantissa and a
/// small exponent, so all downstream arithmetic stays exact.
pub open spec fn spacing_wf(ts: Dec) -> bool {
    &&& 1 <= ts.m <= 10
    &&& -4 <= ts.e <= 13
    &&& 1 <= dec_num(ts)
    &&& 1 <= dec_den(ts) <= 10_000
}

impl Axes {
    /// The nice-number width of the x data range.
    pub fn range(&self) -> (r: Dec)
        requires
            self.wf(),
            self.x.min < self.x.max,
        ensures
            r == spec_range(*self),
            0 <= r.e <= 12,
            1 <= r.m <= 10,
    {
        let span = (self.x.max - self.x.min) as u64;
        let r = nice_num_frac(span, 1, false);
        proof {
            lemma_pow10_values();
            if r.e < 0 {
                lemma_pow10_pos((-r.e - 1) as nat);
                assert(1 * 1 <= span as int * pow10((-r.e - 1) as nat)) by (nonlinear_arith)
                    requires
                        span >= 1,
                        pow10((-r.e - 1) as nat) >= 1,
                ;
            }
            if r.e > 12 {
                lemma_pow10_le(13, r.e as nat);
                assert(1 * pow10(r.e as nat) <= 1 * pow10(r.e as nat));
            }
        }
        r
    }

    /// The tick spacing for the current x range and tick budget.
    pub fn tick_spacing(&self) -> (r: Dec)
        requires
            self.wf(),
            self.x.min < self.x.max,
        ensures
            r == spec_tick_spacing(*self),
            spacing_wf(r),
    {
        proof {
            lemma_pow10_values();
        }
        let rg = self.range();
        let p10 = pow10_u64(rg.e as u32);
        proof {
            lemma_pow10_le(rg.e as nat, 12);
            assert(rg.m as int * pow10(rg.e as nat) <= 10 * pow10(12)) by (nonlinear_arith)
                requires
                    1 <= rg.m <= 10,
                    1 <= pow10(rg.e as nat) <= pow10(12),
            ;
            assert(1 <= rg.m as int * pow10(rg.e as nat)) by (nonlinear_arith)
                requires
                    1 <= rg.m,
                    1 <= pow10(rg.e as nat),
            ;
        }
        let rint: u64 = (rg.m as u64) * p10;
        let q: u64 = (self.max_ticks - 1) as u64;
        let o = nice_num_frac(rint, q, true);
        proof {
            // o.e >= -4: otherwise 10^4 <= 10^(k-1) <= rint * 10^(k-1) < q <= 9999.
            if o.e < -4 {
                lemma_pow10_le(4, (-o.e - 1) as nat);
                assert(1 * pow10((-o.e - 1) as nat) <= rint as int * pow10((-o.e - 1) as nat))
                    by (nonlinear_arith)
                    requires
                        1 <= rint,
                        0 <= pow10((-o.e - 1) as nat),
                ;
            }
            // o.e <= 13: otherwise 10^14 <= q * 10^e <= rint < 10^14.
            if o.e > 13 {
                lemma_pow10_le(14, o.e as nat);
                assert(1 * pow10(o.e as nat) <= q as int * pow10(o.e as nat)) by (nonlinear_arith)
                    requires
                        1 <= q,
                        0 <= pow10(o.e as nat),
                ;
            }
        }
        proof {
            lemma_spacing_wf(o);
        }
        o
    }

    /// The x axis upper bound: `x.max` pushed up to a tick multiple.
    pub fn scale_x_max(&self) -> (r: Dec)
        requires
            self.wf(),
            self.x.min < self.x.max,
        ensures
            r == spec_scale_bound(self.x.max as int, spec_tick_spacing(*self)),
    {
        let ts = self.tick_spacing();
        scale_bound(self.x.max, ts)
    }

    /// The x axis lower bound: `x.min` pushed up to a tick multiple.
    pub fn scale_x_min(&self) -> (r: Dec)
        requires
            self.wf(),
            self.x.min < self.x.max,
        ensures
            r == spec_scale_bound(self.x.min as int, spec_tick_spacing(*self)),
    {
        let ts = self.tick_spacing();
        scale_bound(self.x.min, ts)
    }

    /// The y axis upper bound; the spacing always comes from the x range.
    pub fn scale_y_max(&self) -> (r: Dec)
        requires
            self.wf(),
            self.x.min < self.x.max,
        ensures
            r == spec_scale_bound(self.y.max as int, spec_tick_spacing(*self)),
    {
        let ts = self.tick_spacing();
        scale_bound(self.y.max, ts)
    }

    /// The y axis lower bound; the spacing always comes from the x range.
    pub fn scale_y_min(&self) -> (r: Dec)
        requires
            self.wf(),
            self.x.min < self.x.max,
        ensures
            r == spec_scale_bound(self.y.min as int, spec_tick_spacing(*self)),
    {
        let ts = self.tick_spacing();
        scale_bound(self.y.min, ts)
    }
}

/// The law of the axis bounds: the bound `spec_scale_bound(v, ts)` lies
/// at or above `v`, and less than one tick spacing above it — the axis
/// always covers the data value, as tightly as the spacing allows.
pub proof fn lemma_scale_bound_covers(v: int, ts: Dec)
    requires
        spacing_wf(ts),
        -VAL_LIMIT <= v <= VAL_LIMIT,
    ensures
        dec_den(spec_scale_bound(v, ts)) == dec_den(ts),
        dec_num(spec_scale_bound(v, ts)) >= v * dec_den(ts),
        dec_num(spec_scale_bound(v, ts)) < v * dec_den(ts) + dec_num(ts),
{
    let num = dec_num(ts);
    let den = dec_den(ts);
    assert(-100_000_000_000_000_000 <= v * den <= 100_000_000_000_000_000) by (nonlinear_arith)
        requires
            -1_000_000_000_000 <= v <= 1_000_000_000_000,
            1 <= den <= 100_000,
    ;
    let a = v * den;
    let c = ceil_div(a, num);
    lemma_ceil_div_bounds(a, num);
    assert(-3_000_000_000_000_000_000 <= c * ts.m <= 3_000_000_000_000_000_000)
        by (nonlinear_arith)
        requires
            -100_000_000_000_000_001 <= c <= 100_000_000_000_000_001,
            1 <= ts.m <= 25,
    ;
    vstd::arithmetic::div_mod::lemma_fundamental_div_mod(a, num);
    vstd::arithmetic::div_mod::lemma_mod_bound(a, num);
    // c * num >= a, and c * num < a + num.
    assert(c * num >= a && c * num < a + num) by (nonlinear_arith)
        requires
            a == num * (a / num) + a % num,
            0 <= a % num < num,
            c == if a % num == 0 {
                a / num
            } else {
                a / num + 1
            },
            num >= 1,
    ;
    // The bound's numerator is c * dec_num(ts) in either exponent case.
    if ts.e >= 0 {
        assert((c * ts.m) * pow10(ts.e as nat) == c * (ts.m * pow10(ts.e as nat)))
            by (nonlinear_arith);
    }
}

proof fn lemma_spacing_wf(d: Dec)
    requires
        1 <= d.m <= 10,
        -4 <= d.e <= 13,
    ensures
        spacing_wf(d),
{
    lemma_pow10_values();
    if d.e >= 0 {
        lemma_pow10_pos(d.e as nat);
        assert(1 * 1 <= d.m as int * pow10(d.e as nat)) by (nonlinear_arith)
            requires
                1 <= d.m,
                1 <= pow10(d.e as nat),
        ;
    } else {
        lemma_pow10_pos((-d.e) as nat);
        lemma_pow10_le((-d.e) as nat, 4);
    }
}

/// `v` pushed up to the next multiple of the spacing `ts`.
fn scale_bound(v: i64, ts: Dec) -> (r: Dec)
    requires
        -VAL_LIMIT <= v <= VAL_LIMIT,
        spacing_wf(ts),
    ensures
        r == spec_scale_bound(v as int, ts),
{
    proof {
        lemma_pow10_values();
        if ts.e >= 0 {
            lemma_pow10_le(ts.e as nat, 13);
            assert(ts.m as int * pow10(ts.e as nat) <= 25 * pow10(13)) by (nonlinear_arith)
                requires
                    1 <= ts.m <= 25,
                    1 <= pow10(ts.e as nat) <= pow10(13),
            ;
            assert(-1000000000000000000 <= ts.m as int * pow10(ts.e as nat)) by (nonlinear_arith)
                requires
                    1 <= ts.m,
                    1 <= pow10(ts.e as nat),
            ;
        }
    }
    let (num, den) = dec_parts(&ts);
    proof {
        assert(-100_000_000_000_000_000int <= v as int * den as int
            <= 100_000_000_000_000_000int) by (nonlinear_arith)
            requires
                -1_000_000_000_000i64 <= v <= 1_000_000_000_000i64,
                1 <= den <= 100_000i64,
        ;
    }
    let a: i64 = v * den;
    let c = ceil_div_i64(a, num);
    proof {
        lemma_ceil_div_bounds(a as int, num as int);
        assert(-25 * 100_000_000_000_000_001i64 <= c as int * ts.m as int
            <= 25 * 100_000_000_000_000_001i64) by (nonlinear_arith)
            requires
                -100_000_000_000_000_001i64 <= c <= 100_000_000_000_000_001i64,
                1 <= ts.m <= 25,
        ;
    }
    Dec { m: c * ts.m, e: ts.e }
}

} // verus!
