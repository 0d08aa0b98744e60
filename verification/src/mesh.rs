//! Vertex geometry for the overlay: the axes frame, the tick marks, the
//! crosshair, and the plotted polyline.
//!
//! Overlay coordinates are in hundredths of a pixel, so the viewport
//! transform below is exact: a tick's offset along an axis is the floor
//! of `i * length / k` for tick `i` of `k` intervals.

use vstd::prelude::*;
use crate::axes::{Axes, spec_tick_spacing};
use crate::dec::{
    Dec, dec_num, dec_den, ceil_div, ceil_div_i64, floor_div_i128, dec_parts,
    lemma_ceil_div_bounds, pow10, lemma_pow10_le, lemma_pow10_values,
};
use vstd::arithmetic::div_mod::{lemma_div_is_ordered, lemma_div_multiples_vanish};

verus! {

/// A vertex in overlay space, in hundredths of a pixel.
#[derive(Clone, Copy, Debug, PartialEq, Eq, Structural)]
pub struct Vertex {
    pub x: i64,
    pub y: i64,
}

/// How long a tick mark is, in hundredths of a pixel.
pub const TICK_LEN: i64 = 1500;

/// The crosshair: two short segments crossing at the origin.
pub fn crosshair_vertices() -> (r: Vec<Vertex>)
    ensures
        r@ =~= seq![
            Vertex { x: 0i64, y: -1000i64 },
            Vertex { x: 0i64, y: 1000i64 },
            Vertex { x: -1000i64, y: 0i64 },
            Vertex { x: 1000i64, y: 0i64 },
        ],
{
    let mut v: Vec<Vertex> = Vec::new();
    v.push(Vertex { x: 0, y: -1000 });
    v.push(Vertex { x: 0, y: 1000 });
    v.push(Vertex { x: -1000, y: 0 });
    v.push(Vertex { x: 1000, y: 0 });
    v
}

/// The plotted polyline: one vertex per data point, unchanged.
pub fn line_vertices(points: &Vec<(i64, i64)>) -> (r: Vec<Vertex>)
    ensures
        r@.len() == points@.len(),
        forall|i: int|
            0 <= i < points@.len() ==> #[trigger] r@[i] == (Vertex {
                x: points@[i].0,
                y: points@[i].1,
            }),
{
    let mut v: Vec<Vertex> = Vec::new();
    let mut i: usize = 0;
    while i < points.len()
        invariant
            i <= points@.len(),
            v@.len() == i,
            forall|j: int|
                0 <= j < i ==> #[trigger] v@[j] == (Vertex {
                    x: points@[j].0,
                    y: points@[j].1,
                }),
        decreases points@.len() - i,
    {
        let p = points[i];
        v.push(Vertex { x: p.0, y: p.1 });
        i = i + 1;
    }
    v
}

/// The padding kept around the drawing area, in hundredths of a pixel:
/// eight percent of the viewport width.
pub open spec fn pad_c(a: Axes) -> int {
    8 * a.view_size.width
}

/// The drawing area width, in hundredths of a pixel.
pub open spec fn width_c(a: Axes) -> int {
    100 * a.view_size.width - pad_c(a)
}

/// The drawing area height, in hundredths of a pixel.
pub open spec fn height_c(a: Axes) -> int {
    100 * a.view_size.height - pad_c(a)
}

/// Half the drawing area width: the frame's distance from the center.
pub open spec fn min_x_c(a: Axes) -> int {
    width_c(a) / 2
}

/// Half the drawing area height.
pub open spec fn min_y_c(a: Axes) -> int {
    height_c(a) / 2
}

/// The index of the first tick at or above `v`, in units of the spacing.
pub open spec fn tick_lo(v: int, ts: Dec) -> int {
    ceil_div(v * dec_den(ts), dec_num(ts))
}

/// How many tick intervals the y axis carries.
pub open spec fn y_span_ticks(a: Axes) -> int {
    tick_lo(a.y.max as int, spec_tick_spacing(a)) - tick_lo(a.y.min as int, spec_tick_spacing(a))
}

/// How many tick intervals the x axis carries.
pub open spec fn x_span_ticks(a: Axes) -> int {
    tick_lo(a.x.max as int, spec_tick_spacing(a)) - tick_lo(a.x.min as int, spec_tick_spacing(a))
}

/// The offset of tick `i` of `k` intervals along an axis of the given
/// length, in hundredths of a pixel.
pub open spec fn tick_pos(i: int, k: int, len: int) -> int {
    (i * len) / k
}

/// The three vertices of y tick `i`: a stub of `TICK_LEN` drawn out of
/// the left frame edge, entered and left at the frame.
pub open spec fn y_tick_triple(a: Axes, i: int) -> Seq<Vertex> {
    let yy = min_y_c(a) - tick_pos(i, y_span_ticks(a), height_c(a));
    seq![
        Vertex { x: (-min_x_c(a)) as i64, y: yy as i64 },
        Vertex { x: (-min_x_c(a) - TICK_LEN) as i64, y: yy as i64 },
        Vertex { x: (-min_x_c(a)) as i64, y: yy as i64 },
    ]
}

/// The vertices of the first `n` y ticks.
pub open spec fn y_tick_seq(a: Axes, n: int) -> Seq<Vertex>
    decreases n,
{
    if n <= 0 {
        Seq::empty()
    } else {
        y_tick_seq(a, n - 1) + y_tick_triple(a, n - 1)
    }
}

/// The three vertices of x tick `i`: a stub drawn below the bottom
/// frame edge.
pub open spec fn x_tick_triple(a: Axes, i: int) -> Seq<Vertex> {
    let xx = min_x_c(a) - tick_pos(i, x_span_ticks(a), width_c(a));
    seq![
        Vertex { x: xx as i64, y: (-min_y_c(a)) as i64 },
        Vertex { x: xx as i64, y: (-min_y_c(a) - TICK_LEN) as i64 },
        Vertex { x: xx as i64, y: (-min_y_c(a)) as i64 },
    ]
}

/// The vertices of the first `n` x ticks.
pub open spec fn x_tick_seq(a: Axes, n: int) -> Seq<Vertex>
    decreases n,
{
    if n <= 0 {
        Seq::empty()
    } else {
        x_tick_seq(a, n - 1) + x_tick_triple(a, n - 1)
    }
}

/// The whole tick mesh: down the left frame edge through every y tick,
/// then along the bottom edge through every x tick.
pub open spec fn axes_mesh_spec(a: Axes) -> Seq<Vertex> {
    seq![Vertex { x: (-min_x_c(a)) as i64, y: min_y_c(a) as i64 }]
        + y_tick_seq(a, y_span_ticks(a) + 1)
        + seq![Vertex { x: (-min_x_c(a)) as i64, y: (-min_y_c(a)) as i64 }]
        + x_tick_seq(a, x_span_ticks(a) + 1)
        + seq![Vertex { x: min_x_c(a) as i64, y: (-min_y_c(a)) as i64 }]
}

proof fn lemma_y_tick_seq_len(a: Axes, n: int)
    requires
        n >= 0,
    ensures
        y_tick_seq(a, n).len() == 3 * n,
    decreases n,
{
    if n > 0 {
        lemma_y_tick_seq_len(a, n - 1);
    }
}

proof fn lemma_x_tick_seq_len(a: Axes, n: int)
    requires
        n >= 0,
    ensures
        x_tick_seq(a, n).len() == 3 * n,
    decreases n,
{
    if n > 0 {
        lemma_x_tick_seq_len(a, n - 1);
    }
}

/// The law of the tick mesh's size: three frame corners, and three
/// vertices for each tick on each axis.
pub proof fn lemma_mesh_len(a: Axes)
    requires
        y_span_ticks(a) >= 0,
        x_span_ticks(a) >= 0,
    ensures
        axes_mesh_spec(a).len() == 3 + 3 * (y_span_ticks(a) + 1) + 3 * (x_span_ticks(a) + 1),
{
    lemma_y_tick_seq_len(a, y_span_ticks(a) + 1);
    lemma_x_tick_seq_len(a, x_span_ticks(a) + 1);
}

impl Axes {
    /// The three corner vertices of the axes frame.
    pub fn frame_vertices(&self) -> (r: Vec<Vertex>)
        requires
            self.wf(),
        ensures
            r@ =~= seq![
                Vertex { x: (-min_x_c(*self)) as i64, y: min_y_c(*self) as i64 },
                Vertex { x: (-min_x_c(*self)) as i64, y: (-min_y_c(*self)) as i64 },
                Vertex { x: min_x_c(*self) as i64, y: (-min_y_c(*self)) as i64 },
            ],
    {
        let (mx, my) = half_extents(self);
        let mut v: Vec<Vertex> = Vec::new();
        v.push(Vertex { x: -mx, y: my });
        v.push(Vertex { x: -mx, y: -my });
        v.push(Vertex { x: mx, y: -my });
        v
    }

    /// The tick mesh for the current ranges: every vertex of
    /// `axes_mesh_spec`, in order.  Each axis must span at least one
    /// whole tick interval: on a flat axis the tick ratio would divide
    /// by zero.
    pub fn tick_vertices(&self) -> (r: Vec<Vertex>)
        requires
            self.wf(),
            self.x.min < self.x.max,
            y_span_ticks(*self) >= 1,
            x_span_ticks(*self) >= 1,
        ensures
            r@ =~= axes_mesh_spec(*self),
    {
        let ts = self.tick_spacing();
        proof {
            lemma_pow10_values();
            if ts.e >= 0 {
                lemma_pow10_le(ts.e as nat, 13);
                assert(ts.m as int * pow10(ts.e as nat) <= 25 * pow10(13)) by (nonlinear_arith)
                    requires
                        1 <= ts.m <= 25,
                        1 <= pow10(ts.e as nat) <= pow10(13),
                ;
                assert(-1000000000000000000 <= ts.m as int * pow10(ts.e as nat))
                    by (nonlinear_arith)
                    requires
                        1 <= ts.m,
                        1 <= pow10(ts.e as nat),
                ;
            }
        }
        let (num, den) = dec_parts(&ts);
        let (mx, my) = half_extents(self);
        let wc: i64 = 92 * (self.view_size.width as i64);
        let hc: i64 = 100 * (self.view_size.height as i64) - 8 * (self.view_size.width as i64);

        let mut v: Vec<Vertex> = Vec::new();
        v.push(Vertex { x: -mx, y: my });

        // y ticks
        let ky = tick_count(self.y.min, self.y.max, num, den);
        proof {
            assert(ky as int == y_span_ticks(*self));
        }
        let mut i: i64 = 0;
        while i <= ky
            invariant
                0 <= i <= ky + 1,
                ky as int == y_span_ticks(*self),
                1 <= ky <= 400_000_000_000_000_000i64,
                hc as int == height_c(*self),
                -100_000_000 <= hc <= 100_000_000,
                mx as int == min_x_c(*self),
                my as int == min_y_c(*self),
                -50_000_000 <= mx <= 50_000_000,
                -50_000_000 <= my <= 50_000_000,
                v@ =~= seq![Vertex { x: (-min_x_c(*self)) as i64, y: min_y_c(*self) as i64 }]
                    + y_tick_seq(*self, i as int),
            decreases ky + 1 - i,
        {
            let t = tick_offset(i, ky, hc);
            let yy = my - t;
            v.push(Vertex { x: -mx, y: yy });
            v.push(Vertex { x: -mx - TICK_LEN, y: yy });
            v.push(Vertex { x: -mx, y: yy });
            proof {
                assert(y_tick_seq(*self, i + 1) =~= y_tick_seq(*self, i as int) + y_tick_triple(
                    *self,
                    i as int,
                ));
            }
            i = i + 1;
        }

        v.push(Vertex { x: -mx, y: -my });

        // x ticks
        let kx = tick_count(self.x.min, self.x.max, num, den);
        proof {
            assert(kx as int == x_span_ticks(*self));
        }
        let ghost mid: Seq<Vertex> = v@;
        let mut i: i64 = 0;
        while i <= kx
            invariant
                0 <= i <= kx + 1,
                kx as int == x_span_ticks(*self),
                1 <= kx <= 400_000_000_000_000_000i64,
                wc as int == width_c(*self),
                -100_000_000 <= wc <= 100_000_000,
                mx as int == min_x_c(*self),
                my as int == min_y_c(*self),
                -50_000_000 <= mx <= 50_000_000,
                -50_000_000 <= my <= 50_000_000,
                v@ =~= mid + x_tick_seq(*self, i as int),
                mid =~= seq![Vertex { x: (-min_x_c(*self)) as i64, y: min_y_c(*self) as i64 }]
                    + y_tick_seq(*self, y_span_ticks(*self) + 1)
                    + seq![Vertex { x: (-min_x_c(*self)) as i64, y: (-min_y_c(*self)) as i64 }],
            decreases kx + 1 - i,
        {
            let t = tick_offset(i, kx, wc);
            let xx = mx - t;
            v.push(Vertex { x: xx, y: -my });
            v.push(Vertex { x: xx, y: -my - TICK_LEN });
            v.push(Vertex { x: xx, y: -my });
            proof {
                assert(x_tick_seq(*self, i + 1) =~= x_tick_seq(*self, i as int) + x_tick_triple(
                    *self,
                    i as int,
                ));
            }
            i = i + 1;
        }

        v.push(Vertex { x: mx, y: -my });
        v
    }
}

/// Half the drawing area, in hundredths of a pixel.
fn half_extents(a: &Axes) -> (r: (i64, i64))
    requires
        a.wf(),
    ensures
        r.0 as int == min_x_c(*a),
        r.1 as int == min_y_c(*a),
        -50_000_000 <= r.0 <= 50_000_000,
        -50_000_000 <= r.1 <= 50_000_000,
{
    let w = a.view_size.width as i64;
    let h = a.view_size.height as i64;
    proof {
        assert((92 * w) as int / 2 == 46 * w) by {
            lemma_div_multiples_vanish(46 * w, 2);
        }
        assert((100 * h - 8 * w) as int / 2 == 50 * h - 4 * w) by {
            lemma_div_multiples_vanish(50 * h - 4 * w, 2);
        }
    }
    (46 * w, 50 * h - 4 * w)
}

/// How many tick intervals lie between `lo` and `hi` at the spacing
/// `num / den`: the distance between the first tick at or above each.
fn tick_count(lo: i64, hi: i64, num: i64, den: i64) -> (r: i64)
    requires
        -1_000_000_000_000 <= lo <= 1_000_000_000_000,
        -1_000_000_000_000 <= hi <= 1_000_000_000_000,
        1 <= num,
        1 <= den <= 100_000,
    ensures
        r as int == ceil_div(hi as int * den as int, num as int) - ceil_div(lo as int * den as int, num as int),
        -400_000_000_000_000_000i64 <= r <= 400_000_000_000_000_000i64,
{
    proof {
        assert(-100_000_000_000_000_000int <= lo as int * den as int
            <= 100_000_000_000_000_000int) by (nonlinear_arith)
            requires
                -1_000_000_000_000i64 <= lo <= 1_000_000_000_000i64,
                1 <= den <= 100_000i64,
        ;
        assert(-100_000_000_000_000_000int <= hi as int * den as int
            <= 100_000_000_000_000_000int) by (nonlinear_arith)
            requires
                -1_000_000_000_000i64 <= hi <= 1_000_000_000_000i64,
                1 <= den <= 100_000i64,
        ;
    }
    let a = ceil_div_i64(lo * den, num);
    let b = ceil_div_i64(hi * den, num);
    proof {
        lemma_ceil_div_bounds(lo as int * den as int, num as int);
        lemma_ceil_div_bounds(hi as int * den as int, num as int);
    }
    b - a
}

/// The offset of tick `i` of `k`, along an axis `len` long: the exact
/// floor of `i * len / k`, never past `len`.
fn tick_offset(i: i64, k: i64, len: i64) -> (r: i64)
    requires
        0 <= i <= k,
        1 <= k <= 400_000_000_000_000_000i64,
        -100_000_000 <= len <= 100_000_000,
    ensures
        r as int == tick_pos(i as int, k as int, len as int),
        len >= 0 ==> 0 <= r <= len,
        len < 0 ==> len <= r <= 0,
{
    proof {
        assert(-100_000_000 * 400_000_000_000_000_000int <= i as int * len as int
            <= 100_000_000 * 400_000_000_000_000_000int) by (nonlinear_arith)
            requires
                0 <= i <= 400_000_000_000_000_000i64,
                -100_000_000i64 <= len <= 100_000_000i64,
        ;
    }
    let p: i128 = (i as i128) * (len as i128);
    let r = floor_div_i128(p, k as i128);
    proof {
        // 0 <= i <= k pins i*len/k between 0 and len.
        if len >= 0 {
            assert(0 * len as int <= i as int * len as int <= k as int * len as int)
                by (nonlinear_arith)
                requires
                    0 <= i as int <= k as int,
                    len as int >= 0,
            ;
            lemma_div_is_ordered(0, p as int, k as int);
            lemma_div_is_ordered(p as int, k as int * len as int, k as int);
            lemma_div_multiples_vanish(len as int, k as int);
        } else {
            assert(k as int * len as int <= i as int * len as int <= 0 * len as int)
                by (nonlinear_arith)
                requires
                    0 <= i as int <= k as int,
                    (len as int) < 0,
            ;
            lemma_div_is_ordered(k as int * len as int, p as int, k as int);
            lemma_div_is_ordered(p as int, 0, k as int);
            lemma_div_multiples_vanish(len as int, k as int);
        }
    }
    r as i64
}

} // verus!
