//! The scene camera: exact rational state, the fit-to-graph placement,
//! wheel zoom, drag pan, and the viewport/world coordinate mapping the
//! crosshair depends on.

use vstd::prelude::*;
use crate::axes::{Axes, VAL_LIMIT};
use crate::date::{date_scale, date_lt, day_number};
use crate::response::GraphData;
use crate::dec::floor_div_i128;

verus! {

/// An exact rational number `num / den`.
#[derive(Clone, Copy, Debug, PartialEq, Eq, Structural)]
pub struct Frac {
    pub num: i128,
    pub den: i128,
}

impl Frac {
    /// A positive denominator, so comparisons keep their sign.
    pub open spec fn wf(&self) -> bool {
        1 <= self.den
    }
}

/// `f` equals the rational `n / d`.
pub open spec fn frac_is(f: Frac, n: int, d: int) -> bool {
    d != 0 && f.num * d == n * f.den
}

/// Magnitudes under which the transform arithmetic below stays exact.
pub open spec fn frac_cap(f: Frac) -> bool {
    &&& -1_000_000_000_000_000_000 <= f.num <= 1_000_000_000_000_000_000
    &&& 1 <= f.den <= 1_000_000
}

/// The 2D scene camera: where it looks and how many data units one
/// pixel covers, per axis.
#[derive(Clone, Copy, Debug, PartialEq, Eq, Structural)]
pub struct Camera {
    pub center_x: Frac,
    pub center_y: Frac,
    pub scale_x: Frac,
    pub scale_y: Frac,
}

impl Camera {
    pub open spec fn wf(&self) -> bool {
        self.center_x.wf() && self.center_y.wf() && self.scale_x.wf() && self.scale_y.wf()
    }
}

/// The camera that centers the given data ranges and fits them to the
/// viewport: centered on the midpoints, one pixel covering a
/// viewport-th of each span.
pub fn fit_camera(x_min: i64, x_max: i64, y_min: i64, y_max: i64, view_w: u32, view_h: u32) -> (r:
    Camera)
    requires
        1 <= view_w,
        1 <= view_h,
    ensures
        r.wf(),
        r.center_x == (Frac { num: (x_min + x_max) as i128, den: 2 }),
        r.center_y == (Frac { num: (y_min + y_max) as i128, den: 2 }),
        r.scale_x == (Frac { num: (x_max - x_min) as i128, den: view_w as i128 }),
        r.scale_y == (Frac { num: (y_max - y_min) as i128, den: view_h as i128 }),
        frac_is(r.center_x, x_min + x_max, 2),
        frac_is(r.center_y, y_min + y_max, 2),
        frac_is(r.scale_x, x_max - x_min, view_w as int),
        frac_is(r.scale_y, y_max - y_min, view_h as int),
{
    Camera {
        center_x: Frac { num: x_min as i128 + x_max as i128, den: 2 },
        center_y: Frac { num: y_min as i128 + y_max as i128, den: 2 },
        scale_x: Frac { num: x_max as i128 - x_min as i128, den: view_w as i128 },
        scale_y: Frac { num: y_max as i128 - y_min as i128, den: view_h as i128 },
    }
}

/// What one wheel step multiplies the camera scale by: a sixteenth of
/// the (positive) scroll amount, or its reciprocal when scrolling the
/// other way.
pub open spec fn spec_zoom_factor(e_y: int) -> (int, int) {
    if e_y >= 0 {
        (e_y, 16)
    } else {
        (16, -e_y)
    }
}

/// The zoom factor for one wheel event.
pub fn zoom_factor(e_y: i64) -> (r: Frac)
    requires
        -1_000_000 <= e_y <= 1_000_000,
    ensures
        r.wf(),
        r.num == spec_zoom_factor(e_y as int).0,
        r.den == spec_zoom_factor(e_y as int).1,
{
    if e_y >= 0 {
        Frac { num: e_y as i128, den: 16 }
    } else {
        Frac { num: 16, den: (-e_y) as i128 }
    }
}

/// One wheel event: both scale components multiplied by the zoom
/// factor; the center does not move.
pub fn apply_zoom(cam: &mut Camera, e_y: i64)
    requires
        old(cam).wf(),
        frac_cap(old(cam).scale_x),
        frac_cap(old(cam).scale_y),
        -1_000_000 <= e_y <= 1_000_000,
    ensures
        final(cam).wf(),
        final(cam).center_x == old(cam).center_x,
        final(cam).center_y == old(cam).center_y,
        final(cam).scale_x.num == old(cam).scale_x.num * spec_zoom_factor(e_y as int).0,
        final(cam).scale_x.den == old(cam).scale_x.den * spec_zoom_factor(e_y as int).1,
        final(cam).scale_y.num == old(cam).scale_y.num * spec_zoom_factor(e_y as int).0,
        final(cam).scale_y.den == old(cam).scale_y.den * spec_zoom_factor(e_y as int).1,
{
    let f = zoom_factor(e_y);
    proof {
        lemma_cap_mul(old(cam).scale_x.num as int, f.num as int, 1_000_000_000_000_000_000,
            1_000_000);
        lemma_cap_mul(old(cam).scale_y.num as int, f.num as int, 1_000_000_000_000_000_000,
            1_000_000);
        lemma_cap_mul(old(cam).scale_x.den as int, f.den as int, 1_000_000, 1_000_000);
        lemma_cap_mul(old(cam).scale_y.den as int, f.den as int, 1_000_000, 1_000_000);
        lemma_den_mul(old(cam).scale_x.den as int, f.den as int);
        lemma_den_mul(old(cam).scale_y.den as int, f.den as int);
    }
    cam.scale_x = Frac { num: cam.scale_x.num * f.num, den: cam.scale_x.den * f.den };
    cam.scale_y = Frac { num: cam.scale_y.num * f.num, den: cam.scale_y.den * f.den };
}

/// A middle-drag of `(dx, dy)` pixels: the camera moves against the
/// drag horizontally and with it vertically, each pixel worth one
/// scale unit; the scale does not change.
pub fn pan(cam: &mut Camera, dx: i64, dy: i64)
    requires
        old(cam).wf(),
        frac_cap(old(cam).center_x),
        frac_cap(old(cam).center_y),
        frac_cap(old(cam).scale_x),
        frac_cap(old(cam).scale_y),
        -1_000_000 <= dx <= 1_000_000,
        -1_000_000 <= dy <= 1_000_000,
    ensures
        final(cam).wf(),
        final(cam).scale_x == old(cam).scale_x,
        final(cam).scale_y == old(cam).scale_y,
        final(cam).center_x.num == old(cam).center_x.num * old(cam).scale_x.den - dx * old(
            cam,
        ).scale_x.num * old(cam).center_x.den,
        final(cam).center_x.den == old(cam).center_x.den * old(cam).scale_x.den,
        final(cam).center_y.num == old(cam).center_y.num * old(cam).scale_y.den + dy * old(
            cam,
        ).scale_y.num * old(cam).center_y.den,
        final(cam).center_y.den == old(cam).center_y.den * old(cam).scale_y.den,
{
    proof {
        lemma_pan_bounds(old(cam).center_x.num as int, old(cam).center_x.den as int,
            old(cam).scale_x.num as int, old(cam).scale_x.den as int, dx as int);
        lemma_pan_bounds(old(cam).center_y.num as int, old(cam).center_y.den as int,
            old(cam).scale_y.num as int, old(cam).scale_y.den as int, dy as int);
    }
    let nx = cam.center_x.num * cam.scale_x.den - (dx as i128) * cam.scale_x.num
        * cam.center_x.den;
    let ny = cam.center_y.num * cam.scale_y.den + (dy as i128) * cam.scale_y.num
        * cam.center_y.den;
    cam.center_x = Frac { num: nx, den: cam.center_x.den * cam.scale_x.den };
    cam.center_y = Frac { num: ny, den: cam.center_y.den * cam.scale_y.den };
}

/// Where a cursor position on the viewport lies in data space: the
/// camera center plus the cursor's offset from the window center, each
/// pixel worth one scale unit, with the vertical direction flipped.
pub fn viewport_to_world(cam: &Camera, cursor_x: i64, cursor_y: i64, win_w: u32, win_h: u32) -> (r:
    (Frac, Frac))
    requires
        cam.wf(),
        frac_cap(cam.center_x),
        frac_cap(cam.center_y),
        frac_cap(cam.scale_x),
        frac_cap(cam.scale_y),
        -2_000_000 <= cursor_x <= 2_000_000,
        -2_000_000 <= cursor_y <= 2_000_000,
        win_w <= 2_000_000,
        win_h <= 2_000_000,
    ensures
        r.0.wf(),
        r.1.wf(),
        r.0.num == 2 * cam.center_x.num * cam.scale_x.den + (2 * cursor_x - win_w) * cam.scale_x.num
            * cam.center_x.den,
        r.0.den == 2 * cam.center_x.den * cam.scale_x.den,
        r.1.num == 2 * cam.center_y.num * cam.scale_y.den + (win_h - 2 * cursor_y) * cam.scale_y.num
            * cam.center_y.den,
        r.1.den == 2 * cam.center_y.den * cam.scale_y.den,
{
    proof {
        lemma_v2w_bounds(cam.center_x.num as int, cam.center_x.den as int, cam.scale_x.num as int,
            cam.scale_x.den as int, 2 * cursor_x - win_w as int);
        lemma_v2w_bounds(cam.center_y.num as int, cam.center_y.den as int, cam.scale_y.num as int,
            cam.scale_y.den as int, win_h as int - 2 * cursor_y);
    }
    let ox: i128 = 2 * (cursor_x as i128) - (win_w as i128);
    let oy: i128 = (win_h as i128) - 2 * (cursor_y as i128);
    let wx = Frac {
        num: 2 * cam.center_x.num * cam.scale_x.den + ox * cam.scale_x.num * cam.center_x.den,
        den: 2 * cam.center_x.den * cam.scale_x.den,
    };
    let wy = Frac {
        num: 2 * cam.center_y.num * cam.scale_y.den + oy * cam.scale_y.num * cam.center_y.den,
        den: 2 * cam.center_y.den * cam.scale_y.den,
    };
    (wx, wy)
}

/// Where a data-space point falls on the viewport: its offset from the
/// camera center divided back into pixels and measured from the window
/// center, with the vertical direction flipped.
pub fn world_to_viewport(cam: &Camera, wx: Frac, wy: Frac, win_w: u32, win_h: u32) -> (r: (
    Frac,
    Frac,
))
    requires
        cam.wf(),
        frac_cap(cam.center_x),
        frac_cap(cam.center_y),
        frac_cap(cam.scale_x),
        frac_cap(cam.scale_y),
        wx.wf(),
        wy.wf(),
        frac_cap(wx),
        frac_cap(wy),
        cam.scale_x.num != 0,
        cam.scale_y.num != 0,
        win_w <= 2_000_000,
        win_h <= 2_000_000,
    ensures
        r.0.wf(),
        r.1.wf(),
        frac_is(
            r.0,
            2 * (wx.num * cam.center_x.den - cam.center_x.num * wx.den) * cam.scale_x.den + win_w
                * (wx.den * cam.center_x.den * cam.scale_x.num),
            2 * (wx.den * cam.center_x.den * cam.scale_x.num),
        ),
        frac_is(
            r.1,
            win_h * (wy.den * cam.center_y.den * cam.scale_y.num) - 2 * (wy.num * cam.center_y.den
                - cam.center_y.num * wy.den) * cam.scale_y.den,
            2 * (wy.den * cam.center_y.den * cam.scale_y.num),
        ),
{
    proof {
        lemma_w2v_bounds(wx.num as int, wx.den as int, cam.center_x.num as int,
            cam.center_x.den as int, cam.scale_x.num as int, cam.scale_x.den as int,
            win_w as int);
        lemma_w2v_bounds(wy.num as int, wy.den as int, cam.center_y.num as int,
            cam.center_y.den as int, cam.scale_y.num as int, cam.scale_y.den as int,
            win_h as int);
    }
    let dxn: i128 = wx.num * cam.center_x.den - cam.center_x.num * wx.den;
    let qxd: i128 = wx.den * cam.center_x.den * cam.scale_x.num;
    let mut nx: i128 = 2 * dxn * cam.scale_x.den + (win_w as i128) * qxd;
    let mut dx: i128 = 2 * qxd;
    if dx < 0 {
        nx = -nx;
        dx = -dx;
    }

    let dyn_: i128 = wy.num * cam.center_y.den - cam.center_y.num * wy.den;
    let qyd: i128 = wy.den * cam.center_y.den * cam.scale_y.num;
    let mut ny: i128 = (win_h as i128) * qyd - 2 * dyn_ * cam.scale_y.den;
    let mut dy: i128 = 2 * qyd;
    if dy < 0 {
        ny = -ny;
        dy = -dy;
    }
    proof {
        let tnx = 2 * (wx.num * cam.center_x.den - cam.center_x.num * wx.den) * cam.scale_x.den
            + win_w * (wx.den * cam.center_x.den * cam.scale_x.num);
        let tdx = 2 * (wx.den * cam.center_x.den * cam.scale_x.num);
        lemma_neg_mul(tnx, tdx);
        let tny = win_h * (wy.den * cam.center_y.den * cam.scale_y.num) - 2 * (wy.num
            * cam.center_y.den - cam.center_y.num * wy.den) * cam.scale_y.den;
        let tdy = 2 * (wy.den * cam.center_y.den * cam.scale_y.num);
        lemma_neg_mul(tny, tdy);
    }
    (Frac { num: nx, den: dx }, Frac { num: ny, den: dy })
}

/// Where the crosshair sits: the highlighted viewport position measured
/// from the window center, with the vertical direction flipped.
pub fn crosshair_translation(hx: Frac, hy: Frac, win_w: u32, win_h: u32) -> (r: (Frac, Frac))
    requires
        hx.wf(),
        hy.wf(),
        -100_000_000_000_000_000_000_000_000_000_000_000i128 <= hx.num,
        hx.num <= 100_000_000_000_000_000_000_000_000_000_000_000i128,
        -100_000_000_000_000_000_000_000_000_000_000_000i128 <= hy.num,
        hy.num <= 100_000_000_000_000_000_000_000_000_000_000_000i128,
        hx.den <= 1_000_000_000_000_000_000_000_000_000_000i128,
        hy.den <= 1_000_000_000_000_000_000_000_000_000_000i128,
        win_w <= 2_000_000,
        win_h <= 2_000_000,
    ensures
        r.0.wf(),
        r.1.wf(),
        r.0.num == 2 * hx.num - win_w * hx.den,
        r.0.den == 2 * hx.den,
        r.1.num == win_h * hy.den - 2 * hy.num,
        r.1.den == 2 * hy.den,
{
    proof {
        lemma_shift_bounds(hx.num as int, hx.den as int, win_w as int);
        lemma_shift_bounds(hy.num as int, hy.den as int, win_h as int);
    }
    let rx = Frac { num: 2 * hx.num - (win_w as i128) * hx.den, den: 2 * hx.den };
    let ry = Frac { num: (win_h as i128) * hy.den - 2 * hy.num, den: 2 * hy.den };
    (rx, ry)
}

/// What happens when a graph is added: the axes take the graph's date
/// range (as day numbers) and value extremes, and the camera is
/// centered over the graph and scaled to fit it in the viewport.
pub fn refit(axes: &mut Axes, graph: &GraphData) -> (cam: Camera)
    requires
        old(axes).wf(),
        1 <= old(axes).view_size.width,
        1 <= old(axes).view_size.height,
        graph.points@.len() >= 1,
        graph.spec_min_x().valid(),
        graph.spec_max_x().valid(),
        forall|j: int|
            0 <= j < graph.points@.len() ==> -VAL_LIMIT <= (#[trigger] graph.points@[j]).1
                <= VAL_LIMIT,
    ensures
        final(axes).wf(),
        final(axes).x.min == day_number(
            graph.spec_min_x().year as int,
            graph.spec_min_x().month as int,
            graph.spec_min_x().day as int,
        ),
        final(axes).x.max == day_number(
            graph.spec_max_x().year as int,
            graph.spec_max_x().month as int,
            graph.spec_max_x().day as int,
        ),
        final(axes).y.min as int == crate::response::min_y_rec(graph.points@),
        final(axes).y.max as int == crate::response::max_y_rec(graph.points@),
        final(axes).x.label == old(axes).x.label,
        final(axes).y.label == old(axes).y.label,
        final(axes).view_size == old(axes).view_size,
        final(axes).max_ticks == old(axes).max_ticks,
        date_lt(graph.spec_min_x(), graph.spec_max_x()) ==> final(axes).x.min
            < final(axes).x.max,
        cam.wf(),
        cam.center_x == (Frac {
            num: (final(axes).x.min + final(axes).x.max) as i128,
            den: 2,
        }),
        cam.center_y == (Frac {
            num: (final(axes).y.min + final(axes).y.max) as i128,
            den: 2,
        }),
        cam.scale_x == (Frac {
            num: (final(axes).x.max - final(axes).x.min) as i128,
            den: old(axes).view_size.width as i128,
        }),
        cam.scale_y == (Frac {
            num: (final(axes).y.max - final(axes).y.min) as i128,
            den: old(axes).view_size.height as i128,
        }),
        frac_cap(cam.center_x),
        frac_cap(cam.center_y),
        frac_cap(cam.scale_x),
        frac_cap(cam.scale_y),
        frac_is(cam.center_x, final(axes).x.min + final(axes).x.max, 2),
        frac_is(cam.center_y, final(axes).y.min + final(axes).y.max, 2),
        frac_is(cam.scale_x, final(axes).x.max - final(axes).x.min, old(axes).view_size.width as int),
        frac_is(cam.scale_y, final(axes).y.max - final(axes).y.min, old(axes).view_size.height as int),
{
    let lo = graph.min_x();
    let hi = graph.max_x();
    axes.x.min = date_scale(&lo);
    axes.x.max = date_scale(&hi);
    axes.y.min = graph.min_y();
    axes.y.max = graph.max_y();
    fit_camera(
        axes.x.min,
        axes.x.max,
        axes.y.min,
        axes.y.max,
        axes.view_size.width,
        axes.view_size.height,
    )
}

/// The whole pixels of a rational: its floor.
pub fn frac_floor(f: Frac) -> (r: i64)
    requires
        f.wf(),
        f.den <= 1_000_000_000_000_000_000,
        -1_000_000_000_000_000_000 * f.den <= f.num <= 1_000_000_000_000_000_000 * f.den,
    ensures
        r as int == f.num as int / f.den as int,
{
    proof {
        lemma_cap_mul(1_000_000_000_000_000_000, f.den as int, 1_000_000_000_000_000_000,
            1_000_000_000_000_000_000);
    }
    let q = floor_div_i128(f.num, f.den);
    proof {
        vstd::arithmetic::div_mod::lemma_div_is_ordered(f.num as int,
            1_000_000_000_000_000_000 * f.den as int, f.den as int);
        vstd::arithmetic::div_mod::lemma_div_is_ordered(-1_000_000_000_000_000_000 * f.den as int,
            f.num as int, f.den as int);
        vstd::arithmetic::div_mod::lemma_div_multiples_vanish(1_000_000_000_000_000_000,
            f.den as int);
        vstd::arithmetic::div_mod::lemma_div_multiples_vanish(-1_000_000_000_000_000_000,
            f.den as int);
    }
    q as i64
}

/// The law of the coordinate mapping, horizontally: a cursor position
/// taken into data space by `viewport_to_world` and back by
/// `world_to_viewport` is returned exactly.  The hypotheses are the two
/// functions' ensured equations; the conclusion says the result equals
/// the cursor as a rational.
pub proof fn lemma_round_trip_x(cam: Camera, cursor_x: int, win_w: int, wx: Frac, vx: Frac)
    requires
        cam.wf(),
        cam.scale_x.num != 0,
        wx.num == 2 * cam.center_x.num * cam.scale_x.den + (2 * cursor_x - win_w)
            * cam.scale_x.num * cam.center_x.den,
        wx.den == 2 * cam.center_x.den * cam.scale_x.den,
        frac_is(
            vx,
            2 * (wx.num * cam.center_x.den - cam.center_x.num * wx.den) * cam.scale_x.den + win_w
                * (wx.den * cam.center_x.den * cam.scale_x.num),
            2 * (wx.den * cam.center_x.den * cam.scale_x.num),
        ),
    ensures
        frac_is(vx, cursor_x, 1),
{
    let cn = cam.center_x.num as int;
    let cd = cam.center_x.den as int;
    let sn = cam.scale_x.num as int;
    let sd = cam.scale_x.den as int;
    let o = 2 * cursor_x - win_w;
    let tn = 2 * (wx.num * cd - cn * wx.den) * sd + win_w * (wx.den * cd * sn);
    let td = 2 * (wx.den * cd * sn);
    assert(wx.num * cd - cn * wx.den == o * sn * (cd * cd)) by (nonlinear_arith)
        requires
            wx.num == 2 * cn * sd + o * sn * cd,
            wx.den == 2 * cd * sd,
    ;
    assert(tn == cursor_x * td) by (nonlinear_arith)
        requires
            tn == 2 * (o * sn * (cd * cd)) * sd + win_w * ((2 * cd * sd) * cd * sn),
            td == 2 * ((2 * cd * sd) * cd * sn),
            o == 2 * cursor_x - win_w,
    ;
    assert(td != 0) by (nonlinear_arith)
        requires
            td == 2 * ((2 * cd * sd) * cd * sn),
            cd >= 1,
            sd >= 1,
            sn != 0,
    ;
    assert(vx.num == cursor_x * vx.den) by (nonlinear_arith)
        requires
            vx.num as int * td == tn * (vx.den as int),
            tn == cursor_x * td,
            td != 0,
    ;
}

/// The law of the coordinate mapping, vertically: as `lemma_round_trip_x`,
/// with the direction flip applied on the way out and back.
pub proof fn lemma_round_trip_y(cam: Camera, cursor_y: int, win_h: int, wy: Frac, vy: Frac)
    requires
        cam.wf(),
        cam.scale_y.num != 0,
        wy.num == 2 * cam.center_y.num * cam.scale_y.den + (win_h - 2 * cursor_y)
            * cam.scale_y.num * cam.center_y.den,
        wy.den == 2 * cam.center_y.den * cam.scale_y.den,
        frac_is(
            vy,
            win_h * (wy.den * cam.center_y.den * cam.scale_y.num) - 2 * (wy.num
                * cam.center_y.den - cam.center_y.num * wy.den) * cam.scale_y.den,
            2 * (wy.den * cam.center_y.den * cam.scale_y.num),
        ),
    ensures
        frac_is(vy, cursor_y, 1),
{
    let cn = cam.center_y.num as int;
    let cd = cam.center_y.den as int;
    let sn = cam.scale_y.num as int;
    let sd = cam.scale_y.den as int;
    let o = win_h - 2 * cursor_y;
    let tn = win_h * (wy.den * cd * sn) - 2 * (wy.num * cd - cn * wy.den) * sd;
    let td = 2 * (wy.den * cd * sn);
    assert(wy.num * cd - cn * wy.den == o * sn * (cd * cd)) by (nonlinear_arith)
        requires
            wy.num == 2 * cn * sd + o * sn * cd,
            wy.den == 2 * cd * sd,
    ;
    assert(tn == cursor_y * td) by (nonlinear_arith)
        requires
            tn == win_h * ((2 * cd * sd) * cd * sn) - 2 * (o * sn * (cd * cd)) * sd,
            td == 2 * ((2 * cd * sd) * cd * sn),
            o == win_h - 2 * cursor_y,
    ;
    assert(td != 0) by (nonlinear_arith)
        requires
            td == 2 * ((2 * cd * sd) * cd * sn),
            cd >= 1,
            sd >= 1,
            sn != 0,
    ;
    assert(vy.num == cursor_y * vy.den) by (nonlinear_arith)
        requires
            vy.num as int * td == tn * (vy.den as int),
            tn == cursor_y * td,
            td != 0,
    ;
}

proof fn lemma_cap_mul(a: int, b: int, ca: int, cb: int)
    requires
        -ca <= a <= ca,
        -cb <= b <= cb,
        0 <= ca,
        0 <= cb,
    ensures
        -ca * cb <= a * b <= ca * cb,
{
    assert(-ca * cb <= a * b <= ca * cb) by (nonlinear_arith)
        requires
            -ca <= a <= ca,
            -cb <= b <= cb,
            0 <= ca,
            0 <= cb,
    ;
}

proof fn lemma_neg_mul(a: int, b: int)
    ensures
        (-a) * b == -(a * b),
        a * (-b) == -(a * b),
{
    assert((-a) * b == -(a * b) && a * (-b) == -(a * b)) by (nonlinear_arith);
}

proof fn lemma_den_mul(a: int, b: int)
    requires
        1 <= a,
        1 <= b,
    ensures
        1 <= a * b,
{
    assert(1 <= a * b) by (nonlinear_arith)
        requires
            1 <= a,
            1 <= b,
    ;
}

proof fn lemma_pan_bounds(cn: int, cd: int, sn: int, sd: int, d: int)
    requires
        -1_000_000_000_000_000_000 <= cn <= 1_000_000_000_000_000_000,
        1 <= cd <= 1_000_000,
        -1_000_000_000_000_000_000 <= sn <= 1_000_000_000_000_000_000,
        1 <= sd <= 1_000_000,
        -1_000_000 <= d <= 1_000_000,
    ensures
        -1_000_000_000_000_000_000_000_000 <= cn * sd <= 1_000_000_000_000_000_000_000_000,
        -1_000_000_000_000_000_000_000_000 <= d * sn <= 1_000_000_000_000_000_000_000_000,
        -1_000_000_000_000_000_000_000_000_000_000 <= d * sn * cd
            <= 1_000_000_000_000_000_000_000_000_000_000,
        1 <= cd * sd <= 1_000_000_000_000,
{
    lemma_cap_mul(cn, sd, 1_000_000_000_000_000_000, 1_000_000);
    lemma_cap_mul(d, sn, 1_000_000, 1_000_000_000_000_000_000);
    lemma_cap_mul(d * sn, cd, 1_000_000_000_000_000_000_000_000, 1_000_000);
    lemma_cap_mul(cd, sd, 1_000_000, 1_000_000);
    lemma_den_mul(cd, sd);
}

proof fn lemma_v2w_bounds(cn: int, cd: int, sn: int, sd: int, o: int)
    requires
        -1_000_000_000_000_000_000 <= cn <= 1_000_000_000_000_000_000,
        1 <= cd <= 1_000_000,
        -1_000_000_000_000_000_000 <= sn <= 1_000_000_000_000_000_000,
        1 <= sd <= 1_000_000,
        -6_000_000 <= o <= 6_000_000,
    ensures
        -2_000_000_000_000_000_000_000_000 <= 2 * cn * sd <= 2_000_000_000_000_000_000_000_000,
        -6_000_000_000_000_000_000_000_000 <= o * sn <= 6_000_000_000_000_000_000_000_000,
        -6_000_000_000_000_000_000_000_000_000_000 <= o * sn * cd
            <= 6_000_000_000_000_000_000_000_000_000_000,
        2 <= 2 * cd * sd <= 2_000_000_000_000,
{
    lemma_cap_mul(2 * cn, sd, 2_000_000_000_000_000_000, 1_000_000);
    lemma_cap_mul(o, sn, 6_000_000, 1_000_000_000_000_000_000);
    lemma_cap_mul(o * sn, cd, 6_000_000_000_000_000_000_000_000, 1_000_000);
    lemma_cap_mul(2 * cd, sd, 2_000_000, 1_000_000);
    assert(2 <= 2 * cd * sd) by (nonlinear_arith)
        requires
            1 <= cd,
            1 <= sd,
    ;
}

proof fn lemma_w2v_bounds(wn: int, wd: int, cn: int, cd: int, sn: int, sd: int, w: int)
    requires
        -1_000_000_000_000_000_000 <= wn <= 1_000_000_000_000_000_000,
        1 <= wd <= 1_000_000,
        -1_000_000_000_000_000_000 <= cn <= 1_000_000_000_000_000_000,
        1 <= cd <= 1_000_000,
        -1_000_000_000_000_000_000 <= sn <= 1_000_000_000_000_000_000,
        1 <= sd <= 1_000_000,
        0 <= w <= 2_000_000,
    ensures
        -1_000_000_000_000_000_000_000_000 <= wn * cd <= 1_000_000_000_000_000_000_000_000,
        -1_000_000_000_000_000_000_000_000 <= cn * wd <= 1_000_000_000_000_000_000_000_000,
        1 <= wd * cd <= 1_000_000_000_000,
        -1_000_000_000_000_000_000_000_000_000_000 <= wd * cd * sn
            <= 1_000_000_000_000_000_000_000_000_000_000,
        -4_000_000_000_000_000_000_000_000_000_000 <= 2 * (wn * cd - cn * wd) * sd
            <= 4_000_000_000_000_000_000_000_000_000_000,
        -2_000_000_000_000_000_000_000_000_000_000_000_000 <= w * (wd * cd * sn)
            <= 2_000_000_000_000_000_000_000_000_000_000_000_000,
        sn != 0 ==> wd * cd * sn != 0,
{
    lemma_cap_mul(wn, cd, 1_000_000_000_000_000_000, 1_000_000);
    lemma_cap_mul(cn, wd, 1_000_000_000_000_000_000, 1_000_000);
    lemma_cap_mul(wd, cd, 1_000_000, 1_000_000);
    lemma_den_mul(wd, cd);
    lemma_cap_mul(wd * cd, sn, 1_000_000_000_000, 1_000_000_000_000_000_000);
    lemma_cap_mul(2 * (wn * cd - cn * wd), sd, 4_000_000_000_000_000_000_000_000, 1_000_000);
    lemma_cap_mul(w, wd * cd * sn, 2_000_000, 1_000_000_000_000_000_000_000_000_000_000);
    if sn != 0 {
        assert(wd * cd * sn != 0) by (nonlinear_arith)
            requires
                1 <= wd * cd,
                sn != 0,
        ;
    }
}

proof fn lemma_shift_bounds(n: int, d: int, w: int)
    requires
        -100_000_000_000_000_000_000_000_000_000_000_000 <= n
            <= 100_000_000_000_000_000_000_000_000_000_000_000,
        1 <= d <= 1_000_000_000_000_000_000_000_000_000_000,
        0 <= w <= 2_000_000,
    ensures
        -2_000_000_000_000_000_000_000_000_000_000_000_000 <= w * d
            <= 2_000_000_000_000_000_000_000_000_000_000_000_000,
{
    lemma_cap_mul(w, d, 2_000_000, 1_000_000_000_000_000_000_000_000_000_000);
}

} // verus!
