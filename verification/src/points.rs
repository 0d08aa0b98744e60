//! Nearest-point lookup: the crosshair snaps to the polyline vertex
//! closest to the cursor, by Euclidean distance.
//!
//! Distances are compared through their squares, which is exact and
//! orders points the same way.

use vstd::prelude::*;

verus! {

/// Largest coordinate magnitude the distance arithmetic accepts; squared
/// distances of such points fit the machine words used below.
pub const COORD_LIMIT: i64 = 0x4000_0000_0000_0000;

/// The squared Euclidean distance between `(ax, ay)` and `(bx, by)`.
pub open spec fn dist2(ax: int, ay: int, bx: int, by: int) -> int {
    (ax - bx) * (ax - bx) + (ay - by) * (ay - by)
}

/// Coordinates small enough for exact squared distances.
pub open spec fn coord_ok(p: (i64, i64)) -> bool {
    -COORD_LIMIT <= p.0 <= COORD_LIMIT && -COORD_LIMIT <= p.1 <= COORD_LIMIT
}

/// The squared distance from `to` to `p`.
fn point_dist2(to: (i64, i64), p: (i64, i64)) -> (d: u128)
    requires
        coord_ok(to),
        coord_ok(p),
    ensures
        d as int == dist2(to.0 as int, to.1 as int, p.0 as int, p.1 as int),
{
    let dx: i128 = to.0 as i128 - p.0 as i128;
    let dy: i128 = to.1 as i128 - p.1 as i128;
    let ax: u128 = if dx < 0 {
        (-dx) as u128
    } else {
        dx as u128
    };
    let ay: u128 = if dy < 0 {
        (-dy) as u128
    } else {
        dy as u128
    };
    proof {
        assert(ax as int * ax as int == dx as int * dx as int) by (nonlinear_arith)
            requires
                ax as int == dx as int || ax as int == -(dx as int),
        ;
        assert(ay as int * ay as int == dy as int * dy as int) by (nonlinear_arith)
            requires
                ay as int == dy as int || ay as int == -(dy as int),
        ;
        assert(ax as int * ax as int <= 0x8000_0000_0000_0000 * 0x8000_0000_0000_0000)
            by (nonlinear_arith)
            requires
                0 <= ax <= 0x8000_0000_0000_0000u128,
        ;
        assert(ay as int * ay as int <= 0x8000_0000_0000_0000 * 0x8000_0000_0000_0000)
            by (nonlinear_arith)
            requires
                0 <= ay <= 0x8000_0000_0000_0000u128,
        ;
    }
    ax * ax + ay * ay
}

/// One step of choosing among several polylines' closest points: the
/// left one survives only while it is strictly closer, so on a tie the
/// right (later) one wins.
pub fn closer(a: (usize, u128, (i64, i64)), b: (usize, u128, (i64, i64))) -> (r: (
    usize,
    u128,
    (i64, i64),
))
    ensures
        a.1 < b.1 ==> r == a,
        a.1 >= b.1 ==> r == b,
{
    if a.1 < b.1 {
        a
    } else {
        b
    }
}

/// Scans the polyline for the vertex closest to `to`: the first vertex
/// at the smallest squared distance, with that distance and its index.
pub fn find_closest_point(to: (i64, i64), points: &Vec<(i64, i64)>) -> (r: Option<
    (usize, u128, (i64, i64)),
>)
    requires
        coord_ok(to),
        forall|j: int| 0 <= j < points@.len() ==> coord_ok(#[trigger] points@[j]),
    ensures
        r is Some <==> points@.len() > 0,
        r matches Some((i, d, p)) ==> {
            &&& i < points@.len()
            &&& p == points@[i as int]
            &&& d as int == dist2(to.0 as int, to.1 as int, p.0 as int, p.1 as int)
            &&& forall|j: int|
                0 <= j < points@.len() ==> (d as int) <= dist2(
                    to.0 as int,
                    to.1 as int,
                    #[trigger] points@[j].0 as int,
                    points@[j].1 as int,
                )
            &&& forall|j: int|
                0 <= j < i ==> (d as int) < dist2(
                    to.0 as int,
                    to.1 as int,
                    #[trigger] points@[j].0 as int,
                    points@[j].1 as int,
                )
        },
{
    let mut best: Option<(usize, u128, (i64, i64))> = None;
    let mut idx: usize = 0;
    while idx < points.len()
        invariant
            idx <= points@.len(),
            coord_ok(to),
            forall|j: int| 0 <= j < points@.len() ==> coord_ok(#[trigger] points@[j]),
            best is Some <==> idx > 0,
            best matches Some((i, d, p)) ==> {
                &&& i < idx
                &&& p == points@[i as int]
                &&& d as int == dist2(to.0 as int, to.1 as int, p.0 as int, p.1 as int)
                &&& forall|j: int|
                    0 <= j < idx ==> (d as int) <= dist2(
                        to.0 as int,
                        to.1 as int,
                        #[trigger] points@[j].0 as int,
                        points@[j].1 as int,
                    )
                &&& forall|j: int|
                    0 <= j < i ==> (d as int) < dist2(
                        to.0 as int,
                        to.1 as int,
                        #[trigger] points@[j].0 as int,
                        points@[j].1 as int,
                    )
            },
        decreases points@.len() - idx,
    {
        let p = points[idx];
        let d = point_dist2(to, p);
        match best {
            None => {
                best = Some((idx, d, p));
            },
            Some((_, bd, _)) => {
                if d < bd {
                    best = Some((idx, d, p));
                }
            },
        }
        idx = idx + 1;
    }
    best
}

/// Picks the crosshair target among several polylines: the closest
/// point of each, reduced by `closer`, so the winner's distance is the
/// least over every point of every polyline, and on a tie between
/// polylines the later one wins.
pub fn closest_across(to: (i64, i64), graphs: &Vec<Vec<(i64, i64)>>) -> (r: Option<
    (usize, usize, u128, (i64, i64)),
>)
    requires
        coord_ok(to),
        forall|g: int, j: int|
            0 <= g < graphs@.len() && 0 <= j < graphs@[g]@.len() ==> coord_ok(
                #[trigger] graphs@[g]@[j],
            ),
    ensures
        r is Some <==> exists|g: int| 0 <= g < graphs@.len() && (#[trigger] graphs@[g]@.len()) > 0,
        r matches Some((g, i, d, p)) ==> {
            &&& g < graphs@.len()
            &&& i < graphs@[g as int]@.len()
            &&& p == graphs@[g as int]@[i as int]
            &&& d as int == dist2(to.0 as int, to.1 as int, p.0 as int, p.1 as int)
            &&& forall|h: int, j: int|
                0 <= h < graphs@.len() && 0 <= j < graphs@[h]@.len() ==> (d as int) <= dist2(
                    to.0 as int,
                    to.1 as int,
                    (#[trigger] graphs@[h]@[j]).0 as int,
                    graphs@[h]@[j].1 as int,
                )
            &&& forall|h: int, j: int|
                g < h < graphs@.len() && 0 <= j < graphs@[h]@.len() ==> (d as int) < dist2(
                    to.0 as int,
                    to.1 as int,
                    (#[trigger] graphs@[h]@[j]).0 as int,
                    graphs@[h]@[j].1 as int,
                )
        },
{
    let mut best: Option<(usize, usize, u128, (i64, i64))> = None;
    let mut h: usize = 0;
    while h < graphs.len()
        invariant
            h <= graphs@.len(),
            coord_ok(to),
            forall|g: int, j: int|
                0 <= g < graphs@.len() && 0 <= j < graphs@[g]@.len() ==> coord_ok(
                    #[trigger] graphs@[g]@[j],
                ),
            best is Some <==> exists|g: int| 0 <= g < h && (#[trigger] graphs@[g]@.len()) > 0,
            best matches Some((g, i, d, p)) ==> {
                &&& g < h
                &&& i < graphs@[g as int]@.len()
                &&& p == graphs@[g as int]@[i as int]
                &&& d as int == dist2(to.0 as int, to.1 as int, p.0 as int, p.1 as int)
                &&& forall|gg: int, j: int|
                    0 <= gg < h && 0 <= j < graphs@[gg]@.len() ==> (d as int) <= dist2(
                        to.0 as int,
                        to.1 as int,
                        (#[trigger] graphs@[gg]@[j]).0 as int,
                        graphs@[gg]@[j].1 as int,
                    )
                &&& forall|gg: int, j: int|
                    g < gg < h && 0 <= j < graphs@[gg]@.len() ==> (d as int) < dist2(
                        to.0 as int,
                        to.1 as int,
                        (#[trigger] graphs@[gg]@[j]).0 as int,
                        graphs@[gg]@[j].1 as int,
                    )
            },
        decreases graphs@.len() - h,
    {
        let cur = find_closest_point(to, &graphs[h]);
        match cur {
            None => {},
            Some((i, d, p)) => {
                match best {
                    None => {
                        best = Some((h, i, d, p));
                    },
                    Some((_, _, bd, _)) => {
                        if bd < d {
                            // the earlier winner stays only while strictly closer
                        } else {
                            best = Some((h, i, d, p));
                        }
                    },
                }
            },
        }
        h = h + 1;
    }
    best
}

} // verus!
