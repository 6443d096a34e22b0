//! The tests that decide whether two vertices may span a rectangle.
//!
//! Every test reads the vertex list as a closed loop: the edge that starts at
//! vertex `i` ends at vertex `i + 1`, and the last vertex is joined to the
//! first.  The tests are defined for every list of points; they mean what their
//! names say for loops whose edges are all horizontal or vertical.

use vstd::prelude::*;
use crate::order::{is_ordered, is_weak_ordered_4, strictly_between, weakly_monotone};
use crate::point::Point;

verus! {

/// The edge of the closed loop that starts at vertex `i`.
pub open spec fn edge(points: Seq<Point>, i: int) -> (Point, Point) {
    (points[i], points[(i + 1) % (points.len() as int)])
}

/// `q` lies in the open interior of the rectangle with opposite corners `p1`
/// and `p2`.
pub open spec fn strictly_inside(p1: Point, p2: Point, q: Point) -> bool {
    strictly_between(p1.x as int, q.x as int, p2.x as int) && strictly_between(
        p1.y as int,
        q.y as int,
        p2.y as int,
    )
}

/// Some vertex of the loop lies in the open interior of the rectangle with
/// opposite corners `p1` and `p2`.
pub open spec fn any_vertex_inside(p1: Point, p2: Point, points: Seq<Point>) -> bool {
    exists|i: int| 0 <= i < points.len() && strictly_inside(p1, p2, #[trigger] points[i])
}

/// The vertical edge `t1`-`t2` stands strictly between the two sides `p1.x`
/// and `p2.x` while its span of `y` reaches over the rectangle's from end to
/// end, touching allowed.
pub open spec fn vertical_cut(p1: Point, p2: Point, t1: Point, t2: Point) -> bool {
    &&& t1.x == t2.x
    &&& strictly_between(p1.x as int, t1.x as int, p2.x as int)
    &&& (weakly_monotone(t1.y as int, p1.y as int, p2.y as int, t2.y as int) || weakly_monotone(
        t2.y as int,
        p1.y as int,
        p2.y as int,
        t1.y as int,
    ))
}

/// The horizontal edge `t1`-`t2` stands strictly between the two sides `p1.y`
/// and `p2.y` while its span of `x` reaches over the rectangle's from end to
/// end, touching allowed.
pub open spec fn horizontal_cut(p1: Point, p2: Point, t1: Point, t2: Point) -> bool {
    &&& t1.y == t2.y
    &&& strictly_between(p1.y as int, t1.y as int, p2.y as int)
    &&& (weakly_monotone(t1.x as int, p1.x as int, p2.x as int, t2.x as int) || weakly_monotone(
        t2.x as int,
        p1.x as int,
        p2.x as int,
        t1.x as int,
    ))
}

/// The edge `e` cuts through the rectangle with opposite corners `p1`, `p2`.
pub open spec fn cuts(p1: Point, p2: Point, e: (Point, Point)) -> bool {
    vertical_cut(p1, p2, e.0, e.1) || horizontal_cut(p1, p2, e.0, e.1)
}

/// No edge of the loop cuts through the rectangle with opposite corners `p1`
/// and `p2`.
pub open spec fn no_boundary_crossing(p1: Point, p2: Point, points: Seq<Point>) -> bool {
    forall|i: int| 0 <= i < points.len() ==> !cuts(p1, p2, #[trigger] edge(points, i))
}

/// The edge `e` is horizontal, lies strictly above `y`, and its span of `x`,
/// closed at its left end and open at its right end, holds `x`.
pub open spec fn crosses_ray(x: int, y: int, e: (Point, Point)) -> bool {
    &&& e.0.y == e.1.y
    &&& e.0.y > y
    &&& ((e.0.x <= x && x < e.1.x) || (e.1.x <= x && x < e.0.x))
}

/// How many of the first `k` edges of the loop cross the ray from `(x, y)`.
pub open spec fn crossings(points: Seq<Point>, x: int, y: int, k: int) -> nat
    decreases k,
{
    if k <= 0 {
        0
    } else {
        crossings(points, x, y, k - 1) + if crosses_ray(x, y, edge(points, k - 1)) {
            1nat
        } else {
            0nat
        }
    }
}

/// `(x, y)` is enclosed by the loop: an odd number of edges cross its ray.
pub open spec fn encloses(points: Seq<Point>, x: int, y: int) -> bool {
    crossings(points, x, y, points.len() as int) % 2 == 1
}

/// The `x` of the point that stands for the inside of the rectangle with
/// opposite corners `p1` and `p2`: one step in from the smaller `x`.
pub open spec fn probe_x(p1: Point, p2: Point) -> int {
    if p1.x < p2.x {
        p1.x + 1
    } else {
        p2.x + 1
    }
}

/// The `y` of the point that stands for the inside of the rectangle with
/// opposite corners `p1` and `p2`: one step in from the smaller `y`.
pub open spec fn probe_y(p1: Point, p2: Point) -> int {
    if p1.y < p2.y {
        p1.y + 1
    } else {
        p2.y + 1
    }
}

/// Whether some vertex lies strictly inside the rectangle with opposite
/// corners `p1` and `p2`.
pub fn point_inside(p1: &Point, p2: &Point, points: &Vec<Point>) -> (r: bool)
    ensures
        r == any_vertex_inside(*p1, *p2, points@),
{
    let mut i: usize = 0;
    while i < points.len()
        invariant
            i <= points.len(),
            forall|k: int| 0 <= k < i ==> !strictly_inside(*p1, *p2, #[trigger] points@[k]),
        decreases points.len() - i,
    {
        let point = &points[i];
        if is_ordered(p1.x, point.x, p2.x) && is_ordered(p1.y, point.y, p2.y) {
            return true;
        }
        i += 1;
    }
    false
}

/// Whether the rectangle with opposite corners `p1` and `p2` is free of
/// boundary: no edge of the loop cuts through it.
///
/// An edge cuts only if it reaches across the rectangle by itself.  Two
/// collinear edges that meet at a vertex on the way and reach across only
/// together are not noticed; that is a known limit of the test.
pub fn green_tiles(p1: &Point, p2: &Point, points: &Vec<Point>) -> (r: bool)
    ensures
        r == no_boundary_crossing(*p1, *p2, points@),
{
    let mut i1: usize = 0;
    while i1 < points.len()
        invariant
            i1 <= points.len(),
            forall|k: int| 0 <= k < i1 ==> !cuts(*p1, *p2, #[trigger] edge(points@, k)),
        decreases points.len() - i1,
    {
        let i2: usize = (i1 + 1) % points.len();
        let tp1 = &points[i1];
        let tp2 = &points[i2];
        assert(edge(points@, i1 as int) == (*tp1, *tp2));
        if tp1.x == tp2.x && is_ordered(p1.x, tp1.x, p2.x) && (is_weak_ordered_4(
            tp1.y,
            p1.y,
            p2.y,
            tp2.y,
        ) || is_weak_ordered_4(tp2.y, p1.y, p2.y, tp1.y)) {
            return false;
        }
        if tp1.y == tp2.y && is_ordered(p1.y, tp1.y, p2.y) && (is_weak_ordered_4(
            tp1.x,
            p1.x,
            p2.x,
            tp2.x,
        ) || is_weak_ordered_4(tp2.x, p1.x, p2.x, tp1.x)) {
            return false;
        }
        i1 += 1;
    }
    true
}

/// Ray casting from a point whose coordinates may lie one step outside the
/// range of a vertex coordinate.
fn encloses_at(x: i128, y: i128, points: &Vec<Point>) -> (r: bool)
    ensures
        r == encloses(points@, x as int, y as int),
{
    let mut odd: bool = false;
    let mut i1: usize = 0;
    while i1 < points.len()
        invariant
            i1 <= points.len(),
            odd == (crossings(points@, x as int, y as int, i1 as int) % 2 == 1),
        decreases points.len() - i1,
    {
        let i2: usize = (i1 + 1) % points.len();
        let p1 = &points[i1];
        let p2 = &points[i2];
        assert(edge(points@, i1 as int) == (*p1, *p2));
        if p1.y == p2.y && p1.y as i128 > y {
            if p1.x as i128 <= x && x < p2.x as i128 {
                odd = !odd;
            }
            if p2.x as i128 <= x && x < p1.x as i128 {
                odd = !odd;
            }
        }
        i1 += 1;
    }
    odd
}

/// Whether `p` is enclosed by the loop, by casting a ray from it and counting
/// the horizontal edges strictly above it whose half-open span holds `p.x`.
pub fn is_inside(p: &Point, points: &Vec<Point>) -> (r: bool)
    ensures
        r == encloses(points@, p.x as int, p.y as int),
{
    encloses_at(p.x as i128, p.y as i128, points)
}

/// Whether the rectangle with opposite corners `p1` and `p2` lies inside the
/// loop, judged by the one point a step in from its smaller `x` and `y`.
///
/// For a rectangle without width or height that point lies beside the
/// rectangle, not in it.
pub fn is_inner_rect(p1: &Point, p2: &Point, points: &Vec<Point>) -> (r: bool)
    ensures
        r == encloses(points@, probe_x(*p1, *p2), probe_y(*p1, *p2)),
{
    let test_x: i128 = if p1.x < p2.x {
        p1.x as i128 + 1
    } else {
        p2.x as i128 + 1
    };
    let test_y: i128 = if p1.y < p2.y {
        p1.y as i128 + 1
    } else {
        p2.y as i128 + 1
    };
    encloses_at(test_x, test_y, points)
}

} // verus!
