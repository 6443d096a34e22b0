//! What a drawing of a polygon and of a rectangle starts from: the far corner
//! of the vertices' bounding box, and the four corners of a rectangle in
//! drawing order.

use vstd::prelude::*;
use crate::point::{cell_count, Point};
use crate::polygon::{axis_aligned, rectilinear};
use crate::predicates::edge;

verus! {

/// The larger of two coordinates.
pub open spec fn larger(a: i64, b: i64) -> i64 {
    if a >= b {
        a
    } else {
        b
    }
}

/// The smaller of two coordinates.
pub open spec fn smaller(a: i64, b: i64) -> i64 {
    if a <= b {
        a
    } else {
        b
    }
}

/// `c.x` is the largest `x` and `c.y` the largest `y` among the points.
pub open spec fn is_max_corner(points: Seq<Point>, c: Point) -> bool {
    &&& exists|i: int| 0 <= i < points.len() && (#[trigger] points[i]).x == c.x
    &&& exists|i: int| 0 <= i < points.len() && (#[trigger] points[i]).y == c.y
    &&& forall|i: int|
        0 <= i < points.len() ==> (#[trigger] points[i]).x <= c.x && points[i].y <= c.y
}

/// The corners of the rectangle with opposite corners `p1` and `p2`, as a
/// closed loop that starts at the corner with the largest `x` and `y`.
pub open spec fn corners_of(p1: Point, p2: Point) -> Seq<Point> {
    seq![
        Point { x: larger(p1.x, p2.x), y: larger(p1.y, p2.y) },
        Point { x: larger(p1.x, p2.x), y: smaller(p1.y, p2.y) },
        Point { x: smaller(p1.x, p2.x), y: smaller(p1.y, p2.y) },
        Point { x: smaller(p1.x, p2.x), y: larger(p1.y, p2.y) },
    ]
}

/// The loop of corners is rectilinear and holds the two given corners and the
/// two others, `(p1.x, p2.y)` and `(p2.x, p1.y)`; its first and third corner
/// span as many cells as `p1` and `p2` do.
pub proof fn lemma_corners_of(p1: Point, p2: Point)
    ensures
        rectilinear(corners_of(p1, p2)),
        corners_of(p1, p2).contains(p1),
        corners_of(p1, p2).contains(p2),
        corners_of(p1, p2).contains(Point { x: p1.x, y: p2.y }),
        corners_of(p1, p2).contains(Point { x: p2.x, y: p1.y }),
        cell_count(corners_of(p1, p2)[0], corners_of(p1, p2)[2]) == cell_count(p1, p2),
{
    let c = corners_of(p1, p2);
    assert(c.len() == 4);
    assert forall|w: Point|
        (w.x == p1.x || w.x == p2.x) && (w.y == p1.y || w.y == p2.y) implies #[trigger] c.contains(
        w,
    ) by {
        assert(w == c[0] || w == c[1] || w == c[2] || w == c[3]);
    }
    assert forall|i: int| 0 <= i < c.len() implies axis_aligned(
        #[trigger] edge(c, i),
    ) by {
        assert(i == 0 || i == 1 || i == 2 || i == 3);
    }
}

/// The far corner of the bounding box of the points: their largest `x` and
/// their largest `y`.  `None` when there is no point.
pub fn max_corner(points: &Vec<Point>) -> (r: Option<Point>)
    ensures
        r is None <==> points.len() == 0,
        r matches Some(c) ==> is_max_corner(points@, c),
{
    if points.len() == 0 {
        return None;
    }
    let mut x: i64 = points[0].x;
    let mut y: i64 = points[0].y;
    let ghost mut at_x: int = 0;
    let ghost mut at_y: int = 0;
    let mut i: usize = 1;
    while i < points.len()
        invariant
            1 <= i <= points.len(),
            0 <= at_x < i && points@[at_x].x == x,
            0 <= at_y < i && points@[at_y].y == y,
            forall|k: int| 0 <= k < i ==> (#[trigger] points@[k]).x <= x && points@[k].y <= y,
        decreases points.len() - i,
    {
        let p: Point = points[i];
        if p.x > x {
            x = p.x;
            proof {
                at_x = i as int;
            }
        }
        if p.y > y {
            y = p.y;
            proof {
                at_y = i as int;
            }
        }
        i += 1;
    }
    Some(Point { x, y })
}

/// The four corners of the rectangle with opposite corners `p1` and `p2`, in
/// drawing order.
pub fn rect_corners(p1: &Point, p2: &Point) -> (r: Vec<Point>)
    ensures
        r@ == corners_of(*p1, *p2),
{
    let (min_x, max_x): (i64, i64) = if p1.x <= p2.x {
        (p1.x, p2.x)
    } else {
        (p2.x, p1.x)
    };
    let (min_y, max_y): (i64, i64) = if p1.y <= p2.y {
        (p1.y, p2.y)
    } else {
        (p2.y, p1.y)
    };
    let mut r: Vec<Point> = Vec::new();
    r.push(Point { x: max_x, y: max_y });
    r.push(Point { x: max_x, y: min_y });
    r.push(Point { x: min_x, y: min_y });
    r.push(Point { x: min_x, y: max_y });
    r
}

} // verus!
