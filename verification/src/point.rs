//! Lattice points and the number of cells that two of them span.

use vstd::prelude::*;

verus! {

/// A point of the integer lattice.
#[derive(Clone, Copy, Debug, PartialEq, Eq, Hash, Structural)]
pub struct Point {
    pub x: i64,
    pub y: i64,
}

/// Distance between two integers.
pub open spec fn distance(a: int, b: int) -> int {
    if a <= b {
        b - a
    } else {
        a - b
    }
}

/// Number of lattice cells in the inclusive bounding box of `a` and `b`.
pub open spec fn cell_count(a: Point, b: Point) -> int {
    (1 + distance(a.x as int, b.x as int)) * (1 + distance(a.y as int, b.y as int))
}

/// The cell count of a bounding box does not depend on the order of its corners.
pub proof fn lemma_cell_count_symmetric(a: Point, b: Point)
    ensures
        cell_count(a, b) == cell_count(b, a),
{
}

/// Every bounding box covers at least the cell of its corner, and at least as
/// many cells as it is wide or high.
pub proof fn lemma_cell_count_lower_bound(a: Point, b: Point)
    ensures
        cell_count(a, b) >= 1,
        cell_count(a, b) >= 1 + distance(a.x as int, b.x as int),
        cell_count(a, b) >= 1 + distance(a.y as int, b.y as int),
{
    let w = 1 + distance(a.x as int, b.x as int);
    let h = 1 + distance(a.y as int, b.y as int);
    assert(w * h >= w && w * h >= h) by (nonlinear_arith)
        requires
            w >= 1,
            h >= 1,
    ;
}

/// Moving a corner further from the fixed corner `a`, in either coordinate,
/// never makes the bounding box cover fewer cells.
pub proof fn lemma_cell_count_monotone(a: Point, b: Point, c: Point)
    requires
        distance(a.x as int, b.x as int) <= distance(a.x as int, c.x as int),
        distance(a.y as int, b.y as int) <= distance(a.y as int, c.y as int),
    ensures
        cell_count(a, b) <= cell_count(a, c),
{
    let w1 = 1 + distance(a.x as int, b.x as int);
    let h1 = 1 + distance(a.y as int, b.y as int);
    let w2 = 1 + distance(a.x as int, c.x as int);
    let h2 = 1 + distance(a.y as int, c.y as int);
    assert(w1 * h1 <= w2 * h2) by (nonlinear_arith)
        requires
            1 <= w1 <= w2,
            1 <= h1 <= h2,
    ;
}

/// One more than the distance between two coordinates.
fn span(a: i64, b: i64) -> (r: i128)
    ensures
        r == 1 + distance(a as int, b as int),
        1 <= r <= 0x1_0000_0000_0000_0000,
{
    let d: i128 = a as i128 - b as i128;
    if d < 0 {
        1 - d
    } else {
        1 + d
    }
}

impl Point {
    /// Number of lattice cells in the inclusive bounding box of the two
    /// points, or `None` when that number does not fit in an `i64`.
    pub fn checked_area(&self, other: &Point) -> (r: Option<i64>)
        ensures
            cell_count(*self, *other) <= i64::MAX ==> r == Some(cell_count(*self, *other) as i64),
            cell_count(*self, *other) > i64::MAX ==> r is None,
    {
        let w: i128 = span(self.x, other.x);
        let h: i128 = span(self.y, other.y);
        proof {
            lemma_cell_count_lower_bound(*self, *other);
        }
        if w > i64::MAX as i128 || h > i64::MAX as i128 {
            return None;
        }
        assert(w * h <= 0x7fff_ffff_ffff_ffff * 0x7fff_ffff_ffff_ffff) by (nonlinear_arith)
            requires
                1 <= w <= 0x7fff_ffff_ffff_ffff,
                1 <= h <= 0x7fff_ffff_ffff_ffff,
        ;
        let cells: i128 = w * h;
        if cells > i64::MAX as i128 {
            None
        } else {
            Some(cells as i64)
        }
    }

    /// Number of lattice cells in the inclusive bounding box of the two
    /// points: `(1 + |dx|) * (1 + |dy|)`.
    pub fn area(&self, other: &Point) -> (r: i64)
        requires
            cell_count(*self, *other) <= i64::MAX,
        ensures
            r == cell_count(*self, *other),
            r == cell_count(*other, *self),
            r >= 1,
    {
        proof {
            lemma_cell_count_lower_bound(*self, *other);
        }
        let w: i128 = span(self.x, other.x);
        let h: i128 = span(self.y, other.y);
        let cells: i128 = w * h;
        cells as i64
    }
}

} // verus!
