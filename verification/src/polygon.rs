//! Rectilinear lattice polygons, checked once when they are made.

use vstd::prelude::*;
use crate::point::{cell_count, Point};
use crate::predicates::edge;

verus! {

/// The two ends of the edge share their `x` or their `y`.
pub open spec fn axis_aligned(e: (Point, Point)) -> bool {
    e.0.x == e.1.x || e.0.y == e.1.y
}

/// Every edge of the closed loop is horizontal or vertical.
pub open spec fn rectilinear(points: Seq<Point>) -> bool {
    forall|i: int| 0 <= i < points.len() ==> axis_aligned(#[trigger] edge(points, i))
}

/// The bounding box of any two vertices covers a number of cells that an
/// `i64` can hold.
pub open spec fn areas_fit(points: Seq<Point>) -> bool {
    forall|i: int, j: int|
        0 <= i < points.len() && 0 <= j < points.len() ==> #[trigger] cell_count(
            points[i],
            points[j],
        ) <= i64::MAX
}

/// What a vertex list has to meet to be taken as a polygon.
pub open spec fn valid_polygon(points: Seq<Point>) -> bool {
    &&& points.len() >= 4
    &&& rectilinear(points)
    &&& areas_fit(points)
}

/// Why a vertex list is no polygon.
#[derive(Clone, Copy, Debug, PartialEq, Eq, Structural)]
pub enum PolygonError {
    /// The list holds fewer than four vertices.
    TooFewVertices,
    /// The edge that starts at vertex `index` is neither horizontal nor
    /// vertical; every edge before it is.
    SlantedEdge { index: usize },
    /// Two of the vertices span a bounding box whose cell count exceeds
    /// `i64::MAX`.
    AreaOverflow,
}

/// A closed loop of at least four lattice points with axis-aligned edges,
/// small enough for every area between its vertices to fit in an `i64`.
#[derive(Debug)]
pub struct Polygon {
    vertices: Vec<Point>,
}

impl View for Polygon {
    type V = Seq<Point>;

    closed spec fn view(&self) -> Seq<Point> {
        self.vertices@
    }
}

impl Polygon {
    #[verifier::type_invariant]
    spec fn well_formed(&self) -> bool {
        valid_polygon(self.vertices@)
    }

    /// Takes the vertices, in loop order, as a polygon if they form one.
    pub fn new(vertices: Vec<Point>) -> (r: Result<Polygon, PolygonError>)
        ensures
            match r {
                Ok(polygon) => valid_polygon(vertices@) && polygon@ == vertices@,
                Err(PolygonError::TooFewVertices) => vertices.len() < 4,
                Err(PolygonError::SlantedEdge { index }) => {
                    &&& vertices.len() >= 4
                    &&& index < vertices.len()
                    &&& !axis_aligned(edge(vertices@, index as int))
                    &&& forall|k: int| 0 <= k < index ==> axis_aligned(#[trigger] edge(vertices@, k))
                },
                Err(PolygonError::AreaOverflow) => {
                    &&& vertices.len() >= 4
                    &&& rectilinear(vertices@)
                    &&& !areas_fit(vertices@)
                },
            },
    {
        let n: usize = vertices.len();
        if n < 4 {
            return Err(PolygonError::TooFewVertices);
        }
        let mut i: usize = 0;
        while i < n
            invariant
                n == vertices.len(),
                n >= 4,
                i <= n,
                forall|k: int| 0 <= k < i ==> axis_aligned(#[trigger] edge(vertices@, k)),
            decreases n - i,
        {
            let a: Point = vertices[i];
            let b: Point = vertices[(i + 1) % n];
            assert(edge(vertices@, i as int) == (a, b));
            if a.x != b.x && a.y != b.y {
                return Err(PolygonError::SlantedEdge { index: i });
            }
            i += 1;
        }
        let mut i: usize = 0;
        while i < n
            invariant
                n == vertices.len(),
                n >= 4,
                i <= n,
                rectilinear(vertices@),
                forall|k: int, j: int|
                    0 <= k < i && 0 <= j < n ==> #[trigger] cell_count(vertices@[k], vertices@[j])
                        <= i64::MAX,
            decreases n - i,
        {
            let mut j: usize = 0;
            while j < n
                invariant
                    n == vertices.len(),
                    n >= 4,
                n >= 4,
                    i < n,
                    j <= n,
                    rectilinear(vertices@),
                    forall|k: int, j: int|
                        0 <= k < i && 0 <= j < n ==> #[trigger] cell_count(
                            vertices@[k],
                            vertices@[j],
                        ) <= i64::MAX,
                    forall|m: int|
                        0 <= m < j ==> #[trigger] cell_count(vertices@[i as int], vertices@[m])
                            <= i64::MAX,
                decreases n - j,
            {
                let a: Point = vertices[i];
                let b: Point = vertices[j];
                if a.checked_area(&b).is_none() {
                    assert(cell_count(vertices@[i as int], vertices@[j as int]) > i64::MAX);
                    return Err(PolygonError::AreaOverflow);
                }
                j += 1;
            }
            i += 1;
        }
        Ok(Polygon { vertices })
    }

    /// The vertices in loop order.
    pub fn vertices(&self) -> (r: &Vec<Point>)
        ensures
            r@ == self@,
            valid_polygon(r@),
    {
        proof {
            use_type_invariant(self);
        }
        &self.vertices
    }
}

} // verus!
