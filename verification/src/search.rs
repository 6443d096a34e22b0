//! The search for the largest admissible rectangles.
//!
//! Every ordered pair of vertices is a candidate, a vertex paired with itself
//! included.  The candidates are visited row by row: the first corner runs
//! over the vertices in loop order, and for each first corner the second one
//! does.  The search can be run on some rows only, and the outcomes of
//! several such runs merged.

use vstd::prelude::*;
use vstd::arithmetic::div_mod::{lemma_fundamental_div_mod, lemma_fundamental_div_mod_converse};
use vstd::seq_lib::lemma_multiset_commutative;
use crate::pairs::{index_grid, index_pairs, next_pair, pending};
use crate::point::{cell_count, lemma_cell_count_lower_bound, Point};
use crate::polygon::{valid_polygon, Polygon};
use crate::order::{lemma_strictly_between_symmetric, lemma_weakly_monotone_reversed};
use crate::predicates::{
    any_vertex_inside,
    cuts,
    encloses,
    green_tiles,
    is_inner_rect,
    no_boundary_crossing,
    point_inside,
    probe_x,
    probe_y,
    strictly_inside,
};

verus! {

/// The rectangle with opposite corners `p1` and `p2` holds no vertex in its
/// interior and is cut by no edge; with `inner_only`, the point that stands
/// for its inside is enclosed by the loop as well.
pub open spec fn admissible(p1: Point, p2: Point, points: Seq<Point>, inner_only: bool) -> bool {
    &&& !any_vertex_inside(p1, p2, points)
    &&& no_boundary_crossing(p1, p2, points)
    &&& (inner_only ==> encloses(points, probe_x(p1, p2), probe_y(p1, p2)))
}

/// The ordered pairs of vertices whose first corner is one of the vertices
/// `from..to`, in the order of the search: the pair of vertex `i` and vertex
/// `j` stands at position `(i - from) * n + j`.
pub open spec fn candidates_in(points: Seq<Point>, from: int, to: int) -> Seq<(Point, Point)> {
    let n = points.len() as int;
    Seq::new(((to - from) * n) as nat, |k: int| (points[from + k / n], points[k % n]))
}

/// All ordered pairs of vertices, in the order of the search.
pub open spec fn candidates(points: Seq<Point>) -> Seq<(Point, Point)> {
    candidates_in(points, 0, points.len() as int)
}

/// The test that picks the admissible candidates covering exactly `area`
/// cells.
pub open spec fn ties_at(points: Seq<Point>, inner_only: bool, area: int) -> spec_fn(
    (Point, Point),
) -> bool {
    |c: (Point, Point)| admissible(c.0, c.1, points, inner_only) && cell_count(c.0, c.1) == area
}

/// What a search found: the largest area and the corners that reach it.
pub struct Outcome {
    pub area: int,
    pub corners: Seq<(Point, Point)>,
}

/// The largest admissible rectangles among some candidates.
#[derive(Debug, PartialEq, Eq)]
pub struct Solution {
    /// Number of cells that each of the rectangles covers.
    pub area: i64,
    /// The opposite corners of each rectangle, in the order of the search.
    /// A rectangle appears once for each order of its two corners.
    pub corners: Vec<(Point, Point)>,
}

impl View for Solution {
    type V = Outcome;

    open spec fn view(&self) -> Outcome {
        Outcome { area: self.area as int, corners: self.corners@ }
    }
}

/// What an optional solution says.
pub open spec fn outcome(r: Option<Solution>) -> Option<Outcome> {
    match r {
        None => None,
        Some(s) => Some(s@),
    }
}

/// `r` is what a search among `cands` has to find.  `None`: no candidate is
/// admissible.  Otherwise the area is the largest cell count of an admissible
/// candidate, and the corners are all the admissible candidates that reach
/// it, in their order among the candidates.
pub open spec fn is_best_of(
    cands: Seq<(Point, Point)>,
    points: Seq<Point>,
    inner_only: bool,
    r: Option<Outcome>,
) -> bool {
    match r {
        None => forall|k: int|
            0 <= k < cands.len() ==> !admissible(
                (#[trigger] cands[k]).0,
                cands[k].1,
                points,
                inner_only,
            ),
        Some(o) => {
            &&& o.corners.len() > 0
            &&& forall|k: int|
                0 <= k < cands.len() && admissible(
                    (#[trigger] cands[k]).0,
                    cands[k].1,
                    points,
                    inner_only,
                ) ==> cell_count(cands[k].0, cands[k].1) <= o.area
            &&& o.corners == cands.filter(ties_at(points, inner_only, o.area))
        },
    }
}

/// `r` is what the search over all pairs of vertices has to find.
pub open spec fn solves(points: Seq<Point>, inner_only: bool, r: Option<Outcome>) -> bool {
    is_best_of(candidates(points), points, inner_only, r)
}

/// The better of two outcomes; both lists of corners, one after the other,
/// when the areas are equal.
pub open spec fn merged(a: Option<Outcome>, b: Option<Outcome>) -> Option<Outcome> {
    match (a, b) {
        (None, _) => b,
        (_, None) => a,
        (Some(x), Some(y)) => if x.area > y.area {
            a
        } else if x.area < y.area {
            b
        } else {
            Some(Outcome { area: x.area, corners: x.corners + y.corners })
        },
    }
}

/// `area` is the largest cell count that two vertices span.
pub open spec fn is_max_area(points: Seq<Point>, area: int) -> bool {
    &&& exists|i: int, j: int|
        0 <= i < points.len() && 0 <= j < points.len() && #[trigger] cell_count(
            points[i],
            points[j],
        ) == area
    &&& forall|i: int, j: int|
        0 <= i < points.len() && 0 <= j < points.len() ==> #[trigger] cell_count(
            points[i],
            points[j],
        ) <= area
}

/// The candidate at position `k` among those of the rows `from..to` pairs the
/// vertices `from + k / n` and `k % n`, both of which exist.
pub proof fn lemma_candidate_at(points: Seq<Point>, from: int, to: int, k: int)
    requires
        0 <= from <= to <= points.len(),
        0 <= k < candidates_in(points, from, to).len(),
    ensures
        from <= from + k / (points.len() as int) < to,
        0 <= k % (points.len() as int) < points.len(),
        candidates_in(points, from, to)[k] == (
            points[from + k / (points.len() as int)],
            points[k % (points.len() as int)],
        ),
        index_grid(from, to, points.len() as int).len() == candidates_in(points, from, to).len(),
        index_grid(from, to, points.len() as int)[k] == (
            (from + k / (points.len() as int)) as usize,
            (k % (points.len() as int)) as usize,
        ),
{
    let n = points.len() as int;
    let rows = to - from;
    assert(n > 0 && rows > 0) by (nonlinear_arith)
        requires
            0 <= k < rows * n,
            n >= 0,
            rows >= 0,
    ;
    lemma_fundamental_div_mod(k, n);
    let q = k / n;
    assert(0 <= q < rows) by (nonlinear_arith)
        requires
            0 <= k < rows * n,
            n > 0,
            k == n * q + (k % n),
            0 <= k % n < n,
    ;
}

/// Every ordered pair of a vertex `i` in `from..to` and a vertex `j` is a
/// candidate of those rows: it stands at position `(i - from) * n + j`.
pub proof fn lemma_candidate_of(points: Seq<Point>, from: int, to: int, i: int, j: int)
    requires
        0 <= from <= i < to <= points.len(),
        0 <= j < points.len(),
    ensures
        0 <= (i - from) * points.len() + j < candidates_in(points, from, to).len(),
        candidates_in(points, from, to)[(i - from) * points.len() + j] == (points[i], points[j]),
{
    let n = points.len() as int;
    let rows = to - from;
    let row = i - from;
    assert(0 <= row * n + j < rows * n) by (nonlinear_arith)
        requires
            0 <= row < rows,
            0 <= j < n,
    ;
    lemma_fundamental_div_mod_converse(row * n + j, n, row, j);
}

/// The candidates of the rows `from..to` are those of the rows `from..mid`
/// followed by those of the rows `mid..to`.
pub proof fn lemma_candidates_split(points: Seq<Point>, from: int, mid: int, to: int)
    requires
        0 <= from <= mid <= to <= points.len(),
    ensures
        candidates_in(points, from, to) == candidates_in(points, from, mid) + candidates_in(
            points,
            mid,
            to,
        ),
{
    let n = points.len() as int;
    let whole = candidates_in(points, from, to);
    let head = candidates_in(points, from, mid);
    let tail = candidates_in(points, mid, to);
    assert((to - from) * n == (mid - from) * n + (to - mid) * n) by (nonlinear_arith);
    assert((mid - from) * n >= 0 && (to - mid) * n >= 0) by (nonlinear_arith)
        requires
            mid - from >= 0,
            to - mid >= 0,
            n >= 0,
    ;
    assert(whole.len() == head.len() + tail.len());
    assert forall|k: int| 0 <= k < whole.len() implies whole[k] == (head + tail)[k] by {
        if k >= head.len() {
            let m = k - head.len();
            lemma_candidate_at(points, mid, to, m);
            lemma_fundamental_div_mod(m, n);
            assert(k == (m / n + (mid - from)) * n + m % n) by (nonlinear_arith)
                requires
                    k == m + (mid - from) * n,
                    m == n * (m / n) + m % n,
            ;
            lemma_fundamental_div_mod_converse(k, n, m / n + (mid - from), m % n);
        }
    }
    assert(whole =~= head + tail);
}

/// Swapping the two corners changes nothing: the rectangle is the same, and
/// so is the verdict on it.  Hence a solution lists each rectangle once for
/// each order of its corners.
pub proof fn lemma_admissible_symmetric(p1: Point, p2: Point, points: Seq<Point>, inner_only: bool)
    ensures
        admissible(p1, p2, points, inner_only) == admissible(p2, p1, points, inner_only),
        cell_count(p1, p2) == cell_count(p2, p1),
{
    assert forall|q: Point| strictly_inside(p1, p2, q) == strictly_inside(p2, p1, q) by {
        lemma_strictly_between_symmetric(p1.x as int, q.x as int, p2.x as int);
        lemma_strictly_between_symmetric(p1.y as int, q.y as int, p2.y as int);
    }
    assert forall|e: (Point, Point)| cuts(p1, p2, e) == cuts(p2, p1, e) by {
        lemma_strictly_between_symmetric(p1.x as int, e.0.x as int, p2.x as int);
        lemma_strictly_between_symmetric(p1.y as int, e.0.y as int, p2.y as int);
        lemma_weakly_monotone_reversed(e.0.y as int, p1.y as int, p2.y as int, e.1.y as int);
        lemma_weakly_monotone_reversed(e.1.y as int, p1.y as int, p2.y as int, e.0.y as int);
        lemma_weakly_monotone_reversed(e.0.x as int, p1.x as int, p2.x as int, e.1.x as int);
        lemma_weakly_monotone_reversed(e.1.x as int, p1.x as int, p2.x as int, e.0.x as int);
    }
    assert(any_vertex_inside(p1, p2, points) == any_vertex_inside(p2, p1, points));
    assert(no_boundary_crossing(p1, p2, points) == no_boundary_crossing(p2, p1, points));
}

/// A sequence none of whose items passes the test is filtered to nothing.
proof fn lemma_filter_nothing<A>(s: Seq<A>, pred: spec_fn(A) -> bool)
    requires
        forall|i: int| 0 <= i < s.len() ==> !pred(#[trigger] s[i]),
    ensures
        s.filter(pred) == Seq::<A>::empty(),
    decreases s.len(),
{
    reveal(Seq::filter);
    if s.len() > 0 {
        lemma_filter_nothing(s.drop_last(), pred);
    }
}

/// An outcome with corners is witnessed by a candidate: some admissible
/// candidate covers exactly that area.
pub proof fn lemma_witness(
    cands: Seq<(Point, Point)>,
    points: Seq<Point>,
    inner_only: bool,
    o: Outcome,
)
    requires
        is_best_of(cands, points, inner_only, Some(o)),
    ensures
        exists|k: int|
            0 <= k < cands.len() && admissible(
                (#[trigger] cands[k]).0,
                cands[k].1,
                points,
                inner_only,
            ) && cell_count(cands[k].0, cands[k].1) == o.area,
{
    let pred = ties_at(points, inner_only, o.area);
    cands.lemma_filter_pred(pred, 0);
    assert(o.corners.contains(o.corners[0]));
    cands.lemma_filter_contains_rev(pred, o.corners[0]);
    let k = choose|k: int| 0 <= k < cands.len() && cands[k] == o.corners[0];
    assert(pred(cands[k]));
}

/// A search has one answer: two outcomes that both meet its contract are the
/// same, in whether there is a solution, in the area and in the list of
/// corners.  Running the search again can give nothing else.
pub proof fn lemma_search_deterministic(
    cands: Seq<(Point, Point)>,
    points: Seq<Point>,
    inner_only: bool,
    r1: Option<Outcome>,
    r2: Option<Outcome>,
)
    requires
        is_best_of(cands, points, inner_only, r1),
        is_best_of(cands, points, inner_only, r2),
    ensures
        r1 == r2,
{
    if r1 is Some {
        lemma_witness(cands, points, inner_only, r1->0);
    }
    if r2 is Some {
        lemma_witness(cands, points, inner_only, r2->0);
    }
}

/// The corners of a solution over the whole polygon are exactly the
/// admissible pairs of vertices that cover `area` cells: none is missing and
/// no other pair is listed.
pub proof fn lemma_corners_exact(
    points: Seq<Point>,
    inner_only: bool,
    o: Outcome,
    c: (Point, Point),
)
    requires
        solves(points, inner_only, Some(o)),
    ensures
        o.corners.contains(c) <==> (admissible(c.0, c.1, points, inner_only) && cell_count(
            c.0,
            c.1,
        ) == o.area && exists|i: int, j: int|
            0 <= i < points.len() && 0 <= j < points.len() && c == (
                #[trigger] points[i],
                #[trigger] points[j],
            )),
{
    let n = points.len() as int;
    let cand = candidates(points);
    let pred = ties_at(points, inner_only, o.area);
    if o.corners.contains(c) {
        let m = choose|m: int| 0 <= m < o.corners.len() && o.corners[m] == c;
        cand.lemma_filter_pred(pred, m);
        cand.lemma_filter_contains_rev(pred, c);
        let k = choose|k: int| 0 <= k < cand.len() && cand[k] == c;
        lemma_candidate_at(points, 0, n, k);
        assert(c == (points[k / n], points[k % n]));
    }
    if admissible(c.0, c.1, points, inner_only) && cell_count(c.0, c.1) == o.area && exists|
        i: int,
        j: int,
    |
        0 <= i < points.len() && 0 <= j < points.len() && c == (
            #[trigger] points[i],
            #[trigger] points[j],
        ) {
        let (i, j) = choose|i: int, j: int|
            0 <= i < points.len() && 0 <= j < points.len() && c == (
                #[trigger] points[i],
                #[trigger] points[j],
            );
        lemma_candidate_of(points, 0, n, i, j);
        let k = i * n + j;
        assert(pred(cand[k]));
        cand.lemma_filter_contains(pred, k);
    }
}

/// Merging what two searches found among two lists of candidates gives what
/// one search finds among the first list followed by the second.
pub proof fn lemma_merged_is_best(
    c1: Seq<(Point, Point)>,
    c2: Seq<(Point, Point)>,
    points: Seq<Point>,
    inner_only: bool,
    r1: Option<Outcome>,
    r2: Option<Outcome>,
)
    requires
        is_best_of(c1, points, inner_only, r1),
        is_best_of(c2, points, inner_only, r2),
    ensures
        is_best_of(c1 + c2, points, inner_only, merged(r1, r2)),
{
    let both = c1 + c2;
    assert forall|k: int| 0 <= k < both.len() implies both[k] == if k < c1.len() {
        c1[k]
    } else {
        c2[k - c1.len()]
    } by {}
    match merged(r1, r2) {
        None => {},
        Some(o) => {
            let pred = ties_at(points, inner_only, o.area);
            Seq::filter_distributes_over_add(c1, c2, pred);
            if r1 is None || r1->0.area < o.area {
                lemma_filter_nothing(c1, pred);
                assert(Seq::<(Point, Point)>::empty() + c2.filter(pred) =~= c2.filter(pred));
            }
            if r2 is None || r2->0.area < o.area {
                lemma_filter_nothing(c2, pred);
                assert(c1.filter(pred) + Seq::<(Point, Point)>::empty() =~= c1.filter(pred));
            }
        },
    }
}

/// Merging is associative.
pub proof fn lemma_merged_associative(a: Option<Outcome>, b: Option<Outcome>, c: Option<Outcome>)
    ensures
        merged(merged(a, b), c) == merged(a, merged(b, c)),
{
    if a is Some && b is Some && c is Some {
        let x = a->0.corners;
        let y = b->0.corners;
        let z = c->0.corners;
        assert((x + y) + z =~= x + (y + z));
    }
}

/// Merging is commutative but for the order of the corners: either way there
/// is the same area, and each pair of corners is listed as often.
pub proof fn lemma_merged_commutative(a: Option<Outcome>, b: Option<Outcome>)
    ensures
        merged(a, b) is None <==> merged(b, a) is None,
        merged(a, b) is Some ==> merged(a, b)->0.area == merged(b, a)->0.area && merged(
            a,
            b,
        )->0.corners.to_multiset() == merged(b, a)->0.corners.to_multiset(),
{
    if a is Some && b is Some {
        let x = a->0.corners;
        let y = b->0.corners;
        lemma_multiset_commutative(x, y);
        lemma_multiset_commutative(y, x);
        assert(x.to_multiset().add(y.to_multiset()) =~= y.to_multiset().add(x.to_multiset()));
    }
}

/// `None` merges to the other outcome.
pub proof fn lemma_merged_identity(a: Option<Outcome>)
    ensures
        merged(None, a) == a,
        merged(a, None) == a,
{
}

/// Whether the rectangle with opposite corners `p1` and `p2` passes every
/// test of the search.
pub fn is_admissible(p1: &Point, p2: &Point, points: &Vec<Point>, inner_only: bool) -> (r: bool)
    ensures
        r == admissible(*p1, *p2, points@, inner_only),
{
    !point_inside(p1, p2, points) && green_tiles(p1, p2, points) && (!inner_only || is_inner_rect(
        p1,
        p2,
        points,
    ))
}

/// The largest number of cells that two vertices of the polygon span, with no
/// test applied to the rectangle.
pub fn max_area(polygon: &Polygon) -> (r: i64)
    ensures
        is_max_area(polygon@, r as int),
{
    let points = polygon.vertices();
    let n: usize = points.len();
    let ghost cand = candidates(points@);
    let ghost mut k: int = 0;
    let mut best: i64 = 0;
    let mut it = index_pairs(0, n, n);
    loop
        invariant
            n == points.len(),
            valid_polygon(points@),
            cand == candidates(points@),
            0 <= k <= cand.len(),
            pending(it) == index_grid(0, n as int, n as int).skip(k),
            index_grid(0, n as int, n as int).len() == cand.len(),
            k == 0 ==> best == 0,
            forall|m: int| 0 <= m < k ==> cell_count((#[trigger] cand[m]).0, cand[m].1) <= best,
            k > 0 ==> exists|m: int|
                0 <= m < k && cell_count((#[trigger] cand[m]).0, cand[m].1) == best,
        ensures
            k == cand.len(),
        decreases cand.len() - k,
    {
        match next_pair(&mut it) {
            None => {
                break ;
            },
            Some((i, j)) => {
                proof {
                    lemma_candidate_at(points@, 0, n as int, k);
                }
                let p1: Point = points[i];
                let p2: Point = points[j];
                assert(cand[k] == (p1, p2));
                let area: i64 = p1.area(&p2);
                let ghost witness: int = if area > best {
                    k
                } else {
                    choose|m: int|
                        0 <= m < k && cell_count((#[trigger] cand[m]).0, cand[m].1) == best
                };
                if area > best {
                    best = area;
                }
                assert(0 <= witness <= k && cell_count(cand[witness].0, cand[witness].1) == best);
                proof {
                    let grid = index_grid(0, n as int, n as int);
                    assert(grid.skip(k).skip(1) == grid.skip(k + 1));
                    k = k + 1;
                }
            },
        }
    }
    proof {
        lemma_candidate_of(points@, 0, n as int, 0, 0);
        let m = choose|m: int| 0 <= m < k && cell_count((#[trigger] cand[m]).0, cand[m].1) == best;
        lemma_candidate_at(points@, 0, n as int, m);
        assert forall|i: int, j: int| 0 <= i < points@.len() && 0 <= j < points@.len() implies
            #[trigger] cell_count(points@[i], points@[j]) <= best by {
            lemma_candidate_of(points@, 0, n as int, i, j);
            assert(cell_count(cand[i * n + j].0, cand[i * n + j].1) <= best);
        }
    }
    best
}

/// The largest admissible rectangles whose first corner is one of the
/// vertices `from..to`, or `None` when none of those pairs is admissible.
/// With `inner_only` a rectangle also has to lie inside the polygon.
pub fn best_rectangles_from(polygon: &Polygon, inner_only: bool, from: usize, to: usize) -> (r:
    Option<Solution>)
    requires
        from <= to <= polygon@.len(),
    ensures
        is_best_of(
            candidates_in(polygon@, from as int, to as int),
            polygon@,
            inner_only,
            outcome(r),
        ),
{
    let points = polygon.vertices();
    let n: usize = points.len();
    let ghost cand = candidates_in(points@, from as int, to as int);
    let ghost grid = index_grid(from as int, to as int, n as int);
    let ghost mut k: int = 0;
    let mut best: i64 = 0;
    let mut corners: Vec<(Point, Point)> = Vec::new();
    let mut it = index_pairs(from, to, n);
    proof {
        lemma_filter_nothing(cand.take(0), ties_at(points@, inner_only, 0));
        if cand.len() > 0 {
            lemma_candidate_at(points@, from as int, to as int, 0);
        } else {
            assert(grid.len() == 0);
        }
    }
    loop
        invariant
            n == points.len(),
            from <= to <= n,
            valid_polygon(points@),
            cand == candidates_in(points@, from as int, to as int),
            grid == index_grid(from as int, to as int, n as int),
            grid.len() == cand.len(),
            0 <= k <= cand.len(),
            pending(it) == grid.skip(k),
            best >= 0,
            best > 0 ==> corners.len() > 0,
            forall|m: int|
                0 <= m < k && admissible((#[trigger] cand[m]).0, cand[m].1, points@, inner_only)
                    ==> cell_count(cand[m].0, cand[m].1) <= best,
            corners@ == cand.take(k).filter(ties_at(points@, inner_only, best as int)),
        ensures
            k == cand.len(),
        decreases cand.len() - k,
    {
        match next_pair(&mut it) {
            None => {
                break ;
            },
            Some((i, j)) => {
                proof {
                    lemma_candidate_at(points@, from as int, to as int, k);
                }
                let p1: Point = points[i];
                let p2: Point = points[j];
                let ghost c = (p1, p2);
                assert(cand[k] == c);
                proof {
                    assert(cand.take(k + 1) == cand.take(k).push(c));
                    lemma_cell_count_lower_bound(p1, p2);
                }
                if is_admissible(&p1, &p2, points, inner_only) {
                    let area: i64 = p1.area(&p2);
                    if area > best {
                        proof {
                            let pred = ties_at(points@, inner_only, area as int);
                            assert forall|m: int| 0 <= m < cand.take(k).len() implies !pred(
                                #[trigger] cand.take(k)[m],
                            ) by {
                                assert(cand.take(k)[m] == cand[m]);
                            }
                            lemma_filter_nothing(cand.take(k), pred);
                            cand.take(k).lemma_filter_push(c, pred);
                        }
                        best = area;
                        corners = Vec::new();
                        corners.push((p1, p2));
                    } else {
                        proof {
                            cand.take(k).lemma_filter_push(
                                c,
                                ties_at(points@, inner_only, best as int),
                            );
                        }
                        if area == best {
                            corners.push((p1, p2));
                        }
                    }
                } else {
                    proof {
                        cand.take(k).lemma_filter_push(
                            c,
                            ties_at(points@, inner_only, best as int),
                        );
                    }
                }
                proof {
                    assert(grid.skip(k).skip(1) == grid.skip(k + 1));
                    k = k + 1;
                }
            },
        }
    }
    proof {
        assert(cand.take(k) == cand);
    }
    if corners.len() == 0 {
        proof {
            assert forall|m: int| 0 <= m < cand.len() implies !admissible(
                (#[trigger] cand[m]).0,
                cand[m].1,
                points@,
                inner_only,
            ) by {
                lemma_cell_count_lower_bound(cand[m].0, cand[m].1);
            }
        }
        None
    } else {
        Some(Solution { area: best, corners })
    }
}

/// The largest admissible rectangles of the polygon, or `None` when no two
/// vertices span an admissible one.  With `inner_only` a rectangle also has to
/// lie inside the polygon.
pub fn best_rectangles(polygon: &Polygon, inner_only: bool) -> (r: Option<Solution>)
    ensures
        solves(polygon@, inner_only, outcome(r)),
{
    let n: usize = polygon.vertices().len();
    best_rectangles_from(polygon, inner_only, 0, n)
}

/// The better of two solutions; both lists of corners, the first's before the
/// second's, when the areas are equal.  Searches over parts of the candidates
/// are put together with it.
pub fn merge(a: Option<Solution>, b: Option<Solution>) -> (r: Option<Solution>)
    ensures
        outcome(r) == merged(outcome(a), outcome(b)),
{
    match (a, b) {
        (None, b) => b,
        (a, None) => a,
        (Some(x), Some(y)) => {
            if x.area > y.area {
                Some(x)
            } else if x.area < y.area {
                Some(y)
            } else {
                let mut corners = x.corners;
                let mut more = y.corners;
                corners.append(&mut more);
                Some(Solution { area: x.area, corners })
            }
        },
    }
}

} // verus!
