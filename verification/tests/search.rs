use lattice_rect::point::Point;
use lattice_rect::polygon::{Polygon, PolygonError};
use lattice_rect::search::{
    best_rectangles, best_rectangles_from, is_admissible, max_area, merge, Solution,
};

fn pt(x: i64, y: i64) -> Point {
    Point { x, y }
}

fn polygon(points: &[(i64, i64)]) -> Polygon {
    let vertices: Vec<Point> = points.iter().map(|&(x, y)| pt(x, y)).collect();
    match Polygon::new(vertices) {
        Ok(p) => p,
        Err(e) => panic!("not a polygon: {:?}", e),
    }
}

fn square() -> Polygon {
    polygon(&[(0, 0), (10, 0), (10, 10), (0, 10)])
}

fn ell() -> Polygon {
    polygon(&[(0, 0), (4, 0), (4, 2), (2, 2), (2, 4), (0, 4)])
}

fn sliver() -> Polygon {
    polygon(&[(0, 0), (5, 0), (5, 1), (0, 1)])
}

#[test]
fn polygon_keeps_its_vertices_in_order() {
    let p = ell();
    assert_eq!(
        p.vertices(),
        &vec![pt(0, 0), pt(4, 0), pt(4, 2), pt(2, 2), pt(2, 4), pt(0, 4)]
    );
}

#[test]
fn polygon_needs_four_vertices() {
    assert_eq!(Polygon::new(Vec::new()).err(), Some(PolygonError::TooFewVertices));
    assert_eq!(
        Polygon::new(vec![pt(0, 0), pt(1, 0), pt(1, 1)]).err(),
        Some(PolygonError::TooFewVertices)
    );
    assert!(Polygon::new(vec![pt(0, 0), pt(1, 0), pt(1, 1), pt(0, 1)]).is_ok());
}

#[test]
fn polygon_rejects_the_first_slanted_edge() {
    let r = Polygon::new(vec![pt(0, 0), pt(10, 0), pt(10, 10), pt(1, 9), pt(0, 5)]);
    assert_eq!(r.err(), Some(PolygonError::SlantedEdge { index: 2 }));
}

#[test]
fn polygon_checks_the_closing_edge() {
    let r = Polygon::new(vec![pt(0, 0), pt(10, 0), pt(10, 10), pt(1, 10)]);
    assert_eq!(r.err(), Some(PolygonError::SlantedEdge { index: 3 }));
}

#[test]
fn polygon_reports_too_few_vertices_before_slanted_edges() {
    let r = Polygon::new(vec![pt(0, 0), pt(3, 4), pt(5, 5)]);
    assert_eq!(r.err(), Some(PolygonError::TooFewVertices));
}

#[test]
fn polygon_accepts_repeated_vertices() {
    assert!(Polygon::new(vec![pt(0, 0), pt(0, 0), pt(3, 0), pt(3, 0)]).is_ok());
}

#[test]
fn polygon_rejects_areas_beyond_i64() {
    let r = Polygon::new(vec![
        pt(i64::MIN, i64::MIN),
        pt(i64::MAX, i64::MIN),
        pt(i64::MAX, i64::MAX),
        pt(i64::MIN, i64::MAX),
    ]);
    assert_eq!(r.err(), Some(PolygonError::AreaOverflow));
    let r = Polygon::new(vec![pt(0, 0), pt(i64::MAX, 0), pt(i64::MAX, 1), pt(0, 1)]);
    assert_eq!(r.err(), Some(PolygonError::AreaOverflow));
}

#[test]
fn polygon_reports_slanted_edges_before_overflow() {
    let r = Polygon::new(vec![
        pt(i64::MIN, i64::MIN),
        pt(i64::MAX, i64::MIN),
        pt(i64::MAX, i64::MAX),
        pt(0, 0),
    ]);
    assert_eq!(r.err(), Some(PolygonError::SlantedEdge { index: 2 }));
}

#[test]
fn polygon_accepts_the_largest_area_that_fits() {
    let p = Polygon::new(vec![pt(0, 0), pt(0, i64::MAX - 1), pt(0, 5), pt(0, 3)]);
    assert!(p.is_ok());
    assert_eq!(max_area(&p.unwrap()), i64::MAX);
}

#[test]
fn max_area_of_the_square() {
    assert_eq!(max_area(&square()), 121);
}

#[test]
fn max_area_ignores_the_tests() {
    // The box of (4, 0) and (0, 4) swallows the vertex (2, 2).
    assert_eq!(max_area(&ell()), 25);
    assert_eq!(max_area(&sliver()), 12);
}

#[test]
fn square_yields_its_own_area() {
    let s = best_rectangles(&square(), false).unwrap();
    assert_eq!(s.area, 121);
    assert_eq!(s.area, (1 + 10) * (1 + 10));
}

#[test]
fn square_lists_both_diagonals_in_both_directions() {
    let s = best_rectangles(&square(), false).unwrap();
    assert_eq!(
        s.corners,
        vec![
            (pt(0, 0), pt(10, 10)),
            (pt(10, 0), pt(0, 10)),
            (pt(10, 10), pt(0, 0)),
            (pt(0, 10), pt(10, 0)),
        ]
    );
}

#[test]
fn square_lies_inside_itself() {
    let s = best_rectangles(&square(), true).unwrap();
    assert_eq!(s.area, 121);
    assert_eq!(s.corners.len(), 4);
}

#[test]
fn ties_are_all_reported() {
    let s = best_rectangles(&ell(), false).unwrap();
    assert_eq!(s.area, 15);
    assert_eq!(
        s.corners,
        vec![
            (pt(0, 0), pt(4, 2)),
            (pt(0, 0), pt(2, 4)),
            (pt(4, 2), pt(0, 0)),
            (pt(2, 4), pt(0, 0)),
        ]
    );
}

#[test]
fn ties_are_exactly_the_admissible_pairs_of_that_area() {
    let p = ell();
    let s = best_rectangles(&p, false).unwrap();
    let v = p.vertices();
    let mut expected: Vec<(Point, Point)> = Vec::new();
    for a in v.iter() {
        for b in v.iter() {
            if is_admissible(a, b, v, false) && a.area(b) == 15 {
                expected.push((*a, *b));
            }
            if is_admissible(a, b, v, false) {
                assert!(a.area(b) <= 15);
            }
        }
    }
    assert_eq!(s.corners, expected);
}

#[test]
fn ties_with_the_inside_test() {
    let s = best_rectangles(&ell(), true).unwrap();
    assert_eq!(s.area, 15);
    assert_eq!(s.corners.len(), 4);
}

#[test]
fn no_solution_when_every_probe_is_outside() {
    // One cell high: every probe lies on or above the upper edge.
    assert_eq!(best_rectangles(&sliver(), true), None);
}

#[test]
fn sliver_has_a_solution_without_the_inside_test() {
    let s = best_rectangles(&sliver(), false).unwrap();
    assert_eq!(s.area, 12);
    assert_eq!(
        s.corners,
        vec![
            (pt(0, 0), pt(5, 1)),
            (pt(5, 0), pt(0, 1)),
            (pt(5, 1), pt(0, 0)),
            (pt(0, 1), pt(5, 0)),
        ]
    );
}

#[test]
fn no_solution_for_a_flat_loop() {
    let flat = polygon(&[(0, 0), (10, 0), (10, 0), (0, 0)]);
    assert_eq!(best_rectangles(&flat, true), None);
    assert_eq!(best_rectangles(&flat, false).map(|s| s.area), Some(11));
}

#[test]
fn search_is_repeatable() {
    let p = ell();
    let first: Option<Solution> = best_rectangles(&p, false);
    let second: Option<Solution> = best_rectangles(&p, false);
    assert_eq!(first, second);
    assert_eq!(best_rectangles(&p, true), best_rectangles(&p, true));
    assert_eq!(max_area(&p), max_area(&p));
    assert_eq!(best_rectangles(&sliver(), true), best_rectangles(&sliver(), true));
}

#[test]
fn pair_of_a_vertex_with_itself_is_admissible() {
    let p = square();
    let v = p.vertices();
    assert!(is_admissible(&v[0], &v[0], v, false));
    assert!(is_admissible(&v[0], &v[0], v, true));
    assert!(is_admissible(&v[2], &v[2], v, false));
    assert!(!is_admissible(&v[2], &v[2], v, true));
}

#[test]
fn admissible_applies_each_test() {
    let p = ell();
    let v = p.vertices();
    // A vertex inside.
    assert!(!is_admissible(&pt(4, 0), &pt(0, 4), v, false));
    // An edge across.
    assert!(!is_admissible(&pt(4, 0), &pt(2, 4), v, false));
    // Neither, but the probe lies in the notch.
    assert!(is_admissible(&pt(4, 2), &pt(2, 4), v, false));
    assert!(!is_admissible(&pt(4, 2), &pt(2, 4), v, true));
    assert!(is_admissible(&pt(0, 0), &pt(4, 2), v, true));
}

#[test]
fn comb_prefers_a_tooth_with_the_base_below_it() {
    // Two teeth, each 4 cells wide and 8 cells high with the base, on a base
    // that is 10 cells wide and 3 cells high.
    let comb = polygon(&[
        (0, 0),
        (9, 0),
        (9, 7),
        (6, 7),
        (6, 2),
        (3, 2),
        (3, 7),
        (0, 7),
    ]);
    assert_eq!(max_area(&comb), 80);
    let s = best_rectangles(&comb, false).unwrap();
    assert_eq!(s.area, 32);
    assert_eq!(
        s.corners,
        vec![
            (pt(0, 0), pt(3, 7)),
            (pt(9, 0), pt(6, 7)),
            (pt(6, 7), pt(9, 0)),
            (pt(3, 7), pt(0, 0)),
        ]
    );
    assert_eq!(best_rectangles(&comb, true), Some(s));
}

fn solution(area: i64, corners: &[((i64, i64), (i64, i64))]) -> Option<Solution> {
    Some(Solution {
        area,
        corners: corners
            .iter()
            .map(|&((a, b), (c, d))| (pt(a, b), pt(c, d)))
            .collect(),
    })
}

#[test]
fn search_from_one_row() {
    // First corner (4, 0): the square up to the notch is the best it reaches.
    assert_eq!(
        best_rectangles_from(&ell(), false, 1, 2),
        solution(9, &[((4, 0), (2, 2))])
    );
    assert_eq!(
        best_rectangles_from(&ell(), false, 0, 1),
        solution(15, &[((0, 0), (4, 2)), ((0, 0), (2, 4))])
    );
}

#[test]
fn search_from_no_row_finds_nothing() {
    assert_eq!(best_rectangles_from(&ell(), false, 0, 0), None);
    assert_eq!(best_rectangles_from(&ell(), false, 3, 3), None);
    assert_eq!(best_rectangles_from(&ell(), true, 6, 6), None);
}

#[test]
fn search_from_all_rows_is_the_search() {
    assert_eq!(
        best_rectangles_from(&ell(), false, 0, 6),
        best_rectangles(&ell(), false)
    );
    assert_eq!(
        best_rectangles_from(&sliver(), true, 0, 4),
        best_rectangles(&sliver(), true)
    );
}

#[test]
fn merged_parts_give_the_whole() {
    for inner_only in [false, true] {
        let whole = best_rectangles(&ell(), inner_only);
        for mid in 0..=6 {
            let head = best_rectangles_from(&ell(), inner_only, 0, mid);
            let tail = best_rectangles_from(&ell(), inner_only, mid, 6);
            assert_eq!(merge(head, tail), whole);
        }
    }
}

#[test]
fn merged_rows_give_the_whole() {
    let p = ell();
    let mut all: Option<Solution> = None;
    for row in 0..6 {
        all = merge(all, best_rectangles_from(&p, false, row, row + 1));
    }
    assert_eq!(all, best_rectangles(&p, false));
}

#[test]
fn merge_keeps_the_larger_area() {
    let small = || solution(9, &[((4, 0), (2, 2))]);
    let large = || solution(15, &[((0, 0), (4, 2)), ((0, 0), (2, 4))]);
    assert_eq!(merge(small(), large()), large());
    assert_eq!(merge(large(), small()), large());
}

#[test]
fn merge_joins_the_corners_of_equal_areas() {
    let first = || solution(15, &[((0, 0), (4, 2)), ((0, 0), (2, 4))]);
    let second = || solution(15, &[((4, 2), (0, 0))]);
    assert_eq!(
        merge(first(), second()),
        solution(15, &[((0, 0), (4, 2)), ((0, 0), (2, 4)), ((4, 2), (0, 0))])
    );
    assert_eq!(
        merge(second(), first()),
        solution(15, &[((4, 2), (0, 0)), ((0, 0), (4, 2)), ((0, 0), (2, 4))])
    );
}

#[test]
fn merge_with_nothing_changes_nothing() {
    let some = || solution(9, &[((4, 0), (2, 2))]);
    assert_eq!(merge(None, None), None);
    assert_eq!(merge(some(), None), some());
    assert_eq!(merge(None, some()), some());
}

#[test]
fn merge_is_associative() {
    let a = || solution(15, &[((0, 0), (4, 2))]);
    let b = || solution(15, &[((0, 0), (2, 4))]);
    let c = || solution(15, &[((4, 2), (0, 0))]);
    let d = || solution(9, &[((4, 0), (2, 2))]);
    assert_eq!(merge(merge(a(), b()), c()), merge(a(), merge(b(), c())));
    assert_eq!(merge(merge(a(), d()), c()), merge(a(), merge(d(), c())));
    assert_eq!(merge(merge(d(), None), c()), merge(d(), merge(None, c())));
}
