use lattice_rect::outline::{max_corner, rect_corners};
use lattice_rect::point::Point;

fn pt(x: i64, y: i64) -> Point {
    Point { x, y }
}

#[test]
fn max_corner_takes_each_coordinate_on_its_own() {
    let ell = vec![pt(0, 0), pt(4, 0), pt(4, 2), pt(2, 2), pt(2, 4), pt(0, 4)];
    assert_eq!(max_corner(&ell), Some(pt(4, 4)));
    assert_eq!(max_corner(&vec![pt(-3, 9), pt(7, -2)]), Some(pt(7, 9)));
}

#[test]
fn max_corner_of_one_point_is_that_point() {
    assert_eq!(max_corner(&vec![pt(-5, -6)]), Some(pt(-5, -6)));
    assert_eq!(max_corner(&vec![pt(i64::MIN, i64::MAX)]), Some(pt(i64::MIN, i64::MAX)));
}

#[test]
fn max_corner_of_nothing() {
    assert_eq!(max_corner(&Vec::new()), None);
}

#[test]
fn rect_corners_start_at_the_far_corner() {
    assert_eq!(
        rect_corners(&pt(5606, 67703), &pt(94870, 50025)),
        vec![
            pt(94870, 67703),
            pt(94870, 50025),
            pt(5606, 50025),
            pt(5606, 67703),
        ]
    );
}

#[test]
fn rect_corners_do_not_depend_on_the_order_of_the_two() {
    let a = pt(9, 5);
    let b = pt(2, 3);
    assert_eq!(rect_corners(&a, &b), rect_corners(&b, &a));
    assert_eq!(rect_corners(&a, &b), vec![pt(9, 5), pt(9, 3), pt(2, 3), pt(2, 5)]);
    assert_eq!(
        rect_corners(&pt(2, 5), &pt(9, 3)),
        vec![pt(9, 5), pt(9, 3), pt(2, 3), pt(2, 5)]
    );
}

#[test]
fn rect_corners_of_a_single_point() {
    assert_eq!(rect_corners(&pt(1, 1), &pt(1, 1)), vec![pt(1, 1); 4]);
}
