use snowflake::point::{nearest_in_slice, Point};

#[test]
fn distance_2_is_exact() {
    let a = Point { x: 1, y: 2 };
    let b = Point { x: 4, y: 6 };
    assert_eq!(25, a.distance_2(&b));
    assert_eq!(25, b.distance_2(&a));
    assert_eq!(0, a.distance_2(&a));
}

#[test]
fn distance_rounds_down() {
    let o = Point::zero();
    assert_eq!(5, Point { x: 3, y: 4 }.distance(&o));
    assert_eq!(1, Point { x: 1, y: 1 }.distance(&o));
    assert_eq!(7, Point { x: 5, y: 5 }.distance(&o));
    assert_eq!(0, o.distance(&o));
}

#[test]
fn extreme_coordinates() {
    let a = Point { x: i32::MIN, y: i32::MIN };
    let b = Point { x: i32::MAX, y: i32::MAX };
    let side: u128 = (1u128 << 32) - 1;
    assert_eq!(2 * side * side, a.distance_2(&b));
    // sqrt(2) * (2^32 - 1), rounded down
    assert_eq!(6074000998, a.distance(&b));
}

#[test]
fn scan_prefers_the_earliest_of_tied_points() {
    let points = vec![Point { x: 1, y: 0 }, Point { x: -1, y: 0 }, Point { x: 5, y: 5 }];
    assert_eq!(Some((Point { x: 1, y: 0 }, 1)), nearest_in_slice(&points, &Point::zero()));
    assert_eq!(None, nearest_in_slice(&Vec::new(), &Point::zero()));
}
