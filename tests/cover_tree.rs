use snowflake::cover_tree::CoverTree;
use snowflake::point::Point;

fn p(x: i32, y: i32) -> Point {
    Point { x, y }
}

fn dist(d2: u128) -> f64 {
    (d2 as f64).sqrt()
}

#[test]
fn is_empty() {
    let mut tree = CoverTree::from_flake(&Vec::new());
    assert_eq!(true, tree.is_empty());

    tree.add_point(Point::zero());
    assert_eq!(false, tree.is_empty());
}

#[test]
fn get_nearest() {
    let mut tree = CoverTree::from_flake(&Vec::new());

    tree.add_point(Point::zero());
    assert_eq!(0.0, dist(tree.get_nearest(Point::zero()).1));
    assert_eq!(1.0, dist(tree.get_nearest(p(1, 0)).1));
    assert_eq!(4.0, dist(tree.get_nearest(p(0, 4)).1));

    tree.add_point(p(0, 1));
    assert_eq!(0.0, dist(tree.get_nearest(Point::zero()).1));
    assert_eq!(5.0, dist(tree.get_nearest(p(5, 1)).1));
    assert_eq!(6.0, dist(tree.get_nearest(p(6, 0)).1));

    tree.add_point(p(10, 0));
    assert_eq!(0.0, dist(tree.get_nearest(Point::zero()).1));
    assert_eq!(5.0, dist(tree.get_nearest(p(5, 1)).1));
    assert_eq!(4.0, dist(tree.get_nearest(p(6, 0)).1));
}

#[test]
fn get_farthest_distance() {
    let mut tree = CoverTree::from_flake(&Vec::new());

    tree.add_point(Point::zero());
    assert_eq!(0, tree.get_farthest_distance());

    tree.add_point(p(0, 1));
    assert_eq!(1, tree.get_farthest_distance());

    tree.add_point(p(10, 0));
    assert_eq!(10, tree.get_farthest_distance());
}

#[test]
fn cover_tree_from_points() {
    let tree = CoverTree::from_flake(&vec![p(3, 4), p(-6, 8), p(1, 1)]);
    assert_eq!(false, tree.is_empty());
    assert_eq!(10, tree.get_farthest_distance());
    let (nearest, d2) = tree.get_nearest(p(2, 2));
    assert_eq!(p(1, 1), nearest);
    assert_eq!(2, d2);
}
