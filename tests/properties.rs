use rand::rngs::StdRng;
use rand::{Rng, SeedableRng};
use snowflake::cover_tree::CoverTree;
use snowflake::point::Point;
use snowflake::quad_tree::{QuadTree, QuadTreeNode, MAX_POINTS_NODE_SIZE};

fn p(x: i32, y: i32) -> Point {
    Point { x, y }
}

fn random_points(rng: &mut StdRng, n: usize, extent: i32) -> Vec<Point> {
    (0..n)
        .map(|_| p(rng.gen_range(-extent..extent), rng.gen_range(-extent..extent)))
        .collect()
}

#[test]
fn nearest_matches_linear_scan() {
    let mut rng = StdRng::seed_from_u64(17);
    let points = random_points(&mut rng, 5000, 1000);
    let mut tree = QuadTree::from_flake(&Vec::new(), 1000);
    let mut oracle = CoverTree::from_flake(&Vec::new());
    for point in &points {
        tree.add_point(point);
        oracle.add_point(*point);
    }
    for q in random_points(&mut rng, 2000, 1200) {
        let (found, d2) = tree.get_nearest(&q).unwrap();
        let (_, expected) = oracle.get_nearest(q);
        assert_eq!(expected, d2);
        assert_eq!(d2, found.distance_2(&q));
    }
}

#[test]
fn nearest_matches_linear_scan_for_bulk_load() {
    let mut rng = StdRng::seed_from_u64(5);
    let points = random_points(&mut rng, 3000, 300);
    let tree = QuadTree::from_flake(&points, 10);
    let oracle = CoverTree::from_flake(&points);
    for q in random_points(&mut rng, 1000, 400) {
        assert_eq!(oracle.get_nearest(q).1, tree.get_nearest(&q).unwrap().1);
    }
    assert_eq!(oracle.get_farthest_distance(), tree.get_farthest_distance());
}

#[test]
fn farthest_distance_is_max_over_inserted_points() {
    let mut rng = StdRng::seed_from_u64(3);
    let points = random_points(&mut rng, 500, 2000);
    let mut tree = QuadTree::from_flake(&Vec::new(), 2000);
    let mut expected = 0;
    for point in &points {
        tree.add_point(point);
        expected = expected.max(point.distance(&Point::zero()));
        assert_eq!(expected, tree.get_farthest_distance());
    }
    let mut reversed = QuadTree::from_flake(&Vec::new(), 2000);
    for point in points.iter().rev() {
        reversed.add_point(point);
    }
    assert_eq!(expected, reversed.get_farthest_distance());
}

#[test]
fn split_preserves_answers() {
    let mut rng = StdRng::seed_from_u64(11);
    let points = random_points(&mut rng, MAX_POINTS_NODE_SIZE + 1, 64);
    let mut node = QuadTreeNode::empty_points_node(0, 0, 64);
    let mut reference = CoverTree::from_flake(&Vec::new());
    for point in &points[..MAX_POINTS_NODE_SIZE] {
        node.add_point(point);
        reference.add_point(*point);
    }
    assert!(node.quadrant(0).is_none());
    let last = points[MAX_POINTS_NODE_SIZE];
    node.add_point(&last);
    reference.add_point(last);
    assert!(node.quadrant(0).is_some());
    assert_eq!(MAX_POINTS_NODE_SIZE + 1, node.points().len());
    for x in -70..70 {
        for y in -70..70 {
            let q = p(x, y);
            assert_eq!(reference.get_nearest(q).1, node.get_nearest(&q).unwrap().1);
        }
    }
}

#[test]
fn boundary_points_route_east_and_north() {
    for _ in 0..2 {
        let mut node = QuadTreeNode::empty_split_node(0, 0, 10);
        node.add_point(&p(0, 3));
        node.add_point(&p(0, -3));
        node.add_point(&p(-3, 0));
        node.add_point(&p(0, 0));
        assert_eq!(vec![p(-3, 0)], node.quadrant(0).unwrap().points());
        assert_eq!(vec![p(0, 3), p(0, 0)], node.quadrant(1).unwrap().points());
        assert!(node.quadrant(2).unwrap().points().is_empty());
        assert_eq!(vec![p(0, -3)], node.quadrant(3).unwrap().points());
    }
}

#[test]
fn scenario_small_index() {
    let mut tree = QuadTree::from_flake(&Vec::new(), 500);
    assert_eq!(None, tree.get_nearest(&Point::zero()));
    tree.add_point(&p(0, 0));
    assert_eq!(Some((p(0, 0), 0)), tree.get_nearest(&p(0, 0)));
    tree.add_point(&p(0, 1));
    assert_eq!(Some((p(0, 1), 25)), tree.get_nearest(&p(5, 1)));
    assert_eq!(Some((p(0, 0), 36)), tree.get_nearest(&p(6, 0)));
    tree.add_point(&p(10, 0));
    assert_eq!(Some((p(10, 0), 16)), tree.get_nearest(&p(6, 0)));
    assert_eq!(10, tree.get_farthest_distance());
}

#[test]
fn root_covers_loaded_points_and_minimum_radius() {
    let tree = QuadTree::from_flake(&vec![p(-3000, 10)], 500);
    assert!(tree.point_is_in_bounds(&p(-3000, 10)));
    assert!(tree.point_is_in_bounds(&p(5999, -6000)));
    assert!(!tree.point_is_in_bounds(&p(8192, 0)));
    assert!(tree.point_is_in_bounds(&p(-8192, 0)));
    let small = QuadTree::from_flake(&Vec::new(), 0);
    assert!(small.point_is_in_bounds(&p(1, -2)));
    assert!(!small.point_is_in_bounds(&p(2, 0)));
}

#[test]
fn duplicate_points_beyond_capacity() {
    let mut tree = QuadTree::from_flake(&Vec::new(), 8);
    for _ in 0..3 * MAX_POINTS_NODE_SIZE {
        tree.add_point(&p(3, -5));
    }
    tree.add_point(&p(-7, 7));
    assert_eq!(Some((p(3, -5), 0)), tree.get_nearest(&p(3, -5)));
    assert_eq!(Some((p(-7, 7), 2)), tree.get_nearest(&p(-8, 8)));
    assert_eq!(9, tree.get_farthest_distance());
}

#[test]
fn extreme_points_fit_the_root() {
    let corners = vec![p(i32::MIN, i32::MIN), p(i32::MAX, i32::MAX), p(i32::MIN, i32::MAX)];
    let mut tree = QuadTree::from_flake(&corners, 0);
    assert!(tree.point_is_in_bounds(&p(i32::MAX, i32::MIN)));
    tree.add_point(&p(i32::MAX, i32::MIN));
    let (found, d2) = tree.get_nearest(&p(i32::MAX - 1, i32::MIN + 1)).unwrap();
    assert_eq!(p(i32::MAX, i32::MIN), found);
    assert_eq!(2, d2);
    // sqrt(2) * 2^31, rounded down
    assert_eq!(3037000499, tree.get_farthest_distance());
}
