use vstd::multiset::Multiset;
use vstd::prelude::*;
use vstd::seq_lib::lemma_multiset_commutative;

use crate::point::{
    is_farthest, is_nearest, lemma_farthest_insert, lemma_nearest_distance_unique, nearest_in_slice,
    sq_dist, Point,
};

verus! {

broadcast use {
    vstd::multiset::group_multiset_axioms,
    vstd::multiset::lemma_multiset_empty_len,
    vstd::seq_lib::group_to_multiset_ensures,
};

/// How many points a bucket holds before it is split into quadrants.
pub const MAX_POINTS_NODE_SIZE: usize = 50;

/// Bound on `|center| + radius` along each axis, which keeps region arithmetic in `i64`.
pub const MAX_EXTENT: i64 = 0x100_0000_0000;

/// A leaf: the points that fall in its square region.
pub struct QuadTreePointsNode {
    center_x: i64,
    center_y: i64,
    radius: i64,
    points: Vec<Point>,
}

/// An inner node: four children, each covering one quadrant of its region.
pub struct QuadTreeSplitNode {
    center_x: i64,
    center_y: i64,
    radius: i64,
    north_west: Box<QuadTreeNode>,
    north_east: Box<QuadTreeNode>,
    south_west: Box<QuadTreeNode>,
    south_east: Box<QuadTreeNode>,
}

/// A node of the quad tree, covering the half-open square
/// `[cx - r, cx + r) x [cy - r, cy + r)`.
pub enum QuadTreeNode {
    Points(QuadTreePointsNode),
    Split(QuadTreeSplitNode),
}

/// `p` lies in the half-open square of center `(cx, cy)` and half-side `r`.
pub open spec fn in_region(cx: int, cy: int, r: int, p: Point) -> bool {
    cx - r <= p.x < cx + r && cy - r <= p.y < cy + r
}

/// A region of this half-side can be cut into four lattice-aligned quadrants.
pub open spec fn splittable(r: int) -> bool {
    r >= 2 && r % 2 == 0
}

/// The quadrant of center `(cx, cy)` that `p` belongs to: 0 is north-west, 1 north-east,
/// 2 south-west and 3 south-east. Ties on `x` go east, ties on `y` go north.
pub open spec fn routed_quadrant(cx: int, cy: int, p: Point) -> int {
    if p.x < cx && p.y >= cy {
        0
    } else if p.x >= cx && p.y >= cy {
        1
    } else if p.x < cx && p.y < cy {
        2
    } else {
        3
    }
}

/// Center offset of quadrant `k` along x, in units of the child half-side.
pub open spec fn quadrant_dx(k: int) -> int {
    if k == 0 || k == 2 { -1 } else { 1 }
}

/// Center offset of quadrant `k` along y, in units of the child half-side.
pub open spec fn quadrant_dy(k: int) -> int {
    if k == 0 || k == 1 { 1 } else { -1 }
}

/// The absolute value of `v`.
pub open spec fn abs(v: int) -> int {
    if v < 0 { -v } else { v }
}

/// Squared distance from `q` to the nearest point of the square of center `(cx, cy)`
/// and half-side `r` (zero when `q` is inside or on its border).
pub open spec fn region_sq_dist(cx: int, cy: int, r: int, q: Point) -> int {
    let dx = abs(cx - q.x);
    let dy = abs(cy - q.y);
    let ex = if dx <= r { 0 } else { dx - r };
    let ey = if dy <= r { 0 } else { dy - r };
    ex * ex + ey * ey
}

/// Whether `n` is a power of two.
pub open spec fn is_pow2(n: int) -> bool
    decreases n,
{
    if n <= 1 {
        n == 1
    } else {
        n % 2 == 0 && is_pow2(n / 2)
    }
}

/// The region of center `(cx, cy)` and half-side `r` stays within the coordinate bound.
pub open spec fn extent_ok(cx: int, cy: int, r: int) -> bool {
    &&& 1 <= r
    &&& -MAX_EXTENT <= cx - r
    &&& cx + r <= MAX_EXTENT
    &&& -MAX_EXTENT <= cy - r
    &&& cy + r <= MAX_EXTENT
}

/// No point of a region is nearer to `q` than the region itself.
pub proof fn lemma_region_sq_dist_bound(cx: int, cy: int, r: int, p: Point, q: Point)
    requires
        0 <= r,
        in_region(cx, cy, r, p),
    ensures
        region_sq_dist(cx, cy, r, q) <= sq_dist(p, q),
{
    let dx = abs(cx - q.x);
    let dy = abs(cy - q.y);
    let ex = if dx <= r { 0 } else { dx - r };
    let ey = if dy <= r { 0 } else { dy - r };
    let ax = p.x - q.x;
    let ay = p.y - q.y;
    assert(ex * ex <= ax * ax) by (nonlinear_arith)
        requires 0 <= ex, ex <= ax || ex <= -ax;
    assert(ey * ey <= ay * ay) by (nonlinear_arith)
        requires 0 <= ey, ey <= ay || ey <= -ay;
}

/// The quadrant of center `(cx, cy)` that `p` belongs to.
fn quadrant_of(cx: i64, cy: i64, p: &Point) -> (r: usize)
    ensures
        r == routed_quadrant(cx as int, cy as int, *p),
{
    let x = p.x as i64;
    let y = p.y as i64;
    if x < cx && y >= cy {
        0
    } else if x >= cx && y >= cy {
        1
    } else if x < cx && y < cy {
        2
    } else {
        3
    }
}

impl QuadTreeNode {
    /// Center of the region, along x.
    pub closed spec fn cx(self) -> int {
        match self {
            QuadTreeNode::Points(n) => n.center_x as int,
            QuadTreeNode::Split(n) => n.center_x as int,
        }
    }

    /// Center of the region, along y.
    pub closed spec fn cy(self) -> int {
        match self {
            QuadTreeNode::Points(n) => n.center_y as int,
            QuadTreeNode::Split(n) => n.center_y as int,
        }
    }

    /// Half-side of the region.
    pub closed spec fn r(self) -> int {
        match self {
            QuadTreeNode::Points(n) => n.radius as int,
            QuadTreeNode::Split(n) => n.radius as int,
        }
    }

    /// Child `k` of a split node, numbered as in `routed_quadrant`.
    pub closed spec fn child(self, k: int) -> QuadTreeNode
        recommends
            self is Split,
    {
        match self {
            QuadTreeNode::Split(n) => if k == 0 {
                *n.north_west
            } else if k == 1 {
                *n.north_east
            } else if k == 2 {
                *n.south_west
            } else {
                *n.south_east
            },
            QuadTreeNode::Points(_) => self,
        }
    }

    /// The points stored under this node.
    pub closed spec fn contents(self) -> Multiset<Point>
        decreases self,
    {
        match self {
            QuadTreeNode::Points(n) => n.points@.to_multiset(),
            QuadTreeNode::Split(n) => n.north_west.contents().add(n.north_east.contents()).add(
                n.south_west.contents(),
            ).add(n.south_east.contents()),
        }
    }

    /// Whether `p` lies in this node's region.
    pub open spec fn covers(self, p: Point) -> bool {
        in_region(self.cx(), self.cy(), self.r(), p)
    }

    /// Well-formedness: every point lies in the region of the leaf that holds it, a leaf
    /// that could be split holds at most `MAX_POINTS_NODE_SIZE` points, and each child of
    /// a split node covers exactly its quadrant.
    pub closed spec fn wf(self) -> bool
        decreases self,
    {
        match self {
            QuadTreeNode::Points(n) => {
                &&& extent_ok(n.center_x as int, n.center_y as int, n.radius as int)
                &&& forall|i: int|
                    0 <= i < n.points@.len() ==> in_region(
                        n.center_x as int,
                        n.center_y as int,
                        n.radius as int,
                        #[trigger] n.points@[i],
                    )
                &&& (n.points@.len() <= MAX_POINTS_NODE_SIZE || !splittable(n.radius as int))
            },
            QuadTreeNode::Split(n) => {
                &&& extent_ok(n.center_x as int, n.center_y as int, n.radius as int)
                &&& splittable(n.radius as int)
                &&& n.north_west.wf()
                &&& n.north_east.wf()
                &&& n.south_west.wf()
                &&& n.south_east.wf()
                &&& forall|k: int|
                    0 <= k < 4 ==> {
                        &&& #[trigger] self.child(k).r() == n.radius / 2
                        &&& self.child(k).cx() == n.center_x + quadrant_dx(k) * (n.radius / 2)
                        &&& self.child(k).cy() == n.center_y + quadrant_dy(k) * (n.radius / 2)
                    }
            },
        }
    }

    /// Every stored point lies in the node's region.
    pub proof fn lemma_contents_covered(self)
        requires
            self.wf(),
        ensures
            forall|p: Point| #[trigger] self.contents().count(p) > 0 ==> self.covers(p),
        decreases self,
    {
        match self {
            QuadTreeNode::Points(n) => {
                n.points@.to_multiset_ensures();
                assert forall|p: Point| #[trigger] self.contents().count(p) > 0 implies self.covers(
                    p,
                ) by {
                    let i = choose|i: int| 0 <= i < n.points@.len() && n.points@[i] == p;
                    assert(n.points@[i] == p);
                }
            },
            QuadTreeNode::Split(n) => {
                assert(self.child(0) == *n.north_west);
                assert(self.child(1) == *n.north_east);
                assert(self.child(2) == *n.south_west);
                assert(self.child(3) == *n.south_east);
                n.north_west.lemma_contents_covered();
                n.north_east.lemma_contents_covered();
                n.south_west.lemma_contents_covered();
                n.south_east.lemma_contents_covered();
                assert forall|p: Point| #[trigger] self.contents().count(p) > 0 implies self.covers(
                    p,
                ) by {
                    let h = n.radius / 2;
                    assert(self.child(0).r() == h);
                    assert(self.child(1).r() == h);
                    assert(self.child(2).r() == h);
                    assert(self.child(3).r() == h);
                    assert(n.radius == 2 * h);
                    assert(self.contents().count(p) == n.north_west.contents().count(p)
                        + n.north_east.contents().count(p) + n.south_west.contents().count(p)
                        + n.south_east.contents().count(p));
                    if n.north_west.contents().count(p) > 0 {
                        assert(n.north_west.covers(p));
                    } else if n.north_east.contents().count(p) > 0 {
                        assert(n.north_east.covers(p));
                    } else if n.south_west.contents().count(p) > 0 {
                        assert(n.south_west.covers(p));
                    } else {
                        assert(n.south_east.covers(p));
                    }
                }
            },
        }
    }

    /// A new, empty leaf.
    pub fn empty_points_node(center_x: i64, center_y: i64, radius: i64) -> (r: QuadTreeNode)
        requires
            extent_ok(center_x as int, center_y as int, radius as int),
        ensures
            r.wf(),
            r is Points,
            r.cx() == center_x,
            r.cy() == center_y,
            r.r() == radius,
            r.contents().len() == 0,
    {
        let r = QuadTreeNode::Points(
            QuadTreePointsNode { center_x, center_y, radius, points: Vec::new() },
        );
        proof {
            broadcast use vstd::seq_lib::group_to_multiset_ensures;
        }
        r
    }

    /// A new split node whose four children are empty leaves.
    pub fn empty_split_node(center_x: i64, center_y: i64, radius: i64) -> (r: QuadTreeNode)
        requires
            extent_ok(center_x as int, center_y as int, radius as int),
            splittable(radius as int),
        ensures
            r.wf(),
            r is Split,
            r.cx() == center_x,
            r.cy() == center_y,
            r.r() == radius,
            r.contents().len() == 0,
    {
        let child_radius = radius / 2;
        let r = QuadTreeNode::Split(
            QuadTreeSplitNode {
                center_x,
                center_y,
                radius,
                north_west: Box::new(
                    QuadTreeNode::empty_points_node(
                        center_x - child_radius,
                        center_y + child_radius,
                        child_radius,
                    ),
                ),
                north_east: Box::new(
                    QuadTreeNode::empty_points_node(
                        center_x + child_radius,
                        center_y + child_radius,
                        child_radius,
                    ),
                ),
                south_west: Box::new(
                    QuadTreeNode::empty_points_node(
                        center_x - child_radius,
                        center_y - child_radius,
                        child_radius,
                    ),
                ),
                south_east: Box::new(
                    QuadTreeNode::empty_points_node(
                        center_x + child_radius,
                        center_y - child_radius,
                        child_radius,
                    ),
                ),
            },
        );
        assert(r.child(0).r() == radius / 2);
        assert(r.child(1).r() == radius / 2);
        assert(r.child(2).r() == radius / 2);
        assert(r.child(3).r() == radius / 2);
        r
    }

    /// Center of the region, along x.
    pub fn center_x(&self) -> (r: i64)
        ensures
            r == self.cx(),
    {
        match self {
            QuadTreeNode::Points(n) => n.center_x,
            QuadTreeNode::Split(n) => n.center_x,
        }
    }

    /// Center of the region, along y.
    pub fn center_y(&self) -> (r: i64)
        ensures
            r == self.cy(),
    {
        match self {
            QuadTreeNode::Points(n) => n.center_y,
            QuadTreeNode::Split(n) => n.center_y,
        }
    }

    /// Half-side of the region.
    pub fn radius(&self) -> (r: i64)
        ensures
            r == self.r(),
    {
        match self {
            QuadTreeNode::Points(n) => n.radius,
            QuadTreeNode::Split(n) => n.radius,
        }
    }

    /// Whether `point` lies within the bounds of this node.
    pub fn point_is_in_bounds(&self, point: &Point) -> (r: bool)
        requires
            self.wf(),
        ensures
            r == self.covers(*point),
    {
        let cx = self.center_x();
        let cy = self.center_y();
        let radius = self.radius();
        let x = point.x as i64;
        let y = point.y as i64;
        x >= cx - radius && x < cx + radius && y >= cy - radius && y < cy + radius
    }

    /// Squared distance from `point` to this node's region: zero when the point is inside
    /// it or on its border.
    pub fn distance(&self, point: &Point) -> (r: u128)
        requires
            self.wf(),
        ensures
            r == region_sq_dist(self.cx(), self.cy(), self.r(), *point),
    {
        let cx = self.center_x();
        let cy = self.center_y();
        let radius = self.radius();
        let x = point.x as i64;
        let y = point.y as i64;
        let dx: i64 = if cx >= x { cx - x } else { x - cx };
        let dy: i64 = if cy >= y { cy - y } else { y - cy };
        let ex: u128 = if dx <= radius { 0 } else { (dx - radius) as u128 };
        let ey: u128 = if dy <= radius { 0 } else { (dy - radius) as u128 };
        assert(ex * ex <= 0x1_0000_0000_0000_0000_0000_0000) by (nonlinear_arith)
            requires ex <= 0x1_0000_0000_0000;
        assert(ey * ey <= 0x1_0000_0000_0000_0000_0000_0000) by (nonlinear_arith)
            requires ey <= 0x1_0000_0000_0000;
        ex * ex + ey * ey
    }

    /// Inserts `new_point` into the leaf whose region holds it. A leaf that is full and
    /// can still be divided is replaced by a split node into which all its points, then
    /// the new one, are inserted again.
    pub fn add_point(&mut self, new_point: &Point)
        requires
            old(self).wf(),
            old(self).covers(*new_point),
        ensures
            final(self).wf(),
            final(self).contents() == old(self).contents().insert(*new_point),
            final(self).cx() == old(self).cx(),
            final(self).cy() == old(self).cy(),
            final(self).r() == old(self).r(),
            (*old(self)) is Split ==> (*final(self)) is Split,
            (*old(self)) is Split ==> forall|k: int|
                0 <= k < 4 ==> #[trigger] final(self).child(k).contents() == if k == routed_quadrant(
                    old(self).cx(),
                    old(self).cy(),
                    *new_point,
                ) {
                    old(self).child(k).contents().insert(*new_point)
                } else {
                    old(self).child(k).contents()
                },
        decreases old(self).r(), if (*old(self)) is Points { 1int } else { 0int },
    {
        let full = match &*self {
            QuadTreeNode::Points(n) => n.points.len() >= MAX_POINTS_NODE_SIZE && n.radius >= 2
                && n.radius % 2 == 0,
            QuadTreeNode::Split(_) => false,
        };
        if full {
            let mut split = QuadTreeNode::empty_split_node(
                self.center_x(),
                self.center_y(),
                self.radius(),
            );
            match &*self {
                QuadTreeNode::Points(n) => {
                    assert(n.points@.subrange(0, 0) =~= Seq::<Point>::empty());
                    let mut i: usize = 0;
                    while i < n.points.len()
                        invariant
                            0 <= i <= n.points@.len(),
                            split.wf(),
                            split is Split,
                            split.cx() == n.center_x,
                            split.cy() == n.center_y,
                            split.r() == n.radius,
                            split.r() == old(self).r(),
                            (*old(self)) is Points,
                            split.contents() == n.points@.subrange(0, i as int).to_multiset(),
                            forall|j: int|
                                0 <= j < n.points@.len() ==> in_region(
                                    n.center_x as int,
                                    n.center_y as int,
                                    n.radius as int,
                                    #[trigger] n.points@[j],
                                ),
                        decreases n.points.len() - i,
                    {
                        split.add_point(&n.points[i]);
                        proof {
                            let s = n.points@.subrange(0, i as int);
                            assert(n.points@.subrange(0, i + 1) == s.push(n.points@[i as int]));
                            s.to_multiset_ensures();
                        }
                        i += 1;
                    }
                    assert(n.points@.subrange(0, n.points@.len() as int) == n.points@);
                },
                QuadTreeNode::Split(_) => {},
            }
            split.add_point(new_point);
            *self = split;
        } else {
            match self {
                QuadTreeNode::Points(n) => {
                    proof {
                        n.points@.to_multiset_ensures();
                    }
                    n.points.push(*new_point);
                },
                QuadTreeNode::Split(n) => {
                    let ghost h = n.radius / 2;
                    assert(old(self).child(0).r() == h);
                    assert(old(self).child(1).r() == h);
                    assert(old(self).child(2).r() == h);
                    assert(old(self).child(3).r() == h);
                    let k = quadrant_of(n.center_x, n.center_y, new_point);
                    if k == 0 {
                        (&mut *n.north_west).add_point(new_point);
                    } else if k == 1 {
                        (&mut *n.north_east).add_point(new_point);
                    } else if k == 2 {
                        (&mut *n.south_west).add_point(new_point);
                    } else {
                        (&mut *n.south_east).add_point(new_point);
                    }
                    assert(self.child(0).r() == h);
                    assert(self.child(1).r() == h);
                    assert(self.child(2).r() == h);
                    assert(self.child(3).r() == h);
                    assert(self.contents() =~= old(self).contents().insert(*new_point));
                },
            }
        }
    }

    /// The stored point nearest to `point`, with its squared distance, or `None` when no
    /// point is stored. A split node searches first the child whose region holds `point`,
    /// then each other child whose region could still hold a strictly nearer point.
    pub fn get_nearest(&self, point: &Point) -> (r: Option<(Point, u128)>)
        requires
            self.wf(),
        ensures
            is_nearest(r, self.contents(), *point),
        decreases self.r(), 0int,
    {
        match self {
            QuadTreeNode::Points(n) => nearest_in_slice(&n.points, point),
            QuadTreeNode::Split(n) => {
                let ghost h = n.radius / 2;
                assert(self.child(0).r() == h);
                assert(self.child(1).r() == h);
                assert(self.child(2).r() == h);
                assert(self.child(3).r() == h);
                let first: usize = if self.point_is_in_bounds(point) {
                    quadrant_of(n.center_x, n.center_y, point)
                } else {
                    4
                };
                let mut result: Option<(Point, u128)> = None;
                let ghost mut seen: Multiset<Point> = Multiset::empty();
                if first == 0 {
                    result = n.north_west.get_nearest(point);
                    proof { seen = n.north_west.contents(); }
                } else if first == 1 {
                    result = n.north_east.get_nearest(point);
                    proof { seen = n.north_east.contents(); }
                } else if first == 2 {
                    result = n.south_west.get_nearest(point);
                    proof { seen = n.south_west.contents(); }
                } else if first == 3 {
                    result = n.south_east.get_nearest(point);
                    proof { seen = n.south_east.contents(); }
                }
                if first != 0 {
                    result = Self::nearest_beyond(&n.north_west, point, result, Ghost(seen));
                    proof { seen = seen.add(n.north_west.contents()); }
                }
                if first != 1 {
                    result = Self::nearest_beyond(&n.north_east, point, result, Ghost(seen));
                    proof { seen = seen.add(n.north_east.contents()); }
                }
                if first != 2 {
                    result = Self::nearest_beyond(&n.south_west, point, result, Ghost(seen));
                    proof { seen = seen.add(n.south_west.contents()); }
                }
                if first != 3 {
                    result = Self::nearest_beyond(&n.south_east, point, result, Ghost(seen));
                    proof { seen = seen.add(n.south_east.contents()); }
                }
                assert(seen =~= self.contents());
                result
            },
        }
    }

    /// Extends the answer `best` over the points `seen` to the points of `child` too,
    /// searching `child` only when its region could hold a point strictly nearer than
    /// `best`.
    fn nearest_beyond(
        child: &QuadTreeNode,
        point: &Point,
        best: Option<(Point, u128)>,
        Ghost(seen): Ghost<Multiset<Point>>,
    ) -> (r: Option<(Point, u128)>)
        requires
            child.wf(),
            is_nearest(best, seen, *point),
        ensures
            is_nearest(r, seen.add(child.contents()), *point),
        decreases child.r(), 1int,
    {
        match best {
            None => {
                let r = child.get_nearest(point);
                assert(seen.add(child.contents()) =~= child.contents());
                r
            },
            Some((best_point, best_distance)) => {
                let bound = child.distance(point);
                if bound < best_distance {
                    let r = child.get_nearest(point);
                    match r {
                        Some((_, d)) => {
                            if d < best_distance {
                                r
                            } else {
                                best
                            }
                        },
                        None => best,
                    }
                } else {
                    proof {
                        child.lemma_contents_covered();
                        assert forall|o: Point| #[trigger] child.contents().count(o) > 0 implies best_distance
                            <= sq_dist(o, *point) by {
                            lemma_region_sq_dist_bound(child.cx(), child.cy(), child.r(), o, *point);
                        }
                    }
                    best
                }
            },
        }
    }

    /// Child `k` of a split node, in the order north-west, north-east, south-west,
    /// south-east; `None` for a leaf or when `k` is not below 4.
    pub fn quadrant(&self, k: usize) -> (r: Option<&QuadTreeNode>)
        ensures
            self is Split && k < 4 ==> r == Some(&self.child(k as int)),
            !(self is Split && k < 4) ==> r is None,
    {
        match self {
            QuadTreeNode::Points(_) => None,
            QuadTreeNode::Split(n) => {
                if k == 0 {
                    Some(&*n.north_west)
                } else if k == 1 {
                    Some(&*n.north_east)
                } else if k == 2 {
                    Some(&*n.south_west)
                } else if k == 3 {
                    Some(&*n.south_east)
                } else {
                    None
                }
            },
        }
    }

    /// All the points stored under this node: a leaf's in insertion order, a split node's
    /// child by child in the order of `routed_quadrant`.
    pub fn points(&self) -> (r: Vec<Point>)
        requires
            self.wf(),
        ensures
            r@.to_multiset() == self.contents(),
        decreases self,
    {
        match self {
            QuadTreeNode::Points(n) => {
                let r = n.points.clone();
                assert(r@ =~= n.points@);
                r
            },
            QuadTreeNode::Split(n) => {
                let mut r = n.north_west.points();
                let mut ne = n.north_east.points();
                let mut sw = n.south_west.points();
                let mut se = n.south_east.points();
                let ghost (a, b, c, d) = (r@, ne@, sw@, se@);
                r.append(&mut ne);
                r.append(&mut sw);
                r.append(&mut se);
                proof {
                    lemma_multiset_commutative(a, b);
                    lemma_multiset_commutative(a + b, c);
                    lemma_multiset_commutative(a + b + c, d);
                }
                r
            },
        }
    }

    /// Whether no point is stored under this node.
    pub fn is_empty(&self) -> (r: bool)
        requires
            self.wf(),
        ensures
            r == (self.contents().len() == 0),
        decreases self,
    {
        match self {
            QuadTreeNode::Points(n) => {
                proof {
                    n.points@.to_multiset_ensures();
                }
                n.points.len() == 0
            },
            QuadTreeNode::Split(n) => {
                n.north_east.is_empty() && n.north_west.is_empty() && n.south_east.is_empty()
                    && n.south_west.is_empty()
            },
        }
    }
}

/// A spatial index over lattice points: a quad tree centered on the origin, with the
/// greatest distance from the origin of any stored point.
pub struct QuadTree {
    root: QuadTreeNode,
    farthest_distance: u64,
}

impl View for QuadTree {
    type V = Multiset<Point>;

    closed spec fn view(&self) -> Multiset<Point> {
        self.root.contents()
    }
}

impl QuadTree {
    /// Half-side of the root region, which is centered on the origin.
    pub closed spec fn root_radius(self) -> int {
        self.root.r()
    }

    /// The running farthest distance.
    pub closed spec fn farthest(self) -> int {
        self.farthest_distance as int
    }

    /// Whether `p` lies in the root region, so that it can be inserted.
    pub open spec fn covers(self, p: Point) -> bool {
        in_region(0, 0, self.root_radius(), p)
    }

    /// The root is a well-formed node centered on the origin, and the farthest distance
    /// is that of the stored points.
    pub closed spec fn wf(self) -> bool {
        &&& self.root.wf()
        &&& self.root.cx() == 0
        &&& self.root.cy() == 0
        &&& is_farthest(self.farthest_distance as int, self.root.contents())
    }

    /// Builds an index holding `points`, inserted in order. The root region is centered
    /// on the origin and its half-side is the least power of two that is at least 2 and
    /// at least twice every coordinate magnitude among `points` and `min_radius`.
    pub fn from_flake(points: &Vec<Point>, min_radius: u32) -> (tree: QuadTree)
        ensures
            tree.wf(),
            tree@ == points@.to_multiset(),
            is_pow2(tree.root_radius()),
            tree.root_radius() >= 2,
            tree.root_radius() >= 2 * min_radius,
            tree.root_radius() == 2 || tree.root_radius() < 4 * min_radius || exists|i: int|
                0 <= i < points@.len() && (tree.root_radius() < 4 * abs(
                    #[trigger] points@[i].x as int,
                ) || tree.root_radius() < 4 * abs(points@[i].y as int)),
            forall|i: int| 0 <= i < points@.len() ==> tree.covers(#[trigger] points@[i]),
            forall|p: Point|
                -min_radius <= p.x <= min_radius && -min_radius <= p.y <= min_radius
                    ==> tree.covers(p),
    {
        let mut bound: i64 = min_radius as i64;
        let mut i: usize = 0;
        while i < points.len()
            invariant
                0 <= i <= points@.len(),
                min_radius <= bound <= 0x1_0000_0000,
                forall|j: int|
                    0 <= j < i ==> -bound <= (#[trigger] points@[j]).x <= bound && -bound
                        <= points@[j].y <= bound,
                bound == min_radius || exists|j: int|
                    0 <= j < i && (bound == abs(#[trigger] points@[j].x as int) || bound == abs(
                        points@[j].y as int,
                    )),
            decreases points.len() - i,
        {
            let x = points[i].x as i64;
            let y = points[i].y as i64;
            let ax: i64 = if x < 0 { -x } else { x };
            let ay: i64 = if y < 0 { -y } else { y };
            if ax > bound {
                bound = ax;
            }
            if ay > bound {
                bound = ay;
            }
            i += 1;
        }
        let mut radius: i64 = 2;
        assert(is_pow2(1));
        assert(is_pow2(2));
        while radius < 2 * bound
            invariant
                0 <= bound <= 0x1_0000_0000,
                2 <= radius <= 0x4_0000_0000,
                radius % 2 == 0,
                radius == 2 || radius < 4 * bound,
                is_pow2(radius as int),
            decreases 4 * bound - radius,
        {
            assert(is_pow2(2 * radius as int)) by {
                assert((2 * radius) / 2 == radius);
            }
            radius = radius * 2;
        }
        let mut tree = QuadTree {
            root: QuadTreeNode::empty_split_node(0, 0, radius),
            farthest_distance: 0,
        };
        assert(points@.subrange(0, 0) =~= Seq::<Point>::empty());
        let mut i: usize = 0;
        while i < points.len()
            invariant
                0 <= i <= points@.len(),
                tree.wf(),
                tree.root_radius() == radius,
                radius >= 2 * bound,
                tree@ == points@.subrange(0, i as int).to_multiset(),
                forall|j: int|
                    0 <= j < points@.len() ==> -bound <= (#[trigger] points@[j]).x <= bound
                        && -bound <= points@[j].y <= bound,
            decreases points.len() - i,
        {
            tree.add_point(&points[i]);
            proof {
                let s = points@.subrange(0, i as int);
                assert(points@.subrange(0, i + 1) == s.push(points@[i as int]));
            }
            i += 1;
        }
        assert(points@.subrange(0, points@.len() as int) == points@);
        tree
    }

    /// Whether no point has been inserted.
    pub fn is_empty(&self) -> (r: bool)
        requires
            self.wf(),
        ensures
            r == (self@.len() == 0),
    {
        self.root.is_empty()
    }

    /// Whether `point` lies in the root region.
    pub fn point_is_in_bounds(&self, point: &Point) -> (r: bool)
        requires
            self.wf(),
        ensures
            r == self.covers(*point),
    {
        self.root.point_is_in_bounds(point)
    }

    /// Inserts `point` and raises the farthest distance to its distance from the origin
    /// when that is greater.
    pub fn add_point(&mut self, point: &Point)
        requires
            old(self).wf(),
            old(self).covers(*point),
        ensures
            final(self).wf(),
            final(self)@ == old(self)@.insert(*point),
            final(self).root_radius() == old(self).root_radius(),
    {
        self.root.add_point(point);
        let d = point.distance(&Point::zero());
        proof {
            lemma_farthest_insert(self.farthest_distance as int, d as int, old(self)@, *point);
        }
        if d > self.farthest_distance {
            self.farthest_distance = d;
        }
    }

    /// The stored point nearest to `point`, with its squared distance, or `None` when the
    /// index is empty.
    pub fn get_nearest(&self, point: &Point) -> (r: Option<(Point, u128)>)
        requires
            self.wf(),
        ensures
            is_nearest(r, self@, *point),
    {
        self.root.get_nearest(point)
    }

    /// The greatest distance from the origin, rounded down, of any inserted point; zero
    /// when the index is empty.
    pub fn get_farthest_distance(&self) -> (r: u64)
        requires
            self.wf(),
        ensures
            is_farthest(r as int, self@),
            r == self.farthest(),
    {
        self.farthest_distance
    }
}

/// The farthest distance that an index reports is the greatest distance from the origin,
/// rounded down, over all the points inserted into it, whatever their order.
pub proof fn farthest_distance_is_max(tree: QuadTree)
    requires
        tree.wf(),
    ensures
        is_farthest(tree.farthest(), tree@),
{
}

/// Splitting a full leaf only reorganises it. When inserting `p` turns the leaf `before`
/// into the split node `after`, the stored points grow by exactly one, and every query
/// gets from `after` the same answer, up to ties, as from a leaf `reference` that holds
/// the same points without having been split.
pub proof fn split_preserves_nearest(
    before: QuadTreeNode,
    after: QuadTreeNode,
    reference: QuadTreeNode,
    p: Point,
    q: Point,
    from_after: Option<(Point, u128)>,
    from_reference: Option<(Point, u128)>,
)
    requires
        before.wf(),
        before is Points,
        after is Split,
        reference is Points,
        after.contents() == before.contents().insert(p),
        reference.contents() == before.contents().insert(p),
        is_nearest(from_after, after.contents(), q),
        is_nearest(from_reference, reference.contents(), q),
    ensures
        after.contents().len() == before.contents().len() + 1,
        from_after is Some,
        from_reference is Some,
        from_after.unwrap().1 == from_reference.unwrap().1,
{
    assert(after.contents().count(p) > 0);
    lemma_nearest_distance_unique(after.contents(), q, from_after, from_reference);
}

/// Routing is deterministic on the center lines: a point whose `x` equals the center's
/// goes to an eastern quadrant, one whose `y` equals the center's to a northern quadrant.
pub proof fn boundary_routing(cx: int, cy: int, p: Point)
    ensures
        p.x == cx ==> routed_quadrant(cx, cy, p) == 1 || routed_quadrant(cx, cy, p) == 3,
        p.y == cy ==> routed_quadrant(cx, cy, p) == 0 || routed_quadrant(cx, cy, p) == 1,
{
}

} // verus!
