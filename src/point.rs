use vstd::multiset::Multiset;
use vstd::prelude::*;

verus! {

broadcast use vstd::multiset::group_multiset_axioms;

/// A point of the integer lattice on which the aggregate grows.
#[derive(Clone, Copy, Debug, PartialEq, Eq, Structural)]
pub struct Point {
    pub x: i32,
    pub y: i32,
}

/// Squared Euclidean distance between two points, as an exact integer.
pub open spec fn sq_dist(a: Point, b: Point) -> int {
    (a.x - b.x) * (a.x - b.x) + (a.y - b.y) * (a.y - b.y)
}

/// `r` is the square root of `n`, rounded down.
pub open spec fn is_floor_sqrt(r: int, n: int) -> bool {
    0 <= r && r * r <= n < (r + 1) * (r + 1)
}

/// The lattice origin.
pub open spec fn origin() -> Point {
    Point { x: 0, y: 0 }
}

/// `r` answers a nearest-point query for `q` over the points `s`: nothing when `s` is
/// empty, and otherwise a member of `s` at the least squared distance from `q`,
/// together with that squared distance.
pub open spec fn is_nearest(r: Option<(Point, u128)>, s: Multiset<Point>, q: Point) -> bool {
    match r {
        None => s.len() == 0,
        Some((p, d)) => {
            &&& s.count(p) > 0
            &&& d == sq_dist(p, q)
            &&& forall|o: Point| #[trigger] s.count(o) > 0 ==> d <= sq_dist(o, q)
        },
    }
}

/// `fd` is the greatest distance from the origin, rounded down, over the points `s`
/// (zero when `s` is empty).
pub open spec fn is_farthest(fd: int, s: Multiset<Point>) -> bool {
    &&& s.len() == 0 ==> fd == 0
    &&& s.len() > 0 ==> exists|p: Point| #[trigger] s.count(p) > 0 && is_floor_sqrt(fd, sq_dist(p, origin()))
    &&& forall|p: Point, k: int|
        #[trigger] s.count(p) > 0 && #[trigger] is_floor_sqrt(k, sq_dist(p, origin())) ==> k <= fd
}

/// The floor of a square root is unique.
pub proof fn lemma_floor_sqrt_unique(a: int, b: int, n: int)
    requires
        is_floor_sqrt(a, n),
        is_floor_sqrt(b, n),
    ensures
        a == b,
{
    if a < b {
        assert((a + 1) * (a + 1) <= b * b) by (nonlinear_arith)
            requires 0 <= a, a + 1 <= b;
    } else if b < a {
        assert((b + 1) * (b + 1) <= a * a) by (nonlinear_arith)
            requires 0 <= b, b + 1 <= a;
    }
}

/// Inserting `p`, whose distance from the origin rounds down to `d`, moves the farthest
/// distance from `fd` to the greater of the two.
pub proof fn lemma_farthest_insert(fd: int, d: int, s: Multiset<Point>, p: Point)
    requires
        is_farthest(fd, s),
        is_floor_sqrt(d, sq_dist(p, origin())),
    ensures
        is_farthest(if d > fd { d } else { fd }, s.insert(p)),
{
    let nfd = if d > fd { d } else { fd };
    let t = s.insert(p);
    assert(t.count(p) > 0);
    if d >= fd {
        assert(t.count(p) > 0 && is_floor_sqrt(nfd, sq_dist(p, origin())));
    } else {
        assert(s.len() > 0);
        let w = choose|w: Point| #[trigger] s.count(w) > 0 && is_floor_sqrt(fd, sq_dist(w, origin()));
        assert(t.count(w) > 0);
    }
    assert forall|o: Point, k: int|
        #[trigger] t.count(o) > 0 && #[trigger] is_floor_sqrt(k, sq_dist(o, origin())) implies k
        <= nfd by {
        if o == p {
            lemma_floor_sqrt_unique(k, d, sq_dist(p, origin()));
        } else {
            assert(s.count(o) > 0);
        }
    }
}

/// Two answers to one nearest-point query over the same points agree on whether a point
/// was found and on its squared distance; only the choice among tied points may differ.
pub proof fn lemma_nearest_distance_unique(
    s: Multiset<Point>,
    q: Point,
    a: Option<(Point, u128)>,
    b: Option<(Point, u128)>,
)
    requires
        is_nearest(a, s, q),
        is_nearest(b, s, q),
    ensures
        a is None <==> b is None,
        a is Some && b is Some ==> a.unwrap().1 == b.unwrap().1,
{
    match (a, b) {
        (Some((pa, da)), Some((pb, db))) => {
            assert(s.count(pb) > 0);
            assert(s.count(pa) > 0);
        },
        (Some((pa, _)), None) => {
            assert(s.count(pa) > 0);
        },
        (None, Some((pb, _))) => {
            assert(s.count(pb) > 0);
        },
        (None, None) => {},
    }
}

/// Squared distances between lattice points stay below 2^65.
pub proof fn lemma_sq_dist_bound(a: Point, b: Point)
    ensures
        0 <= sq_dist(a, b) < 0x2_0000_0000_0000_0000,
{
    let dx = a.x - b.x;
    let dy = a.y - b.y;
    assert(0 <= dx * dx < 0x1_0000_0000_0000_0000) by (nonlinear_arith)
        requires -0xFFFF_FFFF <= dx <= 0xFFFF_FFFF;
    assert(0 <= dy * dy < 0x1_0000_0000_0000_0000) by (nonlinear_arith)
        requires -0xFFFF_FFFF <= dy <= 0xFFFF_FFFF;
}

impl Point {
    /// The lattice origin.
    pub fn zero() -> (r: Point)
        ensures
            r == origin(),
    {
        Point { x: 0, y: 0 }
    }

    /// The squared Euclidean distance to `other_point`.
    pub fn distance_2(&self, other_point: &Point) -> (r: u128)
        ensures
            r == sq_dist(*self, *other_point),
    {
        proof {
            lemma_sq_dist_bound(*self, *other_point);
        }
        let dx: i128 = self.x as i128 - other_point.x as i128;
        let dy: i128 = self.y as i128 - other_point.y as i128;
        assert(0 <= dx * dx < 0x1_0000_0000_0000_0000) by (nonlinear_arith)
            requires -0xFFFF_FFFF <= dx <= 0xFFFF_FFFF;
        assert(0 <= dy * dy < 0x1_0000_0000_0000_0000) by (nonlinear_arith)
            requires -0xFFFF_FFFF <= dy <= 0xFFFF_FFFF;
        (dx * dx + dy * dy) as u128
    }

    /// The Euclidean distance to `other_point`, rounded down.
    pub fn distance(&self, other_point: &Point) -> (r: u64)
        ensures
            is_floor_sqrt(r as int, sq_dist(*self, *other_point)),
    {
        let n = self.distance_2(other_point);
        proof {
            lemma_sq_dist_bound(*self, *other_point);
        }
        // Invariant: lo * lo <= n < hi * hi.
        let mut lo: u128 = 0;
        let mut hi: u128 = 0x2_0000_0000;
        while hi - lo > 1
            invariant
                lo < hi <= 0x2_0000_0000,
                lo * lo <= n,
                n < hi * hi,
                n < 0x2_0000_0000_0000_0000,
            decreases hi - lo,
        {
            let mid: u128 = lo + (hi - lo) / 2;
            assert(mid * mid <= 0x4_0000_0000_0000_0000) by (nonlinear_arith)
                requires mid <= 0x2_0000_0000;
            if mid * mid <= n {
                lo = mid;
            } else {
                hi = mid;
            }
        }
        assert(hi == lo + 1);
        lo as u64
    }
}

/// Scans `points` for the one nearest to `q`; on equal distances the earliest wins.
pub fn nearest_in_slice(points: &Vec<Point>, q: &Point) -> (r: Option<(Point, u128)>)
    ensures
        is_nearest(r, points@.to_multiset(), *q),
{
    proof {
        points@.to_multiset_ensures();
    }
    if points.len() == 0 {
        return None;
    }
    let mut nearest = points[0];
    let mut nearest_distance_2 = nearest.distance_2(q);
    let mut i: usize = 1;
    while i < points.len()
        invariant
            1 <= i <= points.len(),
            points@.contains(nearest),
            nearest_distance_2 == sq_dist(nearest, *q),
            forall|j: int| 0 <= j < i ==> nearest_distance_2 <= sq_dist(#[trigger] points@[j], *q),
        decreases points.len() - i,
    {
        let d2 = points[i].distance_2(q);
        if d2 < nearest_distance_2 {
            nearest = points[i];
            nearest_distance_2 = d2;
        }
        i += 1;
    }
    proof {
        assert forall|o: Point| #[trigger] points@.to_multiset().count(o) > 0 implies nearest_distance_2
            <= sq_dist(o, *q) by {
            let j = choose|j: int| 0 <= j < points@.len() && points@[j] == o;
            assert(points@[j] == o);
        }
    }
    Some((nearest, nearest_distance_2))
}

} // verus!
