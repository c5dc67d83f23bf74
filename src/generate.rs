use vstd::multiset::Multiset;
use vstd::prelude::*;

use crate::point::{is_floor_sqrt, is_nearest, lemma_sq_dist_bound, origin, sq_dist, Point};
use crate::quad_tree::QuadTree;

verus! {

/// The symmetry asked of a grown aggregate.
#[derive(Clone, Copy, Debug, PartialEq, Eq, Structural)]
pub enum Symmetry {
    Asymmetric,
    Rotational(u32),
    Reflectional(u32),
}

impl Symmetry {
    /// Rotational symmetry when `rotational` is positive, else reflectional symmetry when
    /// `reflectional` is positive, else none.
    pub fn from(rotational: u32, reflectional: u32) -> (r: Symmetry)
        ensures
            rotational > 0 ==> r == Symmetry::Rotational(rotational),
            rotational == 0 && reflectional > 0 ==> r == Symmetry::Reflectional(reflectional),
            rotational == 0 && reflectional == 0 ==> r == Symmetry::Asymmetric,
    {
        if rotational > 0 {
            return Symmetry::Rotational(rotational);
        }
        if reflectional > 0 {
            return Symmetry::Reflectional(reflectional);
        }
        Symmetry::Asymmetric
    }
}

/// Lattice points per unit of length of the simulation.
pub const LATTICE_SCALE: u64 = 64;

/// A particle freezes once it is within this distance of the aggregate: two units.
pub const CONTACT_DISTANCE: u64 = 2 * LATTICE_SCALE;

/// New particles start this far beyond the farthest point of the aggregate: five units.
pub const START_MARGIN: u64 = 5 * LATTICE_SCALE;

/// Least half-side of the index's root region: five hundred units.
pub const MIN_ROOT_RADIUS: u32 = 500 * 64;

/// How many particles are grown when no number is asked for.
pub const DEFAULT_PARTICLES: u32 = 1000;

/// What a wandering particle does next.
#[derive(Clone, Copy, Debug, PartialEq, Eq, Structural)]
pub enum WalkStep {
    /// It touches the aggregate and freezes where it is.
    Stick,
    /// It strayed beyond twice the start radius and is replaced by a new particle.
    Respawn,
    /// It moves on, in a random direction, by its distance to the aggregate (given squared).
    Move(u128),
}

/// `d` is the least squared distance from `q` to a point of `s`.
pub open spec fn is_min_sq_dist(d: int, s: Multiset<Point>, q: Point) -> bool {
    &&& exists|p: Point| #[trigger] s.count(p) > 0 && sq_dist(p, q) == d
    &&& forall|o: Point| #[trigger] s.count(o) > 0 ==> d <= sq_dist(o, q)
}

/// Radius of the circle on which new particles start: `START_MARGIN` beyond the farthest
/// point of the aggregate.
pub fn construction_radius(tree: &QuadTree) -> (r: u64)
    requires
        tree.wf(),
    ensures
        r == tree.farthest() + START_MARGIN,
{
    let fd = tree.get_farthest_distance();
    proof {
        if tree@.len() > 0 {
            let p = choose|p: Point|
                #[trigger] tree@.count(p) > 0 && is_floor_sqrt(fd as int, sq_dist(p, origin()));
            lemma_sq_dist_bound(p, origin());
            assert(fd < 0x2_0000_0000) by (nonlinear_arith)
                requires fd * fd < 0x2_0000_0000_0000_0000, 0 <= fd;
        }
    }
    fd + START_MARGIN
}

/// Decides the next step of a particle at `position`, when new particles start on the
/// circle of radius `start_radius`: it is replaced when farther than twice that radius
/// from the origin, freezes when within `CONTACT_DISTANCE` of the aggregate, and
/// otherwise moves on by its distance to the aggregate.
pub fn walk_step(tree: &QuadTree, position: &Point, start_radius: u64) -> (r: WalkStep)
    requires
        tree.wf(),
        tree@.len() > 0,
        start_radius <= 0x1_0000_0000,
    ensures
        r == WalkStep::Respawn <==> sq_dist(*position, origin()) > 4 * start_radius
            * start_radius,
        r == WalkStep::Stick ==> exists|d: int|
            is_min_sq_dist(d, tree@, *position) && d <= CONTACT_DISTANCE * CONTACT_DISTANCE,
        r matches WalkStep::Move(d) ==> is_min_sq_dist(d as int, tree@, *position) && d
            > CONTACT_DISTANCE * CONTACT_DISTANCE,
{
    let from_origin = position.distance_2(&Point::zero());
    let destruction = 2 * (start_radius as u128);
    assert(destruction * destruction == 4 * start_radius * start_radius
        && destruction * destruction <= 0x4_0000_0000_0000_0000) by (nonlinear_arith)
        requires destruction == 2 * start_radius, 0 <= start_radius <= 0x1_0000_0000;
    if from_origin > destruction * destruction {
        return WalkStep::Respawn;
    }
    match tree.get_nearest(position) {
        Some((p, d)) => {
            assert(tree@.count(p) > 0 && sq_dist(p, *position) == d);
            if d <= (CONTACT_DISTANCE as u128) * (CONTACT_DISTANCE as u128) {
                assert(is_min_sq_dist(d as int, tree@, *position));
                WalkStep::Stick
            } else {
                WalkStep::Move(d)
            }
        },
        None => WalkStep::Stick,
    }
}

} // verus!
