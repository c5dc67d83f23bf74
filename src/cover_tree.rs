use vstd::multiset::Multiset;
use vstd::prelude::*;

use crate::point::{is_farthest, is_nearest, lemma_farthest_insert, nearest_in_slice, Point};

verus! {

broadcast use {
    vstd::multiset::group_multiset_axioms,
    vstd::multiset::lemma_multiset_empty_len,
    vstd::seq_lib::group_to_multiset_ensures,
};

/// A spatial index that keeps its points in a list and answers each query by a scan.
pub struct CoverTree {
    points: Vec<Point>,
    farthest_distance: u64,
}

impl View for CoverTree {
    type V = Multiset<Point>;

    closed spec fn view(&self) -> Multiset<Point> {
        self.points@.to_multiset()
    }
}

impl CoverTree {
    /// The farthest distance is that of the stored points.
    pub closed spec fn wf(self) -> bool {
        is_farthest(self.farthest_distance as int, self.points@.to_multiset())
    }

    /// Builds an index holding `points`.
    pub fn from_flake(points: &Vec<Point>) -> (tree: CoverTree)
        ensures
            tree.wf(),
            tree@ == points@.to_multiset(),
    {
        let mut tree = CoverTree { points: Vec::new(), farthest_distance: 0 };
        assert(points@.subrange(0, 0) =~= Seq::<Point>::empty());
        let mut i: usize = 0;
        while i < points.len()
            invariant
                0 <= i <= points@.len(),
                tree.wf(),
                tree@ == points@.subrange(0, i as int).to_multiset(),
            decreases points.len() - i,
        {
            tree.add_point(points[i]);
            proof {
                let s = points@.subrange(0, i as int);
                assert(points@.subrange(0, i + 1) == s.push(points@[i as int]));
            }
            i += 1;
        }
        assert(points@.subrange(0, points@.len() as int) == points@);
        tree
    }

    /// Whether no point has been inserted.
    pub fn is_empty(&self) -> (r: bool)
        ensures
            r == (self@.len() == 0),
    {
        self.points.len() == 0
    }

    /// Inserts `point` and raises the farthest distance to its distance from the origin
    /// when that is greater.
    pub fn add_point(&mut self, point: Point)
        requires
            old(self).wf(),
        ensures
            final(self).wf(),
            final(self)@ == old(self)@.insert(point),
    {
        let d = point.distance(&Point::zero());
        let ghost s = self.points@.to_multiset();
        let ghost fd = self.farthest_distance as int;
        self.points.push(point);
        if d > self.farthest_distance {
            self.farthest_distance = d;
        }
        proof {
            lemma_farthest_insert(fd, d as int, s, point);
        }
    }

    /// The stored point nearest to `point`, with its squared distance.
    pub fn get_nearest(&self, point: Point) -> (r: (Point, u128))
        requires
            self@.len() > 0,
        ensures
            is_nearest(Some(r), self@, point),
    {
        match nearest_in_slice(&self.points, &point) {
            Some(r) => r,
            None => (point, 0),
        }
    }

    /// The greatest distance from the origin, rounded down, of any inserted point; zero
    /// when the index is empty.
    pub fn get_farthest_distance(&self) -> (r: u64)
        requires
            self.wf(),
        ensures
            is_farthest(r as int, self@),
    {
        self.farthest_distance
    }
}

} // verus!
