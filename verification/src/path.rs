//! The ordered-path accumulator: collects parameter-tagged sample points and
//! finalizes them into an immutable polyline.
//!
//! The builder records every insertion in order; the tessellation always
//! hands it non-decreasing parameter values. Finalizing collapses runs of
//! consecutive equal points into one, so a degenerate curve yields a
//! single-point path.

use crate::point::ControlPoint;
use vstd::prelude::*;

verus! {

/// Accumulates (point, parameter) pairs in insertion order.
pub struct PathBuilder {
    entries: Vec<(ControlPoint, i64)>,
}

impl View for PathBuilder {
    type V = Seq<(ControlPoint, i64)>;

    closed spec fn view(&self) -> Seq<(ControlPoint, i64)> {
        self.entries@
    }
}

/// The points of `s` with each run of consecutive equal points collapsed to
/// its first occurrence; parameters are dropped.
pub open spec fn dedup_points(s: Seq<(ControlPoint, i64)>) -> Seq<ControlPoint>
    decreases s.len(),
{
    if s.len() == 0 {
        Seq::empty()
    } else if s.len() == 1 {
        seq![s[0].0]
    } else if s[s.len() - 1].0 == s[s.len() - 2].0 {
        dedup_points(s.drop_last())
    } else {
        dedup_points(s.drop_last()).push(s[s.len() - 1].0)
    }
}

/// A non-empty record dedups to a non-empty path that starts at its first
/// point and ends at its last point.
pub proof fn lemma_dedup_ends(s: Seq<(ControlPoint, i64)>)
    requires
        s.len() >= 1,
    ensures
        dedup_points(s).len() >= 1,
        dedup_points(s)[0] == s[0].0,
        dedup_points(s)[dedup_points(s).len() - 1] == s[s.len() - 1].0,
    decreases s.len(),
{
    if s.len() > 1 {
        lemma_dedup_ends(s.drop_last());
    }
}

impl PathBuilder {
    pub fn new() -> (r: PathBuilder)
        ensures
            r@ == Seq::<(ControlPoint, i64)>::empty(),
    {
        PathBuilder { entries: Vec::new() }
    }

    /// Records one sample point at the given curve parameter. Callers feed
    /// parameters in non-decreasing order; the builder keeps insertion order.
    pub fn add_sorted_point(&mut self, point: ControlPoint, param: i64)
        ensures
            final(self)@ == old(self)@.push((point, param)),
    {
        self.entries.push((point, param));
    }

    /// Snapshots the record into an immutable path, collapsing consecutive
    /// duplicate points. The builder stays usable afterwards.
    pub fn finalize(&self) -> (r: Path)
        ensures
            r@ == dedup_points(self@),
    {
        let mut pts: Vec<ControlPoint> = Vec::new();
        let n = self.entries.len();
        for i in 0..n
            invariant
                n == self@.len(),
                pts@ == dedup_points(self@.take(i as int)),
        {
            proof {
                assert(self@.take(i + 1).drop_last() =~= self@.take(i as int));
            }
            if i == 0 || self.entries[i].0 != self.entries[i - 1].0 {
                pts.push(self.entries[i].0);
            }
        }
        proof {
            assert(self@.take(n as int) =~= self@);
        }
        Path { pts }
    }
}

/// An immutable ordered sequence of sample points: the finalized polyline.
pub struct Path {
    pts: Vec<ControlPoint>,
}

impl View for Path {
    type V = Seq<ControlPoint>;

    closed spec fn view(&self) -> Seq<ControlPoint> {
        self.pts@
    }
}

impl Path {
    pub fn len(&self) -> (r: usize)
        ensures
            r == self@.len(),
    {
        self.pts.len()
    }

    pub fn point(&self, i: usize) -> (r: ControlPoint)
        requires
            i < self@.len(),
        ensures
            r == self@[i as int],
    {
        self.pts[i]
    }
}

} // verus!
