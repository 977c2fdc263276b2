//! Builder for [`BezierCurve`]: collects control vertices and an optional
//! interval override, then snapshots them into an immutable curve.

use crate::curve::all_wf;
use crate::curve::BezierCurve;
use crate::curve::MAX_CVS;
use crate::point::ControlPoint;
use crate::point::SCALAR_MAX;
use vstd::prelude::*;

verus! {

/// One whole unit of the parameter scale: the default interval runs from 0
/// to here, standing for the unit parametrization of a freshly built curve.
pub const PARAM_ONE: i64 = 0x1_0000;

/// Mutable accumulator for the parts of a Bezier curve. Finalizing copies
/// the collected state, so a builder stays usable afterwards.
pub struct BezierCurveBuilder {
    cvs: Vec<ControlPoint>,
    interval: (i64, i64),
}

impl BezierCurveBuilder {
    /// The control vertices collected so far.
    pub closed spec fn cvs_spec(&self) -> Seq<ControlPoint> {
        self.cvs@
    }

    /// The pending parameter interval.
    pub closed spec fn interval_spec(&self) -> (i64, i64) {
        self.interval
    }

    /// Everything collected so far within the fixed-point ranges.
    pub open spec fn wf(&self) -> bool {
        &&& self.cvs_spec().len() <= MAX_CVS
        &&& all_wf(self.cvs_spec())
        &&& -SCALAR_MAX <= self.interval_spec().0 <= SCALAR_MAX
        &&& -SCALAR_MAX <= self.interval_spec().1 <= SCALAR_MAX
    }

    /// Prepares the creation of a curve over the default unit interval.
    pub fn new() -> (r: BezierCurveBuilder)
        ensures
            r.cvs_spec() == Seq::<ControlPoint>::empty(),
            r.interval_spec() == (0i64, PARAM_ONE),
            r.wf(),
    {
        BezierCurveBuilder { cvs: Vec::new(), interval: (0, PARAM_ONE) }
    }

    /// Appends one control vertex; returns the builder for chaining.
    pub fn add_cv(&mut self, cv: ControlPoint) -> (r: &mut BezierCurveBuilder)
        requires
            old(self).wf(),
            cv.wf(),
            old(self).cvs_spec().len() < MAX_CVS,
        ensures
            (*r).cvs_spec() == old(self).cvs_spec().push(cv),
            (*r).interval_spec() == old(self).interval_spec(),
            (*r).wf(),
            *final(self) == *final(r),
    {
        self.cvs.push(cv);
        self
    }

    /// Overwrites the pending interval; the last write wins, and no order
    /// is imposed on the endpoints. Returns the builder for chaining.
    pub fn set_interval(&mut self, low: i64, high: i64) -> (r: &mut BezierCurveBuilder)
        requires
            old(self).wf(),
            -SCALAR_MAX <= low <= SCALAR_MAX,
            -SCALAR_MAX <= high <= SCALAR_MAX,
        ensures
            (*r).cvs_spec() == old(self).cvs_spec(),
            (*r).interval_spec() == (low, high),
            (*r).wf(),
            *final(self) == *final(r),
    {
        self.interval.0 = low;
        self.interval.1 = high;
        self
    }

    /// Snapshots the collected state into an immutable curve whose degree
    /// is the vertex count less one. Needs at least one control vertex;
    /// the builder keeps its state and may be finalized again.
    pub fn finalize(&self) -> (r: BezierCurve)
        requires
            self.wf(),
            self.cvs_spec().len() >= 1,
        ensures
            r.cvs_spec() == self.cvs_spec(),
            r.degree_spec() == self.cvs_spec().len() - 1,
            r.interval_spec() == self.interval_spec(),
            r.wf(),
    {
        let mut cvs: Vec<ControlPoint> = Vec::new();
        let n = self.cvs.len();
        for i in 0..n
            invariant
                n == self.cvs_spec().len(),
                cvs@ == self.cvs_spec().take(i as int),
        {
            cvs.push(self.cvs[i]);
        }
        proof {
            assert(self.cvs_spec().take(n as int) =~= self.cvs_spec());
        }
        BezierCurve::from_parts(cvs, self.interval)
    }
}

} // verus!
