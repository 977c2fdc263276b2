//! The Bezier curve itself: de Casteljau subdivision and adaptive
//! arc-length estimation with polyline tessellation.

use crate::path::dedup_points;
use crate::path::lemma_dedup_ends;
use crate::path::Path;
use crate::path::PathBuilder;
use crate::point::dist;
use crate::point::distance;
use crate::point::lemma_dist_bounds;
use crate::point::lemma_lerp_point_wf;
use crate::point::lerp1;
use crate::point::lerp_coord;
use crate::point::lerp_cp;
use crate::point::lerp_point;
use crate::point::ControlPoint;
use crate::point::SCALAR_MAX;
use vstd::arithmetic::power2::lemma2_to64;
use vstd::arithmetic::power2::lemma_pow2_pos;
use vstd::arithmetic::power2::lemma_pow2_strictly_increases;
use vstd::arithmetic::power2::pow2;
use vstd::prelude::*;

verus! {

/// Most control vertices a curve may carry; keeps the polygon-length sum
/// within a 64-bit word.
pub const MAX_CVS: usize = 0x4000_0000;

/// Recursion-depth cap of the adaptive length estimation. Splitting stops
/// here and reports the accuracy as unattainable instead of recursing
/// without bound.
pub const MAX_DEPTH: u32 = 28;

/// How a curve operation fails.
#[derive(Clone, Copy, Debug, PartialEq, Eq, Structural)]
pub enum SplineError {
    /// The flatness criterion could not be met anywhere within the
    /// recursion-depth cap.
    AccuracyUnattainable,
}

/// Every point of the sequence is well formed.
pub open spec fn all_wf(cvs: Seq<ControlPoint>) -> bool {
    forall|i: int| 0 <= i < cvs.len() ==> (#[trigger] cvs[i]).wf()
}

/// One de Casteljau step: every adjacent pair of the row, interpolated with
/// factor `num / den`.
pub open spec fn lerp_row(row: Seq<ControlPoint>, num: int, den: int) -> Seq<ControlPoint> {
    Seq::new((row.len() - 1) as nat, |j: int| lerp_point(row[j], row[j + 1], num, den))
}

/// Row `k` of the triangular de Casteljau schedule; row 0 is the control
/// polygon itself.
pub open spec fn dc_row(cvs: Seq<ControlPoint>, num: int, den: int, k: nat) -> Seq<ControlPoint>
    decreases k,
{
    if k == 0 {
        cvs
    } else {
        lerp_row(dc_row(cvs, num, den, (k - 1) as nat), num, den)
    }
}

pub proof fn lemma_dc_row_len(cvs: Seq<ControlPoint>, num: int, den: int, k: nat)
    requires
        k < cvs.len(),
    ensures
        dc_row(cvs, num, den, k).len() == cvs.len() - k,
    decreases k,
{
    if k > 0 {
        lemma_dc_row_len(cvs, num, den, (k - 1) as nat);
    }
}

/// Rows of the schedule keep their points well formed.
pub proof fn lemma_dc_row_wf(cvs: Seq<ControlPoint>, num: int, den: int, k: nat)
    requires
        k < cvs.len(),
        all_wf(cvs),
        1 <= den,
        0 <= num <= den,
    ensures
        dc_row(cvs, num, den, k).len() == cvs.len() - k,
        all_wf(dc_row(cvs, num, den, k)),
    decreases k,
{
    lemma_dc_row_len(cvs, num, den, k);
    if k > 0 {
        lemma_dc_row_wf(cvs, num, den, (k - 1) as nat);
        let prev = dc_row(cvs, num, den, (k - 1) as nat);
        let row = dc_row(cvs, num, den, k);
        assert forall|i: int| 0 <= i < row.len() implies (#[trigger] row[i]).wf() by {
            lemma_lerp_point_wf(prev[i], prev[i + 1], num, den);
        }
    }
}

/// Control vertices of the left half: the first point of each row.
pub open spec fn split_left_cvs(cvs: Seq<ControlPoint>, num: int, den: int) -> Seq<ControlPoint> {
    Seq::new(cvs.len(), |i: int| dc_row(cvs, num, den, i as nat)[0])
}

/// Control vertices of the right half: the last point of each row, in
/// reverse row order, so the split point comes first and the original last
/// vertex comes last.
pub open spec fn split_right_cvs(cvs: Seq<ControlPoint>, num: int, den: int) -> Seq<ControlPoint> {
    Seq::new(
        cvs.len(),
        |i: int|
            {
                let row = dc_row(cvs, num, den, (cvs.len() - 1 - i) as nat);
                row[row.len() - 1]
            },
    )
}

/// Both halves of a split stay well formed.
pub proof fn lemma_split_cvs_wf(cvs: Seq<ControlPoint>, num: int, den: int)
    requires
        cvs.len() >= 1,
        all_wf(cvs),
        1 <= den,
        0 <= num <= den,
    ensures
        split_left_cvs(cvs, num, den).len() == cvs.len(),
        split_right_cvs(cvs, num, den).len() == cvs.len(),
        all_wf(split_left_cvs(cvs, num, den)),
        all_wf(split_right_cvs(cvs, num, den)),
{
    let l = split_left_cvs(cvs, num, den);
    let r = split_right_cvs(cvs, num, den);
    assert forall|i: int| 0 <= i < l.len() implies (#[trigger] l[i]).wf() by {
        lemma_dc_row_wf(cvs, num, den, i as nat);
    }
    assert forall|i: int| 0 <= i < r.len() implies (#[trigger] r[i]).wf() by {
        lemma_dc_row_wf(cvs, num, den, (cvs.len() - 1 - i) as nat);
    }
}

/// Law: the left half's last control vertex and the right half's first
/// control vertex are the same point, the split point, for every degree and
/// every splitting factor.
pub proof fn lemma_split_shared_point(cvs: Seq<ControlPoint>, num: int, den: int)
    requires
        cvs.len() >= 1,
    ensures
        split_left_cvs(cvs, num, den)[cvs.len() - 1] == split_right_cvs(cvs, num, den)[0],
{
    lemma_dc_row_len(cvs, num, den, (cvs.len() - 1) as nat);
}

/// The right half ends where the original curve ends.
pub proof fn lemma_split_right_end(cvs: Seq<ControlPoint>, num: int, den: int)
    requires
        cvs.len() >= 1,
    ensures
        split_right_cvs(cvs, num, den)[cvs.len() - 1] == cvs[cvs.len() - 1],
{
}

/// Length of the control polygon: the sum of the distances between
/// consecutive control vertices.
pub open spec fn poly_len(cvs: Seq<ControlPoint>) -> int
    decreases cvs.len(),
{
    if cvs.len() <= 1 {
        0
    } else {
        poly_len(cvs.drop_last()) + dist(cvs[cvs.len() - 2], cvs[cvs.len() - 1])
    }
}

/// Distance between the first and last control vertex.
pub open spec fn chord_len(cvs: Seq<ControlPoint>) -> int {
    dist(cvs[0], cvs[cvs.len() - 1])
}

/// The flatness criterion: the control polygon exceeds the chord by less
/// than the accuracy. The comparison is strict.
pub open spec fn is_flat(cvs: Seq<ControlPoint>, acc: int) -> bool {
    poly_len(cvs) - chord_len(cvs) < acc
}

/// The adaptive tessellation of one curve segment, as a mathematical value:
/// the ordered (point, parameter) samples it emits and the length it
/// returns, or `None` when the flatness criterion is not met anywhere
/// within `depth` levels of subdivision at the midpoint.
pub open spec fn tess(
    cvs: Seq<ControlPoint>,
    lo: i64,
    hi: i64,
    acc: int,
    depth: nat,
) -> Option<(Seq<(ControlPoint, i64)>, int)>
    decreases depth,
{
    if is_flat(cvs, acc) {
        Some((seq![(cvs[cvs.len() - 1], hi)], chord_len(cvs)))
    } else if depth == 0 {
        None
    } else {
        let mid = lerp1(lo as int, hi as int, 1, 2) as i64;
        let lt = tess(split_left_cvs(cvs, 1, 2), lo, mid, acc, (depth - 1) as nat);
        let rt = tess(split_right_cvs(cvs, 1, 2), mid, hi, acc, (depth - 1) as nat);
        match (lt, rt) {
            (Some(lr), Some(rr)) => Some((lr.0 + rr.0, lr.1 + rr.1)),
            _ => None,
        }
    }
}

/// A tessellation that succeeds emits at least one sample, and its last
/// sample is the curve's last control vertex tagged with the end of the
/// parameter interval.
pub proof fn lemma_tess_last(cvs: Seq<ControlPoint>, lo: i64, hi: i64, acc: int, depth: nat)
    requires
        cvs.len() >= 1,
        tess(cvs, lo, hi, acc, depth) is Some,
    ensures
        tess(cvs, lo, hi, acc, depth)->Some_0.0.len() >= 1,
        tess(cvs, lo, hi, acc, depth)->Some_0.0.last() == (cvs[cvs.len() - 1], hi),
    decreases depth,
{
    if !is_flat(cvs, acc) {
        let mid = lerp1(lo as int, hi as int, 1, 2) as i64;
        lemma_tess_last(split_left_cvs(cvs, 1, 2), lo, mid, acc, (depth - 1) as nat);
        lemma_tess_last(split_right_cvs(cvs, 1, 2), mid, hi, acc, (depth - 1) as nat);
        lemma_split_right_end(cvs, 1, 2);
    }
}

/// Bounds of a successful tessellation: at most one sample per leaf of a
/// binary tree of the given depth, and a length bounded by the largest
/// distance a well-formed chord can have, per sample.
pub proof fn lemma_tess_bounds(cvs: Seq<ControlPoint>, lo: i64, hi: i64, acc: int, depth: nat)
    requires
        cvs.len() >= 1,
        all_wf(cvs),
        tess(cvs, lo, hi, acc, depth) is Some,
    ensures
        1 <= tess(cvs, lo, hi, acc, depth)->Some_0.0.len() <= pow2(depth),
        0 <= tess(cvs, lo, hi, acc, depth)->Some_0.1 <= tess(
            cvs,
            lo,
            hi,
            acc,
            depth,
        )->Some_0.0.len() * 0x2_0000_0000,
    decreases depth,
{
    lemma_pow2_pos(depth);
    if is_flat(cvs, acc) {
        lemma_dist_bounds(cvs[0], cvs[cvs.len() - 1]);
    } else {
        let mid = lerp1(lo as int, hi as int, 1, 2) as i64;
        lemma_split_cvs_wf(cvs, 1, 2);
        lemma_tess_bounds(split_left_cvs(cvs, 1, 2), lo, mid, acc, (depth - 1) as nat);
        lemma_tess_bounds(split_right_cvs(cvs, 1, 2), mid, hi, acc, (depth - 1) as nat);
        assert(pow2(depth) == 2 * pow2((depth - 1) as nat)) by {
            vstd::arithmetic::power2::lemma_pow2_unfold(depth);
        }
    }
}

/// Law: tessellation only refines as the accuracy tightens. For one curve
/// and one depth budget, a smaller accuracy never emits fewer samples than
/// a larger one, whenever both succeed.
pub proof fn lemma_tess_refines(
    cvs: Seq<ControlPoint>,
    lo: i64,
    hi: i64,
    acc1: int,
    acc2: int,
    depth: nat,
)
    requires
        cvs.len() >= 1,
        acc1 <= acc2,
        tess(cvs, lo, hi, acc1, depth) is Some,
        tess(cvs, lo, hi, acc2, depth) is Some,
    ensures
        tess(cvs, lo, hi, acc1, depth)->Some_0.0.len() >= tess(
            cvs,
            lo,
            hi,
            acc2,
            depth,
        )->Some_0.0.len(),
    decreases depth,
{
    let mid = lerp1(lo as int, hi as int, 1, 2) as i64;
    if is_flat(cvs, acc1) {
        // flat at the tighter accuracy is flat at the looser one: both emit one sample
    } else if is_flat(cvs, acc2) {
        lemma_tess_last(split_left_cvs(cvs, 1, 2), lo, mid, acc1, (depth - 1) as nat);
        lemma_tess_last(split_right_cvs(cvs, 1, 2), mid, hi, acc1, (depth - 1) as nat);
    } else {
        lemma_tess_refines(split_left_cvs(cvs, 1, 2), lo, mid, acc1, acc2, (depth - 1) as nat);
        lemma_tess_refines(split_right_cvs(cvs, 1, 2), mid, hi, acc1, acc2, (depth - 1) as nat);
    }
}

/// Every emitted parameter lies within the interval.
pub open spec fn params_within(s: Seq<(ControlPoint, i64)>, lo: i64, hi: i64) -> bool {
    forall|i: int| 0 <= i < s.len() ==> lo <= (#[trigger] s[i]).1 <= hi
}

/// The emitted parameters never decrease.
pub open spec fn params_sorted(s: Seq<(ControlPoint, i64)>) -> bool {
    forall|i: int, j: int| 0 <= i <= j < s.len() ==> (#[trigger] s[i]).1 <= (#[trigger] s[j]).1
}

/// Law: over an ordered interval, the tessellation tags its samples with
/// parameters inside that interval, in non-decreasing order — the order the
/// path accumulator is promised.
pub proof fn lemma_tess_params_ordered(
    cvs: Seq<ControlPoint>,
    lo: i64,
    hi: i64,
    acc: int,
    depth: nat,
)
    requires
        lo <= hi,
        tess(cvs, lo, hi, acc, depth) is Some,
    ensures
        params_within(tess(cvs, lo, hi, acc, depth)->Some_0.0, lo, hi),
        params_sorted(tess(cvs, lo, hi, acc, depth)->Some_0.0),
    decreases depth,
{
    if !is_flat(cvs, acc) {
        let mid = lerp1(lo as int, hi as int, 1, 2) as i64;
        crate::point::lemma_lerp1_range(lo as int, hi as int, 1, 2);
        assert(lo <= mid <= hi);
        lemma_tess_params_ordered(split_left_cvs(cvs, 1, 2), lo, mid, acc, (depth - 1) as nat);
        lemma_tess_params_ordered(split_right_cvs(cvs, 1, 2), mid, hi, acc, (depth - 1) as nat);
        let l = tess(split_left_cvs(cvs, 1, 2), lo, mid, acc, (depth - 1) as nat)->Some_0.0;
        let r = tess(split_right_cvs(cvs, 1, 2), mid, hi, acc, (depth - 1) as nat)->Some_0.0;
        let s = l + r;
        assert forall|i: int| 0 <= i < s.len() implies lo <= (#[trigger] s[i]).1 <= hi by {
            if i < l.len() {
                assert(s[i] == l[i]);
            } else {
                assert(s[i] == r[i - l.len()]);
            }
        }
        assert forall|i: int, j: int| 0 <= i <= j < s.len() implies (#[trigger] s[i]).1 <= (
        #[trigger] s[j]).1 by {
            if j < l.len() {
                assert(s[i] == l[i] && s[j] == l[j]);
            } else if i >= l.len() {
                assert(s[i] == r[i - l.len()] && s[j] == r[j - l.len()]);
            } else {
                assert(s[i] == l[i] && s[j] == r[j - l.len()]);
                assert(l[i].1 <= mid);
                assert(mid <= r[j - l.len()].1);
            }
        }
    }
}

/// Law: a degree-0 curve is flat at every positive accuracy. Its length is
/// zero, it emits exactly its one control vertex, and the finalized path
/// of [`BezierCurve::create_path`], which seeds that same vertex, holds
/// exactly one point.
pub proof fn lemma_degenerate_curve(c: ControlPoint, lo: i64, hi: i64, acc: int, depth: nat)
    requires
        acc >= 1,
    ensures
        tess(seq![c], lo, hi, acc, depth) == Some((seq![(c, hi)], 0int)),
        dedup_points(seq![(c, lo)] + seq![(c, hi)]) == seq![c],
{
    let single = seq![c];
    assert(poly_len(single) == 0);
    assert(crate::point::dist_sq(c, c) == 0);
    assert(chord_len(single) == 0);
    let s = seq![(c, lo)] + seq![(c, hi)];
    assert(s.len() == 2);
    assert(s[1].0 == s[0].0);
    assert(s.drop_last() =~= seq![(c, lo)]);
    assert(dedup_points(s) == dedup_points(seq![(c, lo)]));
    assert(dedup_points(seq![(c, lo)]) =~= seq![c]);
}

/// An immutable Bezier curve: an ordered, non-empty list of control
/// vertices, its degree (always one less than the vertex count) and the
/// parameter interval it covers. Construct one with
/// [`crate::builder::BezierCurveBuilder`].
#[derive(Debug)]
pub struct BezierCurve {
    cvs: Vec<ControlPoint>,
    degree: usize,
    interval: (i64, i64),
}

impl BezierCurve {
    /// The control vertices.
    pub closed spec fn cvs_spec(&self) -> Seq<ControlPoint> {
        self.cvs@
    }

    /// The degree.
    pub closed spec fn degree_spec(&self) -> int {
        self.degree as int
    }

    /// The parameter interval.
    pub closed spec fn interval_spec(&self) -> (i64, i64) {
        self.interval
    }

    /// Structural invariant: at least one control vertex, the degree is the
    /// vertex count less one, and every coordinate and interval endpoint is
    /// within the fixed-point range.
    pub open spec fn wf(&self) -> bool {
        &&& 1 <= self.cvs_spec().len() <= MAX_CVS
        &&& self.degree_spec() == self.cvs_spec().len() - 1
        &&& all_wf(self.cvs_spec())
        &&& -SCALAR_MAX <= self.interval_spec().0 <= SCALAR_MAX
        &&& -SCALAR_MAX <= self.interval_spec().1 <= SCALAR_MAX
    }

    pub(crate) fn from_parts(cvs: Vec<ControlPoint>, interval: (i64, i64)) -> (r: BezierCurve)
        requires
            1 <= cvs@.len() <= MAX_CVS,
            all_wf(cvs@),
            -SCALAR_MAX <= interval.0 <= SCALAR_MAX,
            -SCALAR_MAX <= interval.1 <= SCALAR_MAX,
        ensures
            r.cvs_spec() == cvs@,
            r.interval_spec() == interval,
            r.degree_spec() == cvs@.len() - 1,
            r.wf(),
    {
        let degree = cvs.len() - 1;
        BezierCurve { cvs, degree, interval }
    }

    /// The degree: one less than the number of control vertices.
    pub fn degree(&self) -> (r: usize)
        ensures
            r == self.degree_spec(),
    {
        self.degree
    }

    /// The parameter interval this curve covers.
    pub fn interval(&self) -> (r: (i64, i64))
        ensures
            r == self.interval_spec(),
    {
        self.interval
    }

    /// The number of control vertices.
    pub fn num_cvs(&self) -> (r: usize)
        ensures
            r == self.cvs_spec().len(),
    {
        self.cvs.len()
    }

    /// The curve's control vertices, as they stand. A stand-in for true
    /// point-on-curve evaluation, which this crate deliberately leaves out.
    pub fn evaluate(&self) -> (r: Vec<ControlPoint>)
        ensures
            r@ == self.cvs_spec(),
    {
        let mut pts: Vec<ControlPoint> = Vec::new();
        let n = self.cvs.len();
        for i in 0..n
            invariant
                n == self.cvs_spec().len(),
                pts@ == self.cvs_spec().take(i as int),
        {
            pts.push(self.cvs[i]);
        }
        proof {
            assert(self.cvs_spec().take(n as int) =~= self.cvs_spec());
        }
        pts
    }

    /// Splits the curve at fraction `t_num / t_den` of its own
    /// parametrization window by the de Casteljau schedule: the left half
    /// takes the first point of each interpolation row, the right half the
    /// last point of each row in reverse row order. The halves have the
    /// curve's degree, and their intervals partition the curve's interval
    /// at `mix`, the interpolated interval position.
    pub fn split(&self, t_num: i64, t_den: i64) -> (r: (BezierCurve, BezierCurve))
        requires
            self.wf(),
            1 <= t_den <= SCALAR_MAX,
            0 <= t_num <= t_den,
        ensures
            r.0.wf(),
            r.1.wf(),
            r.0.degree_spec() == self.degree_spec(),
            r.1.degree_spec() == self.degree_spec(),
            r.0.cvs_spec() == split_left_cvs(self.cvs_spec(), t_num as int, t_den as int),
            r.1.cvs_spec() == split_right_cvs(self.cvs_spec(), t_num as int, t_den as int),
            r.0.interval_spec().0 == self.interval_spec().0,
            r.0.interval_spec().1 as int == lerp1(
                self.interval_spec().0 as int,
                self.interval_spec().1 as int,
                t_num as int,
                t_den as int,
            ),
            r.1.interval_spec().0 == r.0.interval_spec().1,
            r.1.interval_spec().1 == self.interval_spec().1,
            self.interval_spec().0 <= self.interval_spec().1 ==> self.interval_spec().0
                <= r.0.interval_spec().1 <= self.interval_spec().1,
    {
        let ghost gcvs = self.cvs_spec();
        let ghost gn = t_num as int;
        let ghost gd = t_den as int;
        let n = self.cvs.len();

        let mut row: Vec<ControlPoint> = Vec::new();
        for i in 0..n
            invariant
                n == gcvs.len(),
                gcvs == self.cvs_spec(),
                row@ == gcvs.take(i as int),
        {
            row.push(self.cvs[i]);
        }
        proof {
            assert(gcvs.take(n as int) =~= gcvs);
        }

        let mut left: Vec<ControlPoint> = Vec::new();
        let mut right_rev: Vec<ControlPoint> = Vec::new();
        left.push(row[0]);
        right_rev.push(row[n - 1]);

        let mut k: usize = 1;
        while k < n
            invariant
                1 <= k <= n,
                n == gcvs.len(),
                n <= MAX_CVS,
                all_wf(gcvs),
                1 <= gd <= SCALAR_MAX,
                0 <= gn <= gd,
                gn == t_num as int,
                gd == t_den as int,
                row@ == dc_row(gcvs, gn, gd, (k - 1) as nat),
                all_wf(row@),
                left@.len() == k,
                right_rev@.len() == k,
                forall|i: int| 0 <= i < k ==> left@[i] == split_left_cvs(gcvs, gn, gd)[i],
                forall|i: int|
                    0 <= i < k ==> right_rev@[i] == {
                        let rw = dc_row(gcvs, gn, gd, i as nat);
                        rw[rw.len() - 1]
                    },
                all_wf(left@),
                all_wf(right_rev@),
            decreases n - k,
        {
            proof {
                lemma_dc_row_len(gcvs, gn, gd, (k - 1) as nat);
            }
            let m = row.len();
            let mut next: Vec<ControlPoint> = Vec::new();
            let mut j: usize = 0;
            while j < m - 1
                invariant
                    m == row@.len(),
                    m >= 2,
                    0 <= j <= m - 1,
                    all_wf(row@),
                    1 <= gd <= SCALAR_MAX,
                    0 <= gn <= gd,
                    gn == t_num as int,
                    gd == t_den as int,
                    next@.len() == j,
                    forall|i: int| 0 <= i < j ==> next@[i] == lerp_row(row@, gn, gd)[i],
                    all_wf(next@),
                decreases m - 1 - j,
            {
                let p = lerp_cp(&row[j], &row[j + 1], t_num, t_den);
                next.push(p);
                j += 1;
            }
            proof {
                assert(next@ =~= lerp_row(row@, gn, gd));
            }
            row = next;
            left.push(row[0]);
            right_rev.push(row[row.len() - 1]);
            k += 1;
        }
        proof {
            assert(left@ =~= split_left_cvs(gcvs, gn, gd));
        }

        let mut right: Vec<ControlPoint> = Vec::new();
        let mut i: usize = n;
        while i > 0
            invariant
                0 <= i <= n,
                n == gcvs.len(),
                right_rev@.len() == n,
                forall|j: int|
                    0 <= j < n ==> right_rev@[j] == {
                        let rw = dc_row(gcvs, gn, gd, j as nat);
                        rw[rw.len() - 1]
                    },
                all_wf(right_rev@),
                gn == t_num as int,
                gd == t_den as int,
                right@.len() == n - i,
                forall|j: int| 0 <= j < n - i ==> right@[j] == right_rev@[n - 1 - j],
                all_wf(right@),
            decreases i,
        {
            i -= 1;
            right.push(right_rev[i]);
        }
        proof {
            assert(right@ =~= split_right_cvs(gcvs, gn, gd));
        }

        let mix = lerp_coord(self.interval.0, self.interval.1, t_num, t_den);
        let lc = BezierCurve::from_parts(left, (self.interval.0, mix));
        let rc = BezierCurve::from_parts(right, (mix, self.interval.1));
        (lc, rc)
    }

    /// The control polygon's length.
    fn polygon_length(&self) -> (r: u64)
        requires
            self.wf(),
        ensures
            r as int == poly_len(self.cvs_spec()),
    {
        let mut total: u64 = 0;
        let n = self.cvs.len();
        let mut i: usize = 1;
        while i < n
            invariant
                self.wf(),
                n == self.cvs_spec().len(),
                1 <= i <= n,
                total as int == poly_len(self.cvs_spec().take(i as int)),
                total <= (i - 1) * 0x2_0000_0000,
            decreases n - i,
        {
            let d = distance(&self.cvs[i - 1], &self.cvs[i]);
            proof {
                assert(self.cvs_spec().take(i + 1).drop_last() =~= self.cvs_spec().take(i as int));
            }
            total = total + d;
            i += 1;
        }
        proof {
            assert(self.cvs_spec().take(n as int) =~= self.cvs_spec());
        }
        total
    }

    /// The distance between the first and last control vertex.
    fn chord_length(&self) -> (r: u64)
        requires
            self.wf(),
        ensures
            r as int == chord_len(self.cvs_spec()),
            r <= 0x2_0000_0000,
    {
        distance(&self.cvs[0], &self.cvs[self.cvs.len() - 1])
    }

    /// One level of the adaptive estimation, with `depth` subdivision
    /// levels left.
    fn length_rec(&self, acc: u64, pb: &mut PathBuilder, depth: u32) -> (r: Result<
        u64,
        SplineError,
    >)
        requires
            self.wf(),
            1 <= acc,
            depth <= MAX_DEPTH,
        ensures
            match tess(
                self.cvs_spec(),
                self.interval_spec().0,
                self.interval_spec().1,
                acc as int,
                depth as nat,
            ) {
                Some(pr) => {
                    &&& r is Ok
                    &&& r->Ok_0 as int == pr.1
                    &&& final(pb)@ == old(pb)@ + pr.0
                },
                None => {
                    &&& r == Err::<u64, SplineError>(SplineError::AccuracyUnattainable)
                    &&& old(pb)@.is_prefix_of(final(pb)@)
                },
            },
        decreases depth,
    {
        let ghost gcvs = self.cvs_spec();
        let ghost glo = self.interval_spec().0;
        let ghost ghi = self.interval_spec().1;
        let poly = self.polygon_length();
        let chord = self.chord_length();
        if (poly as u128) < (chord as u128) + (acc as u128) {
            let last = self.cvs[self.cvs.len() - 1];
            pb.add_sorted_point(last, self.interval.1);
            proof {
                assert(old(pb)@.push((last, ghi)) =~= old(pb)@ + seq![(last, ghi)]);
            }
            Ok(chord)
        } else if depth == 0 {
            proof {
                assert(old(pb)@.is_prefix_of(old(pb)@));
            }
            Err(SplineError::AccuracyUnattainable)
        } else {
            let (lc, rc) = self.split(1, 2);
            let ghost gmid = lerp1(glo as int, ghi as int, 1, 2) as i64;
            proof {
                assert(lc.interval_spec().1 == gmid);
                lemma_split_cvs_wf(gcvs, 1, 2);
            }
            match lc.length_rec(acc, pb, depth - 1) {
                Ok(l1) => {
                    let ghost mid_record = pb@;
                    match rc.length_rec(acc, pb, depth - 1) {
                        Ok(l2) => {
                            proof {
                                lemma_tess_bounds(
                                    lc.cvs_spec(),
                                    glo,
                                    gmid,
                                    acc as int,
                                    (depth - 1) as nat,
                                );
                                lemma_tess_bounds(
                                    rc.cvs_spec(),
                                    gmid,
                                    ghi,
                                    acc as int,
                                    (depth - 1) as nat,
                                );
                                lemma_pow2_below_cap((depth - 1) as nat);
                                let lt = tess(
                                    lc.cvs_spec(),
                                    glo,
                                    gmid,
                                    acc as int,
                                    (depth - 1) as nat,
                                )->Some_0;
                                let rt = tess(
                                    rc.cvs_spec(),
                                    gmid,
                                    ghi,
                                    acc as int,
                                    (depth - 1) as nat,
                                )->Some_0;
                                assert(lt.0.len() <= 0x800_0000);
                                assert(rt.0.len() <= 0x800_0000);
                                assert(lt.1 <= 0x800_0000 * 0x2_0000_0000);
                                assert(rt.1 <= 0x800_0000 * 0x2_0000_0000);
                                assert(old(pb)@ + lt.0 + rt.0 =~= old(pb)@ + (lt.0 + rt.0));
                            }
                            Ok(l1 + l2)
                        },
                        Err(e) => {
                            proof {
                                lemma_prefix_extend(old(pb)@, mid_record, pb@);
                            }
                            Err(e)
                        },
                    }
                },
                Err(e) => Err(e),
            }
        }
    }

    /// Approximates the curve's arc length within `acc` whole fixed-point
    /// units, emitting the sample points of the tessellation into `pb`.
    ///
    /// Each segment whose control polygon exceeds its chord by less than
    /// `acc` contributes its chord length and emits its end vertex at the
    /// end of its parameter interval; every other segment is split at the
    /// midpoint, left before right. The caller is expected to have emitted
    /// the start point already, as [`BezierCurve::create_path`] does.
    /// When the criterion cannot be met within [`MAX_DEPTH`] subdivision
    /// levels, the accuracy is unattainable: the estimation stops with an
    /// error rather than recursing without bound.
    pub fn length(&self, acc: u64, pb: &mut PathBuilder) -> (r: Result<u64, SplineError>)
        requires
            self.wf(),
            1 <= acc,
        ensures
            match tess(
                self.cvs_spec(),
                self.interval_spec().0,
                self.interval_spec().1,
                acc as int,
                MAX_DEPTH as nat,
            ) {
                Some(pr) => {
                    &&& r is Ok
                    &&& r->Ok_0 as int == pr.1
                    &&& final(pb)@ == old(pb)@ + pr.0
                },
                None => {
                    &&& r == Err::<u64, SplineError>(SplineError::AccuracyUnattainable)
                    &&& old(pb)@.is_prefix_of(final(pb)@)
                },
            },
    {
        self.length_rec(acc, pb, MAX_DEPTH)
    }

    /// Tessellates the whole curve into a finalized path: seeds a fresh
    /// sink with the first control vertex at the start of the interval,
    /// runs the adaptive estimation, and finalizes the sink. On success
    /// the path starts at the curve's first control vertex and ends at its
    /// last one.
    pub fn create_path(&self, acc: u64) -> (r: Result<Path, SplineError>)
        requires
            self.wf(),
            1 <= acc,
        ensures
            match r {
                Ok(path) => {
                    &&& tess(
                        self.cvs_spec(),
                        self.interval_spec().0,
                        self.interval_spec().1,
                        acc as int,
                        MAX_DEPTH as nat,
                    ) is Some
                    &&& path@ == dedup_points(
                        seq![(self.cvs_spec()[0], self.interval_spec().0)] + tess(
                            self.cvs_spec(),
                            self.interval_spec().0,
                            self.interval_spec().1,
                            acc as int,
                            MAX_DEPTH as nat,
                        )->Some_0.0,
                    )
                    &&& path@.len() >= 1
                    &&& path@[0] == self.cvs_spec()[0]
                    &&& path@[path@.len() - 1] == self.cvs_spec()[self.cvs_spec().len() - 1]
                },
                Err(e) => {
                    &&& e == SplineError::AccuracyUnattainable
                    &&& tess(
                        self.cvs_spec(),
                        self.interval_spec().0,
                        self.interval_spec().1,
                        acc as int,
                        MAX_DEPTH as nat,
                    ) is None
                },
            },
    {
        let mut pb = PathBuilder::new();
        pb.add_sorted_point(self.cvs[0], self.interval.0);
        proof {
            assert(Seq::<(ControlPoint, i64)>::empty().push((self.cvs_spec()[0], self.interval_spec().0))
                =~= seq![(self.cvs_spec()[0], self.interval_spec().0)]);
        }
        match self.length(acc, &mut pb) {
            Ok(_) => {
                proof {
                    lemma_tess_last(
                        self.cvs_spec(),
                        self.interval_spec().0,
                        self.interval_spec().1,
                        acc as int,
                        MAX_DEPTH as nat,
                    );
                    lemma_dedup_ends(pb@);
                }
                Ok(pb.finalize())
            },
            Err(e) => Err(e),
        }
    }
}

/// The leaf count of a subdivision below the recursion cap stays small
/// enough for the length sums to fit their word.
proof fn lemma_pow2_below_cap(e: nat)
    requires
        e < MAX_DEPTH,
    ensures
        pow2(e) <= 0x800_0000,
{
    lemma2_to64();
    if e < (MAX_DEPTH - 1) as nat {
        lemma_pow2_strictly_increases(e, (MAX_DEPTH - 1) as nat);
    }
}

/// A record extended twice keeps its first extension as a prefix chain.
proof fn lemma_prefix_extend(a: Seq<(ControlPoint, i64)>, b: Seq<(ControlPoint, i64)>, c: Seq<
    (ControlPoint, i64),
>)
    requires
        a.is_prefix_of(b),
        b.is_prefix_of(c),
    ensures
        a.is_prefix_of(c),
{
    assert(a =~= c.subrange(0, a.len() as int));
}

} // verus!
