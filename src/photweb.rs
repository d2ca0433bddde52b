//! The photometric web: one plane per azimuth over a full revolution, each
//! holding the intensity profile over the polar angles.

use vstd::prelude::*;
use crate::symmetry::{
    reconcile, reconcilable, reconcile_error, expansion, fold, step_of, plane_count, Assignment, EulumdatSymmetry,
    ReconcileError, FULL_TURN, HALF_TURN,
};

verus! {

/// The largest magnitude of a stored value, in thousandths of its unit.
pub const MAX_VALUE: i64 = 1000000000000;

/// Every value lies in `[0, MAX_VALUE]`.
pub open spec fn in_range(v: Seq<i64>) -> bool {
    forall|i: int| 0 <= i < v.len() ==> 0 <= #[trigger] v[i] <= MAX_VALUE
}

/// The values never decrease.
pub open spec fn nondecreasing(v: Seq<i64>) -> bool {
    forall|i: int| 0 <= i < v.len() - 1 ==> #[trigger] v[i] <= v[i + 1]
}

/// Polar angles that a plane can be built on.
pub open spec fn polar_grid_ok(g: Seq<i64>) -> bool {
    in_range(g) && nondecreasing(g)
}

/// Twice the trapezoidal integral of the first `m` samples of the profile.
pub open spec fn trapezoid2(g: Seq<i64>, v: Seq<i64>, m: int) -> int
    decreases m,
{
    if m <= 1 {
        0
    } else {
        trapezoid2(g, v, m - 1) + (g[m - 1] - g[m - 2]) * (v[m - 2] + v[m - 1])
    }
}

/// Row `j` of a row-major matrix with rows of `ng` values.
pub open spec fn row(values: Seq<i64>, ng: int, j: int) -> Seq<i64> {
    values.subrange(j * ng, (j + 1) * ng)
}

/// A single azimuth's intensity profile over the polar angles.
#[derive(Clone, Debug)]
pub struct Plane {
    azimuth: i64,
    width: i64,
    angles: Vec<i64>,
    intensities: Vec<i64>,
}

impl Plane {
    pub closed spec fn spec_azimuth(&self) -> int {
        self.azimuth as int
    }

    pub closed spec fn spec_width(&self) -> int {
        self.width as int
    }

    pub closed spec fn spec_angles(&self) -> Seq<i64> {
        self.angles@
    }

    pub closed spec fn spec_intensities(&self) -> Seq<i64> {
        self.intensities@
    }

    /// The azimuth lies within the revolution, the width is positive, and the
    /// profile pairs each polar angle of a valid grid with a value in range.
    pub open spec fn wf(&self) -> bool {
        &&& 0 <= self.spec_azimuth() < FULL_TURN
        &&& 0 < self.spec_width() <= FULL_TURN
        &&& polar_grid_ok(self.spec_angles())
        &&& in_range(self.spec_intensities())
        &&& self.spec_angles().len() == self.spec_intensities().len()
    }

    /// The azimuth, in thousandths of a degree.
    pub fn angle_mdeg(&self) -> (r: i64)
        ensures
            r == self.spec_azimuth(),
    {
        self.azimuth
    }

    /// The span of azimuths attributed to this plane, in thousandths of a degree.
    pub fn width(&self) -> (r: i64)
        ensures
            r == self.spec_width(),
    {
        self.width
    }

    /// The azimuth expressed in `(-180°, 180°]`, in thousandths of a degree.
    pub fn orientation(&self) -> (r: i64)
        requires
            self.wf(),
        ensures
            r == if self.spec_azimuth() > HALF_TURN {
                self.spec_azimuth() - FULL_TURN
            } else {
                self.spec_azimuth()
            },
    {
        if self.azimuth > HALF_TURN {
            self.azimuth - FULL_TURN
        } else {
            self.azimuth
        }
    }

    /// The polar angles of the profile, in thousandths of a degree.
    pub fn angles(&self) -> (r: &[i64])
        ensures
            r@ == self.spec_angles(),
    {
        self.angles.as_slice()
    }

    /// The intensities of the profile, one per polar angle, in thousandths.
    pub fn intensities(&self) -> (r: &[i64])
        ensures
            r@ == self.spec_intensities(),
    {
        self.intensities.as_slice()
    }

    /// The trapezoidal integral of the intensity over the polar angles, in
    /// (thousandths of a degree) x (thousandths of the intensity unit),
    /// rounded down.
    pub fn integrate_intensity(&self) -> (r: u128)
        requires
            self.wf(),
        ensures
            r == trapezoid2(self.spec_angles(), self.spec_intensities(), self.spec_angles().len() as int) / 2,
            r <= MAX_VALUE * MAX_VALUE,
    {
        let g = &self.angles;
        let v = &self.intensities;
        let n = g.len();
        if n == 0 {
            return 0;
        }
        let mut acc: u128 = 0;
        let mut i: usize = 1;
        while i < n
            invariant
                self.wf(),
                g@ == self.angles@,
                v@ == self.intensities@,
                n == g@.len(),
                1 <= i <= n,
                acc == trapezoid2(g@, v@, i as int),
                acc <= 2 * MAX_VALUE * (g@[i - 1] - g@[0]),
                g@[0] <= g@[i - 1],
            decreases n - i,
        {
            let dg = (g[i] - g[i - 1]) as u128;
            let sv = (v[i - 1] + v[i]) as u128;
            assert(g@[(i - 1) as int] <= g@[(i - 1) + 1]);
            assert(dg * sv <= 2 * MAX_VALUE * dg) by (nonlinear_arith)
                requires
                    sv <= 2 * MAX_VALUE,
                    dg >= 0,
            ;
            assert(2 * MAX_VALUE * (g@[i - 1] - g@[0]) + 2 * MAX_VALUE * dg == 2 * MAX_VALUE * (
            g@[i as int] - g@[0])) by (nonlinear_arith)
                requires
                    dg == g@[i as int] - g@[i - 1],
            ;
            assert(2 * MAX_VALUE * (g@[i as int] - g@[0]) <= 2 * MAX_VALUE * MAX_VALUE) by (
            nonlinear_arith)
                requires
                    0 <= g@[0] <= g@[i as int] <= MAX_VALUE,
            ;
            acc = acc + dg * sv;
            i += 1;
        }
        assert(2 * MAX_VALUE * (g@[n - 1] - g@[0]) <= 2 * MAX_VALUE * MAX_VALUE) by (nonlinear_arith)
            requires
                0 <= g@[0] <= g@[n - 1] <= MAX_VALUE,
        ;
        acc / 2
    }
}


/// The integrated intensity of a plane.
pub open spec fn plane_integral(p: Plane) -> int {
    trapezoid2(p.spec_angles(), p.spec_intensities(), p.spec_angles().len() as int) / 2
}

/// The sum of the integrated intensities of the first `m` planes.
pub open spec fn total_of(planes: Seq<Plane>, m: int) -> int
    decreases m,
{
    if m <= 0 {
        0
    } else {
        total_of(planes, m - 1) + plane_integral(planes[m - 1])
    }
}

/// `planes` is the web built from the sampled azimuths `az`, the polar angles
/// `g` and the row-major intensities `values` (one row of `g.len()` values
/// per sampled azimuth) under the symmetry `kind`.
pub open spec fn web_of(
    az: Seq<i64>,
    g: Seq<i64>,
    values: Seq<i64>,
    kind: EulumdatSymmetry,
    planes: Seq<Plane>,
) -> bool {
    if kind == EulumdatSymmetry::AboutVerticalAxis {
        &&& planes.len() == 1
        &&& planes[0].spec_azimuth() == 0
        &&& planes[0].spec_width() == FULL_TURN
        &&& planes[0].spec_angles() == g
        &&& planes[0].spec_intensities() == row(values, g.len() as int, 0)
    } else {
        &&& planes.len() == plane_count(az)
        &&& forall|k: int|
            0 <= k < planes.len() ==> {
                &&& (#[trigger] planes[k]).spec_azimuth() == k * step_of(az)
                &&& planes[k].spec_width() == step_of(az)
                &&& planes[k].spec_angles() == g
                &&& forall|j: int|
                    0 <= j < az.len() && az[j] == fold(kind, k * step_of(az))
                        ==> planes[k].spec_intensities() == row(values, g.len() as int, j)
            }
    }
}

fn copy_range(v: &[i64], lo: usize, hi: usize) -> (r: Vec<i64>)
    requires
        lo <= hi <= v@.len(),
    ensures
        r@ == v@.subrange(lo as int, hi as int),
{
    let mut r: Vec<i64> = Vec::new();
    let mut i = lo;
    while i < hi
        invariant
            lo <= i <= hi <= v@.len(),
            r@ == v@.subrange(lo as int, i as int),
        decreases hi - i,
    {
        r.push(v[i]);
        i += 1;
    }
    r
}

/// The photometric web: planes over one full revolution, in strictly
/// increasing azimuth.
#[derive(Clone, Debug)]
pub struct PhotometricWeb {
    planes: Vec<Plane>,
}

impl Default for PhotometricWeb {
    /// The web without planes.
    fn default() -> (r: PhotometricWeb)
        ensures
            r.spec_planes().len() == 0,
            r.wf(),
    {
        PhotometricWeb { planes: Vec::new() }
    }
}

impl PhotometricWeb {
    pub closed spec fn spec_planes(&self) -> Seq<Plane> {
        self.planes@
    }

    /// Every plane is well formed, the azimuths strictly increase, and there
    /// are no more planes than thousandths of a degree in a turn.
    pub open spec fn wf(&self) -> bool {
        &&& self.spec_planes().len() <= FULL_TURN
        &&& forall|i: int| 0 <= i < self.spec_planes().len() ==> (#[trigger] self.spec_planes()[i]).wf()
        &&& forall|i: int|
            0 <= i < self.spec_planes().len() - 1 ==> (#[trigger] self.spec_planes()[i]).spec_azimuth()
                < self.spec_planes()[i + 1].spec_azimuth()
    }

    /// The planes, in increasing azimuth.
    pub fn planes(&self) -> (r: &[Plane])
        ensures
            r@ == self.spec_planes(),
    {
        self.planes.as_slice()
    }

    /// The sum of the integrated intensities of all planes.
    pub fn total_intensity(&self) -> (r: u128)
        requires
            self.wf(),
        ensures
            r == total_of(self.spec_planes(), self.spec_planes().len() as int),
    {
        let mut acc: u128 = 0;
        let mut i: usize = 0;
        let n = self.planes.len();
        while i < n
            invariant
                self.wf(),
                n == self.spec_planes().len(),
                self.planes@ == self.spec_planes(),
                0 <= i <= n,
                acc == total_of(self.spec_planes(), i as int),
                acc <= i * (MAX_VALUE * MAX_VALUE),
            decreases n - i,
        {
            let p = &self.planes[i];
            assert(self.spec_planes()[i as int].wf());
            let x = p.integrate_intensity();
            assert(acc + x <= (i + 1) * (MAX_VALUE * MAX_VALUE)) by (nonlinear_arith)
                requires
                    acc <= i * (MAX_VALUE * MAX_VALUE),
                    x <= MAX_VALUE * MAX_VALUE,
            ;
            assert((i + 1) * (MAX_VALUE * MAX_VALUE) <= FULL_TURN * (MAX_VALUE * MAX_VALUE)) by (
            nonlinear_arith)
                requires
                    i + 1 <= FULL_TURN,
            ;
            acc = acc + x;
            i += 1;
        }
        acc
    }

    /// Builds the web from the sampled azimuths `az` (thousandths of a
    /// degree), the polar angles `g` and the intensities `values`, one row of
    /// `g.len()` values per sampled azimuth, under the symmetry `kind`.
    pub fn from_samples(az: &[i64], g: &[i64], values: &[i64], kind: EulumdatSymmetry) -> (r: Result<
        PhotometricWeb,
        ReconcileError,
    >)
        requires
            polar_grid_ok(g@),
            in_range(values@),
            values@.len() == az@.len() * g@.len(),
        ensures
            r is Ok <==> reconcilable(az@, kind),
            r matches Err(e) ==> e == reconcile_error(az@, kind),
            r matches Ok(w) ==> w.wf() && web_of(az@, g@, values@, kind, w.spec_planes()),
    {
        let out = match reconcile(az, kind) {
            Ok(out) => out,
            Err(e) => {
                return Err(e);
            },
        };
        let ng = g.len();
        let vertical = kind == EulumdatSymmetry::AboutVerticalAxis;
        let width = if vertical {
            FULL_TURN
        } else {
            az[1] - az[0]
        };
        let vlen = values.len();
        proof {
            if !vertical {
                let last = az@.len() - 1;
                crate::symmetry::lemma_grid_linear(az@, kind, last);
                assert(last * step_of(az@) >= step_of(az@)) by (nonlinear_arith)
                    requires
                        last >= 1,
                        step_of(az@) > 0,
                ;
                assert(plane_count(az@) <= FULL_TURN) by (nonlinear_arith)
                    requires
                        step_of(az@) >= 1,
                        plane_count(az@) == (FULL_TURN as int) / step_of(az@),
                ;
            }
        }
        let mut planes: Vec<Plane> = Vec::new();
        let mut k: usize = 0;
        while k < out.len()
            invariant
                expansion(az@, kind, out@),
                reconcilable(az@, kind),
                vertical == (kind == EulumdatSymmetry::AboutVerticalAxis),
                !vertical ==> width == step_of(az@) && out@.len() <= FULL_TURN,
                vertical ==> width == FULL_TURN,
                0 < width <= FULL_TURN,
                ng == g@.len(),
                polar_grid_ok(g@),
                in_range(values@),
                values@.len() == az@.len() * g@.len(),
                vlen == values@.len(),
                0 <= k <= out@.len(),
                planes@.len() == k,
                forall|i: int|
                    0 <= i < k ==> {
                        &&& (#[trigger] planes@[i]).wf()
                        &&& planes@[i].spec_azimuth() == out@[i].azimuth
                        &&& planes@[i].spec_width() == width
                        &&& planes@[i].spec_angles() == g@
                        &&& planes@[i].spec_intensities() == row(
                            values@,
                            ng as int,
                            out@[i].source as int,
                        )
                    },
            decreases out@.len() - k,
        {
            let a = out[k];
            assert(a.source < az@.len());
            assert(0 <= a.azimuth < FULL_TURN) by {
                if !vertical {
                    assert(a.azimuth == k * step_of(az@));
                    assert(0 <= k * step_of(az@) < FULL_TURN) by (nonlinear_arith)
                        requires
                            0 <= k < plane_count(az@),
                            plane_count(az@) == (FULL_TURN as int) / step_of(az@),
                            step_of(az@) > 0,
                    ;
                }
            }
            assert((a.source + 1) * ng <= az@.len() * ng) by (nonlinear_arith)
                requires
                    a.source < az@.len(),
                    ng >= 0,
            ;
            assert(a.source * ng + ng == (a.source + 1) * ng) by (nonlinear_arith);
            let lo = a.source * ng;
            let intensities = copy_range(values, lo, lo + ng);
            let angles = copy_range(g, 0, ng);
            assert(angles@ == g@);
            assert(in_range(intensities@)) by {
                assert forall|i: int| 0 <= i < intensities@.len() implies 0 <= #[trigger] intensities@[i]
                    <= MAX_VALUE by {
                    assert(intensities@[i] == values@[lo + i]);
                }
            }
            let p = Plane { azimuth: a.azimuth, width, angles, intensities };
            planes.push(p);
            k += 1;
        }
        let w = PhotometricWeb { planes };
        assert(w.wf()) by {
            if !vertical {
                assert forall|i: int| 0 <= i < w.spec_planes().len() - 1 implies (
                #[trigger] w.spec_planes()[i]).spec_azimuth() < w.spec_planes()[i
                    + 1].spec_azimuth() by {
                    let _ = out@[i];
                    let _ = out@[i + 1];
                    assert(i * step_of(az@) < (i + 1) * step_of(az@)) by (nonlinear_arith)
                        requires
                            step_of(az@) > 0,
                    ;
                }
            }
        }
        assert(web_of(az@, g@, values@, kind, w.spec_planes())) by {
            if !vertical {
                assert forall|k: int| 0 <= k < w.spec_planes().len() implies {
                    &&& (#[trigger] w.spec_planes()[k]).spec_azimuth() == k * step_of(az@)
                    &&& w.spec_planes()[k].spec_width() == step_of(az@)
                    &&& w.spec_planes()[k].spec_angles() == g@
                    &&& forall|j: int|
                        0 <= j < az@.len() && az@[j] == fold(kind, k * step_of(az@))
                            ==> w.spec_planes()[k].spec_intensities() == row(
                            values@,
                            g@.len() as int,
                            j,
                        )
                } by {
                    let _ = out@[k];
                    assert forall|j: int|
                        0 <= j < az@.len() && az@[j] == fold(kind, k * step_of(az@)) implies j
                        == out@[k].source by {
                        crate::symmetry::lemma_grid_injective(az@, kind, j, out@[k].source as int);
                    }
                }
            } else {
                assert(out@ == seq![Assignment { azimuth: 0, source: 0 }]);
                let _ = out@[0];
            }
        }
        Ok(w)
    }
}

} // verus!
