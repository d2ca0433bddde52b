//! The symmetry reconciler: expands the azimuths sampled under a declared
//! symmetry into assignments covering one full revolution.

use vstd::prelude::*;
use vstd::arithmetic::div_mod::{
    lemma_div_by_multiple, lemma_fundamental_div_mod, lemma_mod_add_multiples_vanish, lemma_small_mod,
};

verus! {

/// A full turn, in thousandths of a degree.
pub const FULL_TURN: i64 = 360000;

/// Half a turn, in thousandths of a degree.
pub const HALF_TURN: i64 = 180000;

/// A quarter turn, in thousandths of a degree.
pub const QUARTER_TURN: i64 = 90000;

/// The symmetry a luminaire declares for its light distribution.
#[derive(Clone, Copy, Debug, PartialEq, Eq, Structural)]
pub enum EulumdatSymmetry {
    /// Every azimuth of the revolution is sampled.
    NoSymmetry,
    /// The intensity does not depend on the azimuth.
    AboutVerticalAxis,
    /// Mirror symmetry about the C0/C180 plane.
    C0C180Plane,
    /// Mirror symmetry about the C90/C270 plane.
    C90C270Plane,
    /// Mirror symmetry about both planes.
    C0C180C90C270Plane,
}

/// Why a set of sampled azimuths cannot be expanded to a full revolution.
#[derive(Clone, Copy, Debug, PartialEq, Eq, Structural)]
pub enum ReconcileError {
    /// An azimuth that the symmetry maps onto is not among the samples.
    AngleNotFound,
    /// The samples are not evenly spaced on a step that tiles the symmetry's domain.
    NonUniformGrid,
}

/// One plane of the full revolution: its azimuth, and the index of the
/// sampled azimuth whose intensity row it carries.
#[derive(Clone, Copy, Debug, PartialEq, Eq, Structural)]
pub struct Assignment {
    pub azimuth: i64,
    pub source: usize,
}

/// The sampled azimuth that the symmetry maps the azimuth `a` (in `[0, FULL_TURN)`) onto.
pub open spec fn fold(kind: EulumdatSymmetry, a: int) -> int {
    match kind {
        EulumdatSymmetry::NoSymmetry => a,
        EulumdatSymmetry::AboutVerticalAxis => 0,
        EulumdatSymmetry::C0C180Plane => if a <= HALF_TURN {
            a
        } else {
            FULL_TURN - a
        },
        EulumdatSymmetry::C90C270Plane => if QUARTER_TURN <= a && a <= 3 * QUARTER_TURN {
            a
        } else {
            (HALF_TURN - a) % (FULL_TURN as int)
        },
        EulumdatSymmetry::C0C180C90C270Plane => {
            let r = a % (HALF_TURN as int);
            if r > QUARTER_TURN {
                HALF_TURN - r
            } else {
                r
            }
        },
    }
}

/// Some plane of `out` lies at azimuth `b` and carries the same row as plane `k`.
pub open spec fn partnered(out: Seq<Assignment>, k: int, b: int) -> bool {
    exists|m: int| 0 <= m < out.len() && out[m].azimuth == b && out[m].source == out[k].source
}

/// The width of the range of azimuths that the samples must tile.
pub open spec fn domain_width(kind: EulumdatSymmetry) -> int {
    match kind {
        EulumdatSymmetry::C0C180Plane => HALF_TURN as int,
        EulumdatSymmetry::C90C270Plane => HALF_TURN as int,
        EulumdatSymmetry::C0C180C90C270Plane => QUARTER_TURN as int,
        _ => FULL_TURN as int,
    }
}

/// How many copies of the symmetry's domain make up the revolution.
pub open spec fn domain_multiple(kind: EulumdatSymmetry) -> int {
    match kind {
        EulumdatSymmetry::C0C180Plane => 2,
        EulumdatSymmetry::C90C270Plane => 2,
        EulumdatSymmetry::C0C180C90C270Plane => 4,
        _ => 1,
    }
}

/// The angular step between the first two samples.
pub open spec fn step_of(az: Seq<i64>) -> int {
    az[1] - az[0]
}

/// The samples lie in `[0, FULL_TURN)`, evenly spaced on a positive step that
/// divides the symmetry's domain.
pub open spec fn grid_ok(az: Seq<i64>, kind: EulumdatSymmetry) -> bool {
    &&& az.len() >= 2
    &&& step_of(az) > 0
    &&& domain_width(kind) % step_of(az) == 0
    &&& az[0] >= 0
    &&& az[az.len() - 1] < FULL_TURN
    &&& forall|i: int| 0 <= i < az.len() - 1 ==> #[trigger] az[i + 1] - az[i] == step_of(az)
}

/// The number of planes in the full revolution.
pub open spec fn plane_count(az: Seq<i64>) -> int {
    (FULL_TURN as int) / step_of(az)
}

pub open spec fn contains(az: Seq<i64>, t: int) -> bool {
    exists|j: int| 0 <= j < az.len() && az[j] == t
}

/// Every plane of the revolution folds onto a sampled azimuth.
pub open spec fn all_found(az: Seq<i64>, kind: EulumdatSymmetry) -> bool {
    forall|k: int|
        0 <= k < plane_count(az) ==> #[trigger] contains(az, fold(kind, k * step_of(az)))
}

/// The samples can be expanded to a full revolution.
pub open spec fn reconcilable(az: Seq<i64>, kind: EulumdatSymmetry) -> bool {
    if kind == EulumdatSymmetry::AboutVerticalAxis {
        az.len() >= 1
    } else {
        grid_ok(az, kind) && all_found(az, kind)
    }
}

/// The error reported for samples that cannot be expanded.
pub open spec fn reconcile_error(az: Seq<i64>, kind: EulumdatSymmetry) -> ReconcileError {
    if kind != EulumdatSymmetry::AboutVerticalAxis && !grid_ok(az, kind) {
        ReconcileError::NonUniformGrid
    } else {
        ReconcileError::AngleNotFound
    }
}

/// `out` is the expansion of the samples: under rotational symmetry one plane
/// at azimuth zero carrying the first sample; otherwise one plane per step
/// over the revolution, in increasing azimuth, each carrying the sample that
/// its azimuth folds onto.
pub open spec fn expansion(az: Seq<i64>, kind: EulumdatSymmetry, out: Seq<Assignment>) -> bool {
    if kind == EulumdatSymmetry::AboutVerticalAxis {
        out == seq![Assignment { azimuth: 0, source: 0 }]
    } else {
        &&& out.len() == plane_count(az)
        &&& forall|k: int|
            0 <= k < out.len() ==> {
                &&& (#[trigger] out[k]).azimuth == k * step_of(az)
                &&& out[k].source < az.len()
                &&& az[out[k].source as int] == fold(kind, k * step_of(az))
            }
    }
}



proof fn lemma_mod_wrap(x: int, m: int)
    requires
        0 < m,
        -m <= x < 2 * m,
    ensures
        x % m == if x < 0 {
            x + m
        } else if x < m {
            x
        } else {
            x - m
        },
{
    if x < 0 {
        lemma_mod_add_multiples_vanish(x, m);
        lemma_small_mod((m + x) as nat, m as nat);
    } else if x < m {
        lemma_small_mod(x as nat, m as nat);
    } else {
        lemma_mod_add_multiples_vanish(x - m, m);
        lemma_small_mod((x - m) as nat, m as nat);
    }
}

/// The remainders that the folds take, for an azimuth within the revolution.
proof fn lemma_turn_mods(a: int)
    requires
        0 <= a < FULL_TURN,
    ensures
        (HALF_TURN - a) % (FULL_TURN as int) == if a <= HALF_TURN {
            HALF_TURN - a
        } else {
            HALF_TURN - a + FULL_TURN
        },
        (FULL_TURN - a) % (FULL_TURN as int) == if a == 0 {
            0
        } else {
            FULL_TURN - a
        },
        a % (HALF_TURN as int) == if a < HALF_TURN {
            a
        } else {
            a - HALF_TURN
        },
{
    lemma_mod_wrap(HALF_TURN - a, FULL_TURN as int);
    lemma_mod_wrap(FULL_TURN - a, FULL_TURN as int);
    lemma_mod_wrap(a, HALF_TURN as int);
}

pub(crate) proof fn lemma_grid_linear(az: Seq<i64>, kind: EulumdatSymmetry, m: int)
    requires
        grid_ok(az, kind),
        0 <= m < az.len(),
    ensures
        az[m] == az[0] + m * step_of(az),
    decreases m,
{
    if m > 0 {
        lemma_grid_linear(az, kind, m - 1);
        assert(az[(m - 1) + 1] - az[m - 1] == step_of(az));
        assert(m * step_of(az) == (m - 1) * step_of(az) + step_of(az)) by (nonlinear_arith);
    }
}

pub(crate) proof fn lemma_grid_injective(az: Seq<i64>, kind: EulumdatSymmetry, i: int, j: int)
    requires
        grid_ok(az, kind),
        0 <= i < az.len(),
        0 <= j < az.len(),
        az[i] == az[j],
    ensures
        i == j,
{
    lemma_grid_linear(az, kind, i);
    lemma_grid_linear(az, kind, j);
    let s = step_of(az);
    assert(i == j) by (nonlinear_arith)
        requires
            i * s == j * s,
            s > 0,
    ;
}

/// The step tiles the symmetry's domain `q` times and the revolution
/// `plane_count` times.
proof fn lemma_turn_tiles(az: Seq<i64>, kind: EulumdatSymmetry) -> (q: int)
    requires
        grid_ok(az, kind),
    ensures
        q >= 1,
        q * step_of(az) == domain_width(kind),
        plane_count(az) * step_of(az) == FULL_TURN,
        plane_count(az) == domain_multiple(kind) * q,
{
    let s = step_of(az);
    let w = domain_width(kind);
    lemma_fundamental_div_mod(w, s);
    let q = w / s;
    assert(w == s * q);
    assert(q >= 1) by (nonlinear_arith)
        requires
            w == s * q,
            w > 0,
            s > 0,
    ;
    let c = domain_multiple(kind);
    assert(FULL_TURN == c * w);
    assert((c * q) * s == FULL_TURN) by (nonlinear_arith)
        requires
            FULL_TURN == c * w,
            w == s * q,
    ;
    lemma_div_by_multiple(c * q, s);
    q
}

/// Two planes whose azimuths fold onto the same sample carry the same row.
proof fn lemma_same_fold(az: Seq<i64>, kind: EulumdatSymmetry, out: Seq<Assignment>, k: int, j: int)
    requires
        kind != EulumdatSymmetry::AboutVerticalAxis,
        grid_ok(az, kind),
        expansion(az, kind, out),
        0 <= k < out.len(),
        0 <= j < out.len(),
        fold(kind, j * step_of(az)) == fold(kind, k * step_of(az)),
    ensures
        out[j].azimuth == j * step_of(az),
        out[j].source == out[k].source,
{
    let _ = out[j];
    let _ = out[k];
    lemma_grid_injective(az, kind, out[j].source as int, out[k].source as int);
}

/// Without symmetry the samples must already cover the revolution: the
/// expansion has one plane per sample, at the sample's own azimuth and
/// carrying the sample's own row, in the same order.
pub proof fn lemma_no_symmetry_passes_through(az: Seq<i64>, out: Seq<Assignment>)
    requires
        reconcilable(az, EulumdatSymmetry::NoSymmetry),
        expansion(az, EulumdatSymmetry::NoSymmetry, out),
    ensures
        out.len() == az.len(),
        forall|k: int|
            0 <= k < out.len() ==> (#[trigger] out[k]).azimuth == az[k] && out[k].source == k,
{
    let kind = EulumdatSymmetry::NoSymmetry;
    let s = step_of(az);
    let n = out.len() as int;
    lemma_turn_tiles(az, kind);
    let _ = out[0];
    let s0 = out[0].source as int;
    lemma_grid_linear(az, kind, s0);
    assert(az[0] == 0) by (nonlinear_arith)
        requires
            az[s0] == az[0] + s0 * s,
            az[s0] == 0 * s,
            az[0] >= 0,
            s0 >= 0,
            s > 0,
    ;
    let last = az.len() - 1;
    lemma_grid_linear(az, kind, last);
    assert(last < n) by (nonlinear_arith)
        requires
            az[last] == last * s,
            az[last] < FULL_TURN,
            n * s == FULL_TURN,
            s > 0,
    ;
    assert forall|k: int| 0 <= k < n implies (#[trigger] out[k]).azimuth == az[k] && out[k].source
        == k && k < az.len() by {
        let j = out[k].source as int;
        lemma_grid_linear(az, kind, j);
        assert(j == k) by (nonlinear_arith)
            requires
                j * s == k * s,
                s > 0,
        ;
    }
    let _ = out[n - 1];
}

/// Under mirror symmetry about the C0/C180 plane, the plane at azimuth `a`
/// carries the same row as the plane at `(360° - a) mod 360°`.
pub proof fn lemma_c0c180_mirror(az: Seq<i64>, out: Seq<Assignment>)
    requires
        reconcilable(az, EulumdatSymmetry::C0C180Plane),
        expansion(az, EulumdatSymmetry::C0C180Plane, out),
    ensures
        forall|k: int|
            0 <= k < out.len() ==> partnered(out, k, (FULL_TURN - (#[trigger] out[k]).azimuth) % (
            FULL_TURN as int)),
{
    let kind = EulumdatSymmetry::C0C180Plane;
    let s = step_of(az);
    let n = out.len() as int;
    lemma_turn_tiles(az, kind);
    assert forall|k: int| 0 <= k < n implies partnered(
        out,
        k,
        (FULL_TURN - (#[trigger] out[k]).azimuth) % (FULL_TURN as int),
    ) by {
        let m = if k == 0 {
            0
        } else {
            n - k
        };
        assert(m * s == if k == 0 {
            0
        } else {
            FULL_TURN - k * s
        }) by (nonlinear_arith)
            requires
                n * s == FULL_TURN,
                m == if k == 0 {
                    0
                } else {
                    n - k
                },
        ;
        assert(0 <= k * s < FULL_TURN && (k > 0 ==> k * s > 0)) by (nonlinear_arith)
            requires
                n * s == FULL_TURN,
                0 <= k < n,
                s > 0,
        ;
        lemma_turn_mods(k * s);
        lemma_turn_mods(m * s);
        lemma_same_fold(az, kind, out, k, m);
        assert(out[m].source == out[k].source);
    }
}

/// The plane at `j` lies at the azimuth `(180° - a) mod 360°` mirroring the
/// plane at `k`, on a step that divides half a turn `h` times.
proof fn lemma_c90c270_partner(s: int, n: int, h: int, k: int) -> (j: int)
    requires
        s > 0,
        h * s == HALF_TURN,
        n == 2 * h,
        0 <= k < n,
    ensures
        0 <= j < n,
        0 <= k * s < FULL_TURN,
        j * s == (HALF_TURN - k * s) % (FULL_TURN as int),
{
    let j = if k <= h {
        h - k
    } else {
        3 * h - k
    };
    assert(j * s == if k <= h {
        HALF_TURN - k * s
    } else {
        HALF_TURN - k * s + FULL_TURN
    }) by (nonlinear_arith)
        requires
            h * s == HALF_TURN,
            j == if k <= h {
                h - k
            } else {
                3 * h - k
            },
    ;
    assert(0 <= k * s < FULL_TURN) by (nonlinear_arith)
        requires
            h * s == HALF_TURN,
            0 <= k < 2 * h,
            s > 0,
    ;
    assert(k <= h <==> k * s <= HALF_TURN) by (nonlinear_arith)
        requires
            h * s == HALF_TURN,
            s > 0,
    ;
    lemma_turn_mods(k * s);
    j
}

/// Under mirror symmetry about the C90/C270 plane, the plane at azimuth `a`
/// carries the same row as the plane at `(180° - a) mod 360°`.
pub proof fn lemma_c90c270_mirror(az: Seq<i64>, out: Seq<Assignment>)
    requires
        reconcilable(az, EulumdatSymmetry::C90C270Plane),
        expansion(az, EulumdatSymmetry::C90C270Plane, out),
    ensures
        forall|k: int|
            0 <= k < out.len() ==> partnered(out, k, (HALF_TURN - (#[trigger] out[k]).azimuth) % (
            FULL_TURN as int)),
{
    let kind = EulumdatSymmetry::C90C270Plane;
    let s = step_of(az);
    let n = out.len() as int;
    let h = lemma_turn_tiles(az, kind);
    assert(n == 2 * h);
    assert forall|k: int| 0 <= k < n implies partnered(
        out,
        k,
        (HALF_TURN - (#[trigger] out[k]).azimuth) % (FULL_TURN as int),
    ) by {
        let m = lemma_c90c270_partner(s, n, h, k);
        lemma_turn_mods(k * s);
        lemma_turn_mods(m * s);
        lemma_same_fold(az, kind, out, k, m);
        assert(out[m].source == out[k].source);
    }
}

/// Under symmetry about both planes, the plane at azimuth `a` carries the same
/// row as the planes at `(180° - a) mod 360°` and at `(360° - a) mod 360°`.
pub proof fn lemma_quarter_mirror(az: Seq<i64>, out: Seq<Assignment>)
    requires
        reconcilable(az, EulumdatSymmetry::C0C180C90C270Plane),
        expansion(az, EulumdatSymmetry::C0C180C90C270Plane, out),
    ensures
        forall|k: int|
            0 <= k < out.len() ==> partnered(out, k, (HALF_TURN - (#[trigger] out[k]).azimuth) % (
            FULL_TURN as int)),
        forall|k: int|
            0 <= k < out.len() ==> partnered(out, k, (FULL_TURN - (#[trigger] out[k]).azimuth) % (
            FULL_TURN as int)),
{
    let kind = EulumdatSymmetry::C0C180C90C270Plane;
    let s = step_of(az);
    let n = out.len() as int;
    let q = lemma_turn_tiles(az, kind);
    assert(n == 2 * (2 * q));
    assert forall|k: int| 0 <= k < n implies partnered(
        out,
        k,
        (HALF_TURN - (#[trigger] out[k]).azimuth) % (FULL_TURN as int),
    ) by {
        assert((2 * q) * s == HALF_TURN) by (nonlinear_arith)
            requires
                q * s == QUARTER_TURN,
        ;
        let m = lemma_c90c270_partner(s, n, 2 * q, k);
        lemma_turn_mods(k * s);
        lemma_turn_mods(m * s);
        lemma_same_fold(az, kind, out, k, m);
        assert(out[m].source == out[k].source);
    }
    assert forall|k: int| 0 <= k < n implies partnered(
        out,
        k,
        (FULL_TURN - (#[trigger] out[k]).azimuth) % (FULL_TURN as int),
    ) by {
        let m = if k == 0 {
            0
        } else {
            n - k
        };
        assert(m * s == if k == 0 {
            0
        } else {
            FULL_TURN - k * s
        }) by (nonlinear_arith)
            requires
                n * s == FULL_TURN,
                m == if k == 0 {
                    0
                } else {
                    n - k
                },
        ;
        assert(0 <= k * s < FULL_TURN && (k > 0 ==> k * s > 0)) by (nonlinear_arith)
            requires
                n * s == FULL_TURN,
                0 <= k < n,
                s > 0,
        ;
        lemma_turn_mods(k * s);
        lemma_turn_mods(m * s);
        lemma_same_fold(az, kind, out, k, m);
        assert(out[m].source == out[k].source);
    }
}

fn fold_exec(kind: EulumdatSymmetry, a: i64) -> (r: i64)
    requires
        0 <= a < FULL_TURN,
    ensures
        r == fold(kind, a as int),
{
    match kind {
        EulumdatSymmetry::NoSymmetry => a,
        EulumdatSymmetry::AboutVerticalAxis => 0,
        EulumdatSymmetry::C0C180Plane => if a <= HALF_TURN {
            a
        } else {
            FULL_TURN - a
        },
        EulumdatSymmetry::C90C270Plane => if QUARTER_TURN <= a && a <= 3 * QUARTER_TURN {
            a
        } else if a < QUARTER_TURN {
            HALF_TURN - a
        } else {
            HALF_TURN + FULL_TURN - a
        },
        EulumdatSymmetry::C0C180C90C270Plane => {
            let r = a % HALF_TURN;
            if r > QUARTER_TURN {
                HALF_TURN - r
            } else {
                r
            }
        },
    }
}

fn find(az: &[i64], t: i64) -> (r: Option<usize>)
    ensures
        r matches Some(j) ==> j < az@.len() && az@[j as int] == t,
        r is None ==> !contains(az@, t as int),
{
    let mut j: usize = 0;
    while j < az.len()
        invariant
            j <= az@.len(),
            forall|i: int| 0 <= i < j ==> az@[i] != t,
        decreases az@.len() - j,
    {
        if az[j] == t {
            return Some(j);
        }
        j += 1;
    }
    None
}

fn check_grid(az: &[i64], kind: EulumdatSymmetry) -> (r: bool)
    ensures
        r == grid_ok(az@, kind),
{
    let n = az.len();
    if n < 2 {
        return false;
    }
    if az[0] < 0 || az[n - 1] >= FULL_TURN {
        return false;
    }
    if az[1] <= az[0] {
        return false;
    }
    let step = az[1] - az[0];
    let width: i64 = match kind {
        EulumdatSymmetry::C0C180Plane => HALF_TURN,
        EulumdatSymmetry::C90C270Plane => HALF_TURN,
        EulumdatSymmetry::C0C180C90C270Plane => QUARTER_TURN,
        _ => FULL_TURN,
    };
    if width % step != 0 {
        return false;
    }
    let mut i: usize = 0;
    while i + 1 < n
        invariant
            n == az@.len(),
            n >= 2,
            i + 1 <= n,
            step == step_of(az@),
            forall|j: int| 0 <= j < i ==> #[trigger] az@[j + 1] - az@[j] == step,
        decreases n - i,
    {
        if az[i + 1] as i128 - az[i] as i128 != step as i128 {
            return false;
        }
        i += 1;
    }
    true
}

/// Expands the sampled azimuths `az` (thousandths of a degree, in the order
/// of their intensity rows) to a full revolution under the symmetry `kind`.
/// Nothing is interpolated: each plane carries the row of a sampled azimuth.
pub fn reconcile(az: &[i64], kind: EulumdatSymmetry) -> (r: Result<Vec<Assignment>, ReconcileError>)
    ensures
        r is Ok <==> reconcilable(az@, kind),
        r matches Ok(out) ==> expansion(az@, kind, out@),
        r matches Err(e) ==> e == reconcile_error(az@, kind),
{
    if kind == EulumdatSymmetry::AboutVerticalAxis {
        if az.len() == 0 {
            return Err(ReconcileError::AngleNotFound);
        }
        let out = vec![Assignment { azimuth: 0, source: 0 }];
        assert(out@ == seq![Assignment { azimuth: 0, source: 0 }]);
        return Ok(out);
    }
    if !check_grid(az, kind) {
        return Err(ReconcileError::NonUniformGrid);
    }
    let step = az[1] - az[0];
    let n = FULL_TURN / step;
    let mut out: Vec<Assignment> = Vec::new();
    let mut k: i64 = 0;
    while k < n
        invariant
            grid_ok(az@, kind),
            kind != EulumdatSymmetry::AboutVerticalAxis,
            step == step_of(az@),
            n == plane_count(az@),
            0 <= k <= n,
            out@.len() == k,
            forall|i: int|
                0 <= i < k ==> {
                    &&& (#[trigger] out@[i]).azimuth == i * step
                    &&& out@[i].source < az@.len()
                    &&& az@[out@[i].source as int] == fold(kind, i * step)
                },
        decreases n - k,
    {
        assert(0 <= k * step < FULL_TURN) by (nonlinear_arith)
            requires
                0 <= k < n,
                n == FULL_TURN / step,
                step > 0,
        ;
        let a = k * step;
        let t = fold_exec(kind, a);
        match find(az, t) {
            Some(j) => {
                out.push(Assignment { azimuth: a, source: j });
            },
            None => {
                assert(!all_found(az@, kind)) by {
                    assert(!contains(az@, fold(kind, k * step_of(az@))));
                }
                return Err(ReconcileError::AngleNotFound);
            },
        }
        k += 1;
    }
    assert(all_found(az@, kind)) by {
        assert forall|i: int| 0 <= i < plane_count(az@) implies #[trigger] contains(
            az@,
            fold(kind, i * step_of(az@)),
        ) by {
            let j = out@[i].source as int;
            assert(az@[j] == fold(kind, i * step_of(az@)));
        }
    }
    Ok(out)
}

} // verus!
