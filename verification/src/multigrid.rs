//! The cutting-plane state and the tile enumerator.
//!
//! An n-dimensional integer grid is cut by the two-dimensional plane
//! spanned by `basis0` and `basis1` and displaced by `offset`. For axis
//! `m` and integer `k`, the grid hyperplane is the set of points whose
//! axis-`m` coordinate equals `k + 1/2`; the tiles of the section are
//! dual to the intersections of pairs of such hyperplanes with the
//! plane.

use vstd::prelude::*;

use crate::fixed::{
    abs_v, fmul, fx_ceil, fx_floor, fx_fract, fx_mul, fx_round, fx_sqrt, lemma_floor_bounded,
    lemma_mul_bound, lemma_tdiv_le, spec_ceil, spec_fx_sqrt, spec_round, tdiv, tdiv_i, HALF_SCALE,
    SCALE,
};
use crate::{Face, FaceList, TilingError};

verus! {

/// Largest admitted magnitude of a basis or offset component: 2^50
/// (real value 4).
pub const BASIS_MAX: i128 = 1125899906842624;

/// Largest admitted viewport half-extent: 2^61 (real value 8192).
pub const VIEW_MAX: i128 = 2305843009213693952;

/// Largest admitted grid-line index: 2^18.
pub const K_MAX: i64 = 262144;

/// Axis pairs whose exterior product is at most this in magnitude are
/// treated as parallel: 2^28 (about 1e-6).
pub const EPS_PAR: i128 = 268435456;

/// How close a fractional part must come to one half for the
/// intersection to count as singular: 2^15 (about 1.2e-10).
pub const EPS_HALF: i128 = 32768;

/// Saturation bound for plane coordinates of hyperplane intersections:
/// 2^66 (real value 262144). Intersections beyond it are far outside
/// any admitted viewport.
pub const PLANE_CLAMP: i128 = 73786976294838206464;

/// Largest admitted dimension count.
pub const DIMS_MAX: usize = 1024;

/// Largest coordinate accepted by `project`: 2^71.
pub const PROJ_IN_MAX: i128 = 2361183241434822606848;

/// Bound on one projection term: 2^74.
pub const PROJ_TERM_MAX: i128 = 18889465931478580854784;

/// Bound on an unprojected coordinate: 2^70.
pub const UNPROJ_MAX: i128 = 1180591620717411303424;

/// Bound on an exterior-product entry: 2^53.
pub const EXT_MAX: i128 = 9007199254740992;

pub open spec fn all_bounded(s: Seq<i128>, b: int) -> bool {
    forall|i: int| 0 <= i < s.len() ==> -b <= #[trigger] s[i] && s[i] <= b
}

/// The exterior (perp-dot) product of the plane projections of axes `i`
/// and `j`: zero exactly when the two projections are parallel.
pub open spec fn spec_ext(b0: Seq<i128>, b1: Seq<i128>, i: int, j: int) -> int {
    tdiv(b0[i] * b1[j] - b1[i] * b0[j], SCALE as int)
}

pub proof fn lemma_ext_bound(b0: Seq<i128>, b1: Seq<i128>, i: int, j: int)
    requires
        0 <= i < b0.len(),
        0 <= j < b0.len(),
        b1.len() == b0.len(),
        all_bounded(b0, BASIS_MAX as int),
        all_bounded(b1, BASIS_MAX as int),
    ensures
        abs_v(spec_ext(b0, b1, i, j)) <= EXT_MAX as int,
{
    lemma_mul_bound(b0[i] as int, b1[j] as int, BASIS_MAX as int, BASIS_MAX as int);
    lemma_mul_bound(b1[i] as int, b0[j] as int, BASIS_MAX as int, BASIS_MAX as int);
    lemma_tdiv_le(
        b0[i] * b1[j] - b1[i] * b0[j],
        SCALE as int,
        EXT_MAX as int,
    );
}

/// The cutting-plane state: the two spanning vectors, the offset, and
/// the cached exterior products of the axis projections.
pub struct State {
    pub dims: usize,
    pub basis0: Vec<i128>,
    pub basis1: Vec<i128>,
    pub offset: Vec<i128>,
    pub ext: Vec<Vec<i128>>,
}

impl State {
    /// Well-formedness: consistent lengths, bounded components, and an
    /// exterior-product cache that matches the basis.
    pub open spec fn wf(self) -> bool {
        &&& 2 <= self.dims <= DIMS_MAX
        &&& self.basis0@.len() == self.dims
        &&& self.basis1@.len() == self.dims
        &&& self.offset@.len() == self.dims
        &&& all_bounded(self.basis0@, BASIS_MAX as int)
        &&& all_bounded(self.basis1@, BASIS_MAX as int)
        &&& all_bounded(self.offset@, BASIS_MAX as int)
        &&& self.ext@.len() == self.dims
        &&& forall|i: int|
            0 <= i < self.dims ==> (#[trigger] self.ext@[i])@.len() == self.dims
        &&& forall|i: int, j: int|
            0 <= i < self.dims && 0 <= j < self.dims ==> (#[trigger] self.ext@[i]@[j]) as int
                == spec_ext(self.basis0@, self.basis1@, i, j)
    }
}

/// Computes the full antisymmetric matrix of exterior products of the
/// axis projections.
pub fn ext_products(basis0: &Vec<i128>, basis1: &Vec<i128>) -> (r: Vec<Vec<i128>>)
    requires
        basis0@.len() == basis1@.len(),
        basis0@.len() <= DIMS_MAX,
        all_bounded(basis0@, BASIS_MAX as int),
        all_bounded(basis1@, BASIS_MAX as int),
    ensures
        r@.len() == basis0@.len(),
        forall|i: int| 0 <= i < r@.len() ==> (#[trigger] r@[i])@.len() == basis0@.len(),
        forall|i: int, j: int|
            0 <= i < r@.len() && 0 <= j < r@.len() ==> (#[trigger] r@[i]@[j]) as int
                == spec_ext(basis0@, basis1@, i, j),
{
    let dims: usize = basis0.len();
    let mut rows: Vec<Vec<i128>> = Vec::new();
    let mut i: usize = 0;
    while i < dims
        invariant
            i <= dims,
            dims == basis0@.len(),
            dims == basis1@.len(),
            dims <= DIMS_MAX,
            all_bounded(basis0@, BASIS_MAX as int),
            all_bounded(basis1@, BASIS_MAX as int),
            rows@.len() == i,
            forall|a: int| 0 <= a < i ==> (#[trigger] rows@[a])@.len() == dims,
            forall|a: int, b: int|
                0 <= a < i && 0 <= b < dims ==> (#[trigger] rows@[a]@[b]) as int
                    == spec_ext(basis0@, basis1@, a, b),
        decreases dims - i,
    {
        let mut row: Vec<i128> = Vec::new();
        let mut j: usize = 0;
        while j < dims
            invariant
                j <= dims,
                i < dims,
                dims == basis0@.len(),
                dims == basis1@.len(),
                dims <= DIMS_MAX,
                all_bounded(basis0@, BASIS_MAX as int),
                all_bounded(basis1@, BASIS_MAX as int),
                row@.len() == j,
                forall|b: int|
                    0 <= b < j ==> (#[trigger] row@[b]) as int
                        == spec_ext(basis0@, basis1@, i as int, b),
            decreases dims - j,
        {
            proof {
                lemma_mul_bound(
                    basis0@[i as int] as int,
                    basis1@[j as int] as int,
                    BASIS_MAX as int,
                    BASIS_MAX as int,
                );
                lemma_mul_bound(
                    basis1@[i as int] as int,
                    basis0@[j as int] as int,
                    BASIS_MAX as int,
                    BASIS_MAX as int,
                );
            }
            let num: i128 = basis0[i] * basis1[j] - basis1[i] * basis0[j];
            let e: i128 = tdiv_i(num, SCALE);
            row.push(e);
            j = j + 1;
        }
        rows.push(row);
        i = i + 1;
    }
    rows
}

/// One term of a projection sum.
pub open spec fn proj_term(v: Seq<i128>, off: Seq<i128>, b: Seq<i128>, i: int) -> int {
    fmul(v[i] - off[i], b[i] as int)
}

/// The first `n` terms of the projection of `v - off` onto `b`.
pub open spec fn proj_sum(v: Seq<i128>, off: Seq<i128>, b: Seq<i128>, n: nat) -> int
    decreases n,
{
    if n == 0 {
        0
    } else {
        proj_sum(v, off, b, (n - 1) as nat) + proj_term(v, off, b, n - 1)
    }
}

pub proof fn lemma_proj_sum_bound(v: Seq<i128>, off: Seq<i128>, b: Seq<i128>, n: nat)
    requires
        n <= v.len(),
        off.len() == v.len(),
        b.len() == v.len(),
        all_bounded(v, PROJ_IN_MAX as int),
        all_bounded(off, BASIS_MAX as int),
        all_bounded(b, BASIS_MAX as int),
    ensures
        abs_v(proj_sum(v, off, b, n)) <= n * (PROJ_TERM_MAX as int),
    decreases n,
{
    if n > 0 {
        lemma_proj_sum_bound(v, off, b, (n - 1) as nat);
        let i = n - 1;
        lemma_mul_bound(
            v[i] - off[i],
            b[i] as int,
            PROJ_IN_MAX as int + BASIS_MAX as int,
            BASIS_MAX as int,
        );
        lemma_tdiv_le((v[i] - off[i]) * b[i], SCALE as int, PROJ_TERM_MAX as int);
    }
}

/// One coordinate of the point of the ambient grid space that the plane
/// point `(px, py)` corresponds to.
pub open spec fn unproj_coord(
    b0: Seq<i128>,
    b1: Seq<i128>,
    off: Seq<i128>,
    px: int,
    py: int,
    i: int,
) -> int {
    tdiv(px * b0[i] + py * b1[i], SCALE as int) + off[i]
}

impl State {
    /// Projects a point of the grid space onto the view plane:
    /// `((v - offset) . basis0, (v - offset) . basis1)`.
    pub fn project(&self, v: &Vec<i128>) -> (r: (i128, i128))
        requires
            self.wf(),
            v@.len() == self.dims,
            all_bounded(v@, PROJ_IN_MAX as int),
        ensures
            r.0 as int == proj_sum(v@, self.offset@, self.basis0@, self.dims as nat),
            r.1 as int == proj_sum(v@, self.offset@, self.basis1@, self.dims as nat),
    {
        let dims: usize = self.dims;
        let mut acc0: i128 = 0;
        let mut acc1: i128 = 0;
        let mut i: usize = 0;
        while i < dims
            invariant
                i <= dims,
                self.wf(),
                dims == self.dims,
                v@.len() == dims,
                all_bounded(v@, PROJ_IN_MAX as int),
                acc0 as int == proj_sum(v@, self.offset@, self.basis0@, i as nat),
                acc1 as int == proj_sum(v@, self.offset@, self.basis1@, i as nat),
                abs_v(acc0 as int) <= i * (PROJ_TERM_MAX as int),
                abs_v(acc1 as int) <= i * (PROJ_TERM_MAX as int),
            decreases dims - i,
        {
            proof {
                lemma_mul_bound(
                    v@[i as int] - self.offset@[i as int],
                    self.basis0@[i as int] as int,
                    PROJ_IN_MAX as int + BASIS_MAX as int,
                    BASIS_MAX as int,
                );
                lemma_mul_bound(
                    v@[i as int] - self.offset@[i as int],
                    self.basis1@[i as int] as int,
                    PROJ_IN_MAX as int + BASIS_MAX as int,
                    BASIS_MAX as int,
                );
                lemma_tdiv_le(
                    (v@[i as int] - self.offset@[i as int]) * self.basis0@[i as int],
                    SCALE as int,
                    PROJ_TERM_MAX as int,
                );
                lemma_tdiv_le(
                    (v@[i as int] - self.offset@[i as int]) * self.basis1@[i as int],
                    SCALE as int,
                    PROJ_TERM_MAX as int,
                );
            }
            let d: i128 = v[i] - self.offset[i];
            let t0: i128 = fx_mul(d, self.basis0[i]);
            let t1: i128 = fx_mul(d, self.basis1[i]);
            acc0 = acc0 + t0;
            acc1 = acc1 + t1;
            i = i + 1;
        }
        (acc0, acc1)
    }

    /// Takes a point of the view plane to the corresponding point of the
    /// grid space: `px * basis0 + py * basis1 + offset`.
    pub fn unproject(&self, px: i128, py: i128) -> (r: Vec<i128>)
        requires
            self.wf(),
            abs_v(px as int) <= PLANE_CLAMP as int,
            abs_v(py as int) <= PLANE_CLAMP as int,
        ensures
            r@.len() == self.dims,
            forall|i: int|
                0 <= i < self.dims ==> (#[trigger] r@[i]) as int == unproj_coord(
                    self.basis0@,
                    self.basis1@,
                    self.offset@,
                    px as int,
                    py as int,
                    i,
                ),
            all_bounded(r@, UNPROJ_MAX as int),
    {
        let dims: usize = self.dims;
        let mut out: Vec<i128> = Vec::new();
        let mut i: usize = 0;
        while i < dims
            invariant
                i <= dims,
                self.wf(),
                dims == self.dims,
                abs_v(px as int) <= PLANE_CLAMP as int,
                abs_v(py as int) <= PLANE_CLAMP as int,
                out@.len() == i,
                forall|k: int|
                    0 <= k < i ==> (#[trigger] out@[k]) as int == unproj_coord(
                        self.basis0@,
                        self.basis1@,
                        self.offset@,
                        px as int,
                        py as int,
                        k,
                    ),
                all_bounded(out@, UNPROJ_MAX as int),
            decreases dims - i,
        {
            proof {
                lemma_mul_bound(
                    px as int,
                    self.basis0@[i as int] as int,
                    PLANE_CLAMP as int,
                    BASIS_MAX as int,
                );
                lemma_mul_bound(
                    py as int,
                    self.basis1@[i as int] as int,
                    PLANE_CLAMP as int,
                    BASIS_MAX as int,
                );
                lemma_tdiv_le(
                    px * self.basis0@[i as int] + py * self.basis1@[i as int],
                    SCALE as int,
                    UNPROJ_MAX as int - BASIS_MAX as int,
                );
            }
            let num: i128 = px * self.basis0[i] + py * self.basis1[i];
            let c: i128 = tdiv_i(num, SCALE) + self.offset[i];
            out.push(c);
            i = i + 1;
        }
        out
    }
}

/// Bound on the `u`, `v` right-hand sides in the intersection solve: 2^67.
pub const UV_MAX: i128 = 147573952589676412928;

/// Bound on a resolved lattice-vertex coordinate: 2^23.
pub const VERT_MAX: i64 = 8388608;

/// Saturates a plane coordinate into `[-PLANE_CLAMP, PLANE_CLAMP]`.
pub open spec fn clamp_plane(x: int) -> int {
    if x > PLANE_CLAMP as int {
        PLANE_CLAMP as int
    } else if x < -(PLANE_CLAMP as int) {
        -(PLANE_CLAMP as int)
    } else {
        x
    }
}

fn clamp_plane_x(x: i128) -> (r: i128)
    ensures
        r as int == clamp_plane(x as int),
        abs_v(r as int) <= PLANE_CLAMP as int,
{
    if x > PLANE_CLAMP {
        PLANE_CLAMP
    } else if x < -PLANE_CLAMP {
        -PLANE_CLAMP
    } else {
        x
    }
}

pub open spec fn min2(a: int, b: int) -> int {
    if a <= b {
        a
    } else {
        b
    }
}

pub open spec fn max2(a: int, b: int) -> int {
    if a >= b {
        a
    } else {
        b
    }
}

/// The smallest grid-line index whose hyperplane can meet the viewport
/// on axis `i`: the least floor of the four unprojected corners.
pub open spec fn spec_grid_min(
    b0: Seq<i128>,
    b1: Seq<i128>,
    off: Seq<i128>,
    h: int,
    v: int,
    i: int,
) -> int {
    let s = SCALE as int;
    min2(
        min2(
            unproj_coord(b0, b1, off, -h, -v, i) / s,
            unproj_coord(b0, b1, off, -h, v, i) / s,
        ),
        min2(
            unproj_coord(b0, b1, off, h, -v, i) / s,
            unproj_coord(b0, b1, off, h, v, i) / s,
        ),
    )
}

/// One past the largest such index: the greatest ceiling of the four
/// unprojected corners.
pub open spec fn spec_grid_max(
    b0: Seq<i128>,
    b1: Seq<i128>,
    off: Seq<i128>,
    h: int,
    v: int,
    i: int,
) -> int {
    max2(
        max2(
            spec_ceil(unproj_coord(b0, b1, off, -h, -v, i)),
            spec_ceil(unproj_coord(b0, b1, off, -h, v, i)),
        ),
        max2(
            spec_ceil(unproj_coord(b0, b1, off, h, -v, i)),
            spec_ceil(unproj_coord(b0, b1, off, h, v, i)),
        ),
    )
}

/// The plane dot product of the projections of axes `i` and `j`.
pub open spec fn dot2(b0: Seq<i128>, b1: Seq<i128>, i: int, j: int) -> int {
    fmul(b0[i] as int, b0[j] as int) + fmul(b1[i] as int, b1[j] as int)
}

/// Whether axis `ax` lies angularly between axes `a1` and `a2` on the
/// plane, with the deterministic conventions for parallel projections
/// that make the singular tie-break consistent.
pub open spec fn spec_axis_between(
    b0: Seq<i128>,
    b1: Seq<i128>,
    a1: int,
    a2: int,
    ax: int,
) -> bool {
    let e1x = spec_ext(b0, b1, a1, ax);
    let exb = spec_ext(b0, b1, ax, a2);
    let e12 = spec_ext(b0, b1, a1, a2);
    if abs_v(e1x) < EPS_PAR as int {
        dot2(b0, b1, a1, ax) > 0 && ax < a1
    } else if abs_v(exb) < EPS_PAR as int {
        dot2(b0, b1, ax, a2) > 0 && ax < a2
    } else {
        e12 * e1x > 0 && e12 * exb > 0
    }
}

/// The first plane coordinate of the intersection of hyperplane `k1` of
/// axis `a1` with hyperplane `k2` of axis `a2`, saturated.
pub open spec fn spec_isect_a(
    b0: Seq<i128>,
    b1: Seq<i128>,
    off: Seq<i128>,
    a1: int,
    a2: int,
    k1: int,
    k2: int,
) -> int {
    let u = k1 * (SCALE as int) + HALF_SCALE as int - off[a1];
    let v = k2 * (SCALE as int) + HALF_SCALE as int - off[a2];
    clamp_plane(tdiv(u * b1[a2] - v * b1[a1], spec_ext(b0, b1, a1, a2)))
}

/// The second plane coordinate of that intersection, saturated.
pub open spec fn spec_isect_b(
    b0: Seq<i128>,
    b1: Seq<i128>,
    off: Seq<i128>,
    a1: int,
    a2: int,
    k1: int,
    k2: int,
) -> int {
    let u = k1 * (SCALE as int) + HALF_SCALE as int - off[a1];
    let v = k2 * (SCALE as int) + HALF_SCALE as int - off[a2];
    clamp_plane(tdiv(v * b0[a1] - u * b0[a2], spec_ext(b0, b1, a1, a2)))
}

/// Coordinate `ix` of the lattice vertex anchoring the face generated
/// by hyperplanes `k1` of `a1` and `k2` of `a2`: the known indices on
/// the two generating axes; elsewhere the unprojected intersection
/// rounded to the nearest integer, with a fractional part at one half
/// (a singular intersection) sent up exactly when `ax` lies between the
/// generating axes.
pub open spec fn spec_face_coord(
    b0: Seq<i128>,
    b1: Seq<i128>,
    off: Seq<i128>,
    a1: int,
    a2: int,
    k1: int,
    k2: int,
    ix: int,
) -> int {
    if ix == a1 {
        k1
    } else if ix == a2 {
        k2
    } else {
        let pa = spec_isect_a(b0, b1, off, a1, a2, k1, k2);
        let pb = spec_isect_b(b0, b1, off, a1, a2, k1, k2);
        let x = unproj_coord(b0, b1, off, pa, pb, ix);
        let fr = x % (SCALE as int);
        if abs_v(fr - HALF_SCALE as int) > EPS_HALF as int {
            spec_round(x)
        } else if spec_axis_between(b0, b1, a1, a2, ix) {
            spec_ceil(x)
        } else {
            x / (SCALE as int)
        }
    }
}

impl State {
    /// Finds, for each axis, the contiguous range of grid-line indices
    /// whose hyperplanes can meet the viewport with half-extents
    /// `(hbound, vbound)`.
    #[verifier::rlimit(100)]
    pub fn get_grid_ranges(&self, hbound: i128, vbound: i128) -> (r: (Vec<i64>, Vec<i64>))
        requires
            self.wf(),
            abs_v(hbound as int) <= VIEW_MAX as int,
            abs_v(vbound as int) <= VIEW_MAX as int,
        ensures
            r.0@.len() == self.dims,
            r.1@.len() == self.dims,
            forall|i: int|
                0 <= i < self.dims ==> (#[trigger] r.0@[i]) as int == spec_grid_min(
                    self.basis0@,
                    self.basis1@,
                    self.offset@,
                    hbound as int,
                    vbound as int,
                    i,
                ),
            forall|i: int|
                0 <= i < self.dims ==> (#[trigger] r.1@[i]) as int == spec_grid_max(
                    self.basis0@,
                    self.basis1@,
                    self.offset@,
                    hbound as int,
                    vbound as int,
                    i,
                ),
            forall|i: int|
                0 <= i < self.dims ==> abs_v((#[trigger] r.0@[i]) as int) <= K_MAX as int,
            forall|i: int|
                0 <= i < self.dims ==> abs_v((#[trigger] r.1@[i]) as int) <= K_MAX as int,
    {
        let dims: usize = self.dims;
        let c1: Vec<i128> = self.unproject(-hbound, -vbound);
        let c2: Vec<i128> = self.unproject(-hbound, vbound);
        let c3: Vec<i128> = self.unproject(hbound, -vbound);
        let c4: Vec<i128> = self.unproject(hbound, vbound);
        let mut mins: Vec<i64> = Vec::new();
        let mut maxs: Vec<i64> = Vec::new();
        let mut i: usize = 0;
        while i < dims
            invariant
                i <= dims,
                self.wf(),
                dims == self.dims,
                abs_v(hbound as int) <= VIEW_MAX as int,
                abs_v(vbound as int) <= VIEW_MAX as int,
                c1@.len() == dims,
                c2@.len() == dims,
                c3@.len() == dims,
                c4@.len() == dims,
                forall|k: int|
                    0 <= k < dims ==> (#[trigger] c1@[k]) as int == unproj_coord(
                        self.basis0@,
                        self.basis1@,
                        self.offset@,
                        -(hbound as int),
                        -(vbound as int),
                        k,
                    ),
                forall|k: int|
                    0 <= k < dims ==> (#[trigger] c2@[k]) as int == unproj_coord(
                        self.basis0@,
                        self.basis1@,
                        self.offset@,
                        -(hbound as int),
                        vbound as int,
                        k,
                    ),
                forall|k: int|
                    0 <= k < dims ==> (#[trigger] c3@[k]) as int == unproj_coord(
                        self.basis0@,
                        self.basis1@,
                        self.offset@,
                        hbound as int,
                        -(vbound as int),
                        k,
                    ),
                forall|k: int|
                    0 <= k < dims ==> (#[trigger] c4@[k]) as int == unproj_coord(
                        self.basis0@,
                        self.basis1@,
                        self.offset@,
                        hbound as int,
                        vbound as int,
                        k,
                    ),
                mins@.len() == i,
                maxs@.len() == i,
                forall|k: int|
                    0 <= k < i ==> (#[trigger] mins@[k]) as int == spec_grid_min(
                        self.basis0@,
                        self.basis1@,
                        self.offset@,
                        hbound as int,
                        vbound as int,
                        k,
                    ),
                forall|k: int|
                    0 <= k < i ==> (#[trigger] maxs@[k]) as int == spec_grid_max(
                        self.basis0@,
                        self.basis1@,
                        self.offset@,
                        hbound as int,
                        vbound as int,
                        k,
                    ),
                forall|k: int|
                    0 <= k < i ==> abs_v((#[trigger] mins@[k]) as int) <= K_MAX as int,
                forall|k: int|
                    0 <= k < i ==> abs_v((#[trigger] maxs@[k]) as int) <= K_MAX as int,
            decreases dims - i,
        {
            proof {
                lemma_corner_small(
                    self.basis0@,
                    self.basis1@,
                    self.offset@,
                    hbound as int,
                    vbound as int,
                    i as int,
                );
                lemma_corner_small(
                    self.basis0@,
                    self.basis1@,
                    self.offset@,
                    -(hbound as int),
                    vbound as int,
                    i as int,
                );
                lemma_corner_small(
                    self.basis0@,
                    self.basis1@,
                    self.offset@,
                    hbound as int,
                    -(vbound as int),
                    i as int,
                );
                lemma_corner_small(
                    self.basis0@,
                    self.basis1@,
                    self.offset@,
                    -(hbound as int),
                    -(vbound as int),
                    i as int,
                );
            }
            let f1: i128 = fx_floor(c1[i]);
            let f2: i128 = fx_floor(c2[i]);
            let f3: i128 = fx_floor(c3[i]);
            let f4: i128 = fx_floor(c4[i]);
            let g1: i128 = fx_ceil(c1[i]);
            let g2: i128 = fx_ceil(c2[i]);
            let g3: i128 = fx_ceil(c3[i]);
            let g4: i128 = fx_ceil(c4[i]);
            let lo12: i128 = if f1 <= f2 {
                f1
            } else {
                f2
            };
            let lo34: i128 = if f3 <= f4 {
                f3
            } else {
                f4
            };
            let lo: i128 = if lo12 <= lo34 {
                lo12
            } else {
                lo34
            };
            let hi12: i128 = if g1 >= g2 {
                g1
            } else {
                g2
            };
            let hi34: i128 = if g3 >= g4 {
                g3
            } else {
                g4
            };
            let hi: i128 = if hi12 >= hi34 {
                hi12
            } else {
                hi34
            };
            mins.push(lo as i64);
            maxs.push(hi as i64);
            i = i + 1;
        }
        (mins, maxs)
    }

    /// Whether axis `ax` lies between axes `a1` and `a2`; `a1` and `a2`
    /// must not be parallel and `ax` must differ from both.
    pub fn axis_between(&self, a1: usize, a2: usize, ax: usize) -> (r: bool)
        requires
            self.wf(),
            a1 < self.dims,
            a2 < self.dims,
            ax < self.dims,
        ensures
            r == spec_axis_between(self.basis0@, self.basis1@, a1 as int, a2 as int, ax as int),
    {
        proof {
            lemma_ext_bound(self.basis0@, self.basis1@, a1 as int, ax as int);
            lemma_ext_bound(self.basis0@, self.basis1@, ax as int, a2 as int);
            lemma_ext_bound(self.basis0@, self.basis1@, a1 as int, a2 as int);
            lemma_mul_bound(
                self.basis0@[a1 as int] as int,
                self.basis0@[ax as int] as int,
                BASIS_MAX as int,
                BASIS_MAX as int,
            );
            lemma_mul_bound(
                self.basis1@[a1 as int] as int,
                self.basis1@[ax as int] as int,
                BASIS_MAX as int,
                BASIS_MAX as int,
            );
            lemma_mul_bound(
                self.basis0@[ax as int] as int,
                self.basis0@[a2 as int] as int,
                BASIS_MAX as int,
                BASIS_MAX as int,
            );
            lemma_mul_bound(
                self.basis1@[ax as int] as int,
                self.basis1@[a2 as int] as int,
                BASIS_MAX as int,
                BASIS_MAX as int,
            );
        }
        let e1x: i128 = self.ext[a1][ax];
        let exb: i128 = self.ext[ax][a2];
        let e12: i128 = self.ext[a1][a2];
        let ab1x: i128 = if e1x < 0 {
            -e1x
        } else {
            e1x
        };
        let abxb: i128 = if exb < 0 {
            -exb
        } else {
            exb
        };
        if ab1x < EPS_PAR {
            proof {
                lemma_tdiv_le(
                    (self.basis0@[a1 as int] as int) * (self.basis0@[ax as int] as int),
                    SCALE as int,
                    EXT_MAX as int,
                );
                lemma_tdiv_le(
                    (self.basis1@[a1 as int] as int) * (self.basis1@[ax as int] as int),
                    SCALE as int,
                    EXT_MAX as int,
                );
            }
            let d: i128 = fx_mul(self.basis0[a1], self.basis0[ax]) + fx_mul(
                self.basis1[a1],
                self.basis1[ax],
            );
            d > 0 && ax < a1
        } else if abxb < EPS_PAR {
            proof {
                lemma_tdiv_le(
                    (self.basis0@[ax as int] as int) * (self.basis0@[a2 as int] as int),
                    SCALE as int,
                    EXT_MAX as int,
                );
                lemma_tdiv_le(
                    (self.basis1@[ax as int] as int) * (self.basis1@[a2 as int] as int),
                    SCALE as int,
                    EXT_MAX as int,
                );
            }
            let d: i128 = fx_mul(self.basis0[ax], self.basis0[a2]) + fx_mul(
                self.basis1[ax],
                self.basis1[a2],
            );
            d > 0 && ax < a2
        } else {
            proof {
                lemma_mul_bound(e12 as int, e1x as int, EXT_MAX as int, EXT_MAX as int);
                lemma_mul_bound(e12 as int, exb as int, EXT_MAX as int, EXT_MAX as int);
            }
            e12 * e1x > 0 && e12 * exb > 0
        }
    }

    /// Resolves the lattice vertex anchoring the face generated by
    /// hyperplane `k1` of axis `a1` and hyperplane `k2` of axis `a2`.
    /// The `a1` and `a2` coordinates of the result are exactly `k1` and
    /// `k2`.
    pub fn get_face_vertex(&self, a1: usize, a2: usize, k1: i64, k2: i64) -> (r: Vec<i64>)
        requires
            self.wf(),
            a1 < self.dims,
            a2 < self.dims,
            a1 != a2,
            abs_v(k1 as int) <= K_MAX as int,
            abs_v(k2 as int) <= K_MAX as int,
            abs_v(spec_ext(self.basis0@, self.basis1@, a1 as int, a2 as int)) >= EPS_PAR as int,
        ensures
            r@.len() == self.dims,
            forall|ix: int|
                0 <= ix < self.dims ==> (#[trigger] r@[ix]) as int == spec_face_coord(
                    self.basis0@,
                    self.basis1@,
                    self.offset@,
                    a1 as int,
                    a2 as int,
                    k1 as int,
                    k2 as int,
                    ix,
                ),
            r@[a1 as int] == k1,
            r@[a2 as int] == k2,
            forall|ix: int|
                0 <= ix < self.dims ==> abs_v((#[trigger] r@[ix]) as int) <= VERT_MAX as int,
    {
        let ghost b0 = self.basis0@;
        let ghost b1 = self.basis1@;
        let ghost off = self.offset@;
        let ext: i128 = self.ext[a1][a2];
        proof {
            lemma_mul_bound(k1 as int, SCALE as int, K_MAX as int, SCALE as int);
            lemma_mul_bound(k2 as int, SCALE as int, K_MAX as int, SCALE as int);
        }
        let u: i128 = (k1 as i128) * SCALE + HALF_SCALE - self.offset[a1];
        let v: i128 = (k2 as i128) * SCALE + HALF_SCALE - self.offset[a2];
        proof {
            lemma_mul_bound(u as int, b1[a2 as int] as int, UV_MAX as int, BASIS_MAX as int);
            lemma_mul_bound(v as int, b1[a1 as int] as int, UV_MAX as int, BASIS_MAX as int);
            lemma_mul_bound(u as int, b0[a2 as int] as int, UV_MAX as int, BASIS_MAX as int);
            lemma_mul_bound(v as int, b0[a1 as int] as int, UV_MAX as int, BASIS_MAX as int);
        }
        let num_a: i128 = u * self.basis1[a2] - v * self.basis1[a1];
        let num_b: i128 = v * self.basis0[a1] - u * self.basis0[a2];
        let pa: i128 = clamp_plane_x(tdiv_i(num_a, ext));
        let pb: i128 = clamp_plane_x(tdiv_i(num_b, ext));
        proof {
            assert(pa as int == spec_isect_a(b0, b1, off, a1 as int, a2 as int, k1 as int, k2 as int));
            assert(pb as int == spec_isect_b(b0, b1, off, a1 as int, a2 as int, k1 as int, k2 as int));
        }
        let raw: Vec<i128> = self.unproject(pa, pb);
        let dims: usize = self.dims;
        let mut out: Vec<i64> = Vec::new();
        let mut ix: usize = 0;
        while ix < dims
            invariant
                ix <= dims,
                self.wf(),
                dims == self.dims,
                b0 == self.basis0@,
                b1 == self.basis1@,
                off == self.offset@,
                a1 < dims,
                a2 < dims,
                a1 != a2,
                abs_v(k1 as int) <= K_MAX as int,
                abs_v(k2 as int) <= K_MAX as int,
                pa as int == spec_isect_a(b0, b1, off, a1 as int, a2 as int, k1 as int, k2 as int),
                pb as int == spec_isect_b(b0, b1, off, a1 as int, a2 as int, k1 as int, k2 as int),
                raw@.len() == dims,
                forall|k: int|
                    0 <= k < dims ==> (#[trigger] raw@[k]) as int == unproj_coord(
                        b0,
                        b1,
                        off,
                        pa as int,
                        pb as int,
                        k,
                    ),
                all_bounded(raw@, UNPROJ_MAX as int),
                out@.len() == ix,
                forall|k: int|
                    0 <= k < ix ==> (#[trigger] out@[k]) as int == spec_face_coord(
                        b0,
                        b1,
                        off,
                        a1 as int,
                        a2 as int,
                        k1 as int,
                        k2 as int,
                        k,
                    ),
                forall|k: int|
                    0 <= k < ix ==> abs_v((#[trigger] out@[k]) as int) <= VERT_MAX as int,
            decreases dims - ix,
        {
            if ix == a1 {
                out.push(k1);
            } else if ix == a2 {
                out.push(k2);
            } else {
                let x: i128 = raw[ix];
                let fr: i128 = fx_fract(x);
                let dist: i128 = fr - HALF_SCALE;
                let ad: i128 = if dist < 0 {
                    -dist
                } else {
                    dist
                };
                proof {
                    lemma_floor_bounded(x as int, 4194304);
                    lemma_floor_bounded(abs_v(x as int), 4194304);
                    lemma_floor_bounded(-(x as int), 4194304);
                }
                let c: i128 = if ad > EPS_HALF {
                    fx_round(x)
                } else if self.axis_between(a1, a2, ix) {
                    fx_ceil(x)
                } else {
                    fx_floor(x)
                };
                out.push(c as i64);
            }
            ix = ix + 1;
        }
        out
    }
}

/// What a valid configuration is: a dimension count of at least 2 and
/// vectors of matching length with components in the supported
/// fixed-point range.
pub open spec fn spec_params_ok(
    dims: int,
    b0: Seq<i128>,
    b1: Seq<i128>,
    off: Seq<i128>,
) -> bool {
    &&& 2 <= dims <= DIMS_MAX as int
    &&& b0.len() == dims
    &&& b1.len() == dims
    &&& off.len() == dims
    &&& all_bounded(b0, BASIS_MAX as int)
    &&& all_bounded(b1, BASIS_MAX as int)
    &&& all_bounded(off, BASIS_MAX as int)
}

/// Whether every component of `v` lies in `[-b, b]`.
pub fn all_within(v: &Vec<i128>, b: i128) -> (r: bool)
    requires
        b >= 0,
    ensures
        r == all_bounded(v@, b as int),
{
    let n: usize = v.len();
    let mut i: usize = 0;
    while i < n
        invariant
            b >= 0,
            i <= n,
            n == v@.len(),
            forall|k: int| 0 <= k < i ==> -(b as int) <= #[trigger] v@[k] && v@[k] <= b as int,
        decreases n - i,
    {
        if v[i] > b || v[i] < -b {
            return false;
        }
        i = i + 1;
    }
    true
}

impl State {
    /// Builds a cutting-plane state from a dimension count, the two
    /// basis vectors and the offset, deriving the exterior-product
    /// cache; rejects an invalid configuration.
    pub fn new(dims: usize, basis0: Vec<i128>, basis1: Vec<i128>, offset: Vec<i128>) -> (r:
        Result<State, TilingError>)
        ensures
            r is Ok <==> spec_params_ok(dims as int, basis0@, basis1@, offset@),
            r matches Ok(st) ==> st.wf() && st.dims == dims && st.basis0@ == basis0@
                && st.basis1@ == basis1@ && st.offset@ == offset@,
            r matches Err(e) ==> e == TilingError::InvalidConfiguration,
    {
        if dims < 2 || dims > DIMS_MAX || basis0.len() != dims || basis1.len() != dims
            || offset.len() != dims || !all_within(&basis0, BASIS_MAX) || !all_within(
            &basis1,
            BASIS_MAX,
        ) || !all_within(&offset, BASIS_MAX) {
            return Err(TilingError::InvalidConfiguration);
        }
        let ext: Vec<Vec<i128>> = ext_products(&basis0, &basis1);
        Ok(State { dims, basis0, basis1, offset, ext })
    }
}

/// The inputs of one generation pass, as one spec value.
pub ghost struct GenCtx {
    pub b0: Seq<i128>,
    pub b1: Seq<i128>,
    pub off: Seq<i128>,
    pub dims: int,
    pub hb: int,
    pub vb: int,
}

/// The inflated viewport half-extent: half the nominal extent plus
/// `1/sqrt(2)`, the circumscribing radius of a rhombus spanned by two
/// unit axis vectors.
pub open spec fn spec_inflate(w: int) -> int {
    tdiv(w, 2) + spec_fx_sqrt(HALF_SCALE as int)
}

pub open spec fn make_ctx(
    dims: int,
    b0: Seq<i128>,
    b1: Seq<i128>,
    off: Seq<i128>,
    vw: int,
    vh: int,
) -> GenCtx {
    GenCtx {
        b0,
        b1,
        off,
        dims,
        hb: spec_inflate(vw),
        vb: spec_inflate(vh),
    }
}

pub open spec fn kmin(c: GenCtx, ax: int) -> int {
    spec_grid_min(c.b0, c.b1, c.off, c.hb, c.vb, ax)
}

pub open spec fn kmax(c: GenCtx, ax: int) -> int {
    spec_grid_max(c.b0, c.b1, c.off, c.hb, c.vb, ax)
}

/// The resolved face vertex, scaled up to fixed point.
pub open spec fn spec_vert_raw(c: GenCtx, i: int, j: int, ki: int, kj: int) -> Seq<i128> {
    Seq::new(
        c.dims as nat,
        |ix: int| (spec_face_coord(c.b0, c.b1, c.off, i, j, ki, kj, ix) * (SCALE as int)) as i128,
    )
}

pub open spec fn spec_face_x(c: GenCtx, i: int, j: int, ki: int, kj: int) -> int {
    proj_sum(spec_vert_raw(c, i, j, ki, kj), c.off, c.b0, c.dims as nat)
}

pub open spec fn spec_face_y(c: GenCtx, i: int, j: int, ki: int, kj: int) -> int {
    proj_sum(spec_vert_raw(c, i, j, ki, kj), c.off, c.b1, c.dims as nat)
}

/// The rhombus midpoint of a candidate face, used for the viewport
/// test.
pub open spec fn spec_mid_x(c: GenCtx, i: int, j: int, ki: int, kj: int) -> int {
    spec_face_x(c, i, j, ki, kj) + tdiv(c.b0[i] + c.b0[j], 2)
}

pub open spec fn spec_mid_y(c: GenCtx, i: int, j: int, ki: int, kj: int) -> int {
    spec_face_y(c, i, j, ki, kj) + tdiv(c.b1[i] + c.b1[j], 2)
}

/// Whether the candidate face is kept: its midpoint lies within the
/// inflated viewport bounds.
pub open spec fn spec_keep(c: GenCtx, i: int, j: int, ki: int, kj: int) -> bool {
    abs_v(spec_mid_x(c, i, j, ki, kj)) <= c.hb && abs_v(spec_mid_y(c, i, j, ki, kj)) <= c.vb
}

pub open spec fn spec_face(c: GenCtx, i: int, j: int, ki: int, kj: int) -> Face {
    Face {
        key_vert_x: spec_face_x(c, i, j, ki, kj) as i128,
        key_vert_y: spec_face_y(c, i, j, ki, kj) as i128,
        axis1: i as u16,
        axis2: j as u16,
    }
}

/// The faces contributed by one candidate cell: one face when the
/// viewport test passes, none otherwise.
pub open spec fn gen_cell(c: GenCtx, i: int, j: int, ki: int, kj: int) -> Seq<Face> {
    if spec_keep(c, i, j, ki, kj) {
        seq![spec_face(c, i, j, ki, kj)]
    } else {
        Seq::empty()
    }
}

/// The faces of axis pair `(i, j)`, grid line `ki`, from grid line `kj`
/// on.
pub open spec fn gen_kj(c: GenCtx, i: int, j: int, ki: int, kj: int) -> Seq<Face>
    decreases kmax(c, j) - kj,
{
    if kj >= kmax(c, j) {
        Seq::empty()
    } else {
        gen_cell(c, i, j, ki, kj) + gen_kj(c, i, j, ki, kj + 1)
    }
}

/// The faces of axis pair `(i, j)` from grid line `ki` on.
pub open spec fn gen_ki(c: GenCtx, i: int, j: int, ki: int) -> Seq<Face>
    decreases kmax(c, i) - ki,
{
    if ki >= kmax(c, i) {
        Seq::empty()
    } else {
        gen_kj(c, i, j, ki, kmin(c, j)) + gen_ki(c, i, j, ki + 1)
    }
}

/// The faces of axis pairs `(i, j')` for `j' >= j`; parallel pairs
/// contribute nothing.
pub open spec fn gen_j(c: GenCtx, i: int, j: int) -> Seq<Face>
    decreases c.dims - j,
{
    if j >= c.dims {
        Seq::empty()
    } else {
        (if abs_v(spec_ext(c.b0, c.b1, i, j)) < EPS_PAR as int {
            Seq::empty()
        } else {
            gen_ki(c, i, j, kmin(c, i))
        }) + gen_j(c, i, j + 1)
    }
}

/// The faces of axis pairs `(i', j)` for `i' >= i`.
pub open spec fn gen_i(c: GenCtx, i: int) -> Seq<Face>
    decreases c.dims - i,
{
    if i >= c.dims - 1 {
        Seq::empty()
    } else {
        gen_j(c, i, i + 1) + gen_i(c, i + 1)
    }
}

/// Every face of the tiling visible in the viewport, in enumeration
/// order.
pub open spec fn spec_generate(c: GenCtx) -> Seq<Face> {
    gen_i(c, 0)
}

/// Scales a vector of lattice coordinates up to fixed point.
fn scale_up(v: &Vec<i64>) -> (r: Vec<i128>)
    requires
        forall|ix: int| 0 <= ix < v@.len() ==> abs_v((#[trigger] v@[ix]) as int) <= VERT_MAX as int,
    ensures
        r@.len() == v@.len(),
        forall|ix: int|
            0 <= ix < v@.len() ==> (#[trigger] r@[ix]) as int == (v@[ix] as int) * (SCALE as int),
        all_bounded(r@, PROJ_IN_MAX as int),
{
    let n: usize = v.len();
    let mut out: Vec<i128> = Vec::new();
    let mut ix: usize = 0;
    while ix < n
        invariant
            ix <= n,
            n == v@.len(),
            forall|k: int| 0 <= k < n ==> abs_v((#[trigger] v@[k]) as int) <= VERT_MAX as int,
            out@.len() == ix,
            forall|k: int|
                0 <= k < ix ==> (#[trigger] out@[k]) as int == (v@[k] as int) * (SCALE as int),
            all_bounded(out@, PROJ_IN_MAX as int),
        decreases n - ix,
    {
        proof {
            lemma_mul_bound(v@[ix as int] as int, SCALE as int, VERT_MAX as int, SCALE as int);
        }
        let c: i128 = (v[ix] as i128) * SCALE;
        out.push(c);
        ix = ix + 1;
    }
    out
}

/// Generates the visible faces of the tiling cut by the plane
/// `(basis0, basis1, offset)` for a `view_width` by `view_height`
/// viewport centred on the origin.
pub fn generate(
    dims: usize,
    basis0: Vec<i128>,
    basis1: Vec<i128>,
    offset: Vec<i128>,
    view_width: i128,
    view_height: i128,
) -> (r: Result<FaceList, TilingError>)
    requires
        0 <= view_width <= VIEW_MAX,
        0 <= view_height <= VIEW_MAX,
    ensures
        r is Ok <==> spec_params_ok(dims as int, basis0@, basis1@, offset@),
        r matches Ok(fl) ==> fl.faces@ == spec_generate(
            make_ctx(
                dims as int,
                basis0@,
                basis1@,
                offset@,
                view_width as int,
                view_height as int,
            ),
        ),
        r matches Err(e) ==> e == TilingError::InvalidConfiguration,
{
    let st: State = match State::new(dims, basis0, basis1, offset) {
        Ok(st) => st,
        Err(e) => {
            return Err(e);
        },
    };
    let fl: FaceList = st.recompute(view_width, view_height);
    Ok(fl)
}

impl State {
    /// Re-derives the face list from the current state for the given
    /// viewport.
    pub fn recompute(&self, view_width: i128, view_height: i128) -> (fl: FaceList)
        requires
            self.wf(),
            0 <= view_width <= VIEW_MAX,
            0 <= view_height <= VIEW_MAX,
        ensures
            fl.faces@ == spec_generate(
                make_ctx(
                    self.dims as int,
                    self.basis0@,
                    self.basis1@,
                    self.offset@,
                    view_width as int,
                    view_height as int,
                ),
            ),
    {
        let ghost c = make_ctx(
            self.dims as int,
            self.basis0@,
            self.basis1@,
            self.offset@,
            view_width as int,
            view_height as int,
        );
        let rt: i128 = fx_sqrt(HALF_SCALE);
        proof {
            assert(rt as int <= SCALE as int) by (nonlinear_arith)
                requires
                    0 <= rt as int,
                    (rt as int) * (rt as int) <= (HALF_SCALE as int) * (SCALE as int),
                    HALF_SCALE as int == 140737488355328,
                    SCALE as int == 281474976710656,
            ;
            crate::fixed::lemma_tdiv_le(view_width as int, 2, 1152921504606846976);
            crate::fixed::lemma_tdiv_le(view_height as int, 2, 1152921504606846976);
        }
        let hbound: i128 = tdiv_i(view_width, 2) + rt;
        let vbound: i128 = tdiv_i(view_height, 2) + rt;
        let ranges: (Vec<i64>, Vec<i64>) = self.get_grid_ranges(hbound, vbound);
        let mins: Vec<i64> = ranges.0;
        let maxs: Vec<i64> = ranges.1;
        let dims: usize = self.dims;
        let mut faces: Vec<Face> = Vec::new();
        proof {
            assert(spec_generate(c) =~= faces@ + gen_i(c, 0));
        }
        let mut i: usize = 0;
        while i + 1 < dims
            invariant
                self.wf(),
                dims == self.dims,
                c == make_ctx(
                    self.dims as int,
                    self.basis0@,
                    self.basis1@,
                    self.offset@,
                    view_width as int,
                    view_height as int,
                ),
                hbound as int == c.hb,
                vbound as int == c.vb,
                abs_v(hbound as int) <= VIEW_MAX as int,
                abs_v(vbound as int) <= VIEW_MAX as int,
                mins@.len() == dims,
                maxs@.len() == dims,
                forall|k: int| 0 <= k < dims ==> (#[trigger] mins@[k]) as int == kmin(c, k),
                forall|k: int| 0 <= k < dims ==> (#[trigger] maxs@[k]) as int == kmax(c, k),
                forall|k: int| 0 <= k < dims ==> abs_v((#[trigger] mins@[k]) as int) <= K_MAX as int,
                forall|k: int| 0 <= k < dims ==> abs_v((#[trigger] maxs@[k]) as int) <= K_MAX as int,
                i <= dims,
                spec_generate(c) == faces@ + gen_i(c, i as int),
            decreases dims - i,
        {
            proof {
                assert(gen_i(c, i as int) == gen_j(c, i as int, i as int + 1) + gen_i(
                    c,
                    i as int + 1,
                ));
                assert(faces@ + gen_i(c, i as int) =~= faces@ + (gen_j(c, i as int, i as int + 1)
                    + gen_i(c, i as int + 1)));
            }
            let mut j: usize = i + 1;
            while j < dims
                invariant
                    self.wf(),
                    dims == self.dims,
                    c == make_ctx(
                        self.dims as int,
                        self.basis0@,
                        self.basis1@,
                        self.offset@,
                        view_width as int,
                        view_height as int,
                    ),
                    hbound as int == c.hb,
                    vbound as int == c.vb,
                    mins@.len() == dims,
                    maxs@.len() == dims,
                    forall|k: int| 0 <= k < dims ==> (#[trigger] mins@[k]) as int == kmin(c, k),
                    forall|k: int| 0 <= k < dims ==> (#[trigger] maxs@[k]) as int == kmax(c, k),
                    forall|k: int|
                        0 <= k < dims ==> abs_v((#[trigger] mins@[k]) as int) <= K_MAX as int,
                    forall|k: int|
                        0 <= k < dims ==> abs_v((#[trigger] maxs@[k]) as int) <= K_MAX as int,
                    i < dims,
                    i < j <= dims,
                    spec_generate(c) == faces@ + (gen_j(c, i as int, j as int) + gen_i(
                        c,
                        i as int + 1,
                    )),
                decreases dims - j,
            {
                proof {
                    lemma_ext_bound(self.basis0@, self.basis1@, i as int, j as int);
                }
                let e: i128 = self.ext[i][j];
                let ae: i128 = if e < 0 {
                    -e
                } else {
                    e
                };
                proof {
                    assert(gen_j(c, i as int, j as int) == (if abs_v(
                        spec_ext(c.b0, c.b1, i as int, j as int),
                    ) < EPS_PAR as int {
                        Seq::<Face>::empty()
                    } else {
                        gen_ki(c, i as int, j as int, kmin(c, i as int))
                    }) + gen_j(c, i as int, j as int + 1));
                }
                if ae >= EPS_PAR {
                    proof {
                        assert(faces@ + (gen_j(c, i as int, j as int) + gen_i(c, i as int + 1))
                            =~= faces@ + (gen_ki(c, i as int, j as int, kmin(c, i as int)) + (
                        gen_j(c, i as int, j as int + 1) + gen_i(c, i as int + 1))));
                    }
                    let mut ki: i64 = mins[i];
                    while ki < maxs[i]
                        invariant
                            self.wf(),
                            dims == self.dims,
                            c == make_ctx(
                                self.dims as int,
                                self.basis0@,
                                self.basis1@,
                                self.offset@,
                                view_width as int,
                                view_height as int,
                            ),
                            hbound as int == c.hb,
                            vbound as int == c.vb,
                            mins@.len() == dims,
                            maxs@.len() == dims,
                            forall|k: int|
                                0 <= k < dims ==> (#[trigger] mins@[k]) as int == kmin(c, k),
                            forall|k: int|
                                0 <= k < dims ==> (#[trigger] maxs@[k]) as int == kmax(c, k),
                            forall|k: int|
                                0 <= k < dims ==> abs_v((#[trigger] mins@[k]) as int)
                                    <= K_MAX as int,
                            forall|k: int|
                                0 <= k < dims ==> abs_v((#[trigger] maxs@[k]) as int)
                                    <= K_MAX as int,
                            i < j < dims,
                            mins@[i as int] <= ki,
                            ki as int <= kmax(c, i as int) || ki == mins@[i as int],
                            abs_v(ki as int) <= K_MAX as int,
                            abs_v(spec_ext(c.b0, c.b1, i as int, j as int)) >= EPS_PAR as int,
                            spec_generate(c) == faces@ + (gen_ki(c, i as int, j as int, ki as int)
                                + (gen_j(c, i as int, j as int + 1) + gen_i(c, i as int + 1))),
                        decreases kmax(c, i as int) - ki,
                    {
                        proof {
                            assert(gen_ki(c, i as int, j as int, ki as int) == gen_kj(
                                c,
                                i as int,
                                j as int,
                                ki as int,
                                kmin(c, j as int),
                            ) + gen_ki(c, i as int, j as int, ki as int + 1));
                            assert(faces@ + (gen_ki(c, i as int, j as int, ki as int) + (gen_j(
                                c,
                                i as int,
                                j as int + 1,
                            ) + gen_i(c, i as int + 1))) =~= faces@ + (gen_kj(
                                c,
                                i as int,
                                j as int,
                                ki as int,
                                kmin(c, j as int),
                            ) + (gen_ki(c, i as int, j as int, ki as int + 1) + (gen_j(
                                c,
                                i as int,
                                j as int + 1,
                            ) + gen_i(c, i as int + 1)))));
                        }
                        let mut kj: i64 = mins[j];
                        while kj < maxs[j]
                            invariant
                                self.wf(),
                                dims == self.dims,
                                c == make_ctx(
                                    self.dims as int,
                                    self.basis0@,
                                    self.basis1@,
                                    self.offset@,
                                    view_width as int,
                                    view_height as int,
                                ),
                                hbound as int == c.hb,
                                vbound as int == c.vb,
                                mins@.len() == dims,
                                maxs@.len() == dims,
                                forall|k: int|
                                    0 <= k < dims ==> (#[trigger] mins@[k]) as int == kmin(c, k),
                                forall|k: int|
                                    0 <= k < dims ==> (#[trigger] maxs@[k]) as int == kmax(c, k),
                                forall|k: int|
                                    0 <= k < dims ==> abs_v((#[trigger] mins@[k]) as int)
                                        <= K_MAX as int,
                                forall|k: int|
                                    0 <= k < dims ==> abs_v((#[trigger] maxs@[k]) as int)
                                        <= K_MAX as int,
                                i < j < dims,
                                abs_v(ki as int) <= K_MAX as int,
                                mins@[j as int] <= kj,
                                kj as int <= kmax(c, j as int) || kj == mins@[j as int],
                                abs_v(kj as int) <= K_MAX as int,
                                abs_v(spec_ext(c.b0, c.b1, i as int, j as int)) >= EPS_PAR as int,
                                spec_generate(c) == faces@ + (gen_kj(
                                    c,
                                    i as int,
                                    j as int,
                                    ki as int,
                                    kj as int,
                                ) + (gen_ki(c, i as int, j as int, ki as int + 1) + (gen_j(
                                    c,
                                    i as int,
                                    j as int + 1,
                                ) + gen_i(c, i as int + 1)))),
                            decreases kmax(c, j as int) - kj,
                        {
                            let vert: Vec<i64> = self.get_face_vertex(i, j, ki, kj);
                            let vraw: Vec<i128> = scale_up(&vert);
                            proof {
                                assert(vraw@ =~= spec_vert_raw(
                                    c,
                                    i as int,
                                    j as int,
                                    ki as int,
                                    kj as int,
                                ));
                                lemma_proj_sum_bound(vraw@, c.off, c.b0, c.dims as nat);
                                lemma_proj_sum_bound(vraw@, c.off, c.b1, c.dims as nat);
                                crate::fixed::lemma_tdiv_mag(
                                    self.basis0@[i as int] + self.basis0@[j as int],
                                    2,
                                );
                                crate::fixed::lemma_tdiv_mag(
                                    self.basis1@[i as int] + self.basis1@[j as int],
                                    2,
                                );
                            }
                            let f1: (i128, i128) = self.project(&vraw);
                            let mid_x: i128 = f1.0 + tdiv_i(self.basis0[i] + self.basis0[j], 2);
                            let mid_y: i128 = f1.1 + tdiv_i(self.basis1[i] + self.basis1[j], 2);
                            let amx: i128 = if mid_x < 0 {
                                -mid_x
                            } else {
                                mid_x
                            };
                            let amy: i128 = if mid_y < 0 {
                                -mid_y
                            } else {
                                mid_y
                            };
                            proof {
                                assert(gen_kj(c, i as int, j as int, ki as int, kj as int)
                                    == gen_cell(c, i as int, j as int, ki as int, kj as int)
                                    + gen_kj(c, i as int, j as int, ki as int, kj as int + 1));
                            }
                            let ghost rest = gen_ki(c, i as int, j as int, ki as int + 1) + (gen_j(
                                c,
                                i as int,
                                j as int + 1,
                            ) + gen_i(c, i as int + 1));
                            let ghost pre = faces@;
                            if amx <= hbound && amy <= vbound {
                                let face: Face = Face {
                                    key_vert_x: f1.0,
                                    key_vert_y: f1.1,
                                    axis1: i as u16,
                                    axis2: j as u16,
                                };
                                proof {
                                    assert(face == spec_face(
                                        c,
                                        i as int,
                                        j as int,
                                        ki as int,
                                        kj as int,
                                    ));
                                    assert(spec_keep(c, i as int, j as int, ki as int, kj as int));
                                    assert(faces@ + (gen_kj(
                                        c,
                                        i as int,
                                        j as int,
                                        ki as int,
                                        kj as int,
                                    ) + rest) =~= (faces@ + seq![face]) + (gen_kj(
                                        c,
                                        i as int,
                                        j as int,
                                        ki as int,
                                        kj as int + 1,
                                    ) + rest));
                                }
                                faces.push(face);
                                proof {
                                    assert(faces@ =~= pre + seq![face]);
                                }
                            } else {
                                proof {
                                    assert(!spec_keep(c, i as int, j as int, ki as int, kj as int));
                                    assert(faces@ + (gen_kj(
                                        c,
                                        i as int,
                                        j as int,
                                        ki as int,
                                        kj as int,
                                    ) + rest) =~= faces@ + (gen_kj(
                                        c,
                                        i as int,
                                        j as int,
                                        ki as int,
                                        kj as int + 1,
                                    ) + rest));
                                }
                            }
                            kj = kj + 1;
                        }
                        proof {
                            assert(gen_kj(c, i as int, j as int, ki as int, kj as int)
                                =~= Seq::<Face>::empty());
                            assert(faces@ + (gen_kj(c, i as int, j as int, ki as int, kj as int)
                                + (gen_ki(c, i as int, j as int, ki as int + 1) + (gen_j(
                                c,
                                i as int,
                                j as int + 1,
                            ) + gen_i(c, i as int + 1)))) =~= faces@ + (gen_ki(
                                c,
                                i as int,
                                j as int,
                                ki as int + 1,
                            ) + (gen_j(c, i as int, j as int + 1) + gen_i(c, i as int + 1))));
                        }
                        ki = ki + 1;
                    }
                    proof {
                        assert(gen_ki(c, i as int, j as int, ki as int) =~= Seq::<Face>::empty());
                        assert(faces@ + (gen_ki(c, i as int, j as int, ki as int) + (gen_j(
                            c,
                            i as int,
                            j as int + 1,
                        ) + gen_i(c, i as int + 1))) =~= faces@ + (gen_j(c, i as int, j as int + 1)
                            + gen_i(c, i as int + 1)));
                    }
                } else {
                    proof {
                        assert(faces@ + (gen_j(c, i as int, j as int) + gen_i(c, i as int + 1))
                            =~= faces@ + (gen_j(c, i as int, j as int + 1) + gen_i(
                            c,
                            i as int + 1,
                        )));
                    }
                }
                j = j + 1;
            }
            proof {
                assert(gen_j(c, i as int, j as int) =~= Seq::<Face>::empty());
                assert(faces@ + (gen_j(c, i as int, j as int) + gen_i(c, i as int + 1)) =~= faces@
                    + gen_i(c, i as int + 1));
            }
            i = i + 1;
        }
        proof {
            assert(gen_i(c, i as int) =~= Seq::<Face>::empty());
            assert(spec_generate(c) =~= faces@);
        }
        FaceList { faces }
    }
}

/// A corner coordinate of an admitted viewport stays within
/// `2^16 + 5` grid cells of the origin.
proof fn lemma_corner_small(
    b0: Seq<i128>,
    b1: Seq<i128>,
    off: Seq<i128>,
    h: int,
    v: int,
    i: int,
)
    requires
        0 <= i < b0.len(),
        b1.len() == b0.len(),
        off.len() == b0.len(),
        all_bounded(b0, BASIS_MAX as int),
        all_bounded(b1, BASIS_MAX as int),
        all_bounded(off, BASIS_MAX as int),
        abs_v(h) <= VIEW_MAX as int,
        abs_v(v) <= VIEW_MAX as int,
    ensures
        abs_v(unproj_coord(b0, b1, off, h, v, i)) <= 18447869973616394240,
        abs_v(unproj_coord(b0, b1, off, h, v, i) / (SCALE as int)) <= 65541,
        abs_v(spec_ceil(unproj_coord(b0, b1, off, h, v, i))) <= 65541,
{
    lemma_mul_bound(h, b0[i] as int, VIEW_MAX as int, BASIS_MAX as int);
    lemma_mul_bound(v, b1[i] as int, VIEW_MAX as int, BASIS_MAX as int);
    lemma_tdiv_le(h * b0[i] + v * b1[i], SCALE as int, 18446744073709551616);
    let c = unproj_coord(b0, b1, off, h, v, i);
    assert(abs_v(c) <= 18447869973616394240);
    lemma_floor_bounded(c, 65541);
    lemma_floor_bounded(-c, 65541);
}

} // verus!
