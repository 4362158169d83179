//! The basis editor: resetting, overwriting, translating and rotating
//! the cutting plane.

use vstd::prelude::*;
use vstd::arithmetic::div_mod::{
    lemma_add_mod_noop_right, lemma_div_pos_is_pos, lemma_small_mod,
};
use vstd::pervasive::VecAdditionalExecFns;

use crate::fixed::{
    abs_v, clamp_unit, fmul, fx_fract, fx_mul, fx_sin_cos, fx_sqrt, lemma_mul_bound,
    lemma_tdiv_neg, spec_cos_fx, spec_fx_sqrt, spec_sin_fx, tdiv, tdiv_i, PI_FX, SCALE,
};
use crate::multigrid::{
    all_bounded, ext_products, unproj_coord, State, BASIS_MAX, DIMS_MAX, PLANE_CLAMP,
};
use crate::TilingError;

verus! {

/// The canonical offset component: `0.3` when the dimension count is 5
/// (the standard non-singular choice for the five-fold tiling), `0`
/// otherwise.
pub open spec fn spec_reset_offset_comp(dims: int) -> int {
    if dims == 5 {
        tdiv(3 * (SCALE as int), 10)
    } else {
        0
    }
}

/// The canonical basis magnitude `sqrt(2/dims)`.
pub open spec fn spec_reset_f(dims: int) -> int {
    spec_fx_sqrt(tdiv(2 * (SCALE as int), dims))
}

/// The canonical angle step `((dims mod 2) + 1) * pi / dims`.
pub open spec fn spec_reset_g(dims: int) -> int {
    tdiv((if dims % 2 == 0 { 1int } else { 2int }) * (PI_FX as int), dims)
}

/// Component `i` of the canonical first basis vector:
/// `f * cos(g * i)`.
pub open spec fn spec_reset_b0(dims: int, i: int) -> int {
    fmul(spec_reset_f(dims), spec_cos_fx(spec_reset_g(dims) * i))
}

/// Component `i` of the canonical second basis vector:
/// `f * sin(g * i)`.
pub open spec fn spec_reset_b1(dims: int, i: int) -> int {
    fmul(spec_reset_f(dims), spec_sin_fx(spec_reset_g(dims) * i))
}

/// Component `i` of the offset after a translation of the plane by the
/// view-plane vector `(du, dv)`: the unprojected point, reduced into
/// the fundamental domain `[0, 1)^dims`.
pub open spec fn spec_translate_coord(
    b0: Seq<i128>,
    b1: Seq<i128>,
    off: Seq<i128>,
    du: int,
    dv: int,
    i: int,
) -> int {
    unproj_coord(b0, b1, off, du, dv, i) % (SCALE as int)
}

impl State {
    /// Resets every offset component to the canonical value.
    pub fn reset_offset(&mut self)
        requires
            old(self).wf(),
        ensures
            final(self).wf(),
            final(self).dims == old(self).dims,
            final(self).basis0@ == old(self).basis0@,
            final(self).basis1@ == old(self).basis1@,
            final(self).ext@ == old(self).ext@,
            final(self).offset@.len() == final(self).dims,
            forall|i: int|
                0 <= i < final(self).dims ==> (#[trigger] final(self).offset@[i]) as int
                    == spec_reset_offset_comp(final(self).dims as int),
    {
        let dims: usize = self.dims;
        let val: i128 = if dims == 5 {
            tdiv_i(3 * SCALE, 10)
        } else {
            0
        };
        proof {
            lemma_div_pos_is_pos(3 * (SCALE as int), 10);
        }
        let mut off: Vec<i128> = Vec::new();
        let mut i: usize = 0;
        while i < dims
            invariant
                i <= dims,
                abs_v(val as int) <= BASIS_MAX as int,
                val as int == spec_reset_offset_comp(dims as int),
                off@.len() == i,
                forall|k: int|
                    0 <= k < i ==> (#[trigger] off@[k]) as int == spec_reset_offset_comp(
                        dims as int,
                    ),
                all_bounded(off@, BASIS_MAX as int),
            decreases dims - i,
        {
            off.push(val);
            i = i + 1;
        }
        self.offset = off;
    }

    /// Resets the basis to the canonical orthonormal generating plane:
    /// `basis0[i] = f*cos(g*i)`, `basis1[i] = f*sin(g*i)` with
    /// `f = sqrt(2/dims)` and `g = ((dims mod 2) + 1)*pi/dims`.
    pub fn reset_basis(&mut self)
        requires
            old(self).wf(),
        ensures
            final(self).wf(),
            final(self).dims == old(self).dims,
            final(self).offset@ == old(self).offset@,
            final(self).basis0@.len() == final(self).dims,
            final(self).basis1@.len() == final(self).dims,
            forall|i: int|
                0 <= i < final(self).dims ==> (#[trigger] final(self).basis0@[i]) as int == spec_reset_b0(
                    final(self).dims as int,
                    i,
                ),
            forall|i: int|
                0 <= i < final(self).dims ==> (#[trigger] final(self).basis1@[i]) as int == spec_reset_b1(
                    final(self).dims as int,
                    i,
                ),
    {
        let dims: usize = self.dims;
        proof {
            lemma_div_pos_is_pos(2 * (SCALE as int), dims as int);
        }
        proof {
            assert(2 * (SCALE as int) <= (SCALE as int) * (dims as int)) by (nonlinear_arith)
                requires
                    dims as int >= 2,
                    SCALE as int >= 0,
            ;
            crate::fixed::lemma_tdiv_le(2 * (SCALE as int), dims as int, SCALE as int);
        }
        let two_over_n: i128 = tdiv_i(2 * SCALE, dims as i128);
        let f: i128 = fx_sqrt(two_over_n);
        proof {
            assert(f as int <= SCALE as int) by (nonlinear_arith)
                requires
                    0 <= f as int,
                    (f as int) * (f as int) <= (two_over_n as int) * (SCALE as int),
                    0 <= two_over_n as int <= SCALE as int,
                    SCALE as int == 281474976710656,
            ;
            lemma_div_pos_is_pos(2 * (PI_FX as int), dims as int);
            lemma_div_pos_is_pos(1 * (PI_FX as int), dims as int);
        }
        let m: i128 = if dims % 2 == 0 {
            1
        } else {
            2
        };
        let g: i128 = tdiv_i(m * PI_FX, dims as i128);
        let mut b0: Vec<i128> = Vec::new();
        let mut b1: Vec<i128> = Vec::new();
        let mut i: usize = 0;
        while i < dims
            invariant
                i <= dims,
                2 <= dims <= DIMS_MAX,
                0 <= f as int <= SCALE as int,
                f as int == spec_reset_f(dims as int),
                0 <= g as int <= 2 * (PI_FX as int),
                g as int == spec_reset_g(dims as int),
                b0@.len() == i,
                b1@.len() == i,
                forall|k: int|
                    0 <= k < i ==> (#[trigger] b0@[k]) as int == spec_reset_b0(dims as int, k),
                forall|k: int|
                    0 <= k < i ==> (#[trigger] b1@[k]) as int == spec_reset_b1(dims as int, k),
                all_bounded(b0@, BASIS_MAX as int),
                all_bounded(b1@, BASIS_MAX as int),
            decreases dims - i,
        {
            proof {
                lemma_mul_bound(g as int, i as int, 2 * (PI_FX as int), DIMS_MAX as int);
                assert((g as int) * (i as int) >= 0) by (nonlinear_arith)
                    requires
                        g as int >= 0,
                        i as int >= 0,
                ;
            }
            let t: i128 = g * (i as i128);
            let sc: (i128, i128) = fx_sin_cos(t);
            proof {
                lemma_mul_bound(f as int, sc.1 as int, SCALE as int, SCALE as int);
                lemma_mul_bound(f as int, sc.0 as int, SCALE as int, SCALE as int);
            }
            let c0: i128 = fx_mul(f, sc.1);
            let c1: i128 = fx_mul(f, sc.0);
            b0.push(c0);
            b1.push(c1);
            i = i + 1;
        }
        let ext: Vec<Vec<i128>> = ext_products(&b0, &b1);
        self.basis0 = b0;
        self.basis1 = b1;
        self.ext = ext;
    }

    /// Overwrites basis vector `which` (0 or 1); the exterior-product
    /// cache is re-derived. The caller is responsible for
    /// re-establishing orthonormality before relying on
    /// geometry-derived results.
    pub fn set_basis(&mut self, which: usize, vals: Vec<i128>) -> (r: Result<(), TilingError>)
        requires
            old(self).wf(),
        ensures
            final(self).wf(),
            final(self).dims == old(self).dims,
            final(self).offset@ == old(self).offset@,
            r is Ok <==> (which < 2 && vals@.len() == old(self).dims && all_bounded(
                vals@,
                BASIS_MAX as int,
            )),
            r is Ok && which == 0 ==> final(self).basis0@ == vals@ && final(self).basis1@ == old(self).basis1@,
            r is Ok && which == 1 ==> final(self).basis1@ == vals@ && final(self).basis0@ == old(self).basis0@,
            r is Err ==> final(self).basis0@ == old(self).basis0@ && final(self).basis1@ == old(self).basis1@
                && final(self).ext@ == old(self).ext@,
            r matches Err(e) ==> (e == TilingError::OutOfRange <==> which >= 2)
                && (e == TilingError::InvalidConfiguration <==> which < 2),
    {
        if which >= 2 {
            return Err(TilingError::OutOfRange);
        }
        if vals.len() != self.dims || !crate::multigrid::all_within(&vals, BASIS_MAX) {
            return Err(TilingError::InvalidConfiguration);
        }
        if which == 0 {
            self.basis0 = vals;
        } else {
            self.basis1 = vals;
        }
        let ext: Vec<Vec<i128>> = ext_products(&self.basis0, &self.basis1);
        self.ext = ext;
        Ok(())
    }

    /// Overwrites the whole offset vector.
    pub fn set_offset(&mut self, vals: Vec<i128>) -> (r: Result<(), TilingError>)
        requires
            old(self).wf(),
        ensures
            final(self).wf(),
            final(self).dims == old(self).dims,
            final(self).basis0@ == old(self).basis0@,
            final(self).basis1@ == old(self).basis1@,
            final(self).ext@ == old(self).ext@,
            r is Ok <==> (vals@.len() == old(self).dims && all_bounded(vals@, BASIS_MAX as int)),
            r is Ok ==> final(self).offset@ == vals@,
            r is Err ==> final(self).offset@ == old(self).offset@,
            r matches Err(e) ==> e == TilingError::InvalidConfiguration,
    {
        if vals.len() != self.dims || !crate::multigrid::all_within(&vals, BASIS_MAX) {
            return Err(TilingError::InvalidConfiguration);
        }
        self.offset = vals;
        Ok(())
    }

    /// Overwrites one offset component.
    pub fn set_offset_comp(&mut self, j: usize, val: i128) -> (r: Result<(), TilingError>)
        requires
            old(self).wf(),
        ensures
            final(self).wf(),
            final(self).dims == old(self).dims,
            final(self).basis0@ == old(self).basis0@,
            final(self).basis1@ == old(self).basis1@,
            final(self).ext@ == old(self).ext@,
            r is Ok <==> (j < old(self).dims && abs_v(val as int) <= BASIS_MAX as int),
            r is Ok ==> final(self).offset@ == old(self).offset@.update(j as int, val),
            r is Err ==> final(self).offset@ == old(self).offset@,
            r matches Err(e) ==> (e == TilingError::OutOfRange <==> j >= old(self).dims) && (e
                == TilingError::InvalidConfiguration <==> j < old(self).dims),
    {
        if j >= self.dims {
            return Err(TilingError::OutOfRange);
        }
        if val > BASIS_MAX || val < -BASIS_MAX {
            return Err(TilingError::InvalidConfiguration);
        }
        self.offset.set(j, val);
        Ok(())
    }

    /// Returns a copy of basis vector `which` (0 or 1).
    pub fn get_basis(&self, which: usize) -> (r: Result<Vec<i128>, TilingError>)
        ensures
            which == 0 ==> (r matches Ok(b) && b@ == self.basis0@),
            which == 1 ==> (r matches Ok(b) && b@ == self.basis1@),
            which >= 2 ==> (r matches Err(e) && e == TilingError::OutOfRange),
    {
        if which == 0 {
            Ok(copy_vec(&self.basis0))
        } else if which == 1 {
            Ok(copy_vec(&self.basis1))
        } else {
            Err(TilingError::OutOfRange)
        }
    }

    /// Returns a copy of the offset vector.
    pub fn get_offset(&self) -> (r: Vec<i128>)
        ensures
            r@ == self.offset@,
    {
        copy_vec(&self.offset)
    }

    /// Moves the cutting plane to the point of the grid space under the
    /// view-plane position `(du, dv)`, reducing each offset component
    /// into the fundamental domain `[0, 1)`.
    pub fn translate_offset(&mut self, du: i128, dv: i128)
        requires
            old(self).wf(),
            abs_v(du as int) <= PLANE_CLAMP as int,
            abs_v(dv as int) <= PLANE_CLAMP as int,
        ensures
            final(self).wf(),
            final(self).dims == old(self).dims,
            final(self).basis0@ == old(self).basis0@,
            final(self).basis1@ == old(self).basis1@,
            final(self).ext@ == old(self).ext@,
            final(self).offset@.len() == final(self).dims,
            forall|i: int|
                0 <= i < final(self).dims ==> (#[trigger] final(self).offset@[i]) as int == spec_translate_coord(
                    old(self).basis0@,
                    old(self).basis1@,
                    old(self).offset@,
                    du as int,
                    dv as int,
                    i,
                ),
    {
        let raw: Vec<i128> = self.unproject(du, dv);
        let dims: usize = self.dims;
        let mut off: Vec<i128> = Vec::new();
        let mut i: usize = 0;
        while i < dims
            invariant
                i <= dims,
                dims == self.dims,
                self.wf(),
                raw@.len() == dims,
                forall|k: int|
                    0 <= k < dims ==> (#[trigger] raw@[k]) as int == unproj_coord(
                        self.basis0@,
                        self.basis1@,
                        self.offset@,
                        du as int,
                        dv as int,
                        k,
                    ),
                off@.len() == i,
                forall|k: int|
                    0 <= k < i ==> (#[trigger] off@[k]) as int == spec_translate_coord(
                        self.basis0@,
                        self.basis1@,
                        self.offset@,
                        du as int,
                        dv as int,
                        k,
                    ),
                all_bounded(off@, BASIS_MAX as int),
            decreases dims - i,
        {
            let c: i128 = fx_fract(raw[i]);
            off.push(c);
            i = i + 1;
        }
        self.offset = off;
    }
}

/// Law: translating the offset by `(du, dv)` and then by `(-du, -dv)`
/// returns every offset component that started in the fundamental
/// domain `[0, 1)` exactly to its original value.
pub proof fn lemma_translate_offset_round_trip(
    b0: Seq<i128>,
    b1: Seq<i128>,
    off: Seq<i128>,
    off1: Seq<i128>,
    du: int,
    dv: int,
    i: int,
)
    requires
        0 <= i < b0.len(),
        b1.len() == b0.len(),
        off.len() == b0.len(),
        off1.len() == b0.len(),
        0 <= off[i],
        (off[i] as int) < SCALE as int,
        off1[i] as int == spec_translate_coord(b0, b1, off, du, dv, i),
    ensures
        spec_translate_coord(b0, b1, off1, -du, -dv, i) == off[i] as int,
{
    let s = SCALE as int;
    let m = tdiv(du * b0[i] + dv * b1[i], s);
    lemma_tdiv_neg(du * b0[i] + dv * b1[i], s);
    assert((-du) * b0[i] + (-dv) * b1[i] == -(du * b0[i] + dv * b1[i])) by (nonlinear_arith);
    assert(tdiv((-du) * b0[i] + (-dv) * b1[i], s) == -m);
    assert(off1[i] as int == (m + off[i]) % s);
    assert(spec_translate_coord(b0, b1, off1, -du, -dv, i) == (-m + (m + off[i]) % s) % s);
    lemma_add_mod_noop_right(-m, m + off[i], s);
    assert((-m + (m + off[i])) % s == (off[i] as int) % s);
    lemma_small_mod(off[i] as nat, s as nat);
}

/// Near-zero threshold for squared norms and requested magnitudes in
/// the rotation editor: 2^28 (about 1e-6).
pub const NORM_EPS: i128 = 268435456;

/// Largest component magnitude accepted by the k-normalizer: 2^63.
pub const KNORM_IN_MAX: i128 = 9223372036854775808;

/// The squared norm of `w` with component `ax` left out, over the
/// first `n` components.
pub open spec fn ssq_sum(w: Seq<i128>, ax: int, n: nat) -> int
    decreases n,
{
    if n == 0 {
        0
    } else {
        ssq_sum(w, ax, (n - 1) as nat) + (if n - 1 == ax {
            0
        } else {
            fmul(w[n - 1] as int, w[n - 1] as int)
        })
    }
}

/// The fixed-point dot product of the first `n` components.
pub open spec fn dotn_sum(a: Seq<i128>, b: Seq<i128>, n: nat) -> int
    decreases n,
{
    if n == 0 {
        0
    } else {
        dotn_sum(a, b, (n - 1) as nat) + fmul(a[n - 1] as int, b[n - 1] as int)
    }
}

/// Component `i` of the k-normalization of `w`: component `ax` is
/// pinned to `t`, and the rest are scaled so the whole vector has unit
/// norm; if the rest are all (near) zero, the required magnitude is
/// distributed equally with a fixed positive sign.
pub open spec fn spec_knorm_comp(w: Seq<i128>, ax: int, t: int, i: int) -> int {
    if i == ax {
        t
    } else {
        let ssq = ssq_sum(w, ax, w.len());
        let rem = SCALE as int - fmul(t, t);
        if ssq < NORM_EPS as int {
            spec_fx_sqrt(tdiv(rem, w.len() as int - 1))
        } else {
            clamp_unit(fmul(spec_fx_sqrt(tdiv(rem * (SCALE as int), ssq)), w[i] as int))
        }
    }
}

/// K-normalizes `w`: pins component `ax` to `t` and rescales the rest
/// to restore a unit norm.
fn knorm(w: &Vec<i128>, ax: usize, t: i128) -> (r: Vec<i128>)
    requires
        2 <= w@.len() <= DIMS_MAX,
        ax < w@.len(),
        0 <= t <= SCALE,
        all_bounded(w@, KNORM_IN_MAX as int),
    ensures
        r@.len() == w@.len(),
        forall|i: int|
            0 <= i < w@.len() ==> (#[trigger] r@[i]) as int == spec_knorm_comp(
                w@,
                ax as int,
                t as int,
                i,
            ),
        all_bounded(r@, SCALE as int),
{
    let n: usize = w.len();
    let mut ssq: i128 = 0;
    let mut i: usize = 0;
    while i < n
        invariant
            i <= n,
            n == w@.len(),
            2 <= n <= DIMS_MAX,
            ax < n,
            all_bounded(w@, KNORM_IN_MAX as int),
            ssq as int == ssq_sum(w@, ax as int, i as nat),
            0 <= ssq as int <= i * 302231454903657293676544,
        decreases n - i,
    {
        if i != ax {
            proof {
                lemma_mul_bound(w@[i as int] as int, w@[i as int] as int, KNORM_IN_MAX as int,
                    KNORM_IN_MAX as int);
                crate::fixed::lemma_tdiv_le(
                    (w@[i as int] as int) * (w@[i as int] as int),
                    SCALE as int,
                    302231454903657293676544,
                );
                assert((w@[i as int] as int) * (w@[i as int] as int) >= 0) by (nonlinear_arith);
                lemma_div_pos_is_pos((w@[i as int] as int) * (w@[i as int] as int), SCALE as int);
            }
            let term: i128 = fx_mul(w[i], w[i]);
            ssq = ssq + term;
        }
        i = i + 1;
    }
    proof {
        lemma_mul_bound(t as int, t as int, SCALE as int, SCALE as int);
        crate::fixed::lemma_tdiv_le((t as int) * (t as int), SCALE as int, SCALE as int);
        assert((t as int) * (t as int) >= 0) by (nonlinear_arith);
        lemma_div_pos_is_pos((t as int) * (t as int), SCALE as int);
    }
    let rem: i128 = SCALE - fx_mul(t, t);
    let mut out: Vec<i128> = Vec::new();
    if ssq < NORM_EPS {
        proof {
            lemma_div_pos_is_pos(rem as int, n as int - 1);
        }
        let q: i128 = tdiv_i(rem, (n as i128) - 1);
        let m: i128 = fx_sqrt(q);
        proof {
            assert(m as int <= SCALE as int) by (nonlinear_arith)
                requires
                    0 <= m as int,
                    (m as int) * (m as int) <= (q as int) * (SCALE as int),
                    0 <= q as int <= SCALE as int,
                    SCALE as int == 281474976710656,
            ;
        }
        let mut i2: usize = 0;
        while i2 < n
            invariant
                i2 <= n,
                n == w@.len(),
                2 <= n <= DIMS_MAX,
                ax < n,
                0 <= t <= SCALE,
                0 <= m as int <= SCALE as int,
                ssq as int == ssq_sum(w@, ax as int, n as nat),
                (ssq as int) < NORM_EPS as int,
                rem as int == SCALE as int - fmul(t as int, t as int),
                m as int == spec_fx_sqrt(tdiv(rem as int, n as int - 1)),
                out@.len() == i2,
                forall|k: int|
                    0 <= k < i2 ==> (#[trigger] out@[k]) as int == spec_knorm_comp(
                        w@,
                        ax as int,
                        t as int,
                        k,
                    ),
                all_bounded(out@, SCALE as int),
            decreases n - i2,
        {
            if i2 == ax {
                out.push(t);
            } else {
                out.push(m);
            }
            i2 = i2 + 1;
        }
    } else {
        proof {
            lemma_mul_bound(rem as int, SCALE as int, SCALE as int, SCALE as int);
            assert(295147905179352825856 * (NORM_EPS as int) <= 295147905179352825856 * (
            ssq as int)) by (nonlinear_arith)
                requires
                    ssq as int >= NORM_EPS as int,
            ;
            crate::fixed::lemma_tdiv_le(
                (rem as int) * (SCALE as int),
                ssq as int,
                295147905179352825856,
            );
            assert((rem as int) * (SCALE as int) >= 0) by (nonlinear_arith)
                requires
                    rem as int >= 0,
                    SCALE as int >= 0,
            ;
            lemma_div_pos_is_pos((rem as int) * (SCALE as int), ssq as int);
        }
        let ratio: i128 = tdiv_i(rem * SCALE, ssq);
        let lam: i128 = fx_sqrt(ratio);
        proof {
            assert(lam as int <= 288230376151711744) by (nonlinear_arith)
                requires
                    0 <= lam as int,
                    (lam as int) * (lam as int) <= (ratio as int) * (SCALE as int),
                    0 <= ratio as int <= 295147905179352825856,
                    SCALE as int == 281474976710656,
            ;
        }
        let mut i3: usize = 0;
        while i3 < n
            invariant
                i3 <= n,
                n == w@.len(),
                2 <= n <= DIMS_MAX,
                ax < n,
                0 <= t <= SCALE,
                all_bounded(w@, KNORM_IN_MAX as int),
                ssq as int == ssq_sum(w@, ax as int, n as nat),
                ssq as int >= NORM_EPS as int,
                rem as int == SCALE as int - fmul(t as int, t as int),
                0 <= lam as int <= 288230376151711744,
                lam as int == spec_fx_sqrt(tdiv((rem as int) * (SCALE as int), ssq as int)),
                out@.len() == i3,
                forall|k: int|
                    0 <= k < i3 ==> (#[trigger] out@[k]) as int == spec_knorm_comp(
                        w@,
                        ax as int,
                        t as int,
                        k,
                    ),
                all_bounded(out@, SCALE as int),
            decreases n - i3,
        {
            if i3 == ax {
                out.push(t);
            } else {
                proof {
                    lemma_mul_bound(
                        lam as int,
                        w@[i3 as int] as int,
                        288230376151711744,
                        KNORM_IN_MAX as int,
                    );
                }
                let c: i128 = crate::fixed::clamp_unit_x(fx_mul(lam, w[i3]));
                out.push(c);
            }
            i3 = i3 + 1;
        }
    }
    out
}

/// The new basis pair produced by the interactive rotation: the
/// orthonormal basis is rotated so its first component aligns with the
/// requested direction, the second vector is k-normalized with its
/// `ax` component pinned to zero, the first is re-orthogonalized and
/// k-normalized with its `ax` component pinned to the clamped
/// magnitude `k`, and the pair is rotated back. The projection of axis
/// `ax` becomes the requested direction, clamped to unit length.
pub open spec fn spec_move_axis(b0: Seq<i128>, b1: Seq<i128>, ax: int, x: int, y: int) -> (
    Seq<i128>,
    Seq<i128>,
) {
    let n = b0.len();
    let hsq = fmul(x, x) + fmul(y, y);
    let h = spec_fx_sqrt(hsq);
    let cth = if h < NORM_EPS as int {
        SCALE as int
    } else {
        clamp_unit(tdiv(x * (SCALE as int), h))
    };
    let sth = if h < NORM_EPS as int {
        0
    } else {
        clamp_unit(tdiv(y * (SCALE as int), h))
    };
    let k = if h < NORM_EPS as int {
        0
    } else if h > SCALE as int {
        SCALE as int
    } else {
        h
    };
    let u = Seq::new(n, |i: int| (fmul(cth, b0[i] as int) + fmul(sth, b1[i] as int)) as i128);
    let v = Seq::new(n, |i: int| (fmul(cth, b1[i] as int) - fmul(sth, b0[i] as int)) as i128);
    let vn = Seq::new(n, |i: int| spec_knorm_comp(v, ax, 0, i) as i128);
    let d = dotn_sum(u, vn, n);
    let uo = Seq::new(n, |i: int| (u[i] - fmul(d, vn[i] as int)) as i128);
    let un = Seq::new(n, |i: int| spec_knorm_comp(uo, ax, k, i) as i128);
    (
        Seq::new(n, |i: int| (fmul(cth, un[i] as int) - fmul(sth, vn[i] as int)) as i128),
        Seq::new(n, |i: int| (fmul(sth, un[i] as int) + fmul(cth, vn[i] as int)) as i128),
    )
}

impl State {
    /// Rotates the basis so that the plane projection of axis `ax`
    /// becomes the requested direction `(x, y)` (clamped to unit
    /// length), while the plane stays orthonormal and the other
    /// direction moves minimally.
    pub fn move_axis(&mut self, ax: usize, x: i128, y: i128) -> (r: Result<(), TilingError>)
        requires
            old(self).wf(),
        ensures
            final(self).wf(),
            final(self).dims == old(self).dims,
            final(self).offset@ == old(self).offset@,
            r is Ok <==> (ax < old(self).dims && abs_v(x as int) <= BASIS_MAX as int && abs_v(
                y as int,
            ) <= BASIS_MAX as int),
            r is Ok ==> final(self).basis0@ == spec_move_axis(
                old(self).basis0@,
                old(self).basis1@,
                ax as int,
                x as int,
                y as int,
            ).0,
            r is Ok ==> final(self).basis1@ == spec_move_axis(
                old(self).basis0@,
                old(self).basis1@,
                ax as int,
                x as int,
                y as int,
            ).1,
            r is Err ==> final(self).basis0@ == old(self).basis0@ && final(self).basis1@ == old(
                self,
            ).basis1@ && final(self).ext@ == old(self).ext@,
            r matches Err(e) ==> (e == TilingError::OutOfRange <==> ax >= old(self).dims) && (e
                == TilingError::InvalidConfiguration <==> ax < old(self).dims),
    {
        if ax >= self.dims {
            return Err(TilingError::OutOfRange);
        }
        if x > BASIS_MAX || x < -BASIS_MAX || y > BASIS_MAX || y < -BASIS_MAX {
            return Err(TilingError::InvalidConfiguration);
        }
        let ghost ob0 = self.basis0@;
        let ghost ob1 = self.basis1@;
        proof {
            lemma_mul_bound(x as int, x as int, BASIS_MAX as int, BASIS_MAX as int);
            lemma_mul_bound(y as int, y as int, BASIS_MAX as int, BASIS_MAX as int);
            crate::fixed::lemma_tdiv_le(
                (x as int) * (x as int),
                SCALE as int,
                4503599627370496,
            );
            crate::fixed::lemma_tdiv_le(
                (y as int) * (y as int),
                SCALE as int,
                4503599627370496,
            );
            assert((x as int) * (x as int) >= 0) by (nonlinear_arith);
            assert((y as int) * (y as int) >= 0) by (nonlinear_arith);
            lemma_div_pos_is_pos((x as int) * (x as int), SCALE as int);
            lemma_div_pos_is_pos((y as int) * (y as int), SCALE as int);
        }
        let hsq: i128 = fx_mul(x, x) + fx_mul(y, y);
        let h: i128 = fx_sqrt(hsq);
        let cth: i128;
        let sth: i128;
        let k: i128;
        if h < NORM_EPS {
            cth = SCALE;
            sth = 0;
            k = 0;
        } else {
            proof {
                lemma_mul_bound(x as int, SCALE as int, BASIS_MAX as int, SCALE as int);
                lemma_mul_bound(y as int, SCALE as int, BASIS_MAX as int, SCALE as int);
            }
            cth = crate::fixed::clamp_unit_x(tdiv_i(x * SCALE, h));
            sth = crate::fixed::clamp_unit_x(tdiv_i(y * SCALE, h));
            k = if h > SCALE {
                SCALE
            } else {
                h
            };
        }
        let dims: usize = self.dims;
        let mut u: Vec<i128> = Vec::new();
        let mut v: Vec<i128> = Vec::new();
        let mut i: usize = 0;
        while i < dims
            invariant
                i <= dims,
                dims == self.dims,
                self.wf(),
                ob0 == self.basis0@,
                ob1 == self.basis1@,
                abs_v(cth as int) <= SCALE as int,
                abs_v(sth as int) <= SCALE as int,
                u@.len() == i,
                v@.len() == i,
                forall|p: int|
                    0 <= p < i ==> (#[trigger] u@[p]) as int == fmul(cth as int, ob0[p] as int)
                        + fmul(sth as int, ob1[p] as int),
                forall|p: int|
                    0 <= p < i ==> (#[trigger] v@[p]) as int == fmul(cth as int, ob1[p] as int)
                        - fmul(sth as int, ob0[p] as int),
                all_bounded(u@, 2 * BASIS_MAX as int),
                all_bounded(v@, 2 * BASIS_MAX as int),
            decreases dims - i,
        {
            proof {
                lemma_mul_bound(cth as int, ob0[i as int] as int, SCALE as int, BASIS_MAX as int);
                lemma_mul_bound(sth as int, ob1[i as int] as int, SCALE as int, BASIS_MAX as int);
                lemma_mul_bound(cth as int, ob1[i as int] as int, SCALE as int, BASIS_MAX as int);
                lemma_mul_bound(sth as int, ob0[i as int] as int, SCALE as int, BASIS_MAX as int);
                crate::fixed::lemma_tdiv_le(
                    (cth as int) * (ob0[i as int] as int),
                    SCALE as int,
                    BASIS_MAX as int,
                );
                crate::fixed::lemma_tdiv_le(
                    (sth as int) * (ob1[i as int] as int),
                    SCALE as int,
                    BASIS_MAX as int,
                );
                crate::fixed::lemma_tdiv_le(
                    (cth as int) * (ob1[i as int] as int),
                    SCALE as int,
                    BASIS_MAX as int,
                );
                crate::fixed::lemma_tdiv_le(
                    (sth as int) * (ob0[i as int] as int),
                    SCALE as int,
                    BASIS_MAX as int,
                );
            }
            let ui: i128 = fx_mul(cth, self.basis0[i]) + fx_mul(sth, self.basis1[i]);
            let vi: i128 = fx_mul(cth, self.basis1[i]) - fx_mul(sth, self.basis0[i]);
            u.push(ui);
            v.push(vi);
            i = i + 1;
        }
        let vn: Vec<i128> = knorm(&v, ax, 0);
        let mut d: i128 = 0;
        let mut i4: usize = 0;
        while i4 < dims
            invariant
                i4 <= dims,
                dims == u@.len(),
                dims == vn@.len(),
                dims <= DIMS_MAX,
                all_bounded(u@, 2 * BASIS_MAX as int),
                all_bounded(vn@, SCALE as int),
                d as int == dotn_sum(u@, vn@, i4 as nat),
                abs_v(d as int) <= i4 * (2 * BASIS_MAX as int),
            decreases dims - i4,
        {
            proof {
                lemma_mul_bound(u@[i4 as int] as int, vn@[i4 as int] as int, 2 * BASIS_MAX as int,
                    SCALE as int);
                crate::fixed::lemma_tdiv_le(
                    (u@[i4 as int] as int) * (vn@[i4 as int] as int),
                    SCALE as int,
                    2 * BASIS_MAX as int,
                );
            }
            proof {
                assert(i4 * (2 * BASIS_MAX as int) <= 1024 * (2 * BASIS_MAX as int))
                    by (nonlinear_arith)
                    requires
                        0 <= i4 <= 1024,
                        BASIS_MAX as int >= 0,
                ;
                assert((i4 + 1) * (2 * BASIS_MAX as int) == i4 * (2 * BASIS_MAX as int) + 2 * (
                BASIS_MAX as int)) by (nonlinear_arith);
            }
            let term: i128 = fx_mul(u[i4], vn[i4]);
            d = d + term;
            i4 = i4 + 1;
        }
        let mut uo: Vec<i128> = Vec::new();
        let mut i5: usize = 0;
        while i5 < dims
            invariant
                i5 <= dims,
                dims == u@.len(),
                dims == vn@.len(),
                dims <= DIMS_MAX,
                all_bounded(u@, 2 * BASIS_MAX as int),
                all_bounded(vn@, SCALE as int),
                abs_v(d as int) <= 2305843009213693952,
                uo@.len() == i5,
                forall|p: int|
                    0 <= p < i5 ==> (#[trigger] uo@[p]) as int == u@[p] - fmul(
                        d as int,
                        vn@[p] as int,
                    ),
                all_bounded(uo@, KNORM_IN_MAX as int),
            decreases dims - i5,
        {
            proof {
                lemma_mul_bound(d as int, vn@[i5 as int] as int, 2305843009213693952,
                    SCALE as int);
                crate::fixed::lemma_tdiv_le(
                    (d as int) * (vn@[i5 as int] as int),
                    SCALE as int,
                    2305843009213693952,
                );
            }
            let c: i128 = u[i5] - fx_mul(d, vn[i5]);
            uo.push(c);
            i5 = i5 + 1;
        }
        let un: Vec<i128> = knorm(&uo, ax, k);
        let mut nb0: Vec<i128> = Vec::new();
        let mut nb1: Vec<i128> = Vec::new();
        let mut i6: usize = 0;
        while i6 < dims
            invariant
                i6 <= dims,
                dims == un@.len(),
                dims == vn@.len(),
                dims <= DIMS_MAX,
                abs_v(cth as int) <= SCALE as int,
                abs_v(sth as int) <= SCALE as int,
                all_bounded(un@, SCALE as int),
                all_bounded(vn@, SCALE as int),
                nb0@.len() == i6,
                nb1@.len() == i6,
                forall|p: int|
                    0 <= p < i6 ==> (#[trigger] nb0@[p]) as int == fmul(cth as int, un@[p] as int)
                        - fmul(sth as int, vn@[p] as int),
                forall|p: int|
                    0 <= p < i6 ==> (#[trigger] nb1@[p]) as int == fmul(sth as int, un@[p] as int)
                        + fmul(cth as int, vn@[p] as int),
                all_bounded(nb0@, BASIS_MAX as int),
                all_bounded(nb1@, BASIS_MAX as int),
            decreases dims - i6,
        {
            proof {
                lemma_mul_bound(cth as int, un@[i6 as int] as int, SCALE as int, SCALE as int);
                lemma_mul_bound(sth as int, vn@[i6 as int] as int, SCALE as int, SCALE as int);
                lemma_mul_bound(sth as int, un@[i6 as int] as int, SCALE as int, SCALE as int);
                lemma_mul_bound(cth as int, vn@[i6 as int] as int, SCALE as int, SCALE as int);
                crate::fixed::lemma_tdiv_le(
                    (cth as int) * (un@[i6 as int] as int),
                    SCALE as int,
                    SCALE as int,
                );
                crate::fixed::lemma_tdiv_le(
                    (sth as int) * (vn@[i6 as int] as int),
                    SCALE as int,
                    SCALE as int,
                );
                crate::fixed::lemma_tdiv_le(
                    (sth as int) * (un@[i6 as int] as int),
                    SCALE as int,
                    SCALE as int,
                );
                crate::fixed::lemma_tdiv_le(
                    (cth as int) * (vn@[i6 as int] as int),
                    SCALE as int,
                    SCALE as int,
                );
            }
            let c0: i128 = fx_mul(cth, un[i6]) - fx_mul(sth, vn[i6]);
            let c1: i128 = fx_mul(sth, un[i6]) + fx_mul(cth, vn[i6]);
            nb0.push(c0);
            nb1.push(c1);
            i6 = i6 + 1;
        }
        proof {
            let sm = spec_move_axis(ob0, ob1, ax as int, x as int, y as int);
            assert(u@ =~= Seq::new(
                ob0.len(),
                |p: int| (fmul(cth as int, ob0[p] as int) + fmul(sth as int, ob1[p] as int)) as i128,
            ));
            assert(v@ =~= Seq::new(
                ob0.len(),
                |p: int| (fmul(cth as int, ob1[p] as int) - fmul(sth as int, ob0[p] as int)) as i128,
            ));
            assert(vn@ =~= Seq::new(ob0.len(), |p: int| spec_knorm_comp(v@, ax as int, 0, p) as i128));
            assert(uo@ =~= Seq::new(
                ob0.len(),
                |p: int| (u@[p] - fmul(d as int, vn@[p] as int)) as i128,
            ));
            assert(un@ =~= Seq::new(
                ob0.len(),
                |p: int| spec_knorm_comp(uo@, ax as int, k as int, p) as i128,
            ));
            assert(nb0@ =~= sm.0);
            assert(nb1@ =~= sm.1);
        }
        let ext: Vec<Vec<i128>> = ext_products(&nb0, &nb1);
        self.basis0 = nb0;
        self.basis1 = nb1;
        self.ext = ext;
        Ok(())
    }
}

/// Copies a vector of fixed-point scalars.
fn copy_vec(v: &Vec<i128>) -> (r: Vec<i128>)
    ensures
        r@ == v@,
{
    let n: usize = v.len();
    let mut out: Vec<i128> = Vec::new();
    let mut i: usize = 0;
    while i < n
        invariant
            i <= n,
            n == v@.len(),
            out@.len() == i,
            forall|k: int| 0 <= k < i ==> (#[trigger] out@[k]) == v@[k],
        decreases n - i,
    {
        out.push(v[i]);
        i = i + 1;
    }
    proof {
        assert(out@ =~= v@);
    }
    out
}

} // verus!
