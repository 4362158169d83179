//! Structural laws of the tile enumeration.

use vstd::prelude::*;

use crate::fixed::abs_v;
use crate::multigrid::{
    gen_cell, gen_i, gen_j, gen_ki, gen_kj, spec_ext, spec_generate, GenCtx, EPS_PAR,
};

verus! {

/// Every face contributed by one grid cell of the pair `(i, j)`
/// carries that pair.
proof fn lemma_cell_pair(c: GenCtx, i: int, j: int, ki: int, kj: int, n: int)
    requires
        0 <= i,
        i < j,
        j < c.dims,
        c.dims <= 1024,
        0 <= n < gen_cell(c, i, j, ki, kj).len(),
    ensures
        gen_cell(c, i, j, ki, kj)[n].axis1 == i,
        gen_cell(c, i, j, ki, kj)[n].axis2 == j,
{
}

/// Every face of the inner grid-line enumeration of the pair `(i, j)`
/// carries that pair.
proof fn lemma_kj_pair(c: GenCtx, i: int, j: int, ki: int, kj: int, n: int)
    requires
        0 <= i,
        i < j,
        j < c.dims,
        c.dims <= 1024,
        0 <= n < gen_kj(c, i, j, ki, kj).len(),
    ensures
        gen_kj(c, i, j, ki, kj)[n].axis1 == i,
        gen_kj(c, i, j, ki, kj)[n].axis2 == j,
    decreases crate::multigrid::kmax(c, j) - kj,
{
    let cell = gen_cell(c, i, j, ki, kj);
    if n < cell.len() {
        lemma_cell_pair(c, i, j, ki, kj, n);
    } else {
        lemma_kj_pair(c, i, j, ki, kj + 1, n - cell.len());
    }
}

/// Every face of the grid enumeration of the pair `(i, j)` carries
/// that pair.
proof fn lemma_ki_pair(c: GenCtx, i: int, j: int, ki: int, n: int)
    requires
        0 <= i,
        i < j,
        j < c.dims,
        c.dims <= 1024,
        0 <= n < gen_ki(c, i, j, ki).len(),
    ensures
        gen_ki(c, i, j, ki)[n].axis1 == i,
        gen_ki(c, i, j, ki)[n].axis2 == j,
    decreases crate::multigrid::kmax(c, i) - ki,
{
    let head = gen_kj(c, i, j, ki, crate::multigrid::kmin(c, j));
    if n < head.len() {
        lemma_kj_pair(c, i, j, ki, crate::multigrid::kmin(c, j), n);
    } else {
        lemma_ki_pair(c, i, j, ki + 1, n - head.len());
    }
}

/// Every face of the enumeration of pairs `(i, j')` with `j' >= j`
/// carries first axis `i`, a second axis in `[j, dims)`, and a
/// non-parallel exterior product.
proof fn lemma_j_pair(c: GenCtx, i: int, j: int, n: int)
    requires
        0 <= i,
        i < j,
        c.dims <= 1024,
        0 <= n < gen_j(c, i, j).len(),
    ensures
        gen_j(c, i, j)[n].axis1 == i,
        j <= gen_j(c, i, j)[n].axis2 < c.dims,
        abs_v(spec_ext(c.b0, c.b1, i, gen_j(c, i, j)[n].axis2 as int)) >= EPS_PAR as int,
    decreases c.dims - j,
{
    let head: Seq<crate::Face> = if abs_v(spec_ext(c.b0, c.b1, i, j)) < EPS_PAR as int {
        Seq::empty()
    } else {
        gen_ki(c, i, j, crate::multigrid::kmin(c, i))
    };
    if n < head.len() {
        lemma_ki_pair(c, i, j, crate::multigrid::kmin(c, i), n);
    } else {
        lemma_j_pair(c, i, j + 1, n - head.len());
    }
}

/// Every face of the enumeration from row `i` on carries an ordered
/// axis pair whose exterior product is not parallel.
proof fn lemma_i_pair(c: GenCtx, i: int, n: int)
    requires
        0 <= i,
        c.dims <= 1024,
        0 <= n < gen_i(c, i).len(),
    ensures
        i <= gen_i(c, i)[n].axis1,
        (gen_i(c, i)[n].axis1 as int) < gen_i(c, i)[n].axis2 as int,
        (gen_i(c, i)[n].axis2 as int) < c.dims,
        abs_v(
            spec_ext(c.b0, c.b1, gen_i(c, i)[n].axis1 as int, gen_i(c, i)[n].axis2 as int),
        ) >= EPS_PAR as int,
    decreases c.dims - i,
{
    let head = gen_j(c, i, i + 1);
    if n < head.len() {
        lemma_j_pair(c, i, i + 1, n);
    } else {
        lemma_i_pair(c, i + 1, n - head.len());
    }
}

/// Law: an axis pair whose projections are parallel (its exterior
/// product lies below the parallel tolerance) contributes no face to
/// the generated tiling: no emitted face carries that pair, and hence
/// none has the pair's face type.
pub proof fn lemma_parallel_pair_no_faces(c: GenCtx, i: int, j: int, n: int)
    requires
        c.dims <= 1024,
        0 <= n < spec_generate(c).len(),
        abs_v(spec_ext(c.b0, c.b1, i, j)) < EPS_PAR as int,
    ensures
        !(spec_generate(c)[n].axis1 == i && spec_generate(c)[n].axis2 == j),
{
    lemma_i_pair(c, 0, n);
}

/// Law: for an axis pair with parallel projections, no generated face
/// has the pair's face type.
pub proof fn lemma_parallel_pair_no_face_type(c: GenCtx, i: int, j: int, n: int)
    requires
        2 <= c.dims <= 1024,
        0 <= i < j,
        j < c.dims,
        0 <= n < spec_generate(c).len(),
        abs_v(spec_ext(c.b0, c.b1, i, j)) < EPS_PAR as int,
    ensures
        crate::spec_pair_ordinal(
            spec_generate(c)[n].axis1 as int,
            spec_generate(c)[n].axis2 as int,
            c.dims,
        ) != crate::spec_pair_ordinal(i, j, c.dims),
{
    lemma_i_pair(c, 0, n);
    let f = spec_generate(c)[n];
    if crate::spec_pair_ordinal(f.axis1 as int, f.axis2 as int, c.dims) == crate::spec_pair_ordinal(
        i,
        j,
        c.dims,
    ) {
        crate::lemma_pair_ordinal_injective(f.axis1 as int, f.axis2 as int, i, j, c.dims);
    }
}

} // verus!
