//! Two-dimensional cross-sections of aperiodic point lattices by the
//! multigrid (cut-and-project) method.
//!
//! An n-dimensional integer grid is cut by a two-dimensional plane, given
//! by two basis vectors and an offset; the crate enumerates the rhombic
//! tiles of the resulting planar tiling that are visible in a rectangular
//! viewport. All geometry is carried in binary fixed-point numbers (see
//! `fixed::SCALE`), so every routine is ordinary integer arithmetic with a
//! proved absence of overflow.

use vstd::prelude::*;

pub mod editor;
pub mod fixed;
pub mod laws;
pub mod multigrid;

verus! {

/// Why a call was rejected.
#[derive(Clone, Copy, Debug, PartialEq, Eq, Structural)]
pub enum TilingError {
    /// The dimension count is below 2, or a vector's length does not
    /// match the dimension count, or a value lies outside the supported
    /// fixed-point range.
    InvalidConfiguration,
    /// An index reached past the end of the addressed collection.
    OutOfRange,
}

/// One rhombic tile, in its minimal representation: the view-plane
/// position of its key (anchor) vertex, fixed-point at `fixed::SCALE`,
/// and the unordered pair of grid axes that generated it. The remaining
/// three vertices are the key vertex displaced by the two axis
/// projections, which the consumer already holds.
#[derive(Clone, Copy, Debug, PartialEq, Eq, Structural)]
pub struct Face {
    pub key_vert_x: i128,
    pub key_vert_y: i128,
    pub axis1: u16,
    pub axis2: u16,
}

/// The ordinal of the unordered axis pair `(i, j)`, `i < j`, in the
/// canonical enumeration order: `i` ascending, then `j` ascending.
pub open spec fn spec_pair_ordinal(i: int, j: int, dims: int) -> int {
    i * (2 * dims - i - 1) / 2 + (j - i - 1)
}

impl Face {
    /// The face type: the canonical ordinal of the generating axis pair,
    /// in `[0, dims*(dims-1)/2)`.
    pub fn face_type(&self, dims: usize) -> (t: usize)
        requires
            (self.axis1 as int) < (self.axis2 as int),
            (self.axis2 as int) < dims as int,
            dims <= 1024,
        ensures
            t as int == spec_pair_ordinal(self.axis1 as int, self.axis2 as int, dims as int),
    {
        let i: usize = self.axis1 as usize;
        let j: usize = self.axis2 as usize;
        proof {
            assert((i as int) * (2 * dims as int - i as int - 1) <= 2097152) by (nonlinear_arith)
                requires
                    0 <= i as int,
                    (i as int) < dims as int,
                    dims as int <= 1024,
            ;
        }
        i * (2 * dims - i - 1) / 2 + (j - i - 1)
    }
}

/// The running total of pairs with first axis below `i`:
/// `i * (2*dims - i - 1) / 2`, the ordinal of the first pair of row
/// `i`.
pub open spec fn pair_row_base(i: int, dims: int) -> int {
    i * (2 * dims - i - 1) / 2
}

proof fn lemma_pair_row_base_step(i: int, dims: int)
    requires
        0 <= i < dims,
    ensures
        pair_row_base(i + 1, dims) == pair_row_base(i, dims) + (dims - i - 1),
{
    let a = i * (2 * dims - i - 1);
    let b = (i + 1) * (2 * dims - i - 2);
    assert((i + 1) * (2 * dims - i - 2) == i * (2 * dims - i - 1) + 2 * (dims - i - 1))
        by (nonlinear_arith);
    let q = i / 2;
    let r = i % 2;
    vstd::arithmetic::div_mod::lemma_fundamental_div_mod(i, 2);
    assert(0 <= i % 2 < 2) by (nonlinear_arith);
    if r == 0 {
        assert(i * (2 * dims - i - 1) == (q * (2 * dims - i - 1)) * 2) by (nonlinear_arith)
            requires
                i == 2 * q,
        ;
        vstd::arithmetic::div_mod::lemma_mod_multiples_basic(q * (2 * dims - i - 1), 2);
    } else {
        assert(i * (2 * dims - i - 1) == (i * (dims - q - 1)) * 2) by (nonlinear_arith)
            requires
                i == 2 * q + 1,
        ;
        vstd::arithmetic::div_mod::lemma_mod_multiples_basic(i * (dims - q - 1), 2);
    }
    vstd::arithmetic::div_mod::lemma_fundamental_div_mod(a, 2);
    assert(b == 2 * (a / 2 + (dims - i - 1)));
    vstd::arithmetic::div_mod::lemma_div_multiples_vanish(a / 2 + (dims - i - 1), 2);
}

proof fn lemma_pair_row_base_mono(a: int, b: int, dims: int)
    requires
        0 <= a <= b,
        b < dims,
    ensures
        pair_row_base(a, dims) <= pair_row_base(b, dims),
    decreases b - a,
{
    if a < b {
        lemma_pair_row_base_mono(a, b - 1, dims);
        lemma_pair_row_base_step(b - 1, dims);
    }
}

/// Law: the canonical pair enumeration is injective; two distinct
/// ordered axis pairs never share a face type.
pub proof fn lemma_pair_ordinal_injective(i: int, j: int, i2: int, j2: int, dims: int)
    requires
        0 <= i < j,
        j < dims,
        0 <= i2 < j2,
        j2 < dims,
        spec_pair_ordinal(i, j, dims) == spec_pair_ordinal(i2, j2, dims),
    ensures
        i == i2,
        j == j2,
{
    assert forall|x: int, y: int| 0 <= x < y && y < dims implies pair_row_base(x, dims)
        <= spec_pair_ordinal(x, y, dims) && spec_pair_ordinal(x, y, dims) < pair_row_base(
        x + 1,
        dims,
    ) by {
        lemma_pair_row_base_step(x, dims);
    }
    if i < i2 {
        lemma_pair_row_base_mono(i + 1, i2, dims);
        assert(false);
    }
    if i2 < i {
        lemma_pair_row_base_mono(i2 + 1, i, dims);
        assert(false);
    }
}

/// The tiles produced by one generation call, in enumeration order.
pub struct FaceList {
    pub faces: Vec<Face>,
}

impl FaceList {
    /// How many tiles were produced.
    pub fn get_num_faces(&self) -> (n: usize)
        ensures
            n == self.faces@.len(),
    {
        self.faces.len()
    }

    /// The tile at `i`, or an explicit bounds error when `i` is past the
    /// end.
    pub fn get_face(&self, i: usize) -> (r: Result<Face, TilingError>)
        ensures
            i < self.faces@.len() ==> r == Ok::<Face, TilingError>(self.faces@[i as int]),
            i >= self.faces@.len() ==> r == Err::<Face, TilingError>(TilingError::OutOfRange),
    {
        if i < self.faces.len() {
            Ok(self.faces[i])
        } else {
            Err(TilingError::OutOfRange)
        }
    }
}

} // verus!
