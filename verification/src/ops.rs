//! The decisions that precede a BLIS level-3 call: which operands, in which
//! orientation, go to which kernel, and the plain values that describe them to
//! BLIS.
use vstd::prelude::*;
use crate::layout::StridedLayout;
use crate::matrix::{MatrixMut, MatrixRef};

verus! {

/// Which triangle of a matrix an operation reads or writes.
#[derive(Clone, Copy, Debug, PartialEq, Eq, Structural)]
pub enum UpLo {
    /// The upper triangle.
    Upper,
    /// The lower triangle.
    Lower,
}

/// The kind of BLIS kernel that performs a product.
#[derive(Clone, Copy, Debug, PartialEq, Eq, Structural)]
pub enum Kernel {
    /// A matrix-vector kernel (`gemv`, `trmv`, `trsv`).
    Vector,
    /// A matrix-matrix kernel (`gemm`, `trmm`, `trsm`).
    Matrix,
}

/// The operands of `dst := beta * dst + alpha * lhs * rhs`, as they are handed
/// to BLIS, and the kernel that computes the product.
pub struct GemmOperands<'a, T> {
    /// Destination.
    pub dst: MatrixMut<'a, T>,
    /// Left factor.
    pub lhs: MatrixRef<'a, T>,
    /// Right factor.
    pub rhs: MatrixRef<'a, T>,
    /// Kernel that computes the product.
    pub kernel: Kernel,
}

/// The layouts that `gemm` hands to BLIS. A product whose left factor is a
/// single row, and whose right factor is not a single column, is computed as
/// its transpose, `dst^T := beta * dst^T + alpha * rhs^T * lhs^T`, so that the
/// vector is a column.
pub open spec fn gemm_layouts(dst: StridedLayout, lhs: StridedLayout, rhs: StridedLayout) -> (
    StridedLayout,
    StridedLayout,
    StridedLayout,
) {
    if lhs.nrows == 1 && rhs.ncols != 1 {
        (dst.transposed(), rhs.transposed(), lhs.transposed())
    } else {
        (dst, lhs, rhs)
    }
}

/// The kernel that computes a product whose right factor has `ncols` columns.
pub open spec fn kernel_for(ncols: nat) -> Kernel {
    if ncols == 1 {
        Kernel::Vector
    } else {
        Kernel::Matrix
    }
}

/// `dst` is `m` by `n`, `lhs` is `m` by `k` and `rhs` is `k` by `n`.
pub open spec fn product_shapes(dst: StridedLayout, lhs: StridedLayout, rhs: StridedLayout) -> bool {
    &&& dst.nrows == lhs.nrows
    &&& lhs.ncols == rhs.nrows
    &&& dst.ncols == rhs.ncols
}

/// Chooses the orientation and the kernel of `dst := beta * dst + alpha * lhs * rhs`.
pub fn gemm_operands<'a, T>(dst: MatrixMut<'a, T>, lhs: MatrixRef<'a, T>, rhs: MatrixRef<'a, T>) -> (r:
    GemmOperands<'a, T>)
    ensures
        (r.dst@, r.lhs@, r.rhs@) == gemm_layouts(dst@, lhs@, rhs@),
        r.kernel == kernel_for(r.rhs@.ncols),
        r.kernel == Kernel::Vector <==> r.rhs@.ncols == 1,
{
    let (dst, lhs, rhs) = if lhs.nrows() == 1 && rhs.ncols() != 1 {
        (dst.trans(), rhs.trans(), lhs.trans())
    } else {
        (dst, lhs, rhs)
    };
    let kernel = if rhs.ncols() == 1 {
        Kernel::Vector
    } else {
        Kernel::Matrix
    };
    GemmOperands { dst, lhs, rhs, kernel }
}

/// The operands that `gemm` hands to BLIS describe the same product: their
/// shapes agree whenever those of the original operands do, each element of
/// each element of the destination and of the two factors handed on is the
/// element of the original destination and factors at the same index (kept
/// orientation) or, in the transposed orientation, of the destination at the
/// transposed index, of `rhs` for the left factor and of `lhs` for the right
/// factor, both at the transposed index; and a left factor of one row is never
/// handed on as a row unless the right factor is a single column.
pub proof fn lemma_gemm_layouts(dst: StridedLayout, lhs: StridedLayout, rhs: StridedLayout)
    ensures
        ({
            let (d, l, r) = gemm_layouts(dst, lhs, rhs);
            let swapped = lhs.nrows == 1 && rhs.ncols != 1;
            &&& product_shapes(dst, lhs, rhs) ==> product_shapes(d, l, r)
            &&& l.nrows == 1 ==> r.ncols == 1
            &&& d.len == dst.len && l.len == (if swapped { rhs.len } else { lhs.len })
            &&& r.len == (if swapped { lhs.len } else { rhs.len })
            &&& swapped ==> {
                &&& d.nrows == dst.ncols && d.ncols == dst.nrows
                &&& l.nrows == rhs.ncols && l.ncols == rhs.nrows
                &&& r.nrows == lhs.ncols && r.ncols == lhs.nrows
                &&& forall|i: int, j: int| #[trigger] d.pos(i, j) == dst.pos(j, i)
                &&& forall|i: int, j: int| #[trigger] l.pos(i, j) == rhs.pos(j, i)
                &&& forall|i: int, j: int| #[trigger] r.pos(i, j) == lhs.pos(j, i)
            }
            &&& !swapped ==> {
                &&& d.nrows == dst.nrows && d.ncols == dst.ncols
                &&& l.nrows == lhs.nrows && l.ncols == lhs.ncols
                &&& r.nrows == rhs.nrows && r.ncols == rhs.ncols
                &&& forall|i: int, j: int| #[trigger] d.pos(i, j) == dst.pos(i, j)
                &&& forall|i: int, j: int| #[trigger] l.pos(i, j) == lhs.pos(i, j)
                &&& forall|i: int, j: int| #[trigger] r.pos(i, j) == rhs.pos(i, j)
            }
        }),
{
}

/// The vector kernel is chosen exactly for a product with a single column.
pub proof fn lemma_kernel_for(ncols: nat)
    ensures
        kernel_for(ncols) == Kernel::Vector <==> ncols == 1,
        kernel_for(ncols) == Kernel::Matrix <==> ncols != 1,
{
}

/// The side of the destination on which a triangular factor stands.
#[derive(Clone, Copy, Debug, PartialEq, Eq, Structural)]
pub enum Side {
    /// The triangular factor multiplies from the left.
    Left,
    /// The triangular factor multiplies from the right.
    Right,
}

/// The kernel of an in-place triangular product or solve: with the factor on
/// the left, a destination of one column goes to the matrix-vector kernel;
/// with the factor on the right, the matrix-matrix kernel is always used.
pub fn triangular_kernel<'a, T>(dst: &MatrixMut<'a, T>, side: Side) -> (r: Kernel)
    ensures
        r == (match side {
            Side::Left => kernel_for(dst@.ncols),
            Side::Right => Kernel::Matrix,
        }),
        r == Kernel::Vector <==> (side == Side::Left && dst@.ncols == 1),
{
    match side {
        Side::Left => if dst.ncols() == 1 {
            Kernel::Vector
        } else {
            Kernel::Matrix
        },
        Side::Right => Kernel::Matrix,
    }
}

/// The factors of `dst := beta * dst + alpha * lhs * rhs` in the order that
/// BLIS's `trmm3` takes them: the triangular factor first, then the other.
pub fn trmm3_operands<'a, T>(lhs: MatrixRef<'a, T>, rhs: MatrixRef<'a, T>, side: Side) -> (r: (
    MatrixRef<'a, T>,
    MatrixRef<'a, T>,
))
    ensures
        (r.0@, r.1@) == (match side {
            Side::Left => (lhs@, rhs@),
            Side::Right => (rhs@, lhs@),
        }),
{
    match side {
        Side::Left => (lhs, rhs),
        Side::Right => (rhs, lhs),
    }
}

/// Whether `gemmt` accepts `dst` as its destination: it must be square.
pub fn gemmt_dst_is_square<'a, T>(dst: &MatrixMut<'a, T>) -> (r: bool)
    ensures
        r == (dst@.nrows == dst@.ncols),
{
    dst.nrows() == dst.ncols()
}

/// The dimensions and strides of a view in the integer types of BLIS objects.
#[derive(Clone, Copy, Debug, PartialEq, Eq, Structural)]
pub struct ObjDims {
    /// Number of rows.
    pub nrows: i64,
    /// Number of columns.
    pub ncols: i64,
    /// Stride between consecutive rows.
    pub row_stride: i64,
    /// Stride between consecutive columns.
    pub col_stride: i64,
    /// Position of element `(0, 0)` in the buffer.
    pub base: usize,
}

/// The description of a view for a BLIS object; BLIS dimensions are `i64`.
pub fn obj_dims<'a, T>(view: &MatrixRef<'a, T>) -> (r: ObjDims)
    requires
        view@.nrows <= i64::MAX,
        view@.ncols <= i64::MAX,
    ensures
        r.nrows == view@.nrows,
        r.ncols == view@.ncols,
        r.row_stride == view@.rs,
        r.col_stride == view@.cs,
        r.base == view@.pos(0, 0),
{
    let rs = view.row_stride();
    let cs = view.col_stride();
    ObjDims {
        nrows: view.nrows() as i64,
        ncols: view.ncols() as i64,
        row_stride: rs as i64,
        col_stride: cs as i64,
        base: view.element_ptr(0, 0),
    }
}

/// The description of a mutable view for a BLIS object.
pub fn obj_dims_mut<'a, T>(view: &MatrixMut<'a, T>) -> (r: ObjDims)
    requires
        view@.nrows <= i64::MAX,
        view@.ncols <= i64::MAX,
    ensures
        r.nrows == view@.nrows,
        r.ncols == view@.ncols,
        r.row_stride == view@.rs,
        r.col_stride == view@.cs,
        r.base == view@.pos(0, 0),
{
    obj_dims(&view.rb())
}

/// Replaces the bits of `info` selected by `mask` with `value`.
pub fn set_info_bits(info: u32, mask: u32, value: u32) -> (r: u32)
    ensures
        r == (info & !mask) | value,
{
    (info & !mask) | value
}

/// When `value` lies inside `mask`, `set_info_bits` makes the field selected by
/// `mask` equal to `value` and leaves every other bit of `info` unchanged.
pub proof fn lemma_set_info_bits(info: u32, mask: u32, value: u32)
    requires
        value & !mask == 0,
    ensures
        ((info & !mask) | value) & mask == value,
        ((info & !mask) | value) & !mask == info & !mask,
{
    assert(((info & !mask) | value) & mask == value) by (bit_vector)
        requires
            value & !mask == 0,
    ;
    assert(((info & !mask) | value) & !mask == info & !mask) by (bit_vector)
        requires
            value & !mask == 0,
    ;
}

/// The runtime settings of a BLIS call, as plain values: the number of threads
/// is left to BLIS to factor across its loops.
#[derive(Clone, Copy, Debug)]
pub struct Runtime {
    /// Whether BLIS chooses how to divide the threads among its loops.
    pub auto_factor: bool,
    /// The number of threads.
    pub num_threads: i64,
    /// Threads per loop; `-1` leaves each loop to BLIS.
    pub thrloop: [i64; 6],
    /// Whether the left-hand matrix is packed.
    pub pack_a: bool,
    /// Whether the right-hand matrix is packed.
    pub pack_b: bool,
    /// Whether small matrices get their own code path.
    pub l3_sup: bool,
}

/// The runtime settings for a call on `num_threads` threads.
pub fn to_rntm(num_threads: usize) -> (r: Runtime)
    requires
        num_threads <= i64::MAX,
    ensures
        r.auto_factor,
        r.num_threads == num_threads,
        forall|k: int| 0 <= k < 6 ==> r.thrloop[k] == -1,
        !r.pack_a,
        !r.pack_b,
        r.l3_sup,
{
    Runtime {
        auto_factor: true,
        num_threads: num_threads as i64,
        thrloop: [-1, -1, -1, -1, -1, -1],
        pack_a: false,
        pack_b: false,
        l3_sup: true,
    }
}

} // verus!
