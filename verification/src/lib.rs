//! Strided matrix views over flat buffers, and the layout decisions that
//! feed BLIS level-3 operations.
//!
//! A view describes where each element `(i, j)` of a matrix lies in a buffer:
//! at `base + i * row_stride + j * col_stride`. Views are checked when they are
//! built from a buffer, so that every element lies inside it, and, for mutable
//! views, so that no two elements share a position.
mod offsets;
mod error;
mod dims;
mod layout;
mod matrix;
mod ops;

pub use offsets::{modulus, wrap, signed_wrap};
pub use error::{DimsError, DimsErrorMut};
pub use dims::{
    spec_gcd, strided_offset, span, offsets_injective, self_alias_witness, lemma_gcd_divides,
    lemma_bezout, lemma_gcd_positive, lemma_self_alias_witness, lemma_offset_below_span,
};
pub use layout::{
    StridedLayout, empty_layout, dense_layout, lemma_transposed, lemma_sub_pos,
    lemma_sub_keeps_invariants, lemma_transposed_keeps_invariants, lemma_disjoint_subs,
    lemma_quadrants, lemma_dense_pos,
};
pub use matrix::{MatrixRef, MatrixMut};
pub use ops::{
    UpLo, Kernel, GemmOperands, gemm_layouts, kernel_for, product_shapes, gemm_operands,
    lemma_gemm_layouts, lemma_kernel_for, Side, triangular_kernel, trmm3_operands, gemmt_dst_is_square, ObjDims, obj_dims, obj_dims_mut, set_info_bits,
    lemma_set_info_bits, Runtime, to_rntm,
};
