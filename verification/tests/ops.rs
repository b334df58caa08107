use blis::{
    gemm_operands, gemmt_dst_is_square, obj_dims, set_info_bits, to_rntm, triangular_kernel,
    trmm3_operands, Kernel, MatrixMut, MatrixRef, Side,
};

#[test]
fn gemm_row_vector_is_transposed() {
    let mut d = [0.0; 3];
    let a = [0.0; 2];
    let b = [0.0; 6];
    let dst = MatrixMut::try_from_mut_slice(&mut d, 1, 3, 3, 1).unwrap();
    let lhs = MatrixRef::try_from_slice(&a, 1, 2, 2, 1).unwrap();
    let rhs = MatrixRef::try_from_slice(&b, 2, 3, 1, 2).unwrap();
    let ops = gemm_operands(dst, lhs, rhs);
    assert_eq!((ops.dst.nrows(), ops.dst.ncols()), (3, 1));
    assert_eq!((ops.lhs.nrows(), ops.lhs.ncols()), (3, 2));
    assert_eq!((ops.rhs.nrows(), ops.rhs.ncols()), (2, 1));
    assert_eq!(ops.lhs.row_stride(), 2);
    assert_eq!(ops.kernel, Kernel::Vector);
}

#[test]
fn gemm_matrix_keeps_orientation() {
    let mut d = [0.0; 4];
    let a = [0.0; 4];
    let b = [0.0; 4];
    let dst = MatrixMut::try_from_mut_slice(&mut d, 2, 2, 1, 2).unwrap();
    let lhs = MatrixRef::try_from_slice(&a, 2, 2, 1, 2).unwrap();
    let rhs = MatrixRef::try_from_slice(&b, 2, 2, 1, 2).unwrap();
    let ops = gemm_operands(dst, lhs, rhs);
    assert_eq!(ops.dst.row_stride(), 1);
    assert_eq!(ops.kernel, Kernel::Matrix);
}

#[test]
fn triangular_kernel_by_columns() {
    let mut d = [0.0; 4];
    let v = MatrixMut::try_from_mut_slice(&mut d, 4, 1, 1, 0).unwrap();
    assert_eq!(triangular_kernel(&v, Side::Left), Kernel::Vector);
    assert_eq!(triangular_kernel(&v, Side::Right), Kernel::Matrix);
    let m = MatrixMut::try_from_mut_slice(&mut d, 2, 2, 1, 2).unwrap();
    assert_eq!(triangular_kernel(&m, Side::Left), Kernel::Matrix);
}

#[test]
fn obj_dims_of_submatrix() {
    let a = [0.0; 12];
    let v = MatrixRef::try_from_slice(&a, 3, 4, 4, 1).unwrap().submatrix(1, 1, 2, 3);
    let d = obj_dims(&v);
    assert_eq!((d.nrows, d.ncols, d.row_stride, d.col_stride, d.base), (2, 3, 4, 1, 5));
}

#[test]
fn info_bits_replace_field() {
    let mask = 0x7 << 5;
    let r = set_info_bits(0xffff_ffff, mask, 0x3 << 5);
    assert_eq!(r & mask, 0x3 << 5);
    assert_eq!(r & !mask, 0xffff_ffff & !mask);
    assert_eq!(set_info_bits(0, 1 << 8, 0), 0);
}

#[test]
fn runtime_for_threads() {
    let r = to_rntm(4);
    assert!(r.auto_factor);
    assert_eq!(r.num_threads, 4);
    assert_eq!(r.thrloop, [-1; 6]);
    assert!(!r.pack_a && !r.pack_b && r.l3_sup);
}

#[test]
fn trmm3_puts_triangular_factor_first() {
    let a = [0.0; 6];
    let b = [0.0; 6];
    let lhs = MatrixRef::try_from_slice(&a, 2, 3, 1, 2).unwrap();
    let rhs = MatrixRef::try_from_slice(&b, 3, 2, 1, 3).unwrap();
    let (tri, other) = trmm3_operands(lhs, rhs, Side::Left);
    assert_eq!((tri.nrows(), tri.ncols(), other.nrows()), (2, 3, 3));
    let (tri, other) = trmm3_operands(lhs, rhs, Side::Right);
    assert_eq!((tri.nrows(), tri.ncols(), other.nrows()), (3, 2, 2));
}

#[test]
fn gemmt_needs_square_destination() {
    let mut d = [0.0; 6];
    let sq = MatrixMut::try_from_mut_slice(&mut d, 2, 2, 1, 2).unwrap();
    assert!(gemmt_dst_is_square(&sq));
    let rect = MatrixMut::try_from_mut_slice(&mut d, 2, 3, 1, 2).unwrap();
    assert!(!gemmt_dst_is_square(&rect));
}
