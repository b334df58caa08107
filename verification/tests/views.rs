use blis::{DimsError, DimsErrorMut, MatrixMut, MatrixRef};

#[test]
fn small_buf() {
    let mut c = [0.0, 0.0];
    assert!(MatrixMut::try_from_mut_slice(&mut c, 3, 1, 1, 0).is_err());
    assert!(MatrixRef::try_from_slice(&c, 3, 1, 1, 0).is_err());
}

#[test]
fn no_self_alias() {
    let mut c = [0.0, 0.0];
    assert!(MatrixMut::try_from_mut_slice(&mut c, 2, 1, 1, 0).is_ok());
    assert!(MatrixMut::try_from_mut_slice(&mut c, 1, 2, 0, 1).is_ok());
    assert!(MatrixMut::try_from_mut_slice(&mut c, 1, 1, 0, 0).is_ok());
    assert!(MatrixMut::try_from_mut_slice(&mut c, 2, 1, 0, 0).is_err());
    assert!(MatrixMut::try_from_mut_slice(&mut c, 1, 2, 0, 0).is_err());
}

#[test]
fn self_alias() {
    let c = [0.0, 0.0];
    assert!(MatrixRef::try_from_slice(&c, 2, 1, 1, 0).is_ok());
    assert!(MatrixRef::try_from_slice(&c, 1, 2, 0, 1).is_ok());
    assert!(MatrixRef::try_from_slice(&c, 1, 1, 0, 0).is_ok());
    assert!(MatrixRef::try_from_slice(&c, 2, 1, 0, 0).is_ok());
    assert!(MatrixRef::try_from_slice(&c, 1, 2, 0, 0).is_ok());
}

fn mut_err(buf: &mut [f64], m: usize, n: usize, rs: usize, cs: usize) -> Option<DimsErrorMut> {
    match MatrixMut::try_from_mut_slice(buf, m, n, rs, cs) {
        Ok(_) => None,
        Err(e) => Some(e),
    }
}

fn ref_err(buf: &[f64], m: usize, n: usize, rs: usize, cs: usize) -> Option<DimsErrorMut> {
    match MatrixRef::try_from_slice(buf, m, n, rs, cs) {
        Ok(_) => None,
        Err(e) => Some(e),
    }
}

#[test]
fn buffer_too_small_reports_required_size() {
    let c = [0.0; 4];
    // last element at 1 * 2 + 2 * 1 = 4: a buffer of 5 is needed
    assert_eq!(
        ref_err(&c, 2, 3, 2, 1),
        Some(DimsErrorMut::DimsError(DimsError::BufferTooSmall(5)))
    );
}

#[test]
fn size_overflow_is_reported() {
    let c = [0.0; 4];
    assert_eq!(
        ref_err(&c, 3, 1, usize::MAX, 0),
        Some(DimsErrorMut::DimsError(DimsError::SizeOverflow))
    );
    // a last offset of exactly usize::MAX is refused as an overflow too
    assert_eq!(
        ref_err(&c, 2, 1, usize::MAX, 0),
        Some(DimsErrorMut::DimsError(DimsError::SizeOverflow))
    );
    assert_eq!(
        ref_err(&c, 2, 2, usize::MAX / 2 + 1, usize::MAX / 2 + 1),
        Some(DimsErrorMut::DimsError(DimsError::SizeOverflow))
    );
}

#[test]
fn empty_views_are_always_accepted() {
    let mut c: [f64; 0] = [];
    let v = MatrixRef::try_from_slice(&c, 0, 7, 100, 100).unwrap();
    assert_eq!((v.nrows(), v.ncols(), v.row_stride(), v.col_stride()), (0, 7, 0, 0));
    let w = MatrixMut::try_from_mut_slice(&mut c, 5, 0, 0, 0).unwrap();
    assert_eq!((w.nrows(), w.ncols(), w.row_stride(), w.col_stride()), (5, 0, 0, 0));
}

#[test]
fn self_alias_witness_from_gcd() {
    let mut c = [0.0; 64];
    // rs = 4, cs = 6: gcd 2, so (3, 0) and (0, 2) collide at 12
    assert_eq!(mut_err(&mut c, 4, 3, 4, 6), Some(DimsErrorMut::SelfAlias(3, 2)));
    // with fewer rows the collision is outside the view
    assert_eq!(mut_err(&mut c, 3, 3, 4, 6), None);
    // a zero row stride with two rows puts (1, 0) on (0, 0)
    assert_eq!(mut_err(&mut c, 2, 3, 0, 1), Some(DimsErrorMut::SelfAlias(1, 0)));
    // a zero column stride with two columns puts (0, 1) on (0, 0)
    assert_eq!(mut_err(&mut c, 3, 2, 1, 0), Some(DimsErrorMut::SelfAlias(0, 1)));
    // the immutable view accepts the same layout
    assert_eq!(ref_err(&c, 4, 3, 4, 6), None);
}

#[test]
fn element_positions_follow_strides() {
    let c = [0.0, 1.0, 2.0, 3.0, 4.0, 5.0];
    // column-major 2 x 3
    let v = MatrixRef::try_from_slice(&c, 2, 3, 1, 2).unwrap();
    assert_eq!(v.element_ptr(1, 2), 5);
    assert_eq!(v.element_ptr_inbounds(0, 1), 2);
    assert_eq!(*v.get(&c, 1, 1), 3.0);
    let t = v.trans();
    assert_eq!((t.nrows(), t.ncols()), (3, 2));
    assert_eq!(*t.get(&c, 2, 1), 5.0);
    assert_eq!(t.trans().element_ptr(1, 2), v.element_ptr(1, 2));
}

#[test]
fn submatrix_and_split_positions() {
    let c: Vec<f64> = (0..12).map(|x| x as f64).collect();
    // row-major 3 x 4
    let v = MatrixRef::try_from_slice(&c, 3, 4, 4, 1).unwrap();
    let s = v.submatrix(1, 2, 2, 2);
    assert_eq!(*s.get(&c, 0, 0), 6.0);
    assert_eq!(*s.get(&c, 1, 1), 11.0);
    let (tl, tr, bl, br) = v.split_at(1, 3);
    assert_eq!((tl.nrows(), tl.ncols()), (1, 3));
    assert_eq!((tr.nrows(), tr.ncols()), (1, 1));
    assert_eq!((bl.nrows(), bl.ncols()), (1, 3));
    assert_eq!((br.nrows(), br.ncols()), (2, 1));
    assert_eq!(*tr.get(&c, 0, 0), 3.0);
    assert_eq!(*bl.get(&c, 0, 2), 6.0);
    assert_eq!(*br.get(&c, 1, 0), 11.0);
}

#[test]
fn out_of_view_positions_wrap() {
    let c = [0.0; 4];
    let v = MatrixRef::try_from_slice(&c, 2, 2, 2, 1).unwrap();
    // (0, 0) of a submatrix after the last row: position 4, outside the buffer
    let s = v.submatrix(2, 0, 0, 2);
    assert_eq!(s.element_ptr(0, 0), 4);
    let n = MatrixRef::<f64>::from_raw_parts(4, 3, 2, 1, -1, 0);
    assert_eq!(n.element_ptr(1, 0), 2);
    assert_eq!(n.element_ptr(4, 0), usize::MAX);
}

#[test]
fn mutable_view_writes_through_buffer() {
    let mut c = [0.0; 6];
    let v = MatrixMut::try_from_mut_slice(&mut c, 2, 3, 3, 1).unwrap();
    let (_, right, _, _) = v.split_at(0, 1);
    *right.get_mut(&mut c, 1, 1) = 7.0;
    assert_eq!(c, [0.0, 0.0, 0.0, 0.0, 0.0, 7.0]);
    let mut w = MatrixMut::try_from_mut_slice(&mut c, 2, 3, 3, 1).unwrap();
    let r = w.rb_mut().trans();
    *r.get_mut(&mut c, 0, 1) = 1.0;
    assert_eq!(c[3], 1.0);
    assert_eq!(*w.rb().get(&c, 1, 2), 7.0);
    assert_eq!(w.as_const().element_ptr(1, 1), 4);
}

#[test]
fn constant_views() {
    let x = 3.0;
    let one = MatrixRef::new_1x1(&x);
    assert_eq!((one.nrows(), one.ncols(), one.buffer_len()), (1, 1, 1));
    assert_eq!(*one.get(std::slice::from_ref(&x), 0, 0), 3.0);
    let e = MatrixRef::<f64>::new_0x0();
    assert_eq!((e.nrows(), e.ncols()), (0, 0));
    let r = MatrixMut::<f64>::new_0xn(4);
    assert_eq!((r.nrows(), r.ncols()), (0, 4));
    let c = MatrixMut::<f64>::new_mx0(4);
    assert_eq!((c.nrows(), c.ncols()), (4, 0));
}

#[test]
fn dims_error_converts_into_mutable_error() {
    let e: DimsErrorMut = DimsError::BufferTooSmall(3).into();
    assert_eq!(e, DimsErrorMut::DimsError(DimsError::BufferTooSmall(3)));
    assert_eq!(DimsErrorMut::from(DimsError::SizeOverflow), DimsErrorMut::DimsError(DimsError::SizeOverflow));
}

#[test]
fn split_quadrants_are_disjoint_and_cover() {
    let mut c = [0.0; 20];
    // 4 x 5, row stride 5, column stride 1
    let v = MatrixMut::try_from_mut_slice(&mut c, 4, 5, 5, 1).unwrap();
    let (tl, tr, bl, br) = v.split_at(2, 2);
    let mut seen = Vec::new();
    for q in [tl, tr, bl, br] {
        for i in 0..q.nrows() {
            for j in 0..q.ncols() {
                seen.push(q.rb().element_ptr_inbounds(i, j));
            }
        }
    }
    seen.sort();
    assert_eq!(seen, (0..20).collect::<Vec<usize>>());
}

#[test]
fn mutable_positions_are_distinct() {
    let mut c = [0.0; 64];
    // rs = 4, cs = 6 with 3 rows: the collision (3, 0) ~ (0, 2) is outside
    let v = MatrixMut::try_from_mut_slice(&mut c, 3, 3, 4, 6).unwrap();
    let mut seen = Vec::new();
    for i in 0..3 {
        for j in 0..3 {
            seen.push(v.rb().element_ptr(i, j));
        }
    }
    seen.sort();
    seen.dedup();
    assert_eq!(seen.len(), 9);
}

#[test]
fn split_third_block_has_i_rows() {
    let c: Vec<f64> = (0..25).map(|x| x as f64).collect();
    // row-major 5 x 5, split at (2, 3)
    let v = MatrixRef::try_from_slice(&c, 5, 5, 5, 1).unwrap();
    let (tl, tr, bl, br) = v.split_at(2, 3);
    assert_eq!((tl.nrows(), tl.ncols()), (2, 3));
    assert_eq!((tr.nrows(), tr.ncols()), (2, 2));
    assert_eq!((bl.nrows(), bl.ncols()), (2, 3));
    assert_eq!((br.nrows(), br.ncols()), (3, 2));
    assert_eq!(*bl.get(&c, 1, 2), 17.0);
    assert_eq!(*br.get(&c, 2, 1), 24.0);
}

#[test]
fn split_third_block_may_pass_the_last_row() {
    let c: Vec<f64> = (0..9).map(|x| x as f64).collect();
    // row-major 3 x 3 split at (2, 1): the third block has 2 rows from row 2
    let v = MatrixRef::try_from_slice(&c, 3, 3, 3, 1).unwrap();
    let (_, _, bl, br) = v.split_at(2, 1);
    assert_eq!((bl.nrows(), bl.ncols()), (2, 1));
    assert_eq!(bl.element_ptr(0, 0), 6);
    assert_eq!(bl.element_ptr(1, 0), 9);
    assert_eq!((br.nrows(), br.ncols()), (1, 2));
    let (_, _, third, _) = MatrixRef::try_from_slice(&c, 3, 1, 3, 1).unwrap().split_at(2, 0);
    assert_eq!((third.nrows(), third.ncols()), (2, 0));
}
