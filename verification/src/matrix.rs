//! Immutable and mutable strided views over a matrix stored in a flat buffer.
//!
//! A view records where each of its elements lies in the buffer it was built
//! over: the position of element `(0, 0)`, the dimensions and the strides.
//! Element access takes that buffer as an argument.
use vstd::prelude::*;
use core::marker::PhantomData;
use crate::offsets::{position, position_inbounds};
use crate::dims::{
    span, strided_offset, offsets_injective, self_alias_witness, largest_offset, gcd,
    lemma_self_alias_witness, lemma_offset_below_span, lemma_gcd_positive,
};
use crate::layout::{
    StridedLayout, empty_layout, dense_layout, lemma_transposed_keeps_invariants,
    lemma_sub_keeps_invariants, lemma_dense_pos, lemma_quadrants, lemma_sub_pos,
};
use crate::error::{DimsError, DimsErrorMut};

verus! {

/// Immutable strided view over a matrix.
pub struct MatrixRef<'a, T> {
    len: usize,
    base: usize,
    nrows: usize,
    ncols: usize,
    rs: isize,
    cs: isize,
    marker: PhantomData<&'a [T]>,
}

/// Mutable strided view over a matrix. A view built from a buffer has no two
/// elements at one position (`no_self_alias`); transposes and submatrices keep
/// that.
pub struct MatrixMut<'a, T> {
    len: usize,
    base: usize,
    nrows: usize,
    ncols: usize,
    rs: isize,
    cs: isize,
    marker: PhantomData<&'a mut [T]>,
}

impl<'a, T> View for MatrixRef<'a, T> {
    type V = StridedLayout;

    closed spec fn view(&self) -> StridedLayout {
        StridedLayout {
            len: self.len as nat,
            base: self.base as int,
            nrows: self.nrows as nat,
            ncols: self.ncols as nat,
            rs: self.rs as int,
            cs: self.cs as int,
        }
    }
}

impl<'a, T> View for MatrixMut<'a, T> {
    type V = StridedLayout;

    closed spec fn view(&self) -> StridedLayout {
        StridedLayout {
            len: self.len as nat,
            base: self.base as int,
            nrows: self.nrows as nat,
            ncols: self.ncols as nat,
            rs: self.rs as int,
            cs: self.cs as int,
        }
    }
}

impl<'a, T> Clone for MatrixRef<'a, T> {
    fn clone(&self) -> (r: Self)
        ensures
            r@ == self@,
    {
        MatrixRef {
            len: self.len,
            base: self.base,
            nrows: self.nrows,
            ncols: self.ncols,
            rs: self.rs,
            cs: self.cs,
            marker: PhantomData,
        }
    }
}

impl<'a, T> Copy for MatrixRef<'a, T> {

}

impl<'a, T> MatrixRef<'a, T> {
    /// Returns a view from a slice, the matrix dimensions and its strides.
    pub fn try_from_slice(
        buf: &'a [T],
        nrows: usize,
        ncols: usize,
        row_stride: usize,
        col_stride: usize,
    ) -> (r: Result<Self, DimsErrorMut>)
        ensures
            (nrows == 0 || ncols == 0) ==> (r matches Ok(v) && v@ == empty_layout(
                buf@.len(),
                nrows as nat,
                ncols as nat,
            )),
            nrows > 0 && ncols > 0 ==> {
                let s = span(nrows as nat, ncols as nat, row_stride as nat, col_stride as nat);
                &&& s >= usize::MAX ==> r == Err::<Self, DimsErrorMut>(
                    DimsErrorMut::DimsError(DimsError::SizeOverflow),
                )
                &&& s < usize::MAX && s >= buf@.len() ==> r == Err::<Self, DimsErrorMut>(
                    DimsErrorMut::DimsError(DimsError::BufferTooSmall((s + 1) as usize)),
                )
                &&& s < buf@.len() ==> (r matches Ok(v) && v@ == dense_layout(
                    buf@.len(),
                    nrows as nat,
                    ncols as nat,
                    row_stride,
                    col_stride,
                ))
            },
            r is Ok <==> (nrows == 0 || ncols == 0 || span(
                nrows as nat,
                ncols as nat,
                row_stride as nat,
                col_stride as nat,
            ) < buf@.len()),
            r matches Ok(v) ==> v@.fits(),
    {
        let rs = row_stride;
        let cs = col_stride;
        let len = buf.len();
        if nrows == 0 || ncols == 0 {
            Ok(MatrixRef { len, base: 0, nrows, ncols, rs: 0, cs: 0, marker: PhantomData })
        } else {
            let offset = match largest_offset(nrows, ncols, rs, cs) {
                Ok(offset) => offset,
                Err(e) => return Err(DimsErrorMut::DimsError(e)),
            };
            if offset == usize::MAX {
                return Err(DimsErrorMut::DimsError(DimsError::SizeOverflow));
            }
            if offset >= len {
                return Err(DimsErrorMut::DimsError(DimsError::BufferTooSmall(offset + 1)));
            }
            proof {
                lemma_dense_fits(len as nat, nrows as nat, ncols as nat, rs, cs);
            }
            Ok(MatrixRef {
                len,
                base: 0,
                nrows,
                ncols,
                rs: rs as isize,
                cs: cs as isize,
                marker: PhantomData,
            })
        }
    }

    /// Returns a view over a buffer of `len` elements whose element `(0, 0)` is at
    /// position `base`, with the given dimensions and strides.
    pub fn from_raw_parts(
        len: usize,
        base: usize,
        nrows: usize,
        ncols: usize,
        row_stride: isize,
        col_stride: isize,
    ) -> (r: Self)
        ensures
            r@ == (StridedLayout {
                len: len as nat,
                base: base as int,
                nrows: nrows as nat,
                ncols: ncols as nat,
                rs: row_stride as int,
                cs: col_stride as int,
            }),
    {
        MatrixRef { len, base, nrows, ncols, rs: row_stride, cs: col_stride, marker: PhantomData }
    }

    /// Returns a view with 0 rows.
    pub fn new_0xn(ncols: usize) -> (r: Self)
        ensures
            r@ == empty_layout(0, 0, ncols as nat),
            r@.fits(),
            r@.no_self_alias(),
    {
        MatrixRef { len: 0, base: 0, nrows: 0, ncols, rs: 0, cs: 0, marker: PhantomData }
    }

    /// Returns a view with 0 columns.
    pub fn new_mx0(nrows: usize) -> (r: Self)
        ensures
            r@ == empty_layout(0, nrows as nat, 0),
            r@.fits(),
            r@.no_self_alias(),
    {
        MatrixRef { len: 0, base: 0, nrows, ncols: 0, rs: 0, cs: 0, marker: PhantomData }
    }

    /// Returns a view with 0 rows and 0 columns.
    pub fn new_0x0() -> (r: Self)
        ensures
            r@ == empty_layout(0, 0, 0),
            r@.fits(),
            r@.no_self_alias(),
    {
        Self::new_mx0(0)
    }

    /// Returns a view that refers to a single element: the only element of a
    /// buffer of length one.
    pub fn new_1x1(value: &'a T) -> (r: Self)
        ensures
            r@ == (StridedLayout { len: 1, base: 0, nrows: 1, ncols: 1, rs: 0, cs: 0 }),
            r@.fits(),
            r@.no_self_alias(),
    {
        proof {
            lemma_single_fits();
        }
        MatrixRef { len: 1, base: 0, nrows: 1, ncols: 1, rs: 0, cs: 0, marker: PhantomData }
    }

    /// Returns a view over the transpose of `self`.
    pub fn trans(self) -> (r: Self)
        ensures
            r@ == self@.transposed(),
            self@.fits() ==> r@.fits(),
            self@.no_self_alias() ==> r@.no_self_alias(),
    {
        proof {
            lemma_transposed_keeps_invariants(self@);
        }
        MatrixRef {
            len: self.len,
            base: self.base,
            nrows: self.ncols,
            ncols: self.nrows,
            rs: self.cs,
            cs: self.rs,
            marker: PhantomData,
        }
    }

    /// Returns the number of rows of the matrix.
    pub fn nrows(&self) -> (r: usize)
        ensures
            r == self@.nrows,
    {
        self.nrows
    }

    /// Returns the number of columns of the matrix.
    pub fn ncols(&self) -> (r: usize)
        ensures
            r == self@.ncols,
    {
        self.ncols
    }

    /// Returns the stride between consecutive rows in the matrix.
    pub fn row_stride(&self) -> (r: isize)
        ensures
            r == self@.rs,
    {
        self.rs
    }

    /// Returns the stride between consecutive columns in the matrix.
    pub fn col_stride(&self) -> (r: isize)
        ensures
            r == self@.cs,
    {
        self.cs
    }

    /// Returns the number of elements of the buffer that the view describes.
    pub fn buffer_len(&self) -> (r: usize)
        ensures
            r == self@.len,
    {
        self.len
    }

    /// Returns the submatrix starting at `(i, j)`, with `nrows` rows and `ncols` columns.
    pub fn submatrix(self, i: usize, j: usize, nrows: usize, ncols: usize) -> (r: Self)
        requires
            i <= self@.nrows,
            j <= self@.ncols,
            nrows <= self@.nrows - i,
            ncols <= self@.ncols - j,
        ensures
            r@ == self@.sub(i as int, j as int, nrows as nat, ncols as nat),
            r@.nrows == nrows && r@.ncols == ncols,
            r@.rs == self@.rs && r@.cs == self@.cs && r@.len == self@.len,
            forall|a: int, b: int| #[trigger] r@.pos(a, b) == self@.pos(i + a, j + b),
            self@.fits() ==> r@.fits(),
            self@.no_self_alias() ==> r@.no_self_alias(),
    {
        proof {
            lemma_sub_keeps_invariants(self@, i as nat, j as nat, nrows as nat, ncols as nat);
            assert forall|a: int, b: int|
                #[trigger] self@.sub(i as int, j as int, nrows as nat, ncols as nat).pos(a, b)
                    == self@.pos(i + a, j + b) by {
                lemma_sub_pos(self@, i as int, j as int, nrows as nat, ncols as nat, a, b);
            }
        }
        self.submatrix_unchecked(i, j, nrows, ncols)
    }

    /// Returns the four disjoint submatrices in the following order:
    /// - starting at `(0, 0)` with `i` rows and `j` columns.
    /// - starting at `(0, j)` with `i` rows and `self.ncols() - j` columns.
    /// - starting at `(i, 0)` with `i` rows and `j` columns.
    /// - starting at `(i, j)` with `self.nrows() - i` rows and `self.ncols() - j` columns.
    ///
    /// When `2 * i > self.nrows()`, the third block reaches rows past the end of
    /// the view.
    pub fn split_at(self, i: usize, j: usize) -> (r: (Self, Self, Self, Self))
        requires
            i <= self@.nrows,
            j <= self@.ncols,
        ensures
            (r.0@, r.1@, r.2@, r.3@) == self@.quadrants(i as nat, j as nat),
    {
        self.split_at_unchecked(i, j)
    }

    /// Returns the four disjoint submatrices around `(i, j)`, in the order of
    /// [`MatrixRef::split_at`].
    pub fn split_at_unchecked(self, i: usize, j: usize) -> (r: (Self, Self, Self, Self))
        requires
            i <= self@.nrows,
            j <= self@.ncols,
        ensures
            (r.0@, r.1@, r.2@, r.3@) == self@.quadrants(i as nat, j as nat),
    {
        let m = self.nrows;
        let n = self.ncols;
        let rs = self.rs;
        let cs = self.cs;
        let top_l = position(self.base, 0, 0, rs, cs);
        let top_r = position(self.base, 0, j, rs, cs);
        let bot_l = position(self.base, i, 0, rs, cs);
        let bot_r = position(self.base, i, j, rs, cs);
        (
            MatrixRef { len: self.len, base: top_l, nrows: i, ncols: j, rs, cs, marker: PhantomData },
            MatrixRef {
                len: self.len,
                base: top_r,
                nrows: i,
                ncols: n - j,
                rs,
                cs,
                marker: PhantomData,
            },
            MatrixRef {
                len: self.len,
                base: bot_l,
                nrows: i,
                ncols: j,
                rs,
                cs,
                marker: PhantomData,
            },
            MatrixRef {
                len: self.len,
                base: bot_r,
                nrows: m - i,
                ncols: n - j,
                rs,
                cs,
                marker: PhantomData,
            },
        )
    }

    /// Returns the submatrix starting at `(i, j)`, with `nrows` rows and `ncols` columns.
    pub fn submatrix_unchecked(self, i: usize, j: usize, nrows: usize, ncols: usize) -> (r: Self)
        requires
            i <= self@.nrows,
            j <= self@.ncols,
            nrows <= self@.nrows - i,
            ncols <= self@.ncols - j,
        ensures
            r@ == self@.sub(i as int, j as int, nrows as nat, ncols as nat),
            r@.nrows == nrows && r@.ncols == ncols,
            r@.rs == self@.rs && r@.cs == self@.cs && r@.len == self@.len,
            forall|a: int, b: int| #[trigger] r@.pos(a, b) == self@.pos(i + a, j + b),
            self@.fits() ==> r@.fits(),
            self@.no_self_alias() ==> r@.no_self_alias(),
    {
        proof {
            lemma_sub_keeps_invariants(self@, i as nat, j as nat, nrows as nat, ncols as nat);
            assert forall|a: int, b: int|
                #[trigger] self@.sub(i as int, j as int, nrows as nat, ncols as nat).pos(a, b)
                    == self@.pos(i + a, j + b) by {
                lemma_sub_pos(self@, i as int, j as int, nrows as nat, ncols as nat, a, b);
            }
        }
        let base = self.element_ptr(i, j);
        MatrixRef {
            len: self.len,
            base,
            nrows,
            ncols,
            rs: self.row_stride(),
            cs: self.col_stride(),
            marker: PhantomData,
        }
    }

    /// Returns a reference to the element at position `(i, j)` of `buf`, the
    /// buffer that the view describes.
    pub fn get(self, buf: &'a [T], i: usize, j: usize) -> (r: &'a T)
        requires
            i < self@.nrows,
            j < self@.ncols,
            buf@.len() == self@.len,
            self@.pos(i as int, j as int) < self@.len,
        ensures
            *r == buf@[self@.pos(i as int, j as int)],
    {
        let p = self.element_ptr_inbounds(i, j);
        &buf[p]
    }

    /// Returns a reference to the element at position `(i, j)` of `buf`, the
    /// buffer that the view describes.
    pub fn get_unchecked(self, buf: &'a [T], i: usize, j: usize) -> (r: &'a T)
        requires
            i < self@.nrows,
            j < self@.ncols,
            buf@.len() == self@.len,
            self@.pos(i as int, j as int) < self@.len,
        ensures
            *r == buf@[self@.pos(i as int, j as int)],
    {
        let p = self.element_ptr_inbounds_unchecked(i, j);
        &buf[p]
    }

    /// Returns the position in the buffer of the element at `(i, j)`.
    pub fn element_ptr(self, i: usize, j: usize) -> (r: usize)
        ensures
            r == self@.pos(i as int, j as int),
    {
        position(self.base, i, j, self.rs, self.cs)
    }

    /// Returns the position in the buffer of the element at `(i, j)`,
    /// which is an element of the view.
    pub fn element_ptr_inbounds(self, i: usize, j: usize) -> (r: usize)
        requires
            i < self@.nrows,
            j < self@.ncols,
        ensures
            r == self@.pos(i as int, j as int),
            self@.fits() ==> r < self@.len,
    {
        self.element_ptr_inbounds_unchecked(i, j)
    }

    /// Returns the position in the buffer of the element at `(i, j)`,
    /// which is an element of the view.
    pub fn element_ptr_inbounds_unchecked(self, i: usize, j: usize) -> (r: usize)
        requires
            i < self@.nrows,
            j < self@.ncols,
        ensures
            r == self@.pos(i as int, j as int),
            self@.fits() ==> r < self@.len,
    {
        proof {
            assert(self@.contains(i as int, j as int));
        }
        position_inbounds(self.base, i, j, self.rs, self.cs)
    }
}

impl<'a, T> MatrixMut<'a, T> {
    /// Returns a mutable view from a mutable slice, the matrix dimensions and its strides.
    ///
    /// The view is refused with `SelfAlias` when two of its elements would share a
    /// position of the buffer. The view keeps the buffer's length, not the buffer:
    /// elements are read and written through the buffer, passed to `get_mut`.
    pub fn try_from_mut_slice(
        buf: &mut [T],
        nrows: usize,
        ncols: usize,
        row_stride: usize,
        col_stride: usize,
    ) -> (r: Result<Self, DimsErrorMut>)
        ensures
            final(buf)@ == old(buf)@,
            (nrows == 0 || ncols == 0) ==> (r matches Ok(v) && v@ == empty_layout(
                old(buf)@.len(),
                nrows as nat,
                ncols as nat,
            )),
            nrows > 0 && ncols > 0 ==> {
                let s = span(nrows as nat, ncols as nat, row_stride as nat, col_stride as nat);
                &&& s >= usize::MAX ==> r == Err::<Self, DimsErrorMut>(
                    DimsErrorMut::DimsError(DimsError::SizeOverflow),
                )
                &&& s < usize::MAX && s >= old(buf)@.len() ==> r == Err::<Self, DimsErrorMut>(
                    DimsErrorMut::DimsError(DimsError::BufferTooSmall((s + 1) as usize)),
                )
                &&& s < old(buf)@.len() ==> match self_alias_witness(
                    nrows as nat,
                    ncols as nat,
                    row_stride as nat,
                    col_stride as nat,
                ) {
                    Some((i, j)) => r == Err::<Self, DimsErrorMut>(
                        DimsErrorMut::SelfAlias(i as usize, j as usize),
                    ),
                    None => r matches Ok(v) && v@ == dense_layout(
                        old(buf)@.len(),
                        nrows as nat,
                        ncols as nat,
                        row_stride,
                        col_stride,
                    ),
                }
            },
            r is Ok <==> (nrows == 0 || ncols == 0 || (span(
                nrows as nat,
                ncols as nat,
                row_stride as nat,
                col_stride as nat,
            ) < old(buf)@.len() && offsets_injective(
                nrows as nat,
                ncols as nat,
                row_stride as nat,
                col_stride as nat,
            ))),
            r matches Ok(v) ==> v@.fits() && v@.no_self_alias(),
    {
        let rs = row_stride;
        let cs = col_stride;
        let len = buf.len();
        if nrows == 0 || ncols == 0 {
            Ok(MatrixMut { len, base: 0, nrows, ncols, rs: 0, cs: 0, marker: PhantomData })
        } else {
            let offset = match largest_offset(nrows, ncols, rs, cs) {
                Ok(offset) => offset,
                Err(e) => return Err(DimsErrorMut::DimsError(e)),
            };
            if offset == usize::MAX {
                return Err(DimsErrorMut::DimsError(DimsError::SizeOverflow));
            }
            if offset >= len {
                return Err(DimsErrorMut::DimsError(DimsError::BufferTooSmall(offset + 1)));
            }
            proof {
                lemma_self_alias_witness(nrows as nat, ncols as nat, rs as nat, cs as nat);
            }
            // Two elements (i0, j0) and (i1, j1) share a position when
            // rs * (i1 - i0) == cs * (j0 - j1); it is enough to look for a
            // solution of the form (i, 0), (0, j) with rs * i == cs * j, and the
            // smallest one is i == cs / gcd(rs, cs), j == rs / gcd(rs, cs).
            if rs == 0 && nrows > 1 {
                return Err(DimsErrorMut::SelfAlias(1, 0));
            }
            if cs == 0 && ncols > 1 {
                return Err(DimsErrorMut::SelfAlias(0, 1));
            }
            proof {
                lemma_dense_fits(len as nat, nrows as nat, ncols as nat, rs, cs);
            }
            if rs == 0 || cs == 0 {
                proof {
                    lemma_dense_no_self_alias(len as nat, nrows as nat, ncols as nat, rs, cs);
                }
                return Ok(
                    MatrixMut {
                        len,
                        base: 0,
                        nrows,
                        ncols,
                        rs: rs as isize,
                        cs: cs as isize,
                        marker: PhantomData,
                    },
                );
            }
            let r = gcd(rs, cs);
            proof {
                lemma_gcd_positive(rs as nat, cs as nat);
            }
            let (i, j) = (cs / r, rs / r);
            if i < nrows && j < ncols {
                return Err(DimsErrorMut::SelfAlias(i, j));
            }
            proof {
                lemma_dense_no_self_alias(len as nat, nrows as nat, ncols as nat, rs, cs);
            }
            Ok(
                MatrixMut {
                    len,
                    base: 0,
                    nrows,
                    ncols,
                    rs: rs as isize,
                    cs: cs as isize,
                    marker: PhantomData,
                },
            )
        }
    }

    /// Returns a mutable view over a buffer of `len` elements whose element
    /// `(0, 0)` is at position `base`, with the given dimensions and strides.
    pub fn from_raw_parts_mut(
        len: usize,
        base: usize,
        nrows: usize,
        ncols: usize,
        row_stride: isize,
        col_stride: isize,
    ) -> (r: Self)
        ensures
            r@ == (StridedLayout {
                len: len as nat,
                base: base as int,
                nrows: nrows as nat,
                ncols: ncols as nat,
                rs: row_stride as int,
                cs: col_stride as int,
            }),
    {
        MatrixMut { len, base, nrows, ncols, rs: row_stride, cs: col_stride, marker: PhantomData }
    }

    /// Returns a view with 0 rows.
    pub fn new_0xn(ncols: usize) -> (r: Self)
        ensures
            r@ == empty_layout(0, 0, ncols as nat),
            r@.fits(),
            r@.no_self_alias(),
    {
        MatrixMut { len: 0, base: 0, nrows: 0, ncols, rs: 0, cs: 0, marker: PhantomData }
    }

    /// Returns a view with 0 columns.
    pub fn new_mx0(nrows: usize) -> (r: Self)
        ensures
            r@ == empty_layout(0, nrows as nat, 0),
            r@.fits(),
            r@.no_self_alias(),
    {
        MatrixMut { len: 0, base: 0, nrows, ncols: 0, rs: 0, cs: 0, marker: PhantomData }
    }

    /// Returns a view with 0 rows and 0 columns.
    pub fn new_0x0() -> (r: Self)
        ensures
            r@ == empty_layout(0, 0, 0),
            r@.fits(),
            r@.no_self_alias(),
    {
        Self::new_mx0(0)
    }

    /// Returns a mutable view that refers to a single element: the only element
    /// of a buffer of length one.
    pub fn new_1x1(value: &'a mut T) -> (r: Self)
        ensures
            r@ == (StridedLayout { len: 1, base: 0, nrows: 1, ncols: 1, rs: 0, cs: 0 }),
            r@.fits(),
            r@.no_self_alias(),
    {
        proof {
            lemma_single_fits();
        }
        MatrixMut { len: 1, base: 0, nrows: 1, ncols: 1, rs: 0, cs: 0, marker: PhantomData }
    }

    /// Returns a mutable view over the transpose of `self`.
    pub fn trans(self) -> (r: Self)
        ensures
            r@ == self@.transposed(),
            self@.fits() ==> r@.fits(),
            self@.no_self_alias() ==> r@.no_self_alias(),
    {
        proof {
            lemma_transposed_keeps_invariants(self@);
        }
        MatrixMut {
            len: self.len,
            base: self.base,
            nrows: self.ncols,
            ncols: self.nrows,
            rs: self.cs,
            cs: self.rs,
            marker: PhantomData,
        }
    }

    /// Returns an immutable view over the same matrix.
    pub fn as_const(self) -> (r: MatrixRef<'a, T>)
        ensures
            r@ == self@,
    {
        MatrixRef {
            len: self.len,
            base: self.base,
            nrows: self.nrows,
            ncols: self.ncols,
            rs: self.rs,
            cs: self.cs,
            marker: PhantomData,
        }
    }

    /// Returns an immutable view over the same matrix, for as long as `self` is borrowed.
    pub fn rb(&self) -> (r: MatrixRef<'_, T>)
        ensures
            r@ == self@,
    {
        MatrixRef {
            len: self.len,
            base: self.base,
            nrows: self.nrows,
            ncols: self.ncols,
            rs: self.rs,
            cs: self.cs,
            marker: PhantomData,
        }
    }

    /// Returns a mutable view over the same matrix, for as long as `self` is borrowed.
    pub fn rb_mut(&mut self) -> (r: MatrixMut<'_, T>)
        ensures
            r@ == old(self)@,
            final(self)@ == old(self)@,
    {
        MatrixMut {
            len: self.len,
            base: self.base,
            nrows: self.nrows,
            ncols: self.ncols,
            rs: self.rs,
            cs: self.cs,
            marker: PhantomData,
        }
    }

    /// Returns the number of rows of the matrix.
    pub fn nrows(&self) -> (r: usize)
        ensures
            r == self@.nrows,
    {
        self.nrows
    }

    /// Returns the number of columns of the matrix.
    pub fn ncols(&self) -> (r: usize)
        ensures
            r == self@.ncols,
    {
        self.ncols
    }

    /// Returns the stride between consecutive rows in the matrix.
    pub fn row_stride(&self) -> (r: isize)
        ensures
            r == self@.rs,
    {
        self.rs
    }

    /// Returns the stride between consecutive columns in the matrix.
    pub fn col_stride(&self) -> (r: isize)
        ensures
            r == self@.cs,
    {
        self.cs
    }

    /// Returns the number of elements of the buffer that the view describes.
    pub fn buffer_len(&self) -> (r: usize)
        ensures
            r == self@.len,
    {
        self.len
    }

    /// Returns the submatrix starting at `(i, j)`, with `nrows` rows and `ncols` columns.
    pub fn submatrix(self, i: usize, j: usize, nrows: usize, ncols: usize) -> (r: Self)
        requires
            i <= self@.nrows,
            j <= self@.ncols,
            nrows <= self@.nrows - i,
            ncols <= self@.ncols - j,
        ensures
            r@ == self@.sub(i as int, j as int, nrows as nat, ncols as nat),
            r@.nrows == nrows && r@.ncols == ncols,
            r@.rs == self@.rs && r@.cs == self@.cs && r@.len == self@.len,
            forall|a: int, b: int| #[trigger] r@.pos(a, b) == self@.pos(i + a, j + b),
            self@.fits() ==> r@.fits(),
            self@.no_self_alias() ==> r@.no_self_alias(),
    {
        proof {
            lemma_sub_keeps_invariants(self@, i as nat, j as nat, nrows as nat, ncols as nat);
            assert forall|a: int, b: int|
                #[trigger] self@.sub(i as int, j as int, nrows as nat, ncols as nat).pos(a, b)
                    == self@.pos(i + a, j + b) by {
                lemma_sub_pos(self@, i as int, j as int, nrows as nat, ncols as nat, a, b);
            }
        }
        self.submatrix_unchecked(i, j, nrows, ncols)
    }

    /// Returns the four disjoint submatrices in the following order:
    /// - starting at `(0, 0)` with `i` rows and `j` columns.
    /// - starting at `(0, j)` with `i` rows and `self.ncols() - j` columns.
    /// - starting at `(i, 0)` with `i` rows and `j` columns.
    /// - starting at `(i, j)` with `self.nrows() - i` rows and `self.ncols() - j` columns.
    ///
    /// When `2 * i > self.nrows()`, the third block reaches rows past the end of
    /// the view.
    pub fn split_at(self, i: usize, j: usize) -> (r: (Self, Self, Self, Self))
        requires
            i <= self@.nrows,
            j <= self@.ncols,
        ensures
            (r.0@, r.1@, r.2@, r.3@) == self@.quadrants(i as nat, j as nat),
            self@.no_self_alias() && 2 * i <= self@.nrows ==> ({
                let qs = seq![r.0@, r.1@, r.2@, r.3@];
                forall|p: int, q: int, a1: int, b1: int, a2: int, b2: int|
                    0 <= p < 4 && 0 <= q < 4 && p != q && qs[p].contains(a1, b1) && qs[q].contains(
                        a2,
                        b2,
                    ) ==> #[trigger] qs[p].pos(a1, b1) != #[trigger] qs[q].pos(a2, b2)
            }),
    {
        self.split_at_unchecked(i, j)
    }

    /// Returns the four disjoint submatrices around `(i, j)`, in the order of
    /// [`MatrixMut::split_at`].
    pub fn split_at_unchecked(self, i: usize, j: usize) -> (r: (Self, Self, Self, Self))
        requires
            i <= self@.nrows,
            j <= self@.ncols,
        ensures
            (r.0@, r.1@, r.2@, r.3@) == self@.quadrants(i as nat, j as nat),
            self@.no_self_alias() && 2 * i <= self@.nrows ==> ({
                let qs = seq![r.0@, r.1@, r.2@, r.3@];
                forall|p: int, q: int, a1: int, b1: int, a2: int, b2: int|
                    0 <= p < 4 && 0 <= q < 4 && p != q && qs[p].contains(a1, b1) && qs[q].contains(
                        a2,
                        b2,
                    ) ==> #[trigger] qs[p].pos(a1, b1) != #[trigger] qs[q].pos(a2, b2)
            }),
    {
        proof {
            if 2 * i <= self@.nrows {
                lemma_quadrants(self@, i as nat, j as nat);
            }
        }
        let m = self.nrows;
        let n = self.ncols;
        let rs = self.rs;
        let cs = self.cs;
        let top_l = position(self.base, 0, 0, rs, cs);
        let top_r = position(self.base, 0, j, rs, cs);
        let bot_l = position(self.base, i, 0, rs, cs);
        let bot_r = position(self.base, i, j, rs, cs);
        let r = (
            MatrixMut { len: self.len, base: top_l, nrows: i, ncols: j, rs, cs, marker: PhantomData },
            MatrixMut {
                len: self.len,
                base: top_r,
                nrows: i,
                ncols: n - j,
                rs,
                cs,
                marker: PhantomData,
            },
            MatrixMut {
                len: self.len,
                base: bot_l,
                nrows: i,
                ncols: j,
                rs,
                cs,
                marker: PhantomData,
            },
            MatrixMut {
                len: self.len,
                base: bot_r,
                nrows: m - i,
                ncols: n - j,
                rs,
                cs,
                marker: PhantomData,
            },
        );
        proof {
            let (tl, tr, bl, br) = self@.quadrants(i as nat, j as nat);
            assert(seq![r.0@, r.1@, r.2@, r.3@] =~= seq![tl, tr, bl, br]);
        }
        r
    }

    /// Returns the submatrix starting at `(i, j)`, with `nrows` rows and `ncols` columns.
    pub fn submatrix_unchecked(self, i: usize, j: usize, nrows: usize, ncols: usize) -> (r: Self)
        requires
            i <= self@.nrows,
            j <= self@.ncols,
            nrows <= self@.nrows - i,
            ncols <= self@.ncols - j,
        ensures
            r@ == self@.sub(i as int, j as int, nrows as nat, ncols as nat),
            r@.nrows == nrows && r@.ncols == ncols,
            r@.rs == self@.rs && r@.cs == self@.cs && r@.len == self@.len,
            forall|a: int, b: int| #[trigger] r@.pos(a, b) == self@.pos(i + a, j + b),
            self@.fits() ==> r@.fits(),
            self@.no_self_alias() ==> r@.no_self_alias(),
    {
        proof {
            lemma_sub_keeps_invariants(self@, i as nat, j as nat, nrows as nat, ncols as nat);
            assert forall|a: int, b: int|
                #[trigger] self@.sub(i as int, j as int, nrows as nat, ncols as nat).pos(a, b)
                    == self@.pos(i + a, j + b) by {
                lemma_sub_pos(self@, i as int, j as int, nrows as nat, ncols as nat, a, b);
            }
        }
        let rs = self.row_stride();
        let cs = self.col_stride();
        let base = position(self.base, i, j, rs, cs);
        MatrixMut { len: self.len, base, nrows, ncols, rs, cs, marker: PhantomData }
    }

    /// Returns a reference to the element at position `(i, j)` of `buf`, the
    /// buffer that the view describes.
    pub fn get(self, buf: &'a [T], i: usize, j: usize) -> (r: &'a T)
        requires
            i < self@.nrows,
            j < self@.ncols,
            buf@.len() == self@.len,
            self@.pos(i as int, j as int) < self@.len,
        ensures
            *r == buf@[self@.pos(i as int, j as int)],
    {
        let p = self.element_ptr_inbounds(i, j);
        &buf[p]
    }

    /// Returns a mutable reference to the element at position `(i, j)` of `buf`,
    /// the buffer that the view describes.
    pub fn get_mut(self, buf: &'a mut [T], i: usize, j: usize) -> (r: &'a mut T)
        requires
            i < self@.nrows,
            j < self@.ncols,
            old(buf)@.len() == self@.len,
            self@.pos(i as int, j as int) < self@.len,
        ensures
            *r == old(buf)@[self@.pos(i as int, j as int)],
            final(buf)@ == old(buf)@.update(self@.pos(i as int, j as int), *final(r)),
    {
        let p = self.element_mut_ptr_inbounds(i, j);
        &mut buf[p]
    }

    /// Returns a reference to the element at position `(i, j)` of `buf`, the
    /// buffer that the view describes.
    pub fn get_unchecked(self, buf: &'a [T], i: usize, j: usize) -> (r: &'a T)
        requires
            i < self@.nrows,
            j < self@.ncols,
            buf@.len() == self@.len,
            self@.pos(i as int, j as int) < self@.len,
        ensures
            *r == buf@[self@.pos(i as int, j as int)],
    {
        let p = self.element_ptr_inbounds_unchecked(i, j);
        &buf[p]
    }

    /// Returns a mutable reference to the element at position `(i, j)` of `buf`,
    /// the buffer that the view describes.
    pub fn get_mut_unchecked(self, buf: &'a mut [T], i: usize, j: usize) -> (r: &'a mut T)
        requires
            i < self@.nrows,
            j < self@.ncols,
            old(buf)@.len() == self@.len,
            self@.pos(i as int, j as int) < self@.len,
        ensures
            *r == old(buf)@[self@.pos(i as int, j as int)],
            final(buf)@ == old(buf)@.update(self@.pos(i as int, j as int), *final(r)),
    {
        let p = self.element_mut_ptr_inbounds_unchecked(i, j);
        &mut buf[p]
    }

    /// Returns the position in the buffer of the element at `(i, j)`.
    pub fn element_ptr(self, i: usize, j: usize) -> (r: usize)
        ensures
            r == self@.pos(i as int, j as int),
    {
        self.rb().element_ptr(i, j)
    }

    /// Returns the position in the buffer of the element at `(i, j)`, for
    /// writing, which is an element of the view.
    pub fn element_mut_ptr(self, i: usize, j: usize) -> (r: usize)
        requires
            i < self@.nrows,
            j < self@.ncols,
        ensures
            r == self@.pos(i as int, j as int),
            self@.fits() ==> r < self@.len,
    {
        self.rb().element_ptr(i, j)
    }

    /// Returns the position in the buffer of the element at `(i, j)`,
    /// which is an element of the view.
    pub fn element_ptr_inbounds(self, i: usize, j: usize) -> (r: usize)
        requires
            i < self@.nrows,
            j < self@.ncols,
        ensures
            r == self@.pos(i as int, j as int),
            self@.fits() ==> r < self@.len,
    {
        self.element_ptr_inbounds_unchecked(i, j)
    }

    /// Returns the position in the buffer of the element at `(i, j)`, for
    /// writing, which is an element of the view.
    pub fn element_mut_ptr_inbounds(self, i: usize, j: usize) -> (r: usize)
        requires
            i < self@.nrows,
            j < self@.ncols,
        ensures
            r == self@.pos(i as int, j as int),
            self@.fits() ==> r < self@.len,
    {
        self.element_mut_ptr_inbounds_unchecked(i, j)
    }

    /// Returns the position in the buffer of the element at `(i, j)`,
    /// which is an element of the view.
    pub fn element_ptr_inbounds_unchecked(self, i: usize, j: usize) -> (r: usize)
        requires
            i < self@.nrows,
            j < self@.ncols,
        ensures
            r == self@.pos(i as int, j as int),
            self@.fits() ==> r < self@.len,
    {
        self.rb().element_ptr_inbounds_unchecked(i, j)
    }

    /// Returns the position in the buffer of the element at `(i, j)`, for
    /// writing, which is an element of the view.
    pub fn element_mut_ptr_inbounds_unchecked(self, i: usize, j: usize) -> (r: usize)
        requires
            i < self@.nrows,
            j < self@.ncols,
        ensures
            r == self@.pos(i as int, j as int),
            self@.fits() ==> r < self@.len,
    {
        proof {
            assert(self@.contains(i as int, j as int));
        }
        position_inbounds(self.base, i, j, self.rs, self.cs)
    }
}

/// A view built from a buffer with nonnegative strides, whose offsets are
/// injective and whose last element lies inside the buffer, has no self-alias.
proof fn lemma_dense_no_self_alias(len: nat, nrows: nat, ncols: nat, rs: usize, cs: usize)
    requires
        nrows > 0,
        ncols > 0,
        span(nrows, ncols, rs as nat, cs as nat) < len,
        len <= usize::MAX,
        offsets_injective(nrows, ncols, rs as nat, cs as nat),
    ensures
        dense_layout(len, nrows, ncols, rs, cs).no_self_alias(),
{
    let l = dense_layout(len, nrows, ncols, rs, cs);
    lemma_dense_fits(len, nrows, ncols, rs, cs);
    assert forall|i1: int, j1: int, i2: int, j2: int|
        l.contains(i1, j1) && l.contains(i2, j2) && #[trigger] l.pos(i1, j1) == #[trigger] l.pos(
            i2,
            j2,
        ) implies i1 == i2 && j1 == j2 by {
        assert(strided_offset(i1, j1, rs as int, cs as int) == strided_offset(
            i2,
            j2,
            rs as int,
            cs as int,
        ));
    }
}

/// The layout of a single element fits in a buffer of one element.
proof fn lemma_single_fits()
    ensures
        (StridedLayout { len: 1, base: 0, nrows: 1, ncols: 1, rs: 0, cs: 0 }).fits(),
{
    let l = StridedLayout { len: 1, base: 0, nrows: 1, ncols: 1, rs: 0, cs: 0 };
    assert forall|i: int, j: int| l.contains(i, j) implies #[trigger] l.pos(i, j) < l.len by {
        assert(i == 0 && j == 0);
        crate::offsets::lemma_wrap_small(0);
    }
}

/// A view built from a buffer with nonnegative strides whose last element lies
/// inside the buffer fits in the buffer, and its elements are at their exact
/// offsets.
proof fn lemma_dense_fits(len: nat, nrows: nat, ncols: nat, rs: usize, cs: usize)
    requires
        nrows > 0,
        ncols > 0,
        span(nrows, ncols, rs as nat, cs as nat) < len,
        len <= usize::MAX,
    ensures
        dense_layout(len, nrows, ncols, rs, cs).fits(),
        forall|i: int, j: int|
            0 <= i < nrows && 0 <= j < ncols ==> #[trigger] dense_layout(
                len,
                nrows,
                ncols,
                rs,
                cs,
            ).pos(i, j) == strided_offset(i, j, rs as int, cs as int),
{
    let l = dense_layout(len, nrows, ncols, rs, cs);
    assert forall|i: int, j: int| 0 <= i < nrows && 0 <= j < ncols implies #[trigger] l.pos(i, j)
        == strided_offset(i, j, rs as int, cs as int) by {
        lemma_dense_pos(len, nrows, ncols, rs, cs, i, j);
    }
    assert forall|i: int, j: int| l.contains(i, j) implies #[trigger] l.pos(i, j) < l.len by {
        lemma_offset_below_span(nrows, ncols, rs as nat, cs as nat, i, j);
    }
}

} // verus!
