//! The mathematical model of a view: which position of the underlying buffer
//! each element `(i, j)` occupies.
use vstd::prelude::*;
use crate::offsets::{modulus, wrap, lemma_wrap_add, lemma_wrap_small, lemma_wrap_mul, lemma_usize_as_isize};
use crate::dims::{strided_offset, span, lemma_offset_below_span};

verus! {

/// The layout of a strided view over a buffer of `len` elements: element
/// `(i, j)`, for `i < nrows` and `j < ncols`, is at position
/// `base + i * rs + j * cs`, taken modulo `modulus()`.
pub struct StridedLayout {
    /// Number of elements of the buffer that the view describes.
    pub len: nat,
    /// Position of element `(0, 0)`.
    pub base: int,
    /// Number of rows.
    pub nrows: nat,
    /// Number of columns.
    pub ncols: nat,
    /// Stride between consecutive rows.
    pub rs: int,
    /// Stride between consecutive columns.
    pub cs: int,
}

impl StridedLayout {
    /// The position of element `(i, j)` in the buffer.
    pub open spec fn pos(self, i: int, j: int) -> int {
        wrap(self.base + i * self.rs + j * self.cs)
    }

    /// `(i, j)` is an element of the view.
    pub open spec fn contains(self, i: int, j: int) -> bool {
        0 <= i < self.nrows && 0 <= j < self.ncols
    }

    /// Every element of the view lies inside the buffer.
    pub open spec fn fits(self) -> bool {
        forall|i: int, j: int| self.contains(i, j) ==> #[trigger] self.pos(i, j) < self.len
    }

    /// No two distinct elements of the view share a position.
    pub open spec fn no_self_alias(self) -> bool {
        forall|i1: int, j1: int, i2: int, j2: int|
            self.contains(i1, j1) && self.contains(i2, j2) && #[trigger] self.pos(i1, j1)
                == #[trigger] self.pos(i2, j2) ==> i1 == i2 && j1 == j2
    }

    /// The layout of the transpose: rows and columns exchanged.
    pub open spec fn transposed(self) -> StridedLayout {
        StridedLayout {
            len: self.len,
            base: self.base,
            nrows: self.ncols,
            ncols: self.nrows,
            rs: self.cs,
            cs: self.rs,
        }
    }

    /// The layout of the submatrix of `nrows` by `ncols` elements whose element
    /// `(0, 0)` is element `(i, j)` of `self`.
    pub open spec fn sub(self, i: int, j: int, nrows: nat, ncols: nat) -> StridedLayout {
        StridedLayout {
            len: self.len,
            base: self.pos(i, j),
            nrows: nrows,
            ncols: ncols,
            rs: self.rs,
            cs: self.cs,
        }
    }

    /// The four blocks of a split at `(i, j)`, in this order: at `(0, 0)` with
    /// `i` rows and `j` columns; at `(0, j)` with `i` rows and `ncols - j`
    /// columns; at `(i, 0)` with `i` rows and `j` columns; at `(i, j)` with
    /// `nrows - i` rows and `ncols - j` columns.
    pub open spec fn quadrants(self, i: nat, j: nat) -> (
        StridedLayout,
        StridedLayout,
        StridedLayout,
        StridedLayout,
    ) {
        (
            self.sub(0, 0, i, j),
            self.sub(0, j as int, i, (self.ncols - j) as nat),
            self.sub(i as int, 0, i, j),
            self.sub(i as int, j as int, (self.nrows - i) as nat, (self.ncols - j) as nat),
        )
    }
}

/// The layout of a view with no elements over a buffer of `len` elements.
pub open spec fn empty_layout(len: nat, nrows: nat, ncols: nat) -> StridedLayout {
    StridedLayout { len: len, base: 0, nrows: nrows, ncols: ncols, rs: 0, cs: 0 }
}

/// The layout of a view that starts at the beginning of a buffer of `len`
/// elements, with the nonnegative strides `rs` and `cs` taken as `isize`.
pub open spec fn dense_layout(len: nat, nrows: nat, ncols: nat, rs: usize, cs: usize) -> StridedLayout {
    StridedLayout {
        len: len,
        base: 0,
        nrows: nrows,
        ncols: ncols,
        rs: (rs as isize) as int,
        cs: (cs as isize) as int,
    }
}

/// Element `(i, j)` of the transpose is element `(j, i)` of the view, and
/// transposing twice gives the view back.
pub proof fn lemma_transposed(l: StridedLayout, i: int, j: int)
    ensures
        l.transposed().pos(i, j) == l.pos(j, i),
        l.transposed().contains(i, j) == l.contains(j, i),
        l.transposed().transposed() == l,
{
}

/// A submatrix starting at `(i, j)` with `nrows` rows and `ncols` columns has
/// exactly that many rows and columns, the view's strides and buffer, and its
/// element `(a, b)` is element `(i + a, j + b)` of the view.
pub proof fn lemma_sub_pos(l: StridedLayout, i: int, j: int, nrows: nat, ncols: nat, a: int, b: int)
    ensures
        l.sub(i, j, nrows, ncols).pos(a, b) == l.pos(i + a, j + b),
        l.sub(i, j, nrows, ncols).nrows == nrows,
        l.sub(i, j, nrows, ncols).ncols == ncols,
        l.sub(i, j, nrows, ncols).rs == l.rs,
        l.sub(i, j, nrows, ncols).cs == l.cs,
        l.sub(i, j, nrows, ncols).len == l.len,
{
    let x = l.base + i * l.rs + j * l.cs;
    lemma_wrap_add(x, a * l.rs + b * l.cs);
    assert(x + a * l.rs + b * l.cs == l.base + (i + a) * l.rs + (j + b) * l.cs) by (nonlinear_arith)
        requires
            x == l.base + i * l.rs + j * l.cs,
    ;
}

/// A submatrix that lies inside a view fits in the buffer when the view does,
/// and has no self-alias when the view has none.
pub proof fn lemma_sub_keeps_invariants(l: StridedLayout, i: nat, j: nat, nrows: nat, ncols: nat)
    requires
        i + nrows <= l.nrows,
        j + ncols <= l.ncols,
    ensures
        l.fits() ==> l.sub(i as int, j as int, nrows, ncols).fits(),
        l.no_self_alias() ==> l.sub(i as int, j as int, nrows, ncols).no_self_alias(),
{
    let s = l.sub(i as int, j as int, nrows, ncols);
    assert forall|a: int, b: int| #[trigger] s.pos(a, b) == l.pos(i + a, j + b) by {
        lemma_sub_pos(l, i as int, j as int, nrows, ncols, a, b);
    }
    if l.fits() {
        assert forall|a: int, b: int| s.contains(a, b) implies #[trigger] s.pos(a, b) < s.len by {
            assert(l.contains(i + a, j + b));
            assert(l.pos(i + a, j + b) < l.len);
        }
    }
    if l.no_self_alias() {
        assert forall|a1: int, b1: int, a2: int, b2: int|
            s.contains(a1, b1) && s.contains(a2, b2) && #[trigger] s.pos(a1, b1) == #[trigger] s.pos(
                a2,
                b2,
            ) implies a1 == a2 && b1 == b2 by {
            assert(l.pos(i + a1, j + b1) == l.pos(i + a2, j + b2));
            assert(l.contains(i + a1, j + b1) && l.contains(i + a2, j + b2));
        }
    }
}

/// The transpose fits in the buffer when the view does, and has no self-alias
/// when the view has none.
pub proof fn lemma_transposed_keeps_invariants(l: StridedLayout)
    ensures
        l.fits() ==> l.transposed().fits(),
        l.no_self_alias() ==> l.transposed().no_self_alias(),
{
    let t = l.transposed();
    if l.fits() {
        assert forall|a: int, b: int| t.contains(a, b) implies #[trigger] t.pos(a, b) < t.len by {
            assert(t.pos(a, b) == l.pos(b, a));
            assert(l.contains(b, a));
        }
    }
    if l.no_self_alias() {
        assert forall|a1: int, b1: int, a2: int, b2: int|
            t.contains(a1, b1) && t.contains(a2, b2) && #[trigger] t.pos(a1, b1) == #[trigger] t.pos(
                a2,
                b2,
            ) implies a1 == a2 && b1 == b2 by {
            assert(t.pos(a1, b1) == l.pos(b1, a1));
            assert(t.pos(a2, b2) == l.pos(b2, a2));
        }
    }
}

/// Two submatrices of a view without self-alias, over index rectangles that do
/// not overlap, occupy disjoint sets of positions.
pub proof fn lemma_disjoint_subs(
    l: StridedLayout,
    i1: nat,
    j1: nat,
    m1: nat,
    n1: nat,
    i2: nat,
    j2: nat,
    m2: nat,
    n2: nat,
)
    requires
        l.no_self_alias(),
        i1 + m1 <= l.nrows,
        j1 + n1 <= l.ncols,
        i2 + m2 <= l.nrows,
        j2 + n2 <= l.ncols,
        i1 + m1 <= i2 || i2 + m2 <= i1 || j1 + n1 <= j2 || j2 + n2 <= j1,
    ensures
        forall|a1: int, b1: int, a2: int, b2: int|
            l.sub(i1 as int, j1 as int, m1, n1).contains(a1, b1) && l.sub(
                i2 as int,
                j2 as int,
                m2,
                n2,
            ).contains(a2, b2) ==> #[trigger] l.sub(i1 as int, j1 as int, m1, n1).pos(a1, b1)
                != #[trigger] l.sub(i2 as int, j2 as int, m2, n2).pos(a2, b2),
{
    let s1 = l.sub(i1 as int, j1 as int, m1, n1);
    let s2 = l.sub(i2 as int, j2 as int, m2, n2);
    assert forall|a1: int, b1: int, a2: int, b2: int|
        s1.contains(a1, b1) && s2.contains(a2, b2) implies #[trigger] s1.pos(a1, b1)
        != #[trigger] s2.pos(a2, b2) by {
        lemma_sub_pos(l, i1 as int, j1 as int, m1, n1, a1, b1);
        lemma_sub_pos(l, i2 as int, j2 as int, m2, n2, a2, b2);
        assert(l.contains(i1 + a1, j1 + b1));
        assert(l.contains(i2 + a2, j2 + b2));
        if s1.pos(a1, b1) == s2.pos(a2, b2) {
            assert(l.pos(i1 + a1, j1 + b1) == l.pos(i2 + a2, j2 + b2));
        }
    }
}

/// Splitting a view at `(i, j)`, for every `i <= nrows` and `j <= ncols`: the
/// blocks are `i` by `j`, `i` by `ncols - j`, `i` by `j` and `nrows - i` by
/// `ncols - j`, with the view's strides and buffer; element `(a, b)` of a block
/// is the view's element at `(a, b)`, `(a, j + b)`, `(i + a, b)` and
/// `(i + a, j + b)` respectively; every element of the view lies in one of the
/// blocks, except those in rows from `2 * i` on and columns before `j`, which
/// the third block (of `i` rows) does not reach; when the view has no
/// self-alias and `2 * i <= nrows`, no two blocks share a position.
pub proof fn lemma_quadrants(l: StridedLayout, i: nat, j: nat)
    requires
        i <= l.nrows,
        j <= l.ncols,
    ensures
        ({
            let (tl, tr, bl, br) = l.quadrants(i, j);
            &&& tl.nrows == i && tl.ncols == j
            &&& tr.nrows == i && tr.ncols == l.ncols - j
            &&& bl.nrows == i && bl.ncols == j
            &&& br.nrows == l.nrows - i && br.ncols == l.ncols - j
            &&& tl.rs == l.rs && tr.rs == l.rs && bl.rs == l.rs && br.rs == l.rs
            &&& tl.cs == l.cs && tr.cs == l.cs && bl.cs == l.cs && br.cs == l.cs
            &&& tl.len == l.len && tr.len == l.len && bl.len == l.len && br.len == l.len
            &&& forall|a: int, b: int| #[trigger] tl.pos(a, b) == l.pos(a, b)
            &&& forall|a: int, b: int| #[trigger] tr.pos(a, b) == l.pos(a, b + j)
            &&& forall|a: int, b: int| #[trigger] bl.pos(a, b) == l.pos(a + i, b)
            &&& forall|a: int, b: int| #[trigger] br.pos(a, b) == l.pos(a + i, b + j)
            &&& forall|a: int, b: int|
                l.contains(a, b) ==> (if a < i {
                    if b < j {
                        tl.contains(a, b)
                    } else {
                        tr.contains(a, b - j)
                    }
                } else {
                    if b < j {
                        bl.contains(a - i, b) <==> a < 2 * i
                    } else {
                        br.contains(a - i, b - j)
                    }
                })
        }),
        l.no_self_alias() && 2 * i <= l.nrows ==> ({
            let (tl, tr, bl, br) = l.quadrants(i, j);
            let qs = seq![tl, tr, bl, br];
            forall|p: int, q: int, a1: int, b1: int, a2: int, b2: int|
                0 <= p < 4 && 0 <= q < 4 && p != q && qs[p].contains(a1, b1) && qs[q].contains(
                    a2,
                    b2,
                ) ==> #[trigger] qs[p].pos(a1, b1) != #[trigger] qs[q].pos(a2, b2)
        }),
{
    let (tl, tr, bl, br) = l.quadrants(i, j);
    let m = l.nrows;
    let n = l.ncols;
    assert forall|a: int, b: int| #[trigger] tl.pos(a, b) == l.pos(a, b) by {
        lemma_sub_pos(l, 0, 0, i, j, a, b);
    }
    assert forall|a: int, b: int| #[trigger] tr.pos(a, b) == l.pos(a, b + j) by {
        lemma_sub_pos(l, 0, j as int, i, (n - j) as nat, a, b);
    }
    assert forall|a: int, b: int| #[trigger] bl.pos(a, b) == l.pos(a + i, b) by {
        lemma_sub_pos(l, i as int, 0, i, j, a, b);
    }
    assert forall|a: int, b: int| #[trigger] br.pos(a, b) == l.pos(a + i, b + j) by {
        lemma_sub_pos(l, i as int, j as int, (m - i) as nat, (n - j) as nat, a, b);
    }
    if l.no_self_alias() && 2 * i <= l.nrows {
        let qs = seq![tl, tr, bl, br];
        let rect = seq![
            (0nat, 0nat, i, j),
            (0nat, j, i, (n - j) as nat),
            (i, 0nat, i, j),
            (i, j, (m - i) as nat, (n - j) as nat)
        ];
        assert forall|p: int, q: int, a1: int, b1: int, a2: int, b2: int|
            0 <= p < 4 && 0 <= q < 4 && p != q && qs[p].contains(a1, b1) && qs[q].contains(
                a2,
                b2,
            ) implies #[trigger] qs[p].pos(a1, b1) != #[trigger] qs[q].pos(a2, b2) by {
            let (pi, pj, pm, pn) = rect[p];
            let (qi, qj, qm, qn) = rect[q];
            assert(qs[p] == l.sub(pi as int, pj as int, pm, pn));
            assert(qs[q] == l.sub(qi as int, qj as int, qm, qn));
            lemma_disjoint_subs(l, pi, pj, pm, pn, qi, qj, qm, qn);
        }
    }
}

/// In a view built from a buffer with nonnegative strides, element `(i, j)` is
/// at its exact offset `i * rs + j * cs`, without wrapping around.
pub proof fn lemma_dense_pos(len: nat, nrows: nat, ncols: nat, rs: usize, cs: usize, i: int, j: int)
    requires
        nrows > 0,
        ncols > 0,
        span(nrows, ncols, rs as nat, cs as nat) < modulus(),
        0 <= i < nrows,
        0 <= j < ncols,
    ensures
        dense_layout(len, nrows, ncols, rs, cs).pos(i, j) == strided_offset(
            i,
            j,
            rs as int,
            cs as int,
        ),
{
    let l = dense_layout(len, nrows, ncols, rs, cs);
    lemma_usize_as_isize(rs);
    lemma_usize_as_isize(cs);
    lemma_wrap_mul((rs as isize) as int, rs as int, i);
    lemma_wrap_mul((cs as isize) as int, cs as int, j);
    let x = i * l.rs;
    let y = j * l.cs;
    assert(x == l.rs * i && y == l.cs * j) by (nonlinear_arith)
        requires
            x == i * l.rs,
            y == j * l.cs,
    ;
    assert(wrap(x) == wrap(rs * i)) by {
        assert(l.rs * i == x);
    }
    assert(wrap(y) == wrap(cs * j));
    lemma_wrap_add(x, y);
    lemma_wrap_add(rs * i, y);
    lemma_wrap_add(y, rs * i);
    lemma_wrap_add(cs * j, rs * i);
    lemma_offset_below_span(nrows, ncols, rs as nat, cs as nat, i, j);
    lemma_wrap_small(rs * i + cs * j);
    assert(l.pos(i, j) == wrap(x + y));
}

} // verus!
