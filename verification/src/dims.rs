//! Checks on the dimensions and strides of a view built from a buffer: the
//! largest offset it reaches, and whether two of its elements would share a
//! position.
use vstd::prelude::*;
use vstd::arithmetic::div_mod::lemma_fundamental_div_mod;
use crate::error::DimsError;

verus! {

/// The greatest common divisor, by Euclid's algorithm; `gcd(a, 0) == a`.
pub open spec fn spec_gcd(a: nat, b: nat) -> nat
    decreases b,
{
    if b == 0 {
        a
    } else {
        spec_gcd(b, a % b)
    }
}

/// The offset of element `(i, j)` in a view with nonnegative strides.
pub open spec fn strided_offset(i: int, j: int, rs: int, cs: int) -> int {
    rs * i + cs * j
}

/// The offset of the last element `(nrows - 1, ncols - 1)` of a nonempty view.
pub open spec fn span(nrows: nat, ncols: nat, rs: nat, cs: nat) -> int {
    strided_offset(nrows - 1, ncols - 1, rs as int, cs as int)
}

/// No two distinct elements of an `nrows` by `ncols` view have the same offset.
pub open spec fn offsets_injective(nrows: nat, ncols: nat, rs: nat, cs: nat) -> bool {
    forall|i1: int, j1: int, i2: int, j2: int|
        0 <= i1 < nrows && 0 <= j1 < ncols && 0 <= i2 < nrows && 0 <= j2 < ncols
            && #[trigger] strided_offset(i1, j1, rs as int, cs as int) == #[trigger] strided_offset(
            i2,
            j2,
            rs as int,
            cs as int,
        ) ==> i1 == i2 && j1 == j2
}

/// The pair of indices that a mutable view reports when two of its elements
/// share a position: the element at `(i, 0)` and the element at `(0, j)`.
pub open spec fn self_alias_witness(nrows: nat, ncols: nat, rs: nat, cs: nat) -> Option<(nat, nat)> {
    if rs == 0 && nrows > 1 {
        Some((1, 0))
    } else if cs == 0 && ncols > 1 {
        Some((0, 1))
    } else if rs == 0 || cs == 0 {
        None
    } else {
        let g = spec_gcd(rs, cs);
        if cs / g < nrows && rs / g < ncols {
            Some(((cs / g) as nat, (rs / g) as nat))
        } else {
            None
        }
    }
}

/// `gcd(a, b)` divides both `a` and `b`: the quotients are returned.
pub proof fn lemma_gcd_divides(a: nat, b: nat) -> (q: (nat, nat))
    ensures
        a == spec_gcd(a, b) * q.0,
        b == spec_gcd(a, b) * q.1,
    decreases b,
{
    if b == 0 {
        assert(a == a * 1);
        (1, 0)
    } else {
        let (qb, qr) = lemma_gcd_divides(b, a % b);
        let g = spec_gcd(a, b);
        lemma_fundamental_div_mod(a as int, b as int);
        let k = (a / b) as nat;
        assert(a == g * (k * qb + qr)) by (nonlinear_arith)
            requires
                a == b * k + a % b,
                b == g * qb,
                a % b == g * qr,
        ;
        ((k * qb + qr) as nat, qb)
    }
}

/// Bézout's identity: `gcd(a, b)` is an integer combination of `a` and `b`.
pub proof fn lemma_bezout(a: nat, b: nat) -> (c: (int, int))
    ensures
        a * c.0 + b * c.1 == spec_gcd(a, b),
    decreases b,
{
    if b == 0 {
        (1, 0)
    } else {
        let (x, y) = lemma_bezout(b, a % b);
        lemma_fundamental_div_mod(a as int, b as int);
        let k = a / b;
        let r = a % b;
        let g = spec_gcd(a, b);
        assert(b * x + r * y == g);
        assert(a == b * k + r);
        assert(a * y + b * (x - k * y) == g) by (nonlinear_arith)
            requires
                b * x + r * y == g,
                a == b * k + r,
        ;
        (y, x - k * y)
    }
}

/// The greatest common divisor of two numbers, not both zero, is positive.
pub proof fn lemma_gcd_positive(a: nat, b: nat)
    requires
        a > 0 || b > 0,
    ensures
        spec_gcd(a, b) > 0,
    decreases b,
{
    if b != 0 {
        lemma_gcd_positive(b, a % b);
    }
}

/// Computes the greatest common divisor of `a` and `b` by Euclid's algorithm.
pub(crate) fn gcd(a: usize, b: usize) -> (r: usize)
    ensures
        r == spec_gcd(a as nat, b as nat),
{
    let ghost g = spec_gcd(a as nat, b as nat);
    let mut a = a;
    let mut b = b;
    while b != 0
        invariant
            spec_gcd(a as nat, b as nat) == g,
        decreases b,
    {
        let tmp = a % b;
        a = b;
        b = tmp;
    }
    a
}

/// The offset of the last element of a nonempty `nrows` by `ncols` view with
/// strides `rs` and `cs`, or `SizeOverflow` when it does not fit in a `usize`.
pub(crate) fn largest_offset(nrows: usize, ncols: usize, rs: usize, cs: usize) -> (r: Result<
    usize,
    DimsError,
>)
    requires
        nrows > 0,
        ncols > 0,
    ensures
        match r {
            Ok(v) => v == span(nrows as nat, ncols as nat, rs as nat, cs as nat),
            Err(e) => e == DimsError::SizeOverflow,
        },
        r is Ok <==> span(nrows as nat, ncols as nat, rs as nat, cs as nat) <= usize::MAX,
{
    let offset0 = rs.checked_mul(nrows - 1);
    let offset1 = cs.checked_mul(ncols - 1);
    proof {
        assert(rs * (nrows - 1) >= 0) by (nonlinear_arith)
            requires
                nrows > 0,
        ;
        assert(cs * (ncols - 1) >= 0) by (nonlinear_arith)
            requires
                ncols > 0,
        ;
    }
    let (offset0, offset1) = match (offset0, offset1) {
        (Some(offset0), Some(offset1)) => (offset0, offset1),
        _ => return Err(DimsError::SizeOverflow),
    };
    match offset0.checked_add(offset1) {
        Some(v) => Ok(v),
        None => Err(DimsError::SizeOverflow),
    }
}

proof fn lemma_injective_core(
    rs: int,
    cs: int,
    g: int,
    p: int,
    q: int,
    x: int,
    y: int,
    nrows: int,
    ncols: int,
    i1: int,
    j1: int,
    i2: int,
    j2: int,
)
    requires
        rs > 0,
        cs > 0,
        g > 0,
        rs == g * p,
        cs == g * q,
        p * x + q * y == 1,
        q >= nrows || p >= ncols,
        0 <= i1 < nrows,
        0 <= i2 < nrows,
        0 <= j1 < ncols,
        0 <= j2 < ncols,
        strided_offset(i1, j1, rs, cs) == strided_offset(i2, j2, rs, cs),
    ensures
        i1 == i2 && j1 == j2,
{
    let di = i1 - i2;
    let dj = j2 - j1;
    assert(rs * di == cs * dj) by (nonlinear_arith)
        requires
            rs * i1 + cs * j1 == rs * i2 + cs * j2,
            di == i1 - i2,
            dj == j2 - j1,
    ;
    assert(p * di == q * dj) by (nonlinear_arith)
        requires
            rs * di == cs * dj,
            rs == g * p,
            cs == g * q,
            g > 0,
    ;
    let k = dj * x + di * y;
    assert(di == q * k) by (nonlinear_arith)
        requires
            p * x + q * y == 1,
            p * di == q * dj,
            k == dj * x + di * y,
    ;
    assert(dj == p * k) by (nonlinear_arith)
        requires
            p * x + q * y == 1,
            p * di == q * dj,
            k == dj * x + di * y,
    ;
    assert(p > 0 && q > 0) by (nonlinear_arith)
        requires
            rs == g * p,
            cs == g * q,
            g > 0,
            rs > 0,
            cs > 0,
    ;
    if q >= nrows {
        lemma_small_multiple(q, k, di, nrows);
    } else {
        lemma_small_multiple(p, k, dj, ncols);
    }
    assert(k == 0);
    assert(di == 0 && dj == 0) by (nonlinear_arith)
        requires
            di == q * k,
            dj == p * k,
            k == 0,
    ;
}

/// A multiple `m * k` of `m` that is smaller than `m` in absolute value is zero.
proof fn lemma_small_multiple(m: int, k: int, d: int, bound: int)
    requires
        m > 0,
        d == m * k,
        m >= bound,
        -bound < d < bound,
    ensures
        k == 0,
{
    if k >= 1 {
        assert(m * k >= m) by (nonlinear_arith)
            requires
                k >= 1,
                m > 0,
        ;
    } else if k <= -1 {
        assert(m * k <= -m) by (nonlinear_arith)
            requires
                k <= -1,
                m > 0,
        ;
    }
}

/// A nonempty view of `nrows` by `ncols` elements with nonnegative strides `rs` and `cs`
/// has two elements at one offset exactly when `self_alias_witness` names a pair;
/// the pair it names is such a collision: `(i, 0)` and `(0, j)` are two distinct
/// elements of the view with one offset.
pub proof fn lemma_self_alias_witness(nrows: nat, ncols: nat, rs: nat, cs: nat)
    requires
        nrows > 0,
        ncols > 0,
    ensures
        self_alias_witness(nrows, ncols, rs, cs) is None <==> offsets_injective(
            nrows,
            ncols,
            rs,
            cs,
        ),
        self_alias_witness(nrows, ncols, rs, cs) matches Some((i, j)) ==> {
            &&& i < nrows
            &&& j < ncols
            &&& (i, j) != (0nat, 0nat)
            &&& strided_offset(i as int, 0, rs as int, cs as int) == strided_offset(
                0,
                j as int,
                rs as int,
                cs as int,
            )
        },
{
    let w = self_alias_witness(nrows, ncols, rs, cs);
    if rs == 0 && nrows > 1 {
        assert(strided_offset(1, 0, rs as int, cs as int) == strided_offset(
            0,
            0,
            rs as int,
            cs as int,
        ));
    } else if cs == 0 && ncols > 1 {
        assert(strided_offset(0, 1, rs as int, cs as int) == strided_offset(
            0,
            0,
            rs as int,
            cs as int,
        ));
    } else if rs == 0 || cs == 0 {
        assert forall|i1: int, j1: int, i2: int, j2: int|
            0 <= i1 < nrows && 0 <= j1 < ncols && 0 <= i2 < nrows && 0 <= j2 < ncols
                && #[trigger] strided_offset(i1, j1, rs as int, cs as int)
                == #[trigger] strided_offset(i2, j2, rs as int, cs as int) implies i1 == i2 && j1
            == j2 by {
            if rs == 0 {
                assert(i1 == 0 && i2 == 0);
                if cs == 0 {
                    assert(j1 == 0 && j2 == 0);
                } else {
                    assert(cs * (j1 - j2) == 0) by (nonlinear_arith)
                        requires
                            rs * i1 + cs * j1 == rs * i2 + cs * j2,
                            rs == 0,
                    ;
                    lemma_small_multiple(cs as int, j1 - j2, 0, 1);
                }
            } else {
                assert(j1 == 0 && j2 == 0);
                assert(rs * (i1 - i2) == 0) by (nonlinear_arith)
                    requires
                        rs * i1 + cs * j1 == rs * i2 + cs * j2,
                        cs == 0,
                ;
                lemma_small_multiple(rs as int, i1 - i2, 0, 1);
            }
        }
    } else {
        let g = spec_gcd(rs, cs);
        lemma_gcd_positive(rs, cs);
        let (p, q) = lemma_gcd_divides(rs, cs);
        let (x, y) = lemma_bezout(rs, cs);
        assert(p * x + q * y == 1) by (nonlinear_arith)
            requires
                rs * x + cs * y == g,
                rs == g * p,
                cs == g * q,
                g > 0,
        ;
        assert(rs / g == p && cs / g == q) by {
            lemma_div_exact(rs as int, g as int, p as int);
            lemma_div_exact(cs as int, g as int, q as int);
        }
        if cs / g < nrows && rs / g < ncols {
            assert(strided_offset(q as int, 0, rs as int, cs as int) == strided_offset(
                0,
                p as int,
                rs as int,
                cs as int,
            )) by (nonlinear_arith)
                requires
                    rs == g * p,
                    cs == g * q,
            ;
            assert(q > 0) by (nonlinear_arith)
                requires
                    cs == g * q,
                    g > 0,
                    cs > 0,
            ;
            // the two elements `(q, 0)` and `(0, p)` are distinct and collide
            assert(!offsets_injective(nrows, ncols, rs, cs)) by {
                assert(strided_offset(q as int, 0, rs as int, cs as int) == strided_offset(
                    0,
                    p as int,
                    rs as int,
                    cs as int,
                ));
            }
        } else {
            assert forall|i1: int, j1: int, i2: int, j2: int|
                0 <= i1 < nrows && 0 <= j1 < ncols && 0 <= i2 < nrows && 0 <= j2 < ncols
                    && #[trigger] strided_offset(i1, j1, rs as int, cs as int)
                    == #[trigger] strided_offset(i2, j2, rs as int, cs as int) implies i1 == i2
                && j1 == j2 by {
                lemma_injective_core(
                    rs as int,
                    cs as int,
                    g as int,
                    p as int,
                    q as int,
                    x,
                    y,
                    nrows as int,
                    ncols as int,
                    i1,
                    j1,
                    i2,
                    j2,
                );
            }
        }
    }
}

/// An exact quotient.
proof fn lemma_div_exact(a: int, g: int, p: int)
    requires
        g > 0,
        a == g * p,
    ensures
        a / g == p,
{
    assert(a == p * g + 0) by (nonlinear_arith)
        requires
            a == g * p,
    ;
    vstd::arithmetic::div_mod::lemma_fundamental_div_mod_converse(a, g, p, 0);
}

/// The offset of element `(i, j)` of a nonempty view is at most the offset of
/// its last element, and at least zero.
pub proof fn lemma_offset_below_span(nrows: nat, ncols: nat, rs: nat, cs: nat, i: int, j: int)
    requires
        0 <= i < nrows,
        0 <= j < ncols,
    ensures
        0 <= strided_offset(i, j, rs as int, cs as int) <= span(nrows, ncols, rs, cs),
{
    assert(0 <= rs * i <= rs * (nrows - 1)) by (nonlinear_arith)
        requires
            0 <= i < nrows,
    ;
    assert(0 <= cs * j <= cs * (ncols - 1)) by (nonlinear_arith)
        requires
            0 <= j < ncols,
    ;
}

} // verus!
