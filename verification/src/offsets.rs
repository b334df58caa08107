//! Strided offsets: the position arithmetic shared by every view.
//!
//! Positions wrap around modulo `usize::MAX + 1`, as addresses do; a view that
//! was built from a real buffer never needs the wrap-around for the elements it
//! contains.
use vstd::prelude::*;
use vstd::arithmetic::div_mod::lemma_mod_multiples_vanish;
use vstd::arithmetic::div_mod::lemma_fundamental_div_mod;
use vstd::arithmetic::div_mod::lemma_small_mod;

verus! {

/// The number of distinct `usize` values: positions are taken modulo it.
pub open spec fn modulus() -> int {
    usize::MAX as int + 1
}

/// A position reduced to `0..modulus()`.
pub open spec fn wrap(x: int) -> int {
    x % modulus()
}

/// The `isize` value congruent to `x` modulo `modulus()`.
pub open spec fn signed_wrap(x: int) -> int {
    let r = x % modulus();
    if r > isize::MAX as int {
        r - modulus()
    } else {
        r
    }
}

/// Adding a multiple of the modulus does not change a reduced position.
pub proof fn lemma_wrap_shift(v: int, k: int)
    ensures
        wrap(v + k * modulus()) == wrap(v),
{
    lemma_mod_multiples_vanish(k, v, modulus());
    assert(modulus() * k == k * modulus()) by (nonlinear_arith);
}

/// A value already in `0..modulus()` is its own reduction.
pub proof fn lemma_wrap_small(v: int)
    requires
        0 <= v < modulus(),
    ensures
        wrap(v) == v,
{
    lemma_small_mod(v as nat, modulus() as nat);
}

/// Reduction is in `0..modulus()`.
pub proof fn lemma_wrap_range(v: int)
    ensures
        0 <= wrap(v) < modulus(),
{
}

/// `wrap` of a sum only depends on the reductions of the terms.
pub proof fn lemma_wrap_add(x: int, y: int)
    ensures
        wrap(wrap(x) + y) == wrap(x + y),
{
    lemma_fundamental_div_mod(x, modulus());
    let q = x / modulus();
    assert(x == modulus() * q + wrap(x));
    assert(wrap(x) + y + q * modulus() == x + y) by (nonlinear_arith)
        requires
            x == modulus() * q + wrap(x),
    ;
    lemma_wrap_shift(wrap(x) + y, q);
}

/// Two values that differ by a multiple of the modulus have equal reductions.
pub proof fn lemma_wrap_congruent(x: int, y: int, k: int)
    requires
        x == y + k * modulus(),
    ensures
        wrap(x) == wrap(y),
{
    lemma_wrap_shift(y, k);
}

/// `signed_wrap` picks the member of the congruence class in `isize` range.
pub proof fn lemma_signed_wrap(x: int)
    ensures
        isize::MIN <= signed_wrap(x) <= isize::MAX,
        wrap(signed_wrap(x)) == wrap(x),
        isize::MIN <= x <= isize::MAX ==> signed_wrap(x) == x,
{
    let r = wrap(x);
    lemma_wrap_range(x);
    assert(isize::MIN == -(isize::MAX + 1));
    assert(modulus() == 2 * (isize::MAX + 1));
    lemma_fundamental_div_mod(x, modulus());
    let q = x / modulus();
    if r > isize::MAX as int {
        assert(r - modulus() == x + (-q - 1) * modulus()) by (nonlinear_arith)
            requires
                x == modulus() * q + r,
        ;
        lemma_wrap_congruent(r - modulus(), x, -q - 1);
        if isize::MIN <= x <= isize::MAX {
            if x >= 0 {
                lemma_wrap_small(x);
            } else {
                lemma_wrap_congruent(x + modulus(), x, 1);
                lemma_wrap_small(x + modulus());
            }
        }
    } else {
        assert(r == x + (-q) * modulus()) by (nonlinear_arith)
            requires
                x == modulus() * q + r,
        ;
        lemma_wrap_congruent(r, x, -q);
        lemma_wrap_small(r);
        if isize::MIN <= x <= isize::MAX {
            if x >= 0 {
                lemma_wrap_small(x);
            } else {
                lemma_wrap_congruent(x + modulus(), x, 1);
                lemma_wrap_small(x + modulus());
            }
        }
    }
}

proof fn lemma_all_ones(y: usize)
    by (bit_vector)
    ensures
        y <= !0usize,
{
}

proof fn lemma_negative_isize_as_usize(x: isize)
    by (bit_vector)
    requires
        x < 0,
    ensures
        (x as usize) as int == x as int + (!0usize) as int + 1,
{
}

proof fn lemma_usize_isize_round_trip(i: usize)
    by (bit_vector)
    ensures
        (i as isize) as usize == i,
{
}

/// Reinterpreting an `isize` as a `usize` keeps its class modulo `modulus()`.
pub proof fn lemma_isize_as_usize(x: isize)
    ensures
        wrap((x as usize) as int) == wrap(x as int),
{
    lemma_all_ones(usize::MAX);
    if x < 0 {
        lemma_negative_isize_as_usize(x);
        lemma_wrap_congruent((x as usize) as int, x as int, 1);
    }
}

/// Reinterpreting a `usize` as an `isize` keeps its class modulo `modulus()`.
pub proof fn lemma_usize_as_isize(i: usize)
    ensures
        wrap((i as isize) as int) == wrap(i as int),
{
    let x = i as isize;
    lemma_all_ones(usize::MAX);
    lemma_usize_isize_round_trip(i);
    if x < 0 {
        lemma_negative_isize_as_usize(x);
        lemma_wrap_congruent(i as int, x as int, 1);
    }
}

/// `x * k` and `y * k` are congruent when `x` and `y` are.
pub proof fn lemma_wrap_mul(x: int, y: int, k: int)
    requires
        wrap(x) == wrap(y),
    ensures
        wrap(x * k) == wrap(y * k),
{
    lemma_fundamental_div_mod(x, modulus());
    lemma_fundamental_div_mod(y, modulus());
    let qx = x / modulus();
    let qy = y / modulus();
    assert(x * k == y * k + ((qx - qy) * k) * modulus()) by (nonlinear_arith)
        requires
            x == modulus() * qx + wrap(x),
            y == modulus() * qy + wrap(y),
            wrap(x) == wrap(y),
    ;
    lemma_wrap_congruent(x * k, y * k, (qx - qy) * k);
}

/// The offset of element `(i, j)` from element `(0, 0)`, in elements, for a view
/// whose rows are `row_stride` apart and whose columns are `col_stride` apart.
/// The arithmetic wraps around; the result is the `isize` congruent to
/// `i * row_stride + j * col_stride`.
pub(crate) fn offset(i: usize, j: usize, row_stride: isize, col_stride: isize) -> (r: isize)
    ensures
        r as int == signed_wrap(i * row_stride + j * col_stride),
{
    let a = (i as isize).wrapping_mul(row_stride);
    let b = (j as isize).wrapping_mul(col_stride);
    let r = a.wrapping_add(b);
    proof {
        lemma_offset_value(i, j, row_stride, col_stride, a, b, r);
    }
    r
}

/// The same offset as [`offset`], used where `(i, j)` is known to be inside the
/// view, so that the value never wraps around.
pub(crate) fn offset_inbounds(i: usize, j: usize, row_stride: isize, col_stride: isize) -> (r: isize)
    ensures
        r as int == signed_wrap(i * row_stride + j * col_stride),
        isize::MIN <= i * row_stride + j * col_stride <= isize::MAX ==> r == i * row_stride + j
            * col_stride,
{
    let a = (i as isize).wrapping_mul(row_stride);
    let b = (j as isize).wrapping_mul(col_stride);
    let r = a.wrapping_add(b);
    proof {
        lemma_offset_value(i, j, row_stride, col_stride, a, b, r);
        lemma_signed_wrap(i * row_stride + j * col_stride);
    }
    r
}

/// The position of element `(i, j)` of a view whose element `(0, 0)` is at
/// `base`: `base` plus the element's offset, wrapping around.
pub(crate) fn position(base: usize, i: usize, j: usize, row_stride: isize, col_stride: isize) -> (r:
    usize)
    ensures
        r as int == wrap(base + i * row_stride + j * col_stride),
{
    let off = offset(i, j, row_stride, col_stride);
    let r = base.wrapping_add(off as usize);
    proof {
        lemma_position_value(base, off, i * row_stride + j * col_stride, r);
    }
    r
}

/// The same position as [`position`], for an element known to be inside the view.
pub(crate) fn position_inbounds(
    base: usize,
    i: usize,
    j: usize,
    row_stride: isize,
    col_stride: isize,
) -> (r: usize)
    ensures
        r as int == wrap(base + i * row_stride + j * col_stride),
{
    let off = offset_inbounds(i, j, row_stride, col_stride);
    let r = base.wrapping_add(off as usize);
    proof {
        lemma_position_value(base, off, i * row_stride + j * col_stride, r);
    }
    r
}

proof fn lemma_position_value(base: usize, off: isize, v: int, r: usize)
    requires
        off as int == signed_wrap(v),
        r == vstd::wrapping::usize_specs::wrapping_add(base, off as usize),
    ensures
        r as int == wrap(base + v),
{
    lemma_signed_wrap(v);
    lemma_isize_as_usize(off);
    let u = (off as usize) as int;
    assert(wrap(u) == wrap(v));
    assert(wrap(r as int) == wrap(base + u)) by {
        if base + u > usize::MAX {
            lemma_wrap_congruent(r as int, base + u, -1);
        }
    }
    lemma_wrap_add(u, base as int);
    lemma_wrap_add(v, base as int);
    lemma_wrap_small(r as int);
}

proof fn lemma_offset_value(
    i: usize,
    j: usize,
    rs: isize,
    cs: isize,
    a: isize,
    b: isize,
    r: isize,
)
    requires
        a == vstd::wrapping::isize_specs::wrapping_mul(i as isize, rs),
        b == vstd::wrapping::isize_specs::wrapping_mul(j as isize, cs),
        r == vstd::wrapping::isize_specs::wrapping_add(a, b),
    ensures
        r as int == signed_wrap(i * rs + j * cs),
{
    // every step keeps the class modulo `modulus()`
    lemma_signed_wrap((i as isize) * rs);
    lemma_signed_wrap((j as isize) * cs);
    lemma_usize_as_isize(i);
    lemma_usize_as_isize(j);
    lemma_wrap_mul((i as isize) as int, i as int, rs as int);
    lemma_wrap_mul((j as isize) as int, j as int, cs as int);
    assert(wrap(a as int) == wrap(i * rs));
    assert(wrap(b as int) == wrap(j * cs));
    let s = a + b;
    assert(wrap(r as int) == wrap(s)) by {
        if s > isize::MAX {
            lemma_wrap_congruent(r as int, s, -1);
        } else if s < isize::MIN {
            lemma_wrap_congruent(r as int, s, 1);
        }
    }
    assert(wrap(s) == wrap(i * rs + j * cs)) by {
        lemma_wrap_add(a as int, b as int);
        lemma_wrap_add(b as int, i * rs);
        lemma_wrap_add(i * rs, b as int);
        lemma_wrap_add(j * cs, i * rs);
    }
    lemma_signed_wrap(r as int);
    lemma_signed_wrap(i * rs + j * cs);
    // two members of one class, both in `isize` range, are equal
    lemma_signed_unique(r as int, signed_wrap(i * rs + j * cs));
}

/// Within the `isize` range a class modulo `modulus()` has one member.
proof fn lemma_signed_unique(x: int, y: int)
    requires
        isize::MIN <= x <= isize::MAX,
        isize::MIN <= y <= isize::MAX,
        wrap(x) == wrap(y),
    ensures
        x == y,
{
    assert(isize::MIN == -(isize::MAX + 1));
    assert(modulus() == 2 * (isize::MAX + 1));
    lemma_fundamental_div_mod(x, modulus());
    lemma_fundamental_div_mod(y, modulus());
    let qx = x / modulus();
    let qy = y / modulus();
    assert(x - y == (qx - qy) * modulus()) by (nonlinear_arith)
        requires
            x == modulus() * qx + wrap(x),
            y == modulus() * qy + wrap(y),
            wrap(x) == wrap(y),
    ;
    if qx - qy >= 1 {
        assert((qx - qy) * modulus() >= modulus()) by (nonlinear_arith)
            requires
                qx - qy >= 1,
                modulus() > 0,
        ;
    } else if qx - qy <= -1 {
        assert((qx - qy) * modulus() <= -modulus()) by (nonlinear_arith)
            requires
                qx - qy <= -1,
                modulus() > 0,
        ;
    }
}

} // verus!
