# blis

Strided matrix views over flat buffers, verified with Verus, and the BLIS
level-3 operations that run on them.

- `src/` is the verified library. A view (`MatrixRef`, `MatrixMut`) records
  where each element `(i, j)` lies in the buffer it was built over:
  `base + i * row_stride + j * col_stride`, modulo `usize::MAX + 1`. Building a
  view from a buffer checks that every element lies inside it, and, for a
  mutable view, that no two elements share a position. Transposition and
  submatrices keep both properties, and so does splitting at `(i, j)` when
  `2 * i <= nrows` (the third block has `i` rows, so it may reach past the
  view otherwise); the laws that say so are the
  public proof functions of `layout.rs`, `dims.rs` and `ops.rs`.
- `app/` calls BLIS through `blis-sys` on `f32` and `f64` buffers. It pairs a
  view with its buffer, checking that the buffer has the length the view was
  built for, and takes the decisions it acts on (orientation and order of the
  operands, kernel, the square destination of `gemmt`, integer conversions,
  object bit fields, thread settings) from the library.
