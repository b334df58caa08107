//! Errors reported when a view cannot be built over a buffer.
use vstd::prelude::*;

verus! {

/// Error during the construction of a matrix view.
#[derive(Copy, Clone, Debug, PartialEq, Eq, Structural)]
pub enum DimsError {
    /// The size of the matrix does not fit in a `usize`.
    SizeOverflow,
    /// The buffer is too small. This variant contains the required buffer size.
    BufferTooSmall(usize),
}

/// Error during the construction of a mutable matrix view.
#[derive(Copy, Clone, Debug, PartialEq, Eq, Structural)]
pub enum DimsErrorMut {
    /// Dimension error.
    DimsError(DimsError),
    /// Two distinct elements of the view would share one position: the element at
    /// `(i, 0)` and the element at `(0, j)`, for the indices `i` and `j` that this
    /// variant contains. When one of them is `0`, that is the element at `(0, 0)`.
    SelfAlias(usize, usize),
}

impl From<DimsError> for DimsErrorMut {
    fn from(e: DimsError) -> (r: Self) {
        DimsErrorMut::DimsError(e)
    }
}

impl vstd::std_specs::convert::FromSpecImpl<DimsError> for DimsErrorMut {
    open spec fn obeys_from_spec() -> bool {
        true
    }

    open spec fn from_spec(e: DimsError) -> Self {
        DimsErrorMut::DimsError(e)
    }
}

} // verus!
