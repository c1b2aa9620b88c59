//! Positions, selections and fallible results for the editor's text buffers.

use vstd::prelude::*;

verus! {

/// A caret position in a line-indexed buffer.
#[derive(Clone, Copy, PartialEq, Eq, Structural, Debug)]
pub struct TextPos {
    pub line: usize,
    pub column: usize,
}

/// A selected span of text, from `start_pos` (inclusive) to `end_pos`
/// (exclusive in columns).
#[derive(Clone, Copy, PartialEq, Eq, Structural, Debug)]
pub struct Selection {
    pub start_pos: TextPos,
    pub end_pos: TextPos,
}

impl Selection {
    pub fn is_on_same_line(&self) -> (r: bool)
        ensures
            r == (self.start_pos.line == self.end_pos.line),
    {
        self.start_pos.line == self.end_pos.line
    }
}

/// Failure of a UI operation: an index pointed outside the collection it was
/// meant for.
#[derive(Clone, PartialEq, Eq, Debug)]
pub enum UIError {
    OutOfBounds { index: usize, collection_name: String, len: usize },
}

pub type UIResult<T> = Result<T, UIError>;

/// Holds when `r` is the out-of-bounds error for offending index `index` in a
/// collection of length `len` named `name`.
pub open spec fn is_out_of_bounds<T>(r: UIResult<T>, index: int, len: int, name: Seq<char>) -> bool {
    match r {
        Result::Ok(_) => false,
        Result::Err(UIError::OutOfBounds { index: i, collection_name: n, len: l }) => i == index
            && l == len && n@ == name,
    }
}

/// Builds the out-of-bounds error for `index` against a collection of `len`
/// elements called `name`.
pub fn out_of_bounds_error(index: usize, name: &str, len: usize) -> (e: UIError)
    ensures
        (e matches UIError::OutOfBounds { index: i, collection_name: n, len: l } && i == index
            && l == len && n@ == name@),
{
    UIError::OutOfBounds { index, collection_name: name.to_owned(), len }
}

} // verus!
