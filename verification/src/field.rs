//! The row-major square grid that every elevation field is laid out on.
//!
//! Decoders fill a field in this order and the mesh builder reads it back in
//! this order; both go through [`field_offset`] so that the two cannot drift
//! apart.

use vstd::prelude::*;

verus! {

/// Number of samples along one side of an elevation field.
pub const FIELD_SIDE: usize = 256;

/// Number of samples in a whole elevation field.
pub const FIELD_LEN: usize = 65536;

/// A sequence is an elevation field when it holds one sample per grid cell.
pub open spec fn is_field<T>(samples: Seq<T>) -> bool {
    samples.len() == FIELD_LEN
}

/// Position of the sample at (`row`, `column`) in a row-major field.
pub open spec fn field_offset(row: int, column: int) -> int {
    row * 256 + column
}

/// Row-major offsets of in-range cells stay inside the field, and distinct
/// cells have distinct offsets.
pub proof fn lemma_field_offset(row: int, column: int)
    requires
        0 <= row < FIELD_SIDE,
        0 <= column < FIELD_SIDE,
    ensures
        0 <= field_offset(row, column) < FIELD_LEN,
        field_offset(row, column) / 256 == row,
        field_offset(row, column) % 256 == column,
{
}

/// Computes the position of the sample at a cell inside the grid.
pub(crate) fn offset_in_field(row: usize, column: usize) -> (offset: usize)
    requires
        row < FIELD_SIDE,
        column < FIELD_SIDE,
    ensures
        offset == field_offset(row as int, column as int),
        offset < FIELD_LEN,
{
    row * FIELD_SIDE + column
}

/// Computes the position of the sample at (`row`, `column`), or `None` when the
/// cell lies outside the grid.
pub fn field_index(row: usize, column: usize) -> (offset: Option<usize>)
    ensures
        offset is Some <==> row < FIELD_SIDE && column < FIELD_SIDE,
        offset matches Some(at) ==> at == field_offset(row as int, column as int) && at
            < FIELD_LEN,
{
    if row < FIELD_SIDE && column < FIELD_SIDE {
        Some(offset_in_field(row, column))
    } else {
        None
    }
}

} // verus!
