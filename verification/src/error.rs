//! Why an index refuses what it is given.

use vstd::prelude::*;

use crate::float32::Float32;

verus! {

/// Why an index was not constructed.
#[derive(Clone, Copy, Debug, PartialEq, Eq, Structural)]
pub enum ConstructError {
    /// The bit width is not two, three or four.
    BitWidthOutOfRange(usize),
    /// The dimension is zero or not a multiple of eight.
    DimNotPositiveMultipleOf8(usize),
    /// The dimension is larger than an index can have.
    DimTooLarge { dim: usize, max: usize },
}

/// Why vectors were not added.
#[derive(Clone, Copy, Debug, PartialEq, Eq, Structural)]
pub enum AddError {
    /// The dimension is not the one that the index is committed to.
    DimMismatch { existing: usize, got: usize },
    /// The dimension is zero or not a multiple of eight.
    DimNotMultipleOf8(usize),
    /// The dimension is larger than an index can have.
    DimTooLarge { dim: usize, max: usize },
    /// A coordinate is not finite, or too large.
    InvalidInputValue { vector_index: usize, coord_index: usize, value: Float32 },
}

/// Why an index was not put together from its parts.
#[derive(Clone, Copy, Debug, PartialEq, Eq, Structural)]
pub enum FromPartsError {
    /// The bit width is not two, three or four.
    BitWidthOutOfRange(usize),
    /// The two calibration arrays differ in length.
    TqplusLengthMismatch { shift_len: usize, scale_len: usize },
    /// The dimension is zero or not a multiple of eight.
    DimNotPositiveMultipleOf8(usize),
    /// The dimension is larger than an index can have.
    DimTooLarge { dim: usize, max: usize },
    /// The size of the codes does not fit the machine.
    PackedCodesSizeOverflow { n_vectors: usize, dim: usize, bit_width: usize },
    /// The codes have the wrong length.
    PackedCodesLengthMismatch { expected: usize, got: usize },
    /// There is not one scale for each vector.
    ScalesLengthMismatch { expected: usize, got: usize },
    /// The calibration arrays are neither empty nor as long as the dimension.
    TqplusLengthNotDim { got: usize, dim: usize },
    /// An index without a dimension has vectors.
    LazyMustHaveZeroVectors(usize),
    /// An index without a dimension has codes.
    LazyMustHaveEmptyPackedCodes(usize),
    /// An index without a dimension has scales.
    LazyMustHaveEmptyScales(usize),
    /// An index without a dimension has calibration arrays.
    LazyMustHaveEmptyTqplus(usize),
    /// A scale is not finite, or negative.
    InvalidScaleValue { slot: usize, value: Float32 },
    /// A calibration shift is not finite.
    InvalidTqplusShiftValue { coord: usize, value: Float32 },
    /// A calibration scale is not finite, or not positive.
    InvalidTqplusScaleValue { coord: usize, value: Float32 },
}

} // verus!
