//! Staged image-processing pipeline with an automatic tone stretch.
//!
//! The library turns decoded sensor planes or plain RGB images into
//! tone-balanced pixel buffers.  Samples are carried as fixed-point
//! integers in thousandths (`1000` stands for 1.0), so every stage is
//! exact integer arithmetic with stated rounding.

use vstd::prelude::*;

pub mod buffer;
pub mod curve;
pub mod format;
pub mod numeric;
pub mod ops;
pub mod pipeline;
pub mod stretch;

verus! {

/// Failures surfaced by the pipeline and the stretch analysis.
///
/// Every stage reports errors through this type; no stage panics on
/// malformed but structurally valid input.
#[derive(Clone, Copy, Debug, PartialEq, Eq, Structural)]
pub enum PipeError {
    /// The source data is unreadable or its shape does not match its
    /// declared dimensions.
    DecodeFailure,
    /// An operator was invoked with a pixel format it does not implement.
    UnsupportedColorDepth,
    /// A requested crop or scale produced a non-positive dimension.
    DimensionLimitExceeded,
    /// A statistic required by the stretch analysis does not exist:
    /// the image's luminance range is empty, so there is nothing to
    /// stretch.
    NumericDegenerate,
}

} // verus!
