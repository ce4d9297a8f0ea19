//! Errors of surface construction.

use vstd::prelude::*;

verus! {

/// Why a surface could not be made over a buffer.
#[derive(Clone, Copy, Debug, PartialEq, Eq, Structural)]
pub enum SurfaceError {
    StrideLessThanWidth,
    InvalidPixelLength,
    InvalidStride,
    InvalidWidth,
    InvalidHeight,
}

impl SurfaceError {
    /// A sentence that describes the error.
    pub fn message(&self) -> &'static str {
        match self {
            SurfaceError::StrideLessThanWidth => "Stride should be greater than the width",
            SurfaceError::InvalidPixelLength => "Number of pixels should be more than stride * height",
            SurfaceError::InvalidHeight => "Invalid height",
            SurfaceError::InvalidStride => "Invalid stride",
            SurfaceError::InvalidWidth => "Invalid width",
        }
    }
}

} // verus!
