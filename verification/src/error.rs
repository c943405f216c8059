use vstd::prelude::*;

verus! {

/// The failures the engine reports instead of panicking.
#[derive(Clone, Copy, PartialEq, Eq, Structural, Debug)]
pub enum ResizeError {
    /// A buffer length does not match the stated width and height.
    InvalidDimensions,
    /// A seam does not have exactly one in-bounds column per row.
    MalformedSeam,
    /// The requested width exceeds the current width; the engine cannot enlarge.
    UpsampleRejected,
    /// The width or the height is zero going into energy computation.
    DegenerateImage,
}

} // verus!
