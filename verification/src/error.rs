//! The ways a configuration can be rejected.
use vstd::prelude::*;

verus! {

/// Why a scene, a buffer or an angle could not be constructed.
#[derive(Clone, Copy, Debug, PartialEq, Eq, Structural)]
pub enum ConfigError {
    /// The edge length is zero or negative.
    NonPositiveSize,
    /// The edge length is beyond [`MAX_SIZE`](crate::cube::MAX_SIZE).
    SizeTooLarge,
    /// Fewer than two samples per face edge.
    DensityTooSmall,
    /// The frame buffer would have no rows or no columns.
    EmptyBuffer,
    /// The cosine and sine do not lie on the unit circle.
    NotARotation,
}

} // verus!
