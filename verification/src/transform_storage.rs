//! The transform record: one rigid transform from a parent frame to a child
//! frame at a single instant.
//!
//! The rotation (a unit quaternion, convention `(x, y, z, w)`) and the
//! translation (a 3-vector) are stored as the IEEE-754 bit patterns of their
//! `f64` components. The buffer's logic never does arithmetic on them: it
//! moves them, compares them bitwise for duplicate detection, and hands them
//! back to the caller, who owns the numeric interpretation. The identity
//! rotation and the zero translation have fixed bit patterns, so identity
//! records are built here exactly.

use vstd::prelude::*;

verus! {

/// Compact integer id of a frame. Id 0 is the reserved root sentinel.
pub type CompactFrameID = u32;

/// IEEE-754 bit pattern of `0.0_f64`.
pub const F64_ZERO_BITS: u64 = 0;

/// IEEE-754 bit pattern of `1.0_f64`.
pub const F64_ONE_BITS: u64 = 0x3FF0_0000_0000_0000;

/// A quaternion `(x, y, z, w)` held as the bit patterns of its components.
#[derive(Debug, Clone, Copy, PartialEq, Eq, Structural)]
pub struct QuatBits {
    pub x: u64,
    pub y: u64,
    pub z: u64,
    pub w: u64,
}

impl QuatBits {
    /// The identity rotation `(0, 0, 0, 1)`.
    pub open spec fn spec_identity() -> QuatBits {
        QuatBits { x: F64_ZERO_BITS, y: F64_ZERO_BITS, z: F64_ZERO_BITS, w: F64_ONE_BITS }
    }

    /// The identity rotation `(0, 0, 0, 1)`.
    pub fn identity() -> (r: QuatBits)
        ensures
            r == QuatBits::spec_identity(),
    {
        QuatBits { x: F64_ZERO_BITS, y: F64_ZERO_BITS, z: F64_ZERO_BITS, w: F64_ONE_BITS }
    }
}

/// A 3-vector held as the bit patterns of its components.
#[derive(Debug, Clone, Copy, PartialEq, Eq, Structural)]
pub struct Vec3Bits {
    pub x: u64,
    pub y: u64,
    pub z: u64,
}

impl Vec3Bits {
    /// The zero vector.
    pub open spec fn spec_zero() -> Vec3Bits {
        Vec3Bits { x: F64_ZERO_BITS, y: F64_ZERO_BITS, z: F64_ZERO_BITS }
    }

    /// The zero vector.
    pub fn zero() -> (r: Vec3Bits)
        ensures
            r == Vec3Bits::spec_zero(),
    {
        Vec3Bits { x: F64_ZERO_BITS, y: F64_ZERO_BITS, z: F64_ZERO_BITS }
    }
}

/// A rigid transform from the frame `frame_id` (the parent) to the frame
/// `child_frame_id` at the instant `stamp`, in nanoseconds since the epoch.
/// Timestamp 0 is a query sentinel meaning "latest available" and is never
/// meaningful as a stored sample time.
///
/// Equality is bitwise on the rotation and translation plus equality on the
/// stamp and the two ids; that is exactly the duplicate-detection rule of the
/// temporal cache.
#[derive(Debug, Clone, Copy, PartialEq, Eq, Structural)]
pub struct TransformStorage {
    pub rotation: QuatBits,
    pub translation: Vec3Bits,
    pub stamp: u64,
    pub frame_id: CompactFrameID,
    pub child_frame_id: CompactFrameID,
}

impl TransformStorage {
    /// Builds a record from its parts. The caller is responsible for handing
    /// in a normalized rotation; the buffer never renormalizes.
    pub fn new(
        rotation: QuatBits,
        translation: Vec3Bits,
        stamp: u64,
        frame_id: CompactFrameID,
        child_frame_id: CompactFrameID,
    ) -> (r: TransformStorage)
        ensures
            r == (TransformStorage { rotation, translation, stamp, frame_id, child_frame_id }),
    {
        TransformStorage { rotation, translation, stamp, frame_id, child_frame_id }
    }

    /// The identity transform between the two frames at `stamp`.
    pub open spec fn spec_identity(
        stamp: u64,
        frame_id: CompactFrameID,
        child_frame_id: CompactFrameID,
    ) -> TransformStorage {
        TransformStorage {
            rotation: QuatBits::spec_identity(),
            translation: Vec3Bits::spec_zero(),
            stamp,
            frame_id,
            child_frame_id,
        }
    }

    /// The identity transform between the two frames at `stamp`: identity
    /// rotation, zero translation.
    pub fn identity(
        stamp: u64,
        frame_id: CompactFrameID,
        child_frame_id: CompactFrameID,
    ) -> (r: TransformStorage)
        ensures
            r == TransformStorage::spec_identity(stamp, frame_id, child_frame_id),
    {
        TransformStorage {
            rotation: QuatBits::identity(),
            translation: Vec3Bits::zero(),
            stamp,
            frame_id,
            child_frame_id,
        }
    }

    /// True when the payload is the identity rotation and zero translation.
    pub open spec fn is_identity_payload(self) -> bool {
        self.rotation == QuatBits::spec_identity() && self.translation == Vec3Bits::spec_zero()
    }
}

} // verus!
