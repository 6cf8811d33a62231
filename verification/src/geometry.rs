//! Numbers and rectangles as the passes that compute geometry hand them over.

use vstd::prelude::*;

verus! {

/// A single-precision number, held by its bit pattern.
///
/// The runtime carries such numbers between the platform, the cache and the
/// drawing surface and tells zero from non-zero. It does no arithmetic on
/// them: that belongs to the passes that compute geometry.
#[derive(Clone, Copy, Debug, PartialEq, Eq, Hash, Structural)]
pub struct Scalar {
    pub bits: u32,
}

/// Bit pattern of positive zero.
pub const POSITIVE_ZERO: u32 = 0;

/// Bit pattern of negative zero.
pub const NEGATIVE_ZERO: u32 = 0x8000_0000;

impl Scalar {
    /// The number with the given bit pattern.
    pub fn from_bits(bits: u32) -> (s: Scalar)
        ensures
            s.bits == bits,
    {
        Scalar { bits }
    }

    /// The bit pattern of the number.
    pub fn to_bits(&self) -> (bits: u32)
        ensures
            bits == self.bits,
    {
        self.bits
    }

    /// Positive zero.
    pub open spec fn spec_zero() -> Scalar {
        Scalar { bits: POSITIVE_ZERO }
    }

    /// Positive zero.
    #[verifier::when_used_as_spec(spec_zero)]
    pub fn zero() -> (s: Scalar)
        ensures
            s == Scalar::spec_zero(),
    {
        Scalar { bits: POSITIVE_ZERO }
    }

    /// Whether the number compares equal to zero: both signed zeros do.
    pub open spec fn spec_is_zero(&self) -> bool {
        self.bits == POSITIVE_ZERO || self.bits == NEGATIVE_ZERO
    }

    /// Whether the number compares equal to zero: both signed zeros do.
    #[verifier::when_used_as_spec(spec_is_zero)]
    pub fn is_zero(&self) -> (b: bool)
        ensures
            b == self.spec_is_zero(),
    {
        self.bits == POSITIVE_ZERO || self.bits == NEGATIVE_ZERO
    }
}

/// An axis-aligned rectangle: its top-left corner and its size.
#[derive(Clone, Copy, Debug, PartialEq, Eq, Structural)]
pub struct BoundingBox {
    pub x: Scalar,
    pub y: Scalar,
    pub w: Scalar,
    pub h: Scalar,
}

impl BoundingBox {
    /// The rectangle with all four numbers zero.
    pub open spec fn spec_zero() -> BoundingBox {
        BoundingBox { x: Scalar::spec_zero(), y: Scalar::spec_zero(), w: Scalar::spec_zero(), h: Scalar::spec_zero() }
    }

    /// The rectangle with all four numbers zero.
    #[verifier::when_used_as_spec(spec_zero)]
    pub fn zero() -> (b: BoundingBox)
        ensures
            b == BoundingBox::spec_zero(),
    {
        BoundingBox { x: Scalar::zero(), y: Scalar::zero(), w: Scalar::zero(), h: Scalar::zero() }
    }

    /// The rectangle at the origin with the given size.
    pub open spec fn spec_sized(w: Scalar, h: Scalar) -> BoundingBox {
        BoundingBox { x: Scalar::spec_zero(), y: Scalar::spec_zero(), w, h }
    }

    /// The rectangle at the origin with the given size.
    #[verifier::when_used_as_spec(spec_sized)]
    pub fn sized(w: Scalar, h: Scalar) -> (b: BoundingBox)
        ensures
            b == BoundingBox::spec_sized(w, h),
    {
        BoundingBox { x: Scalar::zero(), y: Scalar::zero(), w, h }
    }
}

/// A two-dimensional affine transform: the six numbers of its matrix.
#[derive(Clone, Copy, Debug, PartialEq, Eq, Structural)]
pub struct Transform {
    pub a: Scalar,
    pub b: Scalar,
    pub c: Scalar,
    pub d: Scalar,
    pub e: Scalar,
    pub f: Scalar,
}

impl Transform {
    /// The matrix with all six numbers zero.
    pub open spec fn spec_zero() -> Transform {
        Transform {
            a: Scalar::spec_zero(),
            b: Scalar::spec_zero(),
            c: Scalar::spec_zero(),
            d: Scalar::spec_zero(),
            e: Scalar::spec_zero(),
            f: Scalar::spec_zero(),
        }
    }

    /// The matrix with all six numbers zero.
    #[verifier::when_used_as_spec(spec_zero)]
    pub fn zero() -> (t: Transform)
        ensures
            t == Transform::spec_zero(),
    {
        Transform {
            a: Scalar::zero(),
            b: Scalar::zero(),
            c: Scalar::zero(),
            d: Scalar::zero(),
            e: Scalar::zero(),
            f: Scalar::zero(),
        }
    }
}

} // verus!
