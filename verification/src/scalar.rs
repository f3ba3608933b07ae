//! Real-valued quantities, carried as bit patterns.
//!
//! The rules in this crate move positions, velocities, angles and times around
//! but never compute with them: that is left to the caller's physics.

use vstd::prelude::*;

verus! {

/// A double-precision number, held as its IEEE 754 bit pattern.
pub type Scalar = u64;

/// The number 0.0.
pub const ZERO: Scalar = 0;

/// The number 0.5.
pub const HALF: Scalar = 0x3FE0_0000_0000_0000;

/// The number 1.0.
pub const ONE: Scalar = 0x3FF0_0000_0000_0000;

/// A point or a direction in the plane.
#[derive(Clone, Copy, Debug, PartialEq, Eq, Structural)]
pub struct Vector2 {
    pub x: Scalar,
    pub y: Scalar,
}

} // verus!
