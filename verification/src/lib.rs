//! Streamline tracing through a 3D vector field sampled at the corners of a
//! rectilinear (possibly non-uniform) grid.
//!
//! Coordinates, field components and step sizes are fixed-point integers: the
//! caller picks one length unit (for example a millionth of a physical unit)
//! and expresses every quantity as a signed multiple of it. All arithmetic is
//! exact integer arithmetic; the places where the mathematics divides (the
//! trilinear blend, the normalisation of the field direction and the cyclic
//! wrap) are specified with Euclidean (floor) division and remainder, so every
//! public function pins its result exactly.

pub mod num;
pub mod interp;
pub mod field;
pub mod trace;

use vstd::prelude::*;

verus! {

/// Largest magnitude accepted for a grid coordinate, a seed component and the
/// step size: 2^28 fixed-point units. Keeping coordinates within this bound
/// lets every intermediate product of the engine fit in 128 bits.
pub const COORD_LIMIT: i64 = 268435456;

/// Largest magnitude accepted for a stored field component: 2^24 fixed-point
/// units.
pub const FIELD_LIMIT: i64 = 16777216;

/// Largest position magnitude accepted by the field sampler: 2^29. Positions
/// reached while integrating stay within this bound, because a single step
/// never moves a point by more than the step size, which is at most
/// `COORD_LIMIT`.
pub const POS_LIMIT: i64 = 536870912;

/// Largest fractional-offset magnitude the interpolator accepts: 2^31. The
/// sampler hands it offsets of magnitude at most `POS_LIMIT + COORD_LIMIT`.
pub const OFFSET_LIMIT: i64 = 2147483648;

/// Interpolated vector components are clamped to this magnitude: 2^30. A
/// query inside a cell never reaches the clamp (a trilinear blend of values
/// bounded by `FIELD_LIMIT` stays bounded by `FIELD_LIMIT`); only the linear
/// extrapolation used for points outside every cell can.
pub const VEC_LIMIT: i64 = 1073741824;

} // verus!
