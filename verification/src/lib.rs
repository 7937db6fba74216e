//! Exact-arithmetic kernel for 3D oriented bounding boxes (OBBs).
//!
//! An OBB is a center point together with three edge vectors reaching from
//! the center to the midpoints of three mutually adjacent faces.  All
//! computations here are carried out in exact integer arithmetic, so every
//! projection, containment test, separating-axis query and nearest-point
//! projection is proved to return exactly the value its specification
//! describes.  Quantities that are inherently irrational (unit axes, square
//! roots of distances) are left to callers working in floating point;
//! whenever this kernel needs such a quantity it works with its square or
//! with an exact rational scaling instead.

pub mod obb3;
pub mod ratio;
pub mod vec3;
