//! A verified core for a 2D particle toy: point agents ("vehicles") are
//! repelled by light sources, a mouse light and each other through an
//! inverse-square law, and a tile grid covering the viewport is colored by
//! sampling the same field at every cell center.
//!
//! All geometry is carried in fixed-point *milliunits*: a coordinate,
//! intensity or speed of one unit is stored as the integer `1000`. This keeps
//! every computation exact and deterministic, which is what makes the
//! order-independence of the parallel field sampler a provable statement
//! rather than a hope about float rounding.

use vstd::prelude::*;

pub mod math;
pub mod vehicle;
pub mod dynamics;
pub mod field;
pub mod sim;
pub mod position_map;

verus! {

/// Milliunits per simulation unit.
pub const SCALE: i64 = 1000;

/// Floor applied to squared distances before any inverse-square division,
/// in squared milliunits: one unit. Sources closer than this to the sampled
/// point act as if they were exactly one unit away, which replaces the
/// division-by-zero of a naive inverse-square law with a documented policy.
pub const MIN_DIST_SQ: i64 = 1_000_000;

/// Numerator constant of the repulsion magnitude in milliunits:
/// `factor * FORCE_NUM / dist_sq` is the force-scale constant 1000 of the
/// physical law, converted to the milliunit representation.
pub const FORCE_NUM: i64 = 1_000_000_000;

/// Numerator constant of a field-sample term in milliunits:
/// `factor * FIELD_NUM / dist_sq` is the color gain constant 3 of the field
/// formula, converted to the milliunit representation.
pub const FIELD_NUM: i64 = 3_000_000;

/// Ceiling on an agent's speed, in milliunits per second (200 units/s).
pub const MAX_SPEED: i64 = 200_000;

/// Edge length of a grid tile, in milliunits (16 units).
pub const TILE: i64 = 16_000;

/// Horizontal bias added to every tile center, in milliunits (10 units).
pub const TILE_X_BIAS: i64 = 10_000;

/// Largest coordinate magnitude the dynamics accepts, in milliunits.
pub const MAX_COORD: i64 = 10_000_000;

/// Largest viewport width or height, in milliunits.
pub const MAX_DIM: i64 = 16_000_000;

/// Largest intensity knob value, in milliunits (the GUI slider ceiling).
pub const MAX_INTENSITY: i64 = 5_000_000;

/// Largest number of force sources (lights, agents and the mouse light
/// together) a single accumulation accepts.
pub const MAX_SOURCES: usize = 1_000_000;

/// Largest time slice, in milliseconds.
pub const DT_MAX: i64 = 1_000_000;

/// Largest magnitude a single source can add to a velocity component,
/// in milliunits per second: reached when the intensity knob is at its
/// ceiling and the distance sits on the minimum-distance floor.
pub const MAX_CONTRIB: i64 = 5_000_000_000;

/// A 2D vector in milliunits.
#[derive(Clone, Copy, PartialEq, Eq, Structural, Debug)]
pub struct Vec2I {
    pub x: i64,
    pub y: i64,
}

impl Vec2I {
    /// Whether both coordinates lie within `bound` in magnitude.
    pub open spec fn in_box(self, bound: int) -> bool {
        -bound <= self.x <= bound && -bound <= self.y <= bound
    }
}

} // verus!
