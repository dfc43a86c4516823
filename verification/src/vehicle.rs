//! The moving agent of the simulation and the single physical law acting on
//! it: an inverse-square pull, accumulated into the velocity, clamped to a
//! speed ceiling and integrated into the position.

use vstd::prelude::*;
use vstd::arithmetic::div_mod::lemma_div_is_ordered_by_denominator;
use crate::math::{
    iabs, sqrt_ceil, lemma_sqrt_ceil_is, lemma_sqrt_ceil_le, lemma_sqrt_ceil_pos,
    lemma_component_le_sqrt, lemma_mul_le, lemma_div_le, lemma_mul_div_cancel,
    lemma_zero_div, lemma_sq_abs, lemma_scale_down, abs_i64, isqrt_ceil,
};
use crate::{Vec2I, MIN_DIST_SQ, FORCE_NUM, MAX_SPEED, MAX_COORD, MAX_INTENSITY, DT_MAX,
    MAX_CONTRIB};

verus! {

/// Headroom the velocity accumulator keeps: every `requires` on an agent's
/// velocity uses this bound, and it leaves room for one more source's
/// contribution without `i64` overflow.
pub const MAX_ACCUM: i64 = 5_000_000_000_000_000;

/// Squared distance between two points, in squared milliunits.
pub open spec fn dist_sq(px: int, py: int, tx: int, ty: int) -> int {
    (tx - px) * (tx - px) + (ty - py) * (ty - py)
}

/// Squared distance with the minimum-distance floor applied.
pub open spec fn dist_sq_floored(px: int, py: int, tx: int, ty: int) -> int {
    if dist_sq(px, py, tx, ty) < MIN_DIST_SQ {
        MIN_DIST_SQ as int
    } else {
        dist_sq(px, py, tx, ty)
    }
}

/// Magnitude of the pull a source of strength `f` at `(tx, ty)` exerts on a
/// point at `(px, py)`, in milliunits per second.
pub open spec fn pull_mag(px: int, py: int, tx: int, ty: int, f: int) -> int {
    (f * FORCE_NUM) / dist_sq_floored(px, py, tx, ty)
}

/// The x component of the velocity change from one source: the pull points
/// away from the source, along the normalized offset.
pub open spec fn pull_x(px: int, py: int, tx: int, ty: int, f: int) -> int {
    let dx = tx - px;
    let len = sqrt_ceil(dist_sq_floored(px, py, tx, ty));
    let c = (iabs(dx) * pull_mag(px, py, tx, ty, f)) / len;
    if dx >= 0 {
        -c
    } else {
        c
    }
}

/// The y component of the velocity change from one source.
pub open spec fn pull_y(px: int, py: int, tx: int, ty: int, f: int) -> int {
    let dy = ty - py;
    let len = sqrt_ceil(dist_sq_floored(px, py, tx, ty));
    let c = (iabs(dy) * pull_mag(px, py, tx, ty, f)) / len;
    if dy >= 0 {
        -c
    } else {
        c
    }
}

/// The velocity change a single source induces, exactly as `pull_x`/`pull_y`
/// state it, with both components bounded by `MAX_CONTRIB`.
pub fn pull(position: Vec2I, target: Vec2I, factor: i64) -> (r: (i64, i64))
    requires
        position.in_box(MAX_COORD as int),
        target.in_box(MAX_COORD as int),
        0 <= factor <= MAX_INTENSITY,
    ensures
        r.0 == pull_x(position.x as int, position.y as int, target.x as int, target.y as int,
            factor as int),
        r.1 == pull_y(position.x as int, position.y as int, target.x as int, target.y as int,
            factor as int),
        iabs(r.0 as int) <= MAX_CONTRIB,
        iabs(r.1 as int) <= MAX_CONTRIB,
{
    let ghost px = position.x as int;
    let ghost py = position.y as int;
    let ghost tx = target.x as int;
    let ghost ty = target.y as int;
    let dxs: i64 = target.x - position.x;
    let dys: i64 = target.y - position.y;
    let ax: u64 = abs_i64(dxs);
    let ay: u64 = abs_i64(dys);
    proof {
        lemma_sq_abs(dxs as int, ax as int);
        lemma_sq_abs(dys as int, ay as int);
        lemma_mul_le(ax as int, 20_000_000, ax as int, 20_000_000);
        lemma_mul_le(ay as int, 20_000_000, ay as int, 20_000_000);
    }
    let d2: u64 = ax * ax + ay * ay;
    let d2e: u64 = if d2 < 1_000_000 {
        1_000_000
    } else {
        d2
    };
    assert(d2e == dist_sq_floored(px, py, tx, ty));
    let len128 = isqrt_ceil(d2e as u128);
    proof {
        lemma_sqrt_ceil_le(d2e as int, 30_000_000);
        lemma_sqrt_ceil_pos(d2e as int);
    }
    let len: u64 = len128 as u64;
    let num: u64 = (factor as u64) * 1_000_000_000u64;
    let mag: u64 = num / d2e;
    proof {
        lemma_div_is_ordered_by_denominator(num as int, 1_000_000, d2e as int);
        lemma_div_le(num as int, 5_000_000_000_000_000int, 1_000_000);
        assert(mag <= MAX_CONTRIB);
        assert(mag == pull_mag(px, py, tx, ty, factor as int));
        lemma_component_le_sqrt(tx - px, ty - py, d2e as int);
        lemma_component_le_sqrt(ty - py, tx - px, d2e as int);
        assert(ax <= len && ay <= len);
        lemma_mul_le(ax as int, 20_000_000, mag as int, MAX_CONTRIB as int);
        lemma_mul_le(ay as int, 20_000_000, mag as int, MAX_CONTRIB as int);
        lemma_mul_le(ax as int, len as int, mag as int, mag as int);
        lemma_mul_le(ay as int, len as int, mag as int, mag as int);
        lemma_div_le((ax as int) * (mag as int), (len as int) * (mag as int), len as int);
        lemma_div_le((ay as int) * (mag as int), (len as int) * (mag as int), len as int);
        lemma_mul_div_cancel(len as int, mag as int);
    }
    let cx: u64 = ax * mag / len;
    let cy: u64 = ay * mag / len;
    let rx: i64 = if dxs >= 0 {
        -(cx as i64)
    } else {
        cx as i64
    };
    let ry: i64 = if dys >= 0 {
        -(cy as i64)
    } else {
        cy as i64
    };
    (rx, ry)
}

/// A source with a zero intensity knob contributes exactly nothing.
pub proof fn lemma_zero_intensity_pull(px: int, py: int, tx: int, ty: int)
    ensures
        pull_x(px, py, tx, ty, 0) == 0,
        pull_y(px, py, tx, ty, 0) == 0,
{
    let d2e = dist_sq_floored(px, py, tx, ty);
    assert(d2e >= MIN_DIST_SQ);
    assert(0 * FORCE_NUM == 0);
    lemma_zero_div(d2e);
    lemma_sqrt_ceil_pos(d2e);
    let len = sqrt_ceil(d2e);
    assert(iabs(tx - px) * 0 == 0) by (nonlinear_arith);
    assert(iabs(ty - py) * 0 == 0) by (nonlinear_arith);
    lemma_zero_div(len);
}

/// Squared speed of a velocity vector.
pub open spec fn speed_sq(vx: int, vy: int) -> int {
    vx * vx + vy * vy
}

/// The x component after clamping the speed to `MAX_SPEED`: vectors at or
/// under the ceiling pass unchanged; faster ones are rescaled onto it.
pub open spec fn clamp_x(vx: int, vy: int) -> int {
    if speed_sq(vx, vy) <= MAX_SPEED * MAX_SPEED {
        vx
    } else {
        let m = sqrt_ceil(speed_sq(vx, vy));
        let c = (iabs(vx) * MAX_SPEED) / m;
        if vx >= 0 {
            c
        } else {
            -c
        }
    }
}

/// The y component after clamping the speed to `MAX_SPEED`.
pub open spec fn clamp_y(vx: int, vy: int) -> int {
    if speed_sq(vx, vy) <= MAX_SPEED * MAX_SPEED {
        vy
    } else {
        let m = sqrt_ceil(speed_sq(vx, vy));
        let c = (iabs(vy) * MAX_SPEED) / m;
        if vy >= 0 {
            c
        } else {
            -c
        }
    }
}

/// The clamp never exceeds its ceiling: the clamped vector's squared speed
/// is at most `MAX_SPEED` squared.
pub proof fn lemma_clamp_bounded(vx: int, vy: int)
    ensures
        speed_sq(clamp_x(vx, vy), clamp_y(vx, vy)) <= MAX_SPEED * MAX_SPEED,
        iabs(clamp_x(vx, vy)) <= MAX_SPEED,
        iabs(clamp_y(vx, vy)) <= MAX_SPEED,
{
    let s = speed_sq(vx, vy);
    let cap = MAX_SPEED as int;
    let ax = iabs(vx);
    let ay = iabs(vy);
    lemma_sq_abs(vx, ax);
    lemma_sq_abs(vy, ay);
    assert(0 <= ax * ax && 0 <= ay * ay) by (nonlinear_arith)
        requires
            0 <= ax,
            0 <= ay,
    ;
    if s <= cap * cap {
        assert(ax <= cap && ay <= cap) by (nonlinear_arith)
            requires
                ax * ax + ay * ay <= cap * cap,
                0 <= ax * ax,
                0 <= ay * ay,
                0 <= ax,
                0 <= ay,
                cap == 200_000,
        ;
    } else {
        lemma_sqrt_ceil_is(s);
        lemma_sqrt_ceil_pos(s);
        let m = sqrt_ceil(s);
        let cx = (ax * cap) / m;
        let cy = (ay * cap) / m;
        lemma_scale_down(ax, ay, cap, m, cx, cy);
        assert(clamp_x(vx, vy) == if vx >= 0 { cx } else { -cx });
        assert(clamp_y(vx, vy) == if vy >= 0 { cy } else { -cy });
        lemma_sq_abs(clamp_x(vx, vy), cx);
        lemma_sq_abs(clamp_y(vx, vy), cy);
    }
}

/// How far a velocity component moves a position over `dt` milliseconds.
pub open spec fn shift(v: int, dt: int) -> int {
    let s = (iabs(v) * dt) / 1000;
    if v >= 0 {
        s
    } else {
        -s
    }
}

/// A point agent: a position and the velocity it acquired this frame, both
/// in milliunits.
#[derive(Clone, Copy, PartialEq, Eq, Structural, Debug)]
pub struct Vehicle {
    pub position: Vec2I,
    pub velocity: Vec2I,
}

impl Vehicle {
    /// A fresh agent at the origin, at rest.
    pub fn new() -> (r: Vehicle)
        ensures
            r.position.x == 0 && r.position.y == 0,
            r.velocity.x == 0 && r.velocity.y == 0,
    {
        Vehicle { position: Vec2I { x: 0, y: 0 }, velocity: Vec2I { x: 0, y: 0 } }
    }

    /// Integrates the velocity into the position over `delta_ms`
    /// milliseconds; the velocity is untouched.
    pub fn update(&mut self, delta_ms: i64)
        requires
            0 <= delta_ms <= DT_MAX,
            old(self).position.in_box(MAX_COORD as int),
            iabs(old(self).velocity.x as int) <= MAX_ACCUM,
            iabs(old(self).velocity.y as int) <= MAX_ACCUM,
        ensures
            final(self).position.x == old(self).position.x
                + shift(old(self).velocity.x as int, delta_ms as int),
            final(self).position.y == old(self).position.y
                + shift(old(self).velocity.y as int, delta_ms as int),
            final(self).velocity == old(self).velocity,
    {
        let avx: u64 = abs_i64(self.velocity.x);
        let avy: u64 = abs_i64(self.velocity.y);
        proof {
            lemma_mul_le(avx as int, MAX_ACCUM as int, delta_ms as int, DT_MAX as int);
            lemma_mul_le(avy as int, MAX_ACCUM as int, delta_ms as int, DT_MAX as int);
            lemma_div_le((avx as int) * (delta_ms as int),
                5_000_000_000_000_000_000_000int, 1000);
            lemma_div_le((avy as int) * (delta_ms as int),
                5_000_000_000_000_000_000_000int, 1000);
        }
        let sx: u128 = (avx as u128) * (delta_ms as u128) / 1000;
        let sy: u128 = (avy as u128) * (delta_ms as u128) / 1000;
        let dx: i64 = if self.velocity.x >= 0 {
            sx as i64
        } else {
            -(sx as i64)
        };
        let dy: i64 = if self.velocity.y >= 0 {
            sy as i64
        } else {
            -(sy as i64)
        };
        self.position = Vec2I { x: self.position.x + dx, y: self.position.y + dy };
    }

    /// Accumulates the pull of one source into the velocity; the position is
    /// untouched.
    pub fn adjust(&mut self, target: &Vec2I, factor: i64)
        requires
            old(self).position.in_box(MAX_COORD as int),
            target.in_box(MAX_COORD as int),
            0 <= factor <= MAX_INTENSITY,
            iabs(old(self).velocity.x as int) <= MAX_ACCUM,
            iabs(old(self).velocity.y as int) <= MAX_ACCUM,
        ensures
            final(self).velocity.x == old(self).velocity.x
                + pull_x(old(self).position.x as int, old(self).position.y as int,
                    target.x as int, target.y as int, factor as int),
            final(self).velocity.y == old(self).velocity.y
                + pull_y(old(self).position.x as int, old(self).position.y as int,
                    target.x as int, target.y as int, factor as int),
            final(self).position == old(self).position,
            iabs(final(self).velocity.x - old(self).velocity.x) <= MAX_CONTRIB,
            iabs(final(self).velocity.y - old(self).velocity.y) <= MAX_CONTRIB,
    {
        let (rx, ry) = pull(self.position, *target, factor);
        self.velocity = Vec2I { x: self.velocity.x + rx, y: self.velocity.y + ry };
    }

    /// Clamps the speed to `MAX_SPEED`; the position is untouched.
    pub fn clamp_speed(&mut self)
        ensures
            final(self).velocity.x == clamp_x(old(self).velocity.x as int,
                old(self).velocity.y as int),
            final(self).velocity.y == clamp_y(old(self).velocity.x as int,
                old(self).velocity.y as int),
            final(self).position == old(self).position,
            speed_sq(final(self).velocity.x as int, final(self).velocity.y as int)
                <= MAX_SPEED * MAX_SPEED,
            iabs(final(self).velocity.x as int) <= MAX_SPEED,
            iabs(final(self).velocity.y as int) <= MAX_SPEED,
    {
        let ghost ovx = self.velocity.x as int;
        let ghost ovy = self.velocity.y as int;
        proof {
            lemma_clamp_bounded(ovx, ovy);
            lemma_sq_abs(ovx, iabs(ovx));
            lemma_sq_abs(ovy, iabs(ovy));
        }
        let ax: u64 = abs_i64(self.velocity.x);
        let ay: u64 = abs_i64(self.velocity.y);
        proof {
            lemma_mul_le(ax as int, 0x8000_0000_0000_0000, ax as int, 0x8000_0000_0000_0000);
            lemma_mul_le(ay as int, 0x8000_0000_0000_0000, ay as int, 0x8000_0000_0000_0000);
        }
        let m2: u128 = (ax as u128) * (ax as u128) + (ay as u128) * (ay as u128);
        assert(m2 == speed_sq(ovx, ovy));
        if m2 <= 40_000_000_000u128 {
            return ;
        }
        let m: u128 = isqrt_ceil(m2);
        proof {
            lemma_sqrt_ceil_le(m2 as int, 0x2_0000_0000_0000_0000);
            lemma_sqrt_ceil_pos(m2 as int);
            lemma_component_le_sqrt(ovx, ovy, m2 as int);
            lemma_component_le_sqrt(ovy, ovx, m2 as int);
            lemma_mul_le(ax as int, m as int, 200_000, 200_000);
            lemma_mul_le(ay as int, m as int, 200_000, 200_000);
            lemma_div_le((ax as int) * 200_000, (m as int) * 200_000, m as int);
            lemma_div_le((ay as int) * 200_000, (m as int) * 200_000, m as int);
            lemma_mul_div_cancel(m as int, 200_000);
        }
        let cx128: u128 = (ax as u128) * 200_000u128 / m;
        let cy128: u128 = (ay as u128) * 200_000u128 / m;
        let cx: i64 = cx128 as i64;
        let cy: i64 = cy128 as i64;
        let nvx: i64 = if self.velocity.x >= 0 {
            cx
        } else {
            -cx
        };
        let nvy: i64 = if self.velocity.y >= 0 {
            cy
        } else {
            -cy
        };
        self.velocity = Vec2I { x: nvx, y: nvy };
    }
}

} // verus!
