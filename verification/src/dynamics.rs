//! One frame of agent dynamics: every agent's velocity is rebuilt from the
//! pulls of the mouse light, the static lights and the other agents (taken
//! from the previous frame's snapshot), clamped, and integrated; agents that
//! leave the viewport are dropped.

use vstd::prelude::*;
use crate::math::iabs;
use crate::vehicle::{
    Vehicle, pull_x, pull_y, clamp_x, clamp_y, shift, speed_sq, MAX_ACCUM,
};
use crate::{Vec2I, MAX_SPEED, MAX_COORD, MAX_INTENSITY, DT_MAX, MAX_DIM, MAX_SOURCES,
    MAX_CONTRIB};

verus! {

/// Accumulated x pull of a sequence of lights on the point `(px, py)`.
pub open spec fn lights_pull_x(px: int, py: int, lights: Seq<Vec2I>, f: int) -> int
    decreases lights.len(),
{
    if lights.len() == 0 {
        0
    } else {
        lights_pull_x(px, py, lights.drop_last(), f) + pull_x(px, py,
            lights.last().x as int, lights.last().y as int, f)
    }
}

/// Accumulated y pull of a sequence of lights on the point `(px, py)`.
pub open spec fn lights_pull_y(px: int, py: int, lights: Seq<Vec2I>, f: int) -> int
    decreases lights.len(),
{
    if lights.len() == 0 {
        0
    } else {
        lights_pull_y(px, py, lights.drop_last(), f) + pull_y(px, py,
            lights.last().x as int, lights.last().y as int, f)
    }
}

/// Accumulated x pull of the first `j` agents of the snapshot on the point
/// `(px, py)`, skipping the agent's own index `i`.
pub open spec fn others_pull_x(px: int, py: int, vs: Seq<Vehicle>, i: int, j: nat, f: int)
    -> int
    decreases j,
{
    if j == 0 {
        0
    } else {
        let prev = others_pull_x(px, py, vs, i, (j - 1) as nat, f);
        if j - 1 == i {
            prev
        } else {
            prev + pull_x(px, py, vs[j - 1].position.x as int, vs[j - 1].position.y as int, f)
        }
    }
}

/// Accumulated y pull of the first `j` agents of the snapshot on the point
/// `(px, py)`, skipping the agent's own index `i`.
pub open spec fn others_pull_y(px: int, py: int, vs: Seq<Vehicle>, i: int, j: nat, f: int)
    -> int
    decreases j,
{
    if j == 0 {
        0
    } else {
        let prev = others_pull_y(px, py, vs, i, (j - 1) as nat, f);
        if j - 1 == i {
            prev
        } else {
            prev + pull_y(px, py, vs[j - 1].position.x as int, vs[j - 1].position.y as int, f)
        }
    }
}

/// The full x velocity agent `i` accumulates in one frame, before clamping:
/// the mouse light's pull, then every static light's, then every other
/// agent's.
pub open spec fn accum_vx(vs: Seq<Vehicle>, i: int, mouse: Vec2I, lights: Seq<Vec2I>,
    mi: int, li: int, ci: int) -> int {
    let px = vs[i].position.x as int;
    let py = vs[i].position.y as int;
    pull_x(px, py, mouse.x as int, mouse.y as int, mi) + lights_pull_x(px, py, lights, li)
        + others_pull_x(px, py, vs, i, vs.len(), ci)
}

/// The full y velocity agent `i` accumulates in one frame, before clamping.
pub open spec fn accum_vy(vs: Seq<Vehicle>, i: int, mouse: Vec2I, lights: Seq<Vec2I>,
    mi: int, li: int, ci: int) -> int {
    let px = vs[i].position.x as int;
    let py = vs[i].position.y as int;
    pull_y(px, py, mouse.x as int, mouse.y as int, mi) + lights_pull_y(px, py, lights, li)
        + others_pull_y(px, py, vs, i, vs.len(), ci)
}

/// Agent `i` after one dynamics step: velocity rebuilt from all pulls and
/// clamped, position integrated over `dt` milliseconds.
pub open spec fn step_vehicle(vs: Seq<Vehicle>, i: int, mouse: Vec2I, lights: Seq<Vec2I>,
    mi: int, li: int, ci: int, dt: int) -> Vehicle {
    let avx = accum_vx(vs, i, mouse, lights, mi, li, ci);
    let avy = accum_vy(vs, i, mouse, lights, mi, li, ci);
    let cvx = clamp_x(avx, avy);
    let cvy = clamp_y(avx, avy);
    Vehicle {
        position: Vec2I {
            x: (vs[i].position.x + shift(cvx, dt)) as i64,
            y: (vs[i].position.y + shift(cvy, dt)) as i64,
        },
        velocity: Vec2I { x: cvx as i64, y: cvy as i64 },
    }
}

/// Whether a position lies strictly inside the centered viewport.
pub open spec fn in_viewport(p: Vec2I, width: int, height: int) -> bool {
    iabs(p.x as int) < width / 2 && iabs(p.y as int) < height / 2
}

/// The subsequence of agents whose positions lie inside the viewport, in
/// their original order.
pub open spec fn keep_inside(s: Seq<Vehicle>, width: int, height: int) -> Seq<Vehicle>
    decreases s.len(),
{
    if s.len() == 0 {
        Seq::empty()
    } else {
        let prefix = keep_inside(s.drop_last(), width, height);
        if in_viewport(s.last().position, width, height) {
            prefix.push(s.last())
        } else {
            prefix
        }
    }
}

/// The first `m` agents of the snapshot, each advanced one step.
pub open spec fn stepped_prefix(vs: Seq<Vehicle>, mouse: Vec2I, lights: Seq<Vec2I>,
    mi: int, li: int, ci: int, dt: int, m: int) -> Seq<Vehicle> {
    vs.subrange(0, m).map(|i: int, v: Vehicle| step_vehicle(vs, i, mouse, lights, mi, li, ci,
        dt))
}

/// What one whole frame of dynamics produces: every agent stepped against
/// the previous frame's snapshot, then the out-of-viewport ones dropped.
pub open spec fn advance_spec(vs: Seq<Vehicle>, mouse: Vec2I, lights: Seq<Vec2I>,
    mi: int, li: int, ci: int, dt: int, width: int, height: int) -> Seq<Vehicle> {
    keep_inside(stepped_prefix(vs, mouse, lights, mi, li, ci, dt, vs.len() as int), width,
        height)
}

/// Advances every agent one frame and drops those that left the viewport.
///
/// Each agent's pulls are computed against the immutable snapshot
/// `vehicles`, never against positions already advanced this frame, so the
/// outcome does not depend on the order agents are processed in. An agent
/// skips itself by index, not by comparing positions, so two coinciding
/// agents still repel each other.
pub fn advance(vehicles: &Vec<Vehicle>, mouse_light: Vec2I, lights: &Vec<Vec2I>,
    mouse_intensity: i64, light_intensity: i64, car_intensity: i64, delta_ms: i64,
    width: i64, height: i64) -> (r: Vec<Vehicle>)
    requires
        forall|k: int| 0 <= k < vehicles@.len() ==> (#[trigger] vehicles@[k]).position.in_box(
            MAX_COORD as int),
        forall|k: int| 0 <= k < lights@.len() ==> (#[trigger] lights@[k]).in_box(
            MAX_COORD as int),
        mouse_light.in_box(MAX_COORD as int),
        0 <= mouse_intensity <= MAX_INTENSITY,
        0 <= light_intensity <= MAX_INTENSITY,
        0 <= car_intensity <= MAX_INTENSITY,
        0 <= delta_ms <= DT_MAX,
        vehicles@.len() + lights@.len() + 1 <= MAX_SOURCES,
        0 < width <= MAX_DIM,
        0 < height <= MAX_DIM,
    ensures
        r@ == advance_spec(vehicles@, mouse_light, lights@, mouse_intensity as int,
            light_intensity as int, car_intensity as int, delta_ms as int, width as int,
            height as int),
        r@.len() <= vehicles@.len(),
        forall|k: int| 0 <= k < r@.len() ==> in_viewport((#[trigger] r@[k]).position,
            width as int, height as int),
        forall|k: int| 0 <= k < r@.len() ==> (#[trigger] r@[k]).position.in_box(
            MAX_COORD as int),
        forall|k: int| 0 <= k < r@.len() ==> speed_sq((#[trigger] r@[k]).velocity.x as int,
            r@[k].velocity.y as int) <= MAX_SPEED * MAX_SPEED,
{
    let ghost vs = vehicles@;
    let ghost ls = lights@;
    let ghost mi = mouse_intensity as int;
    let ghost li = light_intensity as int;
    let ghost ci = car_intensity as int;
    let ghost dt = delta_ms as int;
    let mut out: Vec<Vehicle> = Vec::new();
    let n = vehicles.len();
    let nl = lights.len();
    let mut i: usize = 0;
    while i < n
        invariant
            vs == vehicles@,
            ls == lights@,
            mi == mouse_intensity as int,
            li == light_intensity as int,
            ci == car_intensity as int,
            dt == delta_ms as int,
            n == vs.len(),
            nl == ls.len(),
            0 <= i <= n,
            forall|k: int| 0 <= k < vs.len() ==> (#[trigger] vs[k]).position.in_box(
                MAX_COORD as int),
            forall|k: int| 0 <= k < ls.len() ==> (#[trigger] ls[k]).in_box(MAX_COORD as int),
            mouse_light.in_box(MAX_COORD as int),
            0 <= mouse_intensity <= MAX_INTENSITY,
            0 <= light_intensity <= MAX_INTENSITY,
            0 <= car_intensity <= MAX_INTENSITY,
            0 <= delta_ms <= DT_MAX,
            n + nl + 1 <= MAX_SOURCES,
            0 < width <= MAX_DIM,
            0 < height <= MAX_DIM,
            out@ == keep_inside(stepped_prefix(vs, mouse_light, ls, mi, li, ci, dt, i as int),
                width as int, height as int),
            out@.len() <= i,
            forall|t: int| 0 <= t < out@.len() ==> in_viewport((#[trigger] out@[t]).position,
                width as int, height as int),
            forall|t: int| 0 <= t < out@.len() ==> (#[trigger] out@[t]).position.in_box(
                MAX_COORD as int),
            forall|t: int| 0 <= t < out@.len() ==> speed_sq(
                (#[trigger] out@[t]).velocity.x as int, out@[t].velocity.y as int)
                <= MAX_SPEED * MAX_SPEED,
        decreases n - i,
    {
        let ghost px = vs[i as int].position.x as int;
        let ghost py = vs[i as int].position.y as int;
        let mut v = vehicles[i];
        v.velocity = Vec2I { x: 0, y: 0 };
        v.adjust(&mouse_light, mouse_intensity);
        let mut j: usize = 0;
        while j < nl
            invariant
                ls == lights@,
                mi == mouse_intensity as int,
                li == light_intensity as int,
                i < vs.len(),
                px == vs[i as int].position.x as int,
                py == vs[i as int].position.y as int,
                nl == ls.len(),
                0 <= j <= nl,
                forall|k: int| 0 <= k < ls.len() ==> (#[trigger] ls[k]).in_box(
                    MAX_COORD as int),
                0 <= light_intensity <= MAX_INTENSITY,
                n + nl + 1 <= MAX_SOURCES,
                v.position == vs[i as int].position,
                v.position.in_box(MAX_COORD as int),
                v.velocity.x as int == pull_x(px, py, mouse_light.x as int,
                    mouse_light.y as int, mi) + lights_pull_x(px, py, ls.subrange(0, j as int),
                    li),
                v.velocity.y as int == pull_y(px, py, mouse_light.x as int,
                    mouse_light.y as int, mi) + lights_pull_y(px, py, ls.subrange(0, j as int),
                    li),
                iabs(v.velocity.x as int) <= (1 + j) * MAX_CONTRIB,
                iabs(v.velocity.y as int) <= (1 + j) * MAX_CONTRIB,
            decreases nl - j,
        {
            let lj = lights[j];
            v.adjust(&lj, light_intensity);
            proof {
                let s1 = ls.subrange(0, j + 1 as int);
                assert(s1.drop_last() =~= ls.subrange(0, j as int));
                assert(s1.last() == ls[j as int]);
                assert((2 + j) * MAX_CONTRIB == (1 + j) * MAX_CONTRIB + MAX_CONTRIB);
            }
            j += 1;
        }
        proof {
            assert(ls.subrange(0, nl as int) =~= ls);
        }
        let mut k: usize = 0;
        while k < n
            invariant
                vs == vehicles@,
                ls == lights@,
                mi == mouse_intensity as int,
                li == light_intensity as int,
                ci == car_intensity as int,
                px == vs[i as int].position.x as int,
                py == vs[i as int].position.y as int,
                nl == ls.len(),
                n == vs.len(),
                0 <= k <= n,
                i < n,
                forall|t: int| 0 <= t < vs.len() ==> (#[trigger] vs[t]).position.in_box(
                    MAX_COORD as int),
                0 <= car_intensity <= MAX_INTENSITY,
                n + nl + 1 <= MAX_SOURCES,
                v.position == vs[i as int].position,
                v.position.in_box(MAX_COORD as int),
                v.velocity.x as int == pull_x(px, py, mouse_light.x as int,
                    mouse_light.y as int, mi) + lights_pull_x(px, py, ls, li) + others_pull_x(
                    px, py, vs, i as int, k as nat, ci),
                v.velocity.y as int == pull_y(px, py, mouse_light.x as int,
                    mouse_light.y as int, mi) + lights_pull_y(px, py, ls, li) + others_pull_y(
                    px, py, vs, i as int, k as nat, ci),
                iabs(v.velocity.x as int) <= (1 + nl + k) * MAX_CONTRIB,
                iabs(v.velocity.y as int) <= (1 + nl + k) * MAX_CONTRIB,
            decreases n - k,
        {
            if k != i {
                let tp = vehicles[k].position;
                v.adjust(&tp, car_intensity);
            }
            proof {
                assert((2 + nl + k) * MAX_CONTRIB == (1 + nl + k) * MAX_CONTRIB + MAX_CONTRIB);
            }
            k += 1;
        }
        assert(v.velocity.x as int == accum_vx(vs, i as int, mouse_light, ls, mi, li, ci));
        assert(v.velocity.y as int == accum_vy(vs, i as int, mouse_light, ls, mi, li, ci));
        assert(iabs(v.velocity.x as int) <= MAX_ACCUM);
        assert(iabs(v.velocity.y as int) <= MAX_ACCUM);
        v.clamp_speed();
        v.update(delta_ms);
        assert(v == step_vehicle(vs, i as int, mouse_light, ls, mi, li, ci, dt));
        let half_w = width / 2;
        let half_h = height / 2;
        let axp = crate::math::abs_i64(v.position.x);
        let ayp = crate::math::abs_i64(v.position.y);
        let keep = axp < (half_w as u64) && ayp < (half_h as u64);
        assert(keep == in_viewport(v.position, width as int, height as int));
        if keep {
            out.push(v);
        }
        proof {
            let sp1 = stepped_prefix(vs, mouse_light, ls, mi, li, ci, dt, i + 1 as int);
            let sp0 = stepped_prefix(vs, mouse_light, ls, mi, li, ci, dt, i as int);
            assert(sp1 =~= sp0.push(step_vehicle(vs, i as int, mouse_light, ls, mi, li, ci,
                dt)));
            assert(sp1.drop_last() =~= sp0);
        }
        i += 1;
    }
    proof {
        assert(stepped_prefix(vs, mouse_light, ls, mi, li, ci, dt, n as int)
            == stepped_prefix(vs, mouse_light, ls, mi, li, ci, dt, vs.len() as int));
    }
    out
}

} // verus!
