//! The simulation state a rendering host drives frame by frame: the
//! viewport, the agents, the scattered and user-placed lights, the mouse
//! light and the three intensity knobs, together with every action the host
//! can apply between frames.

use vstd::prelude::*;
use vstd::arithmetic::div_mod::lemma_div_is_ordered;
use crate::math::{lemma_mul_le, lemma_div_le, lemma_zero_div, lemma_sq_abs, abs_i64};
use crate::vehicle::{Vehicle, dist_sq};
use crate::dynamics::{advance, advance_spec, in_viewport};
use crate::{Vec2I, MAX_COORD, MAX_INTENSITY, MAX_DIM, DT_MAX, MAX_SPEED};

verus! {

/// Viewport area (in squared milliunits) that carries one scattered light:
/// the regenerated field's density is one light per 4000 square units.
pub const LIGHT_AREA_PER: i64 = 4_000_000_000;

/// How many scattered lights the initial state carries.
pub const INITIAL_LIGHTS: usize = 100;

/// Half-width (in milliunits) of the box around the pointer a placed light
/// lands in: 10 units.
pub const PLACE_SPREAD: i64 = 10_000;

/// Default intensity of a static light: 30 units.
pub const LIGHT_INTENSITY_DEFAULT: i64 = 30_000;

/// Default intensity of the mouse light: 1000 units.
pub const MOUSE_INTENSITY_DEFAULT: i64 = 1_000_000;

/// Default intensity of agent-on-agent repulsion: 10 units.
pub const CAR_INTENSITY_DEFAULT: i64 = 10_000;

/// Cap on the agent population; together with `MAX_LIGHTS` and the mouse
/// light it fills the `MAX_SOURCES` budget of one force accumulation.
pub const MAX_VEHICLES: usize = 500_000;

/// Cap on the light population.
pub const MAX_LIGHTS: usize = 499_999;

/// How many scattered lights a viewport of the given size carries after a
/// resize.
pub open spec fn light_count(width: int, height: int) -> int {
    (width * height) / (LIGHT_AREA_PER as int)
}

/// Relies on rand::random_range: the sample lies in the given half-open
/// range. It panics on an empty range, which the precondition rules out.
#[verifier::external_body]
fn random_in_range(lo: i64, hi: i64) -> (r: i64)
    requires
        lo < hi,
    ensures
        lo <= r < hi,
{
    rand::random_range(lo..hi)
}

/// `n` lights drawn uniformly from the centered `width` by `height` box.
fn scatter_lights(n: usize, width: i64, height: i64) -> (r: Vec<Vec2I>)
    requires
        2 <= width <= MAX_DIM,
        2 <= height <= MAX_DIM,
    ensures
        r@.len() == n,
        forall|k: int| 0 <= k < r@.len() ==> {
            &&& -(width as int / 2) <= (#[trigger] r@[k]).x < width as int / 2
            &&& -(height as int / 2) <= r@[k].y < height as int / 2
        },
        forall|k: int| 0 <= k < r@.len() ==> (#[trigger] r@[k]).in_box(MAX_COORD as int),
{
    let halfw = width / 2;
    let halfh = height / 2;
    proof {
        lemma_div_is_ordered(2, width as int, 2);
        lemma_div_is_ordered(2, height as int, 2);
        lemma_div_le(width as int, MAX_DIM as int, 2);
        lemma_div_le(height as int, MAX_DIM as int, 2);
        assert(-(width as int / 2) == -halfw);
        assert(-(height as int / 2) == -halfh);
    }
    let mut out: Vec<Vec2I> = Vec::new();
    let mut k: usize = 0;
    while k < n
        invariant
            1 <= halfw <= MAX_COORD,
            1 <= halfh <= MAX_COORD,
            halfw == width as int / 2,
            halfh == height as int / 2,
            -(width as int / 2) == -halfw,
            -(height as int / 2) == -halfh,
            0 <= k <= n,
            out@.len() == k,
            forall|t: int| 0 <= t < out@.len() ==> {
                &&& -(width as int / 2) <= (#[trigger] out@[t]).x < width as int / 2
                &&& -(height as int / 2) <= out@[t].y < height as int / 2
            },
            forall|t: int| 0 <= t < out@.len() ==> (#[trigger] out@[t]).in_box(
                MAX_COORD as int),
        decreases n - k,
    {
        let x = random_in_range(-halfw, halfw);
        let y = random_in_range(-halfh, halfh);
        out.push(Vec2I { x: x, y: y });
        k += 1;
    }
    out
}

/// The lights of `ls` strictly farther than `radius` from `p`, in order:
/// what a removal pass around `p` leaves behind.
pub open spec fn lights_outside(ls: Seq<Vec2I>, p: Vec2I, radius: int) -> Seq<Vec2I>
    decreases ls.len(),
{
    if ls.len() == 0 {
        Seq::empty()
    } else {
        let prefix = lights_outside(ls.drop_last(), p, radius);
        if dist_sq(p.x as int, p.y as int, ls.last().x as int, ls.last().y as int)
            > radius * radius {
            prefix.push(ls.last())
        } else {
            prefix
        }
    }
}

/// The lights of `ls` within `radius` of `p`, in order: what a radius query
/// around `p` finds.
pub open spec fn lights_inside(ls: Seq<Vec2I>, p: Vec2I, radius: int) -> Seq<Vec2I>
    decreases ls.len(),
{
    if ls.len() == 0 {
        Seq::empty()
    } else {
        let prefix = lights_inside(ls.drop_last(), p, radius);
        if dist_sq(p.x as int, p.y as int, ls.last().x as int, ls.last().y as int)
            <= radius * radius {
            prefix.push(ls.last())
        } else {
            prefix
        }
    }
}

/// Removing every light within a radius of a point, then querying for
/// lights within the same radius of the same point, finds nothing.
pub proof fn lemma_remove_then_query_empty(ls: Seq<Vec2I>, p: Vec2I, radius: int)
    ensures
        lights_inside(lights_outside(ls, p, radius), p, radius) =~= Seq::<Vec2I>::empty(),
    decreases ls.len(),
{
    if ls.len() == 0 {
    } else {
        lemma_remove_then_query_empty(ls.drop_last(), p, radius);
        let prefix = lights_outside(ls.drop_last(), p, radius);
        let l = ls.last();
        if dist_sq(p.x as int, p.y as int, l.x as int, l.y as int) > radius * radius {
            assert(lights_outside(ls, p, radius) == prefix.push(l));
            assert(prefix.push(l).drop_last() =~= prefix);
            assert(prefix.push(l).last() == l);
        }
    }
}

/// The whole mutable state of the toy.
pub struct SimState {
    pub width: i64,
    pub height: i64,
    pub vehicles: Vec<Vehicle>,
    pub lights: Vec<Vec2I>,
    pub mouse_light: Vec2I,
    pub light_intensity: i64,
    pub mouse_intensity: i64,
    pub car_intensity: i64,
}

impl SimState {
    /// Every bound the rest of the library needs of a state.
    pub open spec fn wf(self) -> bool {
        &&& 0 < self.width <= MAX_DIM
        &&& 0 < self.height <= MAX_DIM
        &&& forall|k: int| 0 <= k < self.lights@.len() ==> (#[trigger] self.lights@[k]).in_box(
            MAX_COORD as int)
        &&& forall|k: int| 0 <= k < self.vehicles@.len() ==> (#[trigger] self.vehicles@[
            k]).position.in_box(MAX_COORD as int)
        &&& self.mouse_light.in_box(MAX_COORD as int)
        &&& 0 <= self.light_intensity <= MAX_INTENSITY
        &&& 0 <= self.mouse_intensity <= MAX_INTENSITY
        &&& 0 <= self.car_intensity <= MAX_INTENSITY
        &&& self.vehicles@.len() <= MAX_VEHICLES
        &&& self.lights@.len() <= MAX_LIGHTS
    }

    /// The starting state: one agent at rest at the origin, the default
    /// intensity knobs, the mouse light parked at the viewport corner, and
    /// the initial scattered light field.
    pub fn new(width: i64, height: i64) -> (r: SimState)
        requires
            2 <= width <= MAX_DIM,
            2 <= height <= MAX_DIM,
        ensures
            r.wf(),
            r.width == width,
            r.height == height,
            r.vehicles@.len() == 1,
            r.vehicles@[0].position.x == 0 && r.vehicles@[0].position.y == 0,
            r.vehicles@[0].velocity.x == 0 && r.vehicles@[0].velocity.y == 0,
            r.lights@.len() == INITIAL_LIGHTS,
            forall|k: int| 0 <= k < r.lights@.len() ==> {
                &&& -(width as int / 2) <= (#[trigger] r.lights@[k]).x < width as int / 2
                &&& -(height as int / 2) <= r.lights@[k].y < height as int / 2
            },
            r.mouse_light.x == width / 2 && r.mouse_light.y == height / 2,
            r.light_intensity == LIGHT_INTENSITY_DEFAULT,
            r.mouse_intensity == MOUSE_INTENSITY_DEFAULT,
            r.car_intensity == CAR_INTENSITY_DEFAULT,
    {
        let lights = scatter_lights(INITIAL_LIGHTS, width, height);
        let mut vehicles: Vec<Vehicle> = Vec::new();
        vehicles.push(Vehicle::new());
        proof {
            lemma_div_le(width as int, MAX_DIM as int, 2);
            lemma_div_le(height as int, MAX_DIM as int, 2);
        }
        SimState {
            width: width,
            height: height,
            vehicles: vehicles,
            lights: lights,
            mouse_light: Vec2I { x: width / 2, y: height / 2 },
            light_intensity: LIGHT_INTENSITY_DEFAULT,
            mouse_intensity: MOUSE_INTENSITY_DEFAULT,
            car_intensity: CAR_INTENSITY_DEFAULT,
        }
    }

    /// A viewport resize: the scattered light field is regenerated from
    /// scratch with a count proportional to the new area.
    pub fn resized(&mut self, width: i64, height: i64)
        requires
            old(self).wf(),
            2 <= width <= MAX_DIM,
            2 <= height <= MAX_DIM,
        ensures
            final(self).wf(),
            final(self).width == width,
            final(self).height == height,
            final(self).lights@.len() == light_count(width as int, height as int),
            forall|k: int| 0 <= k < final(self).lights@.len() ==> {
                &&& -(width as int / 2) <= (#[trigger] final(self).lights@[k]).x
                    < width as int / 2
                &&& -(height as int / 2) <= final(self).lights@[k].y < height as int / 2
            },
            final(self).vehicles == old(self).vehicles,
            final(self).mouse_light == old(self).mouse_light,
            final(self).light_intensity == old(self).light_intensity,
            final(self).mouse_intensity == old(self).mouse_intensity,
            final(self).car_intensity == old(self).car_intensity,
    {
        proof {
            lemma_mul_le(width as int, MAX_DIM as int, height as int, MAX_DIM as int);
            assert(0 <= (width as int) * (height as int)) by (nonlinear_arith)
                requires
                    width >= 2,
                    height >= 2,
            ;
            lemma_div_le((width as int) * (height as int), 256_000_000_000_000int,
                LIGHT_AREA_PER as int);
            lemma_zero_div(LIGHT_AREA_PER as int);
            lemma_div_le(0, (width as int) * (height as int), LIGHT_AREA_PER as int);
        }
        let count: i64 = (width * height) / LIGHT_AREA_PER;
        self.width = width;
        self.height = height;
        self.lights = scatter_lights(count as usize, width, height);
    }

    /// One frame of agent dynamics over `delta_ms` milliseconds: every
    /// agent's velocity and position advance, and agents that left the
    /// viewport are dropped.
    pub fn step(&mut self, delta_ms: i64)
        requires
            old(self).wf(),
            0 <= delta_ms <= DT_MAX,
        ensures
            final(self).wf(),
            final(self).vehicles@ == advance_spec(old(self).vehicles@, old(self).mouse_light,
                old(self).lights@, old(self).mouse_intensity as int,
                old(self).light_intensity as int, old(self).car_intensity as int,
                delta_ms as int, old(self).width as int, old(self).height as int),
            forall|k: int| 0 <= k < final(self).vehicles@.len() ==> in_viewport(
                (#[trigger] final(self).vehicles@[k]).position, old(self).width as int,
                old(self).height as int),
            forall|k: int| 0 <= k < final(self).vehicles@.len() ==> crate::vehicle::speed_sq(
                (#[trigger] final(self).vehicles@[k]).velocity.x as int,
                final(self).vehicles@[k].velocity.y as int) <= MAX_SPEED * MAX_SPEED,
            final(self).lights == old(self).lights,
            final(self).width == old(self).width,
            final(self).height == old(self).height,
            final(self).mouse_light == old(self).mouse_light,
            final(self).light_intensity == old(self).light_intensity,
            final(self).mouse_intensity == old(self).mouse_intensity,
            final(self).car_intensity == old(self).car_intensity,
    {
        let stepped = advance(&self.vehicles, self.mouse_light, &self.lights,
            self.mouse_intensity, self.light_intensity, self.car_intensity, delta_ms,
            self.width, self.height);
        self.vehicles = stepped;
    }

    /// The spawn action: one more agent at rest at the origin.
    pub fn spawn_vehicle(&mut self)
        requires
            old(self).wf(),
            old(self).vehicles@.len() < MAX_VEHICLES,
        ensures
            final(self).wf(),
            final(self).vehicles@.len() == old(self).vehicles@.len() + 1,
            final(self).vehicles@.subrange(0, old(self).vehicles@.len() as int)
                == old(self).vehicles@,
            final(self).vehicles@.last().position.x == 0
                && final(self).vehicles@.last().position.y == 0,
            final(self).vehicles@.last().velocity.x == 0
                && final(self).vehicles@.last().velocity.y == 0,
            final(self).lights == old(self).lights,
    {
        self.vehicles.push(Vehicle::new());
        proof {
            assert(self.vehicles@.subrange(0, old(self).vehicles@.len() as int)
                =~= old(self).vehicles@);
        }
    }

    /// The reset action: back to exactly one agent at rest at the origin.
    pub fn reset_vehicles(&mut self)
        requires
            old(self).wf(),
        ensures
            final(self).wf(),
            final(self).vehicles@.len() == 1,
            final(self).vehicles@[0].position.x == 0 && final(self).vehicles@[0].position.y
                == 0,
            final(self).vehicles@[0].velocity.x == 0 && final(self).vehicles@[0].velocity.y
                == 0,
            final(self).lights == old(self).lights,
    {
        self.vehicles = Vec::new();
        self.vehicles.push(Vehicle::new());
    }

    /// The pointer update: the mouse light follows the pointer while one is
    /// present, and stays put while none is.
    pub fn set_mouse(&mut self, pointer: Option<Vec2I>)
        requires
            old(self).wf(),
            pointer matches Some(q) ==> q.in_box(MAX_COORD as int),
        ensures
            final(self).wf(),
            pointer matches Some(q) ==> final(self).mouse_light == q,
            pointer is None ==> final(self).mouse_light == old(self).mouse_light,
            final(self).lights == old(self).lights,
            final(self).vehicles == old(self).vehicles,
    {
        match pointer {
            Some(q) => {
                self.mouse_light = q;
            },
            None => {},
        }
    }

    /// The place action: one new light lands uniformly within
    /// `PLACE_SPREAD` of the pointer on each axis.
    pub fn place_light_near(&mut self, pointer: Vec2I)
        requires
            old(self).wf(),
            pointer.in_box(MAX_COORD - PLACE_SPREAD as int),
            old(self).lights@.len() < MAX_LIGHTS,
        ensures
            final(self).wf(),
            final(self).lights@.len() == old(self).lights@.len() + 1,
            final(self).lights@.subrange(0, old(self).lights@.len() as int)
                == old(self).lights@,
            pointer.x - PLACE_SPREAD <= final(self).lights@.last().x
                < pointer.x + PLACE_SPREAD,
            pointer.y - PLACE_SPREAD <= final(self).lights@.last().y
                < pointer.y + PLACE_SPREAD,
            final(self).vehicles == old(self).vehicles,
    {
        let x = random_in_range(pointer.x - PLACE_SPREAD, pointer.x + PLACE_SPREAD);
        let y = random_in_range(pointer.y - PLACE_SPREAD, pointer.y + PLACE_SPREAD);
        self.lights.push(Vec2I { x: x, y: y });
        proof {
            assert(self.lights@.subrange(0, old(self).lights@.len() as int)
                =~= old(self).lights@);
        }
    }

    /// The remove action: every light within `radius` of the pointer is
    /// dropped; the survivors keep their order.
    pub fn remove_lights_near(&mut self, pointer: Vec2I, radius: i64)
        requires
            old(self).wf(),
            pointer.in_box(MAX_COORD as int),
            0 <= radius <= MAX_DIM,
        ensures
            final(self).wf(),
            final(self).lights@ == lights_outside(old(self).lights@, pointer, radius as int),
            final(self).vehicles == old(self).vehicles,
            final(self).mouse_light == old(self).mouse_light,
            final(self).width == old(self).width,
            final(self).height == old(self).height,
    {
        let ghost ls = self.lights@;
        proof {
            lemma_mul_le(radius as int, MAX_DIM as int, radius as int, MAX_DIM as int);
        }
        let rsq: u64 = (radius as u64) * (radius as u64);
        let n = self.lights.len();
        let mut out: Vec<Vec2I> = Vec::new();
        let mut k: usize = 0;
        while k < n
            invariant
                ls == self.lights@,
                n == ls.len(),
                rsq == (radius as int) * (radius as int),
                pointer.in_box(MAX_COORD as int),
                forall|t: int| 0 <= t < ls.len() ==> (#[trigger] ls[t]).in_box(
                    MAX_COORD as int),
                0 <= k <= n,
                out@ == lights_outside(ls.subrange(0, k as int), pointer, radius as int),
                out@.len() <= k,
                forall|t: int| 0 <= t < out@.len() ==> (#[trigger] out@[t]).in_box(
                    MAX_COORD as int),
            decreases n - k,
        {
            let l = self.lights[k];
            let dxs: i64 = l.x - pointer.x;
            let dys: i64 = l.y - pointer.y;
            let ax: u64 = abs_i64(dxs);
            let ay: u64 = abs_i64(dys);
            proof {
                lemma_sq_abs(dxs as int, ax as int);
                lemma_sq_abs(dys as int, ay as int);
                lemma_mul_le(ax as int, 20_000_000, ax as int, 20_000_000);
                lemma_mul_le(ay as int, 20_000_000, ay as int, 20_000_000);
            }
            let d2: u64 = ax * ax + ay * ay;
            assert(d2 == dist_sq(pointer.x as int, pointer.y as int, l.x as int, l.y as int));
            if d2 > rsq {
                out.push(l);
            }
            proof {
                let s1 = ls.subrange(0, k + 1 as int);
                assert(s1.drop_last() =~= ls.subrange(0, k as int));
                assert(s1.last() == ls[k as int]);
            }
            k += 1;
        }
        proof {
            assert(ls.subrange(0, n as int) =~= ls);
        }
        self.lights = out;
    }

    /// The lights currently within `radius` of `p`, in their stored order.
    pub fn lights_within(&self, p: Vec2I, radius: i64) -> (r: Vec<Vec2I>)
        requires
            self.wf(),
            p.in_box(MAX_COORD as int),
            0 <= radius <= MAX_DIM,
        ensures
            r@ == lights_inside(self.lights@, p, radius as int),
    {
        let ghost ls = self.lights@;
        proof {
            lemma_mul_le(radius as int, MAX_DIM as int, radius as int, MAX_DIM as int);
        }
        let rsq: u64 = (radius as u64) * (radius as u64);
        let n = self.lights.len();
        let mut out: Vec<Vec2I> = Vec::new();
        let mut k: usize = 0;
        while k < n
            invariant
                ls == self.lights@,
                n == ls.len(),
                rsq == (radius as int) * (radius as int),
                p.in_box(MAX_COORD as int),
                forall|t: int| 0 <= t < ls.len() ==> (#[trigger] ls[t]).in_box(
                    MAX_COORD as int),
                0 <= k <= n,
                out@ == lights_inside(ls.subrange(0, k as int), p, radius as int),
            decreases n - k,
        {
            let l = self.lights[k];
            let dxs: i64 = l.x - p.x;
            let dys: i64 = l.y - p.y;
            let ax: u64 = abs_i64(dxs);
            let ay: u64 = abs_i64(dys);
            proof {
                lemma_sq_abs(dxs as int, ax as int);
                lemma_sq_abs(dys as int, ay as int);
                lemma_mul_le(ax as int, 20_000_000, ax as int, 20_000_000);
                lemma_mul_le(ay as int, 20_000_000, ay as int, 20_000_000);
            }
            let d2: u64 = ax * ax + ay * ay;
            assert(d2 == dist_sq(p.x as int, p.y as int, l.x as int, l.y as int));
            if d2 <= rsq {
                out.push(l);
            }
            proof {
                let s1 = ls.subrange(0, k + 1 as int);
                assert(s1.drop_last() =~= ls.subrange(0, k as int));
                assert(s1.last() == ls[k as int]);
            }
            k += 1;
        }
        proof {
            assert(ls.subrange(0, n as int) =~= ls);
        }
        out
    }
}

} // verus!
