//! The field sampler: for every cell of a tile grid covering the viewport,
//! the inverse-square glow of all static lights lands in the red channel and
//! the glow of all agents plus the mouse light in the blue channel. The
//! computation is exact integer arithmetic, so any partition of the grid
//! across workers produces the same colors cell for cell.

use vstd::prelude::*;
use vstd::arithmetic::div_mod::lemma_div_is_ordered_by_denominator;
use rayon::iter::{IntoParallelIterator, ParallelIterator};
use crate::math::{lemma_mul_le, lemma_div_le, lemma_sq_abs, abs_i64};
use crate::vehicle::{Vehicle, dist_sq_floored};
use crate::{Vec2I, FIELD_NUM, MAX_COORD, MAX_INTENSITY, MAX_DIM, MAX_SOURCES, TILE,
    TILE_X_BIAS};

verus! {

/// Largest value one source can add to a color channel: intensity knob at
/// its ceiling, distance on the minimum-distance floor.
pub const MAX_GLOW: i64 = 15_000_000;

/// Magnitude bound that holds of every tile center coordinate.
pub const MAX_CELL_COORD: i64 = 30_000_000;

/// One grid cell: its center and its color, all in milliunits.
#[derive(Clone, Copy, PartialEq, Eq, Structural, Debug)]
pub struct Cell {
    pub x: i64,
    pub y: i64,
    pub red: i64,
    pub green: i64,
    pub blue: i64,
}

/// The x coordinate of the center of grid column `i`.
pub open spec fn cell_cx(i: int, width: int) -> int {
    i * TILE + TILE_X_BIAS - width / 2
}

/// The y coordinate of the center of grid row `j`.
pub open spec fn cell_cy(j: int, height: int) -> int {
    j * TILE + TILE - height / 2
}

/// The glow one source of strength `f` at `(sx, sy)` contributes at the
/// point `(cx, cy)`.
pub open spec fn glow(cx: int, cy: int, sx: int, sy: int, f: int) -> int {
    (f * FIELD_NUM) / dist_sq_floored(cx, cy, sx, sy)
}

/// Summed glow of a sequence of lights at `(cx, cy)`.
pub open spec fn lights_glow(cx: int, cy: int, lights: Seq<Vec2I>, f: int) -> int
    decreases lights.len(),
{
    if lights.len() == 0 {
        0
    } else {
        lights_glow(cx, cy, lights.drop_last(), f) + glow(cx, cy, lights.last().x as int,
            lights.last().y as int, f)
    }
}

/// Summed glow of a sequence of agents at `(cx, cy)`.
pub open spec fn vehicles_glow(cx: int, cy: int, vs: Seq<Vehicle>, f: int) -> int
    decreases vs.len(),
{
    if vs.len() == 0 {
        0
    } else {
        vehicles_glow(cx, cy, vs.drop_last(), f) + glow(cx, cy, vs.last().position.x as int,
            vs.last().position.y as int, f)
    }
}

/// The red channel of cell `(i, j)`: the static lights' glow.
pub open spec fn red_at(i: int, j: int, lights: Seq<Vec2I>, li: int, width: int,
    height: int) -> int {
    lights_glow(cell_cx(i, width), cell_cy(j, height), lights, li)
}

/// The blue channel of cell `(i, j)`: the agents' glow plus the mouse
/// light's.
pub open spec fn blue_at(i: int, j: int, vs: Seq<Vehicle>, mouse: Vec2I, ci: int, mi: int,
    width: int, height: int) -> int {
    vehicles_glow(cell_cx(i, width), cell_cy(j, height), vs, ci) + glow(cell_cx(i, width),
        cell_cy(j, height), mouse.x as int, mouse.y as int, mi)
}

/// Whether `c` is exactly the cell the single-threaded formula assigns to
/// grid coordinates `(i, j)`.
pub open spec fn cell_matches(c: Cell, i: int, j: int, lights: Seq<Vec2I>, vs: Seq<Vehicle>,
    mouse: Vec2I, li: int, ci: int, mi: int, width: int, height: int) -> bool {
    &&& c.x == cell_cx(i, width)
    &&& c.y == cell_cy(j, height)
    &&& c.red == red_at(i, j, lights, li, width, height)
    &&& c.green == 0
    &&& c.blue == blue_at(i, j, vs, mouse, ci, mi, width, height)
}

/// Whether `col` is exactly grid column `i`: one cell per row `j` from `-1`
/// to `height / TILE` (the intentional one-row overscan).
pub open spec fn column_matches(col: Seq<Cell>, i: int, lights: Seq<Vec2I>,
    vs: Seq<Vehicle>, mouse: Vec2I, li: int, ci: int, mi: int, width: int, height: int)
    -> bool {
    &&& col.len() == height / (TILE as int) + 2
    &&& forall|k: int| 0 <= k < col.len() ==> cell_matches(#[trigger] col[k], i, k - 1,
        lights, vs, mouse, li, ci, mi, width, height)
}

/// Whether `g` is exactly the whole sampled grid: one column per `i` from
/// `0` to `width / TILE`.
pub open spec fn grid_matches(g: Seq<Vec<Cell>>, lights: Seq<Vec2I>, vs: Seq<Vehicle>,
    mouse: Vec2I, li: int, ci: int, mi: int, width: int, height: int) -> bool {
    &&& g.len() == width / (TILE as int) + 1
    &&& forall|i: int| 0 <= i < g.len() ==> column_matches((#[trigger] g[i])@, i, lights, vs,
        mouse, li, ci, mi, width, height)
}

/// The bounds every sampler input obeys; shared by the sequential and the
/// parallel sampler.
pub open spec fn sampler_inputs_ok(lights: Seq<Vec2I>, vs: Seq<Vehicle>, mouse: Vec2I,
    li: int, ci: int, mi: int, width: int, height: int) -> bool {
    &&& forall|k: int| 0 <= k < lights.len() ==> (#[trigger] lights[k]).in_box(
        MAX_COORD as int)
    &&& forall|k: int| 0 <= k < vs.len() ==> (#[trigger] vs[k]).position.in_box(
        MAX_COORD as int)
    &&& mouse.in_box(MAX_COORD as int)
    &&& 0 <= li <= MAX_INTENSITY
    &&& 0 <= ci <= MAX_INTENSITY
    &&& 0 <= mi <= MAX_INTENSITY
    &&& lights.len() <= MAX_SOURCES
    &&& vs.len() <= MAX_SOURCES
    &&& 0 < width <= MAX_DIM
    &&& 0 < height <= MAX_DIM
}

/// One source's glow at one point, exactly as `glow` states it and at most
/// `MAX_GLOW`.
fn glow_term(cx: i64, cy: i64, sx: i64, sy: i64, f: i64) -> (r: i64)
    requires
        -MAX_CELL_COORD <= cx <= MAX_CELL_COORD,
        -MAX_CELL_COORD <= cy <= MAX_CELL_COORD,
        -MAX_COORD <= sx <= MAX_COORD,
        -MAX_COORD <= sy <= MAX_COORD,
        0 <= f <= MAX_INTENSITY,
    ensures
        r == glow(cx as int, cy as int, sx as int, sy as int, f as int),
        0 <= r <= MAX_GLOW,
{
    let dxs: i64 = sx - cx;
    let dys: i64 = sy - cy;
    let ax: u64 = abs_i64(dxs);
    let ay: u64 = abs_i64(dys);
    proof {
        lemma_sq_abs(dxs as int, ax as int);
        lemma_sq_abs(dys as int, ay as int);
        lemma_mul_le(ax as int, 40_000_000, ax as int, 40_000_000);
        lemma_mul_le(ay as int, 40_000_000, ay as int, 40_000_000);
    }
    let d2: u64 = ax * ax + ay * ay;
    let d2e: u64 = if d2 < 1_000_000 {
        1_000_000
    } else {
        d2
    };
    assert(d2e == dist_sq_floored(cx as int, cy as int, sx as int, sy as int));
    let num: u64 = (f as u64) * 3_000_000u64;
    let term: u64 = num / d2e;
    proof {
        lemma_div_is_ordered_by_denominator(num as int, 1_000_000, d2e as int);
        lemma_div_le(num as int, 15_000_000_000_000int, 1_000_000);
    }
    term as i64
}

/// Grid column `i`: the colors of every cell whose center has x coordinate
/// `cell_cx(i, width)`, for rows `-1` through `height / TILE`.
pub fn field_column(i: usize, lights: &Vec<Vec2I>, vehicles: &Vec<Vehicle>,
    mouse_light: Vec2I, light_intensity: i64, car_intensity: i64, mouse_intensity: i64,
    width: i64, height: i64) -> (r: Vec<Cell>)
    requires
        sampler_inputs_ok(lights@, vehicles@, mouse_light, light_intensity as int,
            car_intensity as int, mouse_intensity as int, width as int, height as int),
        i as int <= width as int / (TILE as int),
    ensures
        column_matches(r@, i as int, lights@, vehicles@, mouse_light, light_intensity as int,
            car_intensity as int, mouse_intensity as int, width as int, height as int),
{
    let ghost ls = lights@;
    let ghost vs = vehicles@;
    let ghost li = light_intensity as int;
    let ghost ci = car_intensity as int;
    let ghost mi = mouse_intensity as int;
    proof {
        lemma_div_le(width as int, MAX_DIM as int, TILE as int);
        lemma_div_le(height as int, MAX_DIM as int, TILE as int);
    }
    let rows: usize = (height / TILE) as usize + 2;
    let cx: i64 = (i as i64) * TILE + TILE_X_BIAS - width / 2;
    assert(cx == cell_cx(i as int, width as int));
    let mut col: Vec<Cell> = Vec::new();
    let mut k: usize = 0;
    while k < rows
        invariant
            ls == lights@,
            vs == vehicles@,
            li == light_intensity as int,
            ci == car_intensity as int,
            mi == mouse_intensity as int,
            sampler_inputs_ok(ls, vs, mouse_light, li, ci, mi, width as int, height as int),
            i as int <= width as int / (TILE as int),
            width as int / (TILE as int) <= 1000,
            height as int / (TILE as int) <= 1000,
            rows == height as int / (TILE as int) + 2,
            cx == cell_cx(i as int, width as int),
            -MAX_CELL_COORD <= cx <= MAX_CELL_COORD,
            0 <= k <= rows,
            col@.len() == k,
            forall|t: int| 0 <= t < k ==> cell_matches(#[trigger] col@[t], i as int, t - 1,
                ls, vs, mouse_light, li, ci, mi, width as int, height as int),
        decreases rows - k,
    {
        let jj: i64 = (k as i64) - 1;
        let cy: i64 = jj * TILE + TILE - height / 2;
        assert(cy == cell_cy(jj as int, height as int));
        let nl = lights.len();
        let mut red: i64 = 0;
        let mut t: usize = 0;
        while t < nl
            invariant
                ls == lights@,
                li == light_intensity as int,
                nl == ls.len(),
                sampler_inputs_ok(ls, vs, mouse_light, li, ci, mi, width as int,
                    height as int),
                -MAX_CELL_COORD <= cx <= MAX_CELL_COORD,
                -MAX_CELL_COORD <= cy <= MAX_CELL_COORD,
                0 <= t <= nl,
                red == lights_glow(cx as int, cy as int, ls.subrange(0, t as int), li),
                0 <= red <= t * MAX_GLOW,
            decreases nl - t,
        {
            let lt = lights[t];
            let g = glow_term(cx, cy, lt.x, lt.y, light_intensity);
            red = red + g;
            proof {
                let s1 = ls.subrange(0, t + 1 as int);
                assert(s1.drop_last() =~= ls.subrange(0, t as int));
                assert(s1.last() == ls[t as int]);
            }
            t += 1;
        }
        assert(ls.subrange(0, nl as int) =~= ls);
        let nv = vehicles.len();
        let mut blue: i64 = 0;
        let mut u: usize = 0;
        while u < nv
            invariant
                vs == vehicles@,
                ci == car_intensity as int,
                nv == vs.len(),
                sampler_inputs_ok(ls, vs, mouse_light, li, ci, mi, width as int,
                    height as int),
                -MAX_CELL_COORD <= cx <= MAX_CELL_COORD,
                -MAX_CELL_COORD <= cy <= MAX_CELL_COORD,
                0 <= u <= nv,
                blue == vehicles_glow(cx as int, cy as int, vs.subrange(0, u as int), ci),
                0 <= blue <= u * MAX_GLOW,
            decreases nv - u,
        {
            let vp = vehicles[u].position;
            let g = glow_term(cx, cy, vp.x, vp.y, car_intensity);
            blue = blue + g;
            proof {
                let s1 = vs.subrange(0, u + 1 as int);
                assert(s1.drop_last() =~= vs.subrange(0, u as int));
                assert(s1.last() == vs[u as int]);
            }
            u += 1;
        }
        assert(vs.subrange(0, nv as int) =~= vs);
        let gm = glow_term(cx, cy, mouse_light.x, mouse_light.y, mouse_intensity);
        blue = blue + gm;
        let cell = Cell { x: cx, y: cy, red: red, green: 0, blue: blue };
        assert(cell_matches(cell, i as int, jj as int, ls, vs, mouse_light, li, ci, mi,
            width as int, height as int));
        col.push(cell);
        k += 1;
    }
    col
}

/// The whole grid, sampled column by column on the calling thread.
pub fn sample_field(lights: &Vec<Vec2I>, vehicles: &Vec<Vehicle>, mouse_light: Vec2I,
    light_intensity: i64, car_intensity: i64, mouse_intensity: i64, width: i64, height: i64)
    -> (r: Vec<Vec<Cell>>)
    requires
        sampler_inputs_ok(lights@, vehicles@, mouse_light, light_intensity as int,
            car_intensity as int, mouse_intensity as int, width as int, height as int),
    ensures
        grid_matches(r@, lights@, vehicles@, mouse_light, light_intensity as int,
            car_intensity as int, mouse_intensity as int, width as int, height as int),
{
    proof {
        lemma_div_le(width as int, MAX_DIM as int, TILE as int);
    }
    let cols: usize = (width / TILE) as usize + 1;
    let mut grid: Vec<Vec<Cell>> = Vec::new();
    let mut i: usize = 0;
    while i < cols
        invariant
            sampler_inputs_ok(lights@, vehicles@, mouse_light, light_intensity as int,
                car_intensity as int, mouse_intensity as int, width as int, height as int),
            cols == width as int / (TILE as int) + 1,
            0 <= i <= cols,
            grid@.len() == i,
            forall|t: int| 0 <= t < i ==> column_matches((#[trigger] grid@[t])@, t, lights@,
                vehicles@, mouse_light, light_intensity as int, car_intensity as int,
                mouse_intensity as int, width as int, height as int),
        decreases cols - i,
    {
        let col = field_column(i, lights, vehicles, mouse_light, light_intensity,
            car_intensity, mouse_intensity, width, height);
        grid.push(col);
        i += 1;
    }
    grid
}

/// Relies on rayon: an indexed parallel iterator's `map` applies the closure
/// to every index, and `collect` keeps the input order, so element `i` of
/// the result is exactly `field_column(i, ..)` — a verified function whose
/// contract pins the column. The closure calls nothing else.
#[verifier::external_body]
fn par_columns(cols: usize, lights: &Vec<Vec2I>, vehicles: &Vec<Vehicle>, mouse_light: Vec2I,
    light_intensity: i64, car_intensity: i64, mouse_intensity: i64, width: i64, height: i64)
    -> (r: Vec<Vec<Cell>>)
    requires
        sampler_inputs_ok(lights@, vehicles@, mouse_light, light_intensity as int,
            car_intensity as int, mouse_intensity as int, width as int, height as int),
        cols as int == width as int / (TILE as int) + 1,
    ensures
        r@.len() == cols,
        forall|i: int| 0 <= i < cols ==> column_matches((#[trigger] r@[i])@, i, lights@,
            vehicles@, mouse_light, light_intensity as int, car_intensity as int,
            mouse_intensity as int, width as int, height as int),
{
    (0..cols).into_par_iter().map(|i| field_column(i, lights, vehicles, mouse_light,
        light_intensity, car_intensity, mouse_intensity, width, height)).collect()
}

/// The whole grid, sampled with one rayon worker per column. The result is
/// the same grid `sample_field` produces: both satisfy `grid_matches`, which
/// pins every cell.
pub fn sample_field_par(lights: &Vec<Vec2I>, vehicles: &Vec<Vehicle>, mouse_light: Vec2I,
    light_intensity: i64, car_intensity: i64, mouse_intensity: i64, width: i64, height: i64)
    -> (r: Vec<Vec<Cell>>)
    requires
        sampler_inputs_ok(lights@, vehicles@, mouse_light, light_intensity as int,
            car_intensity as int, mouse_intensity as int, width as int, height as int),
    ensures
        grid_matches(r@, lights@, vehicles@, mouse_light, light_intensity as int,
            car_intensity as int, mouse_intensity as int, width as int, height as int),
{
    proof {
        lemma_div_le(width as int, MAX_DIM as int, TILE as int);
    }
    let cols: usize = (width / TILE) as usize + 1;
    par_columns(cols, lights, vehicles, mouse_light, light_intensity, car_intensity,
        mouse_intensity, width, height)
}

/// Sampling is deterministic and order-independent: any two grids that meet
/// the sampler's contract — however their columns were scheduled — agree
/// cell for cell.
pub proof fn lemma_field_order_independent(a: Seq<Vec<Cell>>, b: Seq<Vec<Cell>>,
    lights: Seq<Vec2I>, vs: Seq<Vehicle>, mouse: Vec2I, li: int, ci: int, mi: int,
    width: int, height: int)
    requires
        grid_matches(a, lights, vs, mouse, li, ci, mi, width, height),
        grid_matches(b, lights, vs, mouse, li, ci, mi, width, height),
    ensures
        a.len() == b.len(),
        forall|i: int| 0 <= i < a.len() ==> (#[trigger] a[i])@.len() == b[i]@.len(),
        forall|i: int, k: int| 0 <= i < a.len() && 0 <= k < a[i]@.len()
            ==> (#[trigger] a[i]@[k]) == b[i]@[k],
{
    assert forall|i: int, k: int| 0 <= i < a.len() && 0 <= k < a[i]@.len()
        implies (#[trigger] a[i]@[k]) == b[i]@[k] by {
        assert(column_matches(a[i]@, i, lights, vs, mouse, li, ci, mi, width, height));
        assert(column_matches(b[i]@, i, lights, vs, mouse, li, ci, mi, width, height));
        assert(cell_matches(a[i]@[k], i, k - 1, lights, vs, mouse, li, ci, mi, width,
            height));
        assert(cell_matches(b[i]@[k], i, k - 1, lights, vs, mouse, li, ci, mi, width,
            height));
    }
}

} // verus!
