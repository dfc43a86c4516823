use lightfield::field::{sample_field, sample_field_par, field_column};
use lightfield::vehicle::Vehicle;
use lightfield::Vec2I;

fn vehicle_at(x: i64, y: i64) -> Vehicle {
    let mut v = Vehicle::new();
    v.position = Vec2I { x, y };
    v
}

#[test]
fn grid_covers_viewport_with_one_row_overscan() {
    let lights: Vec<Vec2I> = Vec::new();
    let vehicles: Vec<Vehicle> = Vec::new();
    let g = sample_field(&lights, &vehicles, Vec2I { x: 0, y: 0 }, 0, 0, 0, 64_000, 48_000);
    // Columns 0..=width/tile, rows -1..=height/tile.
    assert_eq!(g.len(), 5);
    for col in &g {
        assert_eq!(col.len(), 5);
    }
    // First cell of column 0 is the overscan row j = -1.
    assert_eq!(g[0][0].x, 10_000 - 32_000);
    assert_eq!(g[0][0].y, -16_000 + 16_000 - 24_000);
}

#[test]
fn single_light_cell_color_is_exact() {
    // Light of intensity 30 units at the origin; the cell centered at
    // (10, 0) units sits 10 units away, so red = 30 * 3 / 10^2 = 0.9,
    // which is 900 in milliunits. Nothing feeds the blue channel.
    let lights = vec![Vec2I { x: 0, y: 0 }];
    let vehicles: Vec<Vehicle> = Vec::new();
    let g = sample_field(&lights, &vehicles, Vec2I { x: 0, y: 0 }, 30_000, 0, 0, 32_000,
        32_000);
    let cell = g[1][1];
    assert_eq!(cell.x, 10_000);
    assert_eq!(cell.y, 0);
    assert_eq!(cell.red, 900);
    assert_eq!(cell.green, 0);
    assert_eq!(cell.blue, 0);
}

#[test]
fn agents_and_mouse_feed_the_blue_channel() {
    let lights: Vec<Vec2I> = Vec::new();
    let vehicles = vec![vehicle_at(0, 0)];
    let g = sample_field(&lights, &vehicles, Vec2I { x: 0, y: 0 }, 0, 10_000, 20_000,
        32_000, 32_000);
    let cell = g[1][1];
    // Agent: 10 * 3 / 100 = 0.3; mouse: 20 * 3 / 100 = 0.6; total 0.9.
    assert_eq!(cell.blue, 300 + 600);
    assert_eq!(cell.red, 0);
}

#[test]
fn minimum_distance_floor_caps_the_glow() {
    // A light exactly on a cell center: the floor makes it act one unit
    // away instead of dividing by zero.
    let lights = vec![Vec2I { x: 10_000, y: 0 }];
    let vehicles: Vec<Vehicle> = Vec::new();
    let g = sample_field(&lights, &vehicles, Vec2I { x: 0, y: 0 }, 30_000, 0, 0, 32_000,
        32_000);
    let cell = g[1][1];
    assert_eq!(cell.x, 10_000);
    // 30 * 3 / 1^2 = 90 units, 90_000 milli.
    assert_eq!(cell.red, 90_000);
}

#[test]
fn parallel_and_sequential_sampling_agree_cell_for_cell() {
    let lights = vec![
        Vec2I { x: 0, y: 0 },
        Vec2I { x: 50_000, y: -30_000 },
        Vec2I { x: -120_000, y: 80_000 },
    ];
    let vehicles = vec![vehicle_at(10_000, 10_000), vehicle_at(-40_000, 25_000)];
    let mouse = Vec2I { x: 5_000, y: -5_000 };
    let a = sample_field(&lights, &vehicles, mouse, 30_000, 10_000, 1_000_000, 320_000,
        240_000);
    let b = sample_field_par(&lights, &vehicles, mouse, 30_000, 10_000, 1_000_000, 320_000,
        240_000);
    assert_eq!(a.len(), b.len());
    for (ca, cb) in a.iter().zip(b.iter()) {
        assert_eq!(ca.len(), cb.len());
        for (x, y) in ca.iter().zip(cb.iter()) {
            assert_eq!(x, y);
        }
    }
}

#[test]
fn one_column_matches_the_grid_slice() {
    let lights = vec![Vec2I { x: 20_000, y: 20_000 }];
    let vehicles = vec![vehicle_at(-10_000, 0)];
    let mouse = Vec2I { x: 0, y: 0 };
    let g = sample_field(&lights, &vehicles, mouse, 30_000, 10_000, 1_000_000, 64_000,
        48_000);
    let col = field_column(2, &lights, &vehicles, mouse, 30_000, 10_000, 1_000_000, 64_000,
        48_000);
    assert_eq!(g[2].len(), col.len());
    for (x, y) in g[2].iter().zip(col.iter()) {
        assert_eq!(x, y);
    }
}

#[test]
fn green_channel_is_always_zero() {
    let lights = vec![Vec2I { x: 1_000, y: 2_000 }];
    let vehicles = vec![vehicle_at(3_000, -4_000)];
    let g = sample_field(&lights, &vehicles, Vec2I { x: 0, y: 0 }, 30_000, 10_000,
        1_000_000, 64_000, 48_000);
    for col in &g {
        for cell in col {
            assert_eq!(cell.green, 0);
        }
    }
}
