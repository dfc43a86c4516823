use lightfield::dynamics::advance;
use lightfield::sim::SimState;
use lightfield::vehicle::Vehicle;
use lightfield::Vec2I;

fn still_vehicle(x: i64, y: i64) -> Vehicle {
    let mut v = Vehicle::new();
    v.position = Vec2I { x, y };
    v
}

#[test]
fn zero_intensity_light_contributes_nothing() {
    let mut v = Vehicle::new();
    let light = Vec2I { x: 100_000, y: 0 };
    v.adjust(&light, 0);
    assert_eq!(v.velocity.x, 0);
    assert_eq!(v.velocity.y, 0);
    assert_eq!(v.position.x, 0);
    assert_eq!(v.position.y, 0);
}

#[test]
fn zero_intensity_everywhere_leaves_agents_at_rest() {
    let vehicles = vec![still_vehicle(0, 0), still_vehicle(50_000, 0)];
    let lights = vec![Vec2I { x: 10_000, y: 10_000 }];
    let out = advance(&vehicles, Vec2I { x: 0, y: 0 }, &lights, 0, 0, 0, 17, 800_000,
        600_000);
    assert_eq!(out.len(), 2);
    for v in &out {
        assert_eq!(v.velocity.x, 0);
        assert_eq!(v.velocity.y, 0);
    }
    assert_eq!(out[0].position.x, 0);
    assert_eq!(out[1].position.x, 50_000);
}

#[test]
fn speed_clamp_is_never_exceeded() {
    // A maximal-intensity mouse light right next to the agent.
    let vehicles = vec![still_vehicle(0, 0)];
    let lights: Vec<Vec2I> = Vec::new();
    let out = advance(&vehicles, Vec2I { x: 2_000, y: 1_000 }, &lights, 5_000_000, 0, 0, 17,
        800_000, 600_000);
    assert_eq!(out.len(), 1);
    let vx = out[0].velocity.x as i128;
    let vy = out[0].velocity.y as i128;
    assert!(vx * vx + vy * vy <= 200_000i128 * 200_000i128);
}

#[test]
fn clamp_rescales_onto_the_cap_exactly() {
    let mut v = Vehicle::new();
    v.velocity = Vec2I { x: 300_000, y: 400_000 };
    v.clamp_speed();
    assert_eq!(v.velocity.x, 120_000);
    assert_eq!(v.velocity.y, 160_000);
    let mut w = Vehicle::new();
    w.velocity = Vec2I { x: 150_000, y: 0 };
    w.clamp_speed();
    assert_eq!(w.velocity.x, 150_000);
    assert_eq!(w.velocity.y, 0);
}

#[test]
fn repelled_agent_moves_away_from_light() {
    // One agent at the origin, one light at (100, 0) units with intensity
    // 30: after one step the velocity points along negative x with
    // magnitude 3 units/s, well under the 200 units/s cap.
    let vehicles = vec![still_vehicle(0, 0)];
    let lights = vec![Vec2I { x: 100_000, y: 0 }];
    let out = advance(&vehicles, Vec2I { x: 300_000, y: 200_000 }, &lights, 0, 30_000, 0, 17,
        800_000, 600_000);
    assert_eq!(out.len(), 1);
    assert_eq!(out[0].velocity.x, -3_000);
    assert_eq!(out[0].velocity.y, 0);
    assert!(out[0].velocity.x < 0);
    let vx = out[0].velocity.x as i128;
    let vy = out[0].velocity.y as i128;
    assert!(vx * vx + vy * vy <= 200_000i128 * 200_000i128);
}

#[test]
fn out_of_viewport_agent_is_removed() {
    // Agent at (1000, 0) units with a viewport 800 units wide.
    let vehicles = vec![still_vehicle(1_000_000, 0)];
    let lights: Vec<Vec2I> = Vec::new();
    let out = advance(&vehicles, Vec2I { x: 0, y: 100 }, &lights, 0, 0, 0, 17, 800_000,
        600_000);
    assert_eq!(out.len(), 0);
}

#[test]
fn coinciding_agents_exert_no_pull_on_each_other() {
    let vehicles = vec![still_vehicle(0, 0), still_vehicle(0, 0)];
    let lights: Vec<Vec2I> = Vec::new();
    let out = advance(&vehicles, Vec2I { x: 400_000, y: 300_000 }, &lights, 0, 0, 10_000, 17,
        800_000, 600_000);
    assert_eq!(out.len(), 2);
    assert_eq!(out[0].velocity.x, 0);
    assert_eq!(out[0].velocity.y, 0);
}

#[test]
fn integration_moves_position_by_velocity_times_dt() {
    let mut v = Vehicle::new();
    v.position = Vec2I { x: 10, y: 20 };
    v.velocity = Vec2I { x: 1_000, y: -2_000 };
    v.update(500);
    assert_eq!(v.position.x, 510);
    assert_eq!(v.position.y, -980);
    assert_eq!(v.velocity.x, 1_000);
    assert_eq!(v.velocity.y, -2_000);
}

#[test]
fn initial_state_has_one_agent_and_scattered_lights() {
    let s = SimState::new(800_000, 600_000);
    assert_eq!(s.vehicles.len(), 1);
    assert_eq!(s.vehicles[0].position.x, 0);
    assert_eq!(s.vehicles[0].position.y, 0);
    assert_eq!(s.lights.len(), 100);
    for l in &s.lights {
        assert!(-400_000 <= l.x && l.x < 400_000);
        assert!(-300_000 <= l.y && l.y < 300_000);
    }
    assert_eq!(s.light_intensity, 30_000);
    assert_eq!(s.mouse_intensity, 1_000_000);
    assert_eq!(s.car_intensity, 10_000);
}

#[test]
fn resize_scales_light_count_with_area() {
    let mut s = SimState::new(800_000, 600_000);
    s.resized(800_000, 600_000);
    let full = s.lights.len();
    assert_eq!(full, 120);
    s.resized(400_000, 300_000);
    assert_eq!(s.lights.len(), 30);
    assert_eq!(s.lights.len(), full / 4);
    for l in &s.lights {
        assert!(-200_000 <= l.x && l.x < 200_000);
        assert!(-150_000 <= l.y && l.y < 150_000);
    }
}

#[test]
fn remove_then_query_within_radius_is_empty() {
    let mut s = SimState::new(800_000, 600_000);
    s.lights = vec![
        Vec2I { x: 10_000, y: 0 },
        Vec2I { x: 0, y: 49_000 },
        Vec2I { x: 50_000, y: 0 },
        Vec2I { x: 60_000, y: 0 },
        Vec2I { x: -200_000, y: 100_000 },
    ];
    let p = Vec2I { x: 0, y: 0 };
    s.remove_lights_near(p, 50_000);
    let found = s.lights_within(p, 50_000);
    assert_eq!(found.len(), 0);
    // The two distant lights survive, in order.
    assert_eq!(s.lights.len(), 2);
    assert_eq!(s.lights[0].x, 60_000);
    assert_eq!(s.lights[1].x, -200_000);
}

#[test]
fn boundary_light_counts_as_within_radius() {
    let mut s = SimState::new(800_000, 600_000);
    s.lights = vec![Vec2I { x: 50_000, y: 0 }];
    let p = Vec2I { x: 0, y: 0 };
    let found = s.lights_within(p, 50_000);
    assert_eq!(found.len(), 1);
    s.remove_lights_near(p, 50_000);
    assert_eq!(s.lights.len(), 0);
}

#[test]
fn placed_light_lands_near_the_pointer() {
    let mut s = SimState::new(800_000, 600_000);
    let before = s.lights.len();
    let p = Vec2I { x: 123_000, y: -45_000 };
    s.place_light_near(p);
    assert_eq!(s.lights.len(), before + 1);
    let l = s.lights[s.lights.len() - 1];
    assert!(p.x - 10_000 <= l.x && l.x < p.x + 10_000);
    assert!(p.y - 10_000 <= l.y && l.y < p.y + 10_000);
}

#[test]
fn spawn_reset_and_mouse_actions() {
    let mut s = SimState::new(800_000, 600_000);
    s.spawn_vehicle();
    s.spawn_vehicle();
    assert_eq!(s.vehicles.len(), 3);
    s.set_mouse(Some(Vec2I { x: 7_000, y: 8_000 }));
    assert_eq!(s.mouse_light.x, 7_000);
    assert_eq!(s.mouse_light.y, 8_000);
    s.set_mouse(None);
    assert_eq!(s.mouse_light.x, 7_000);
    s.reset_vehicles();
    assert_eq!(s.vehicles.len(), 1);
    assert_eq!(s.vehicles[0].position.x, 0);
}

#[test]
fn step_keeps_every_agent_under_the_speed_cap() {
    let mut s = SimState::new(800_000, 600_000);
    s.spawn_vehicle();
    s.mouse_intensity = 5_000_000;
    s.set_mouse(Some(Vec2I { x: 1_000, y: 0 }));
    for _ in 0..10 {
        s.step(17);
        for v in &s.vehicles {
            let vx = v.velocity.x as i128;
            let vy = v.velocity.y as i128;
            assert!(vx * vx + vy * vy <= 200_000i128 * 200_000i128);
        }
    }
}
