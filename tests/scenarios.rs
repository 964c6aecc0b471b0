use radar::geometry::Vec2;
use radar::radar::{
    bearing_window, scan, tick, BeamEdges, Noise, Radar, ScanResult, Ship, FULL_TURN,
};
use rand::rngs::StdRng;
use rand::{Rng, SeedableRng};
use std::f64::consts::TAU;

/// 0.01 radians in millidegrees.
const EPSILON: i32 = 573;

fn radar_config() -> Radar {
    Radar {
        heading: 0,
        width: 60_000,
        power: 4_000_000_000,
        rx_cross_section: 10_000,
        min_rssi: 10,
        classify_rssi: 1000,
        result: None,
    }
}

fn fighter(x: i64, y: i64, heading: i32, team: i32) -> Ship {
    Ship {
        position: Vec2::new(x, y),
        velocity: Vec2::new(0, 0),
        heading,
        team,
        class: 1,
        radar_cross_section: 10_000,
        radar: Some(radar_config()),
    }
}

fn target(x: i64, y: i64, team: i32) -> Ship {
    Ship {
        position: Vec2::new(x, y),
        velocity: Vec2::new(0, 0),
        heading: 0,
        team,
        class: 7,
        radar_cross_section: 10_000,
        radar: None,
    }
}

fn ray(millidegrees: i64) -> Vec2 {
    let a = (millidegrees as f64) / 1000.0 * TAU / 360.0;
    Vec2::new((a.cos() * 1e6).round() as i64, (a.sin() * 1e6).round() as i64)
}

fn step(ships: &mut Vec<Ship>) {
    let edges: Vec<BeamEdges> = ships
        .iter()
        .map(|s| match &s.radar {
            Some(r) => {
                let (a, b) = bearing_window(s.heading, r);
                BeamEdges { start: ray(a), end: ray(b) }
            }
            None => BeamEdges { start: Vec2::new(1, 0), end: Vec2::new(1, 0) },
        })
        .collect();
    let noise = vec![Noise { position: Vec2::new(300, -200), velocity: Vec2::new(-100, 50) }; ships.len()];
    tick(ships, &edges, &noise);
}

fn detected(ships: &Vec<Ship>) -> bool {
    scan(ships, 0).is_some()
}

fn radar_mut(ships: &mut Vec<Ship>) -> &mut Radar {
    ships[0].radar.as_mut().unwrap()
}

#[test]
fn test_basic() {
    let mut ships = vec![fighter(0, 0, 0, 0), target(1000, 0, 1)];
    step(&mut ships);
    assert_eq!(detected(&ships), true);

    radar_mut(&mut ships).heading = 0;
    radar_mut(&mut ships).width = FULL_TURN / 6;
    step(&mut ships);
    assert_eq!(detected(&ships), true);

    // Just outside of sector (clockwise).
    radar_mut(&mut ships).heading = FULL_TURN as i32 / 12 + EPSILON;
    step(&mut ships);
    assert_eq!(detected(&ships), false);

    // Just inside of sector (clockwise).
    radar_mut(&mut ships).heading -= 2 * EPSILON;
    step(&mut ships);
    assert_eq!(detected(&ships), true);

    // Just outside of sector (counter-clockwise).
    radar_mut(&mut ships).heading = -(FULL_TURN as i32) / 12 - EPSILON;
    step(&mut ships);
    assert_eq!(detected(&ships), false);

    // Just inside of sector (counter-clockwise).
    radar_mut(&mut ships).heading += 2 * EPSILON;
    step(&mut ships);
    assert_eq!(detected(&ships), true);

    // Out of range.
    radar_mut(&mut ships).heading = 0;
    ships[1].position = Vec2::new(1_000_000, 0);
    step(&mut ships);
    assert_eq!(detected(&ships), false);
}

#[test]
fn test_180_degrees() {
    let mut ships = vec![fighter(0, 0, 0, 0), target(1000, 0, 1)];
    step(&mut ships);
    assert_eq!(detected(&ships), true);

    radar_mut(&mut ships).heading = 0;
    radar_mut(&mut ships).width = FULL_TURN / 2;
    step(&mut ships);
    assert_eq!(detected(&ships), true);

    // North, just east of the edge.
    ships[1].position = Vec2::new(1, 100_000);
    step(&mut ships);
    assert_eq!(detected(&ships), true);

    // North, just west of the edge.
    ships[1].position = Vec2::new(-1, 100_000);
    step(&mut ships);
    assert_eq!(detected(&ships), false);

    // South, just east of the edge.
    ships[1].position = Vec2::new(1, -100_000);
    step(&mut ships);
    assert_eq!(detected(&ships), true);

    // South, just west of the edge.
    ships[1].position = Vec2::new(-1, -100_000);
    step(&mut ships);
    assert_eq!(detected(&ships), false);

    // West.
    ships[1].position = Vec2::new(-1000, 0);
    step(&mut ships);
    assert_eq!(detected(&ships), false);
}

#[test]
fn test_270_degrees() {
    let mut ships = vec![fighter(0, 0, 0, 0), target(1000, 0, 1)];
    step(&mut ships);
    assert_eq!(detected(&ships), true);

    radar_mut(&mut ships).heading = 0;
    radar_mut(&mut ships).width = FULL_TURN * 3 / 4;
    step(&mut ships);
    assert_eq!(detected(&ships), true);

    ships[1].position = Vec2::new(0, 1000);
    step(&mut ships);
    assert_eq!(detected(&ships), true);

    ships[1].position = Vec2::new(0, -1000);
    step(&mut ships);
    assert_eq!(detected(&ships), true);

    ships[1].position = Vec2::new(-1000, 100);
    step(&mut ships);
    assert_eq!(detected(&ships), false);
}

#[test]
fn test_360_degrees() {
    let mut ships = vec![fighter(0, 0, 0, 0), target(1000, 0, 1)];
    step(&mut ships);
    assert_eq!(detected(&ships), true);

    radar_mut(&mut ships).heading = 0;
    radar_mut(&mut ships).width = FULL_TURN;
    step(&mut ships);
    assert_eq!(detected(&ships), true);

    ships[1].position = Vec2::new(0, 1000);
    step(&mut ships);
    assert_eq!(detected(&ships), true);

    ships[1].position = Vec2::new(0, -1000);
    step(&mut ships);
    assert_eq!(detected(&ships), true);

    ships[1].position = Vec2::new(-1000, 100);
    step(&mut ships);
    assert_eq!(detected(&ships), true);
}

#[test]
fn test_random() {
    let mut rng = StdRng::seed_from_u64(1);
    for _ in 0..1000 {
        let p0 = (rng.gen_range(-100..100i64), rng.gen_range(-100..100i64));
        let mut p1 = (rng.gen_range(-100..100i64), rng.gen_range(-100..100i64));
        while p1 == p0 {
            p1 = (rng.gen_range(-100..100i64), rng.gen_range(-100..100i64));
        }
        let h: i32 = rng.gen_range(0..FULL_TURN as i32);
        let w: u32 = rng.gen_range(0..FULL_TURN);
        let mut ships = vec![fighter(p0.0, p0.1, h, 0), target(p1.0, p1.1, 1)];
        radar_mut(&mut ships).width = w;
        step(&mut ships);

        let center = h as f64 / 1000.0 * TAU / 360.0;
        let dx = (p1.0 - p0.0) as f64;
        let dy = (p1.1 - p0.1) as f64;
        let mut diff = dy.atan2(dx) - center;
        while diff > TAU / 2.0 {
            diff -= TAU;
        }
        while diff < -TAU / 2.0 {
            diff += TAU;
        }
        let half = (w as f64) / 1000.0 * TAU / 360.0 * 0.5;
        let expected = diff.abs() < half;
        let got = detected(&ships);
        assert_eq!(got, expected, "p0={:?} p1={:?} h={} w={} expected={} got={}", p0, p1, h, w, expected, got);
    }
}
