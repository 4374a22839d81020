//! Tank tests: silhouette collision, aiming geometry, dropping and damage.

use scorched_earth::landscape::Landscape;
use scorched_earth::tank::Tank;
use scorched_earth::tank::TankState;
use scorched_earth::types::Point2;

fn tank_at(x_px: i64, y_px: i64) -> Tank {
    Tank::new(1, Point2::new(x_px * 1000, y_px * 1000), 0)
}

#[test]
fn test_has_collision() {
    let mut tank = tank_at(10, 20);

    let inner_points = [
        (20, 27), // body center
        (4, 32),  // body left
        (37, 32), // body right
        (20, 40), // body bottom
        (20, 18), // body top
        (20, 2),  // gun top
        (20, 13), // gun middle
    ];
    for point in inner_points.iter() {
        assert!(
            tank.has_collision(Point2::new((10 + point.0) * 1000, (20 + point.1) * 1000)),
            "point=({}, {})",
            point.0,
            point.1
        );
    }

    // Rotated gun
    tank.angle = 60_000;
    let inner_points = [
        (34, 11), // gun top
        (24, 18), // gun middle
    ];
    for point in inner_points.iter() {
        assert!(
            tank.has_collision(Point2::new((10 + point.0) * 1000, (20 + point.1) * 1000)),
            "point=({}, {})",
            point.0,
            point.1
        );
    }

    tank.angle = -45_000;
    let inner_points = [
        (8, 8),   // gun top
        (15, 15), // gun middle
    ];
    for point in inner_points.iter() {
        assert!(
            tank.has_collision(Point2::new((10 + point.0) * 1000, (20 + point.1) * 1000)),
            "point=({}, {})",
            point.0,
            point.1
        );
    }
}

#[test]
fn has_collision_misses_outside_points() {
    let tank = tank_at(10, 20);
    let outer = [(-5, -5), (0, 0), (45, 45), (20, 55), (45, 2)];
    for point in outer.iter() {
        assert!(
            !tank.has_collision(Point2::new((10 + point.0) * 1000, (20 + point.1) * 1000)),
            "point=({}, {})",
            point.0,
            point.1
        );
    }
}

#[test]
fn gun_barrel_follows_angle() {
    let mut tank = tank_at(100, 100);
    // straight up: center + (0, -21)
    let p = tank.gun_barrel_pos();
    assert_eq!(p.x, 120_500);
    assert_eq!(p.y, 120_500 - 21_000);
    // right angle: center + (21, 0)
    tank.angle = 90_000;
    let p = tank.gun_barrel_pos();
    assert_eq!(p.x, 120_500 + 21_000);
    assert_eq!(p.y, 120_500);
    // 30 degrees: the rational sine is exact there (sin = 1/2)
    tank.angle = 30_000;
    let p = tank.gun_barrel_pos();
    assert_eq!(p.x, 120_500 + 21 * 500);
}

#[test]
fn damage_saturates_at_zero() {
    let mut tank = tank_at(0, 0);
    assert_eq!(tank.health, 100);
    tank.damage(30);
    assert_eq!(tank.health, 70);
    tank.damage(200);
    assert_eq!(tank.health, 0);
    tank.damage(5);
    assert_eq!(tank.health, 0);
}

#[test]
fn tank_drops_onto_flat_ground() {
    let mut l = Landscape::new(100, 100).unwrap();
    let offsets: Vec<i64> = vec![0; 100];
    l.generate(&offsets);
    // terrain surface at row 50; tank starts with its top at row 2
    let mut tank = Tank::new(1, Point2::new(30_000, 2_000), 0);
    let mut t: u64 = 0;
    let mut placed: Option<i64> = None;
    for _ in 0..2000 {
        t += 20;
        match tank.update(&mut l, t) {
            TankState::Placed(d) => {
                placed = Some(d);
                break;
            },
            TankState::Dropped => {},
        }
    }
    let dropped = placed.expect("the tank must land in finite time");
    assert!(dropped > 0);
    // it rests on the surface: the row under its bottom edge is ground
    let bottom_px = (tank.rect.y + tank.rect.h) / 1000;
    assert!(bottom_px <= 51, "bottom at {}", bottom_px);
    assert!(l.is_not_empty(31, bottom_px as i32));
}

#[test]
fn tank_falls_off_the_bottom_without_ground() {
    let mut l = Landscape::new(50, 60).unwrap();
    // leave the grid fully empty: the tank must fall through and stop at
    // the bottom edge
    let mut tank = Tank::new(2, Point2::new(5_000, 1_000), 0);
    let mut t: u64 = 0;
    let mut placed = false;
    for _ in 0..2000 {
        t += 20;
        if let TankState::Placed(_) = tank.update(&mut l, t) {
            placed = true;
            break;
        }
    }
    assert!(placed);
}
