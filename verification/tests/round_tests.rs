//! Round tests: construction, the aiming inputs, the projectile scenario
//! of the flat 100 by 100 field, and a full cycle of the state machine.

use scorched_earth::landscape::Landscape;
use scorched_earth::missile::Missile;
use scorched_earth::round::GameState;
use scorched_earth::round::Round;
use scorched_earth::round::fall_damage;
use scorched_earth::tank::Tank;
use scorched_earth::types::Point2;
use scorched_earth::types::Vector2;

fn flat(width: u16, height: u16) -> Landscape {
    let mut l = Landscape::new(width, height).unwrap();
    let offsets: Vec<i64> = vec![0; width as usize];
    l.generate(&offsets);
    l
}

fn fire_straight_down(l: &Landscape, x_px: i64) -> (i64, i64) {
    let tanks: Vec<Tank> = Vec::new();
    let mut m = Missile::new(
        Point2::new(x_px * 1000, 0),
        180_000,
        150_000,
        Vector2::new(0, scorched_earth::G),
        0,
    );
    let (w, h) = l.size();
    let mut t: u64 = 0;
    for _ in 0..3000 {
        t += 20;
        if let Some(pos) = m.update(t, (w as i64, h as i64), l, &tanks) {
            return (pos.x, pos.y);
        }
    }
    panic!("the projectile never hit");
}

#[test]
fn projectile_hits_the_flat_horizon_then_the_bottom() {
    let mut l = flat(100, 100);
    // the flat field has its horizon at exactly row 50
    let hit = fire_straight_down(&l, 50);
    assert_eq!(hit, (50_000, 50_000));
    // carve the columns 45..55 away down to the bottom
    for y in 50..100 {
        l.clear_span(45, y, 10);
    }
    // settling finds nothing left to move
    l.subsidence(0);
    let mut t: u64 = 0;
    let mut finished = false;
    for _ in 0..1000 {
        t += 50;
        if l.update(t) {
            finished = true;
            break;
        }
    }
    assert!(finished);
    for x in 45..55 {
        let mut seen_filled = false;
        for y in 0..100 {
            let filled = l.is_not_empty(x, y);
            assert!(!(seen_filled && !filled), "hole under ground at ({}, {})", x, y);
            seen_filled = seen_filled || filled;
        }
    }
    // with the terrain removed the same shot falls through to the bottom
    let hit = fire_straight_down(&l, 50);
    assert_eq!(hit, (50_000, 100_000));
}

#[test]
fn fall_damage_is_a_tenth_point_per_pixel_capped() {
    assert_eq!(fall_damage(0), 0);
    assert_eq!(fall_damage(4_999), 0);
    assert_eq!(fall_damage(5_000), 1);
    assert_eq!(fall_damage(123_456), 12);
    assert_eq!(fall_damage(2_544_999), 254);
    assert_eq!(fall_damage(2_545_000), 255);
    // far past the cap the damage saturates instead of wrapping
    assert_eq!(fall_damage(2_560_000), 255);
    assert_eq!(fall_damage(1_000_000_000), 255);
}

#[test]
fn new_round_validates_its_arguments() {
    assert!(Round::new(0, 100, 2, 0).is_err());
    assert!(Round::new(100, 0, 2, 0).is_err());
    assert!(Round::new(100, 100, 0, 0).is_err());
    assert!(Round::new(100, 100, 1, 0).is_err());
    assert!(Round::new(100, 100, 2, 0).is_ok());
}

#[test]
fn new_round_deals_players_a_full_hand() {
    let round = Round::new(300, 100, 4, 0).unwrap();
    assert_eq!(round.tanks.len(), 4);
    // every player number 1..=4 appears exactly once, whatever the order
    let mut numbers: Vec<u8> = round.tanks.iter().map(|t| t.player_number).collect();
    numbers.sort();
    assert_eq!(numbers, vec![1, 2, 3, 4]);
    for t in round.tanks.iter() {
        assert_eq!(t.health, 100);
        assert!(!t.dead);
    }
    for p in 1..=4u8 {
        assert_eq!(round.money_of(p), 0);
    }
    // wind is always within ten pixels per second squared
    assert!(round.wind_power.abs() <= 10_000_000);
    // the profile scroll offset is drawn below half the width
    assert!(round.landscape.dx() >= 0 && round.landscape.dx() < 150);
}

#[test]
fn aiming_inputs_are_clamped() {
    let mut round = Round::new(300, 100, 2, 0).unwrap();
    round.inc_gun_angle(50_000);
    assert_eq!(round.gun_angle(), 50_000);
    round.inc_gun_angle(1_000_000);
    assert_eq!(round.gun_angle(), 90_000);
    round.inc_gun_angle(-1_000_000);
    round.inc_gun_angle(-1_000_000);
    assert_eq!(round.gun_angle(), -90_000);
    assert_eq!(round.gun_power(), 40_000);
    round.inc_gun_power(100_000);
    assert_eq!(round.gun_power(), 100_000);
    round.inc_gun_power(-1_000_000);
    assert_eq!(round.gun_power(), 0);
    assert_eq!(round.health(), 100);
    let pn = round.player_number();
    assert!(pn == 1 || pn == 2);
}

#[test]
fn shoot_outside_aiming_is_a_noop() {
    let mut round = Round::new(300, 100, 2, 0).unwrap();
    assert_eq!(round.state, GameState::TanksThrowing);
    round.shoot(5);
    assert_eq!(round.state, GameState::TanksThrowing);
    assert!(round.missile.is_none());
}

#[test]
fn a_full_turn_walks_the_state_machine() {
    let mut round = Round::new(300, 100, 2, 0).unwrap();
    let offsets: Vec<i64> = vec![0; 300];
    round.generate_landscape(&offsets);
    let mut t: u64 = 0;
    // the tanks settle onto the terrain and the round waits for input
    let mut state = round.state;
    for _ in 0..5000 {
        t += 20;
        state = round.update(t);
        if state == GameState::Aiming {
            break;
        }
    }
    assert_eq!(state, GameState::Aiming, "tanks must settle to aiming");
    // no fall damage on the very first placement
    assert_eq!(round.tanks[0].health, 100);
    assert_eq!(round.tanks[1].health, 100);

    round.shoot(t);
    assert_eq!(round.state, GameState::FlyingOfMissile);
    let mut saw_exploding = false;
    let mut saw_subsidence = false;
    for _ in 0..50_000 {
        t += 20;
        state = round.update(t);
        saw_exploding = saw_exploding || state == GameState::Exploding;
        saw_subsidence = saw_subsidence || state == GameState::Subsidence;
        if state == GameState::Aiming || state == GameState::Finish {
            break;
        }
    }
    assert!(saw_exploding, "the shot must end in an explosion");
    assert!(saw_subsidence, "the explosion must be followed by settling");
    assert!(
        state == GameState::Aiming || state == GameState::Finish,
        "the round must come back around, got {:?}",
        state
    );
}
