//! Explosion tests: growth and fade timing, terrain carving, and the
//! area-overlap percentage used for blast damage.

use scorched_earth::explosion::Explosion;
use scorched_earth::tank::Tank;
use scorched_earth::geometry::Rect;
use scorched_earth::landscape::Landscape;
use scorched_earth::types::Point2;

fn full_ground(width: u16, height: u16) -> Landscape {
    let mut l = Landscape::new(width, height).unwrap();
    let offsets: Vec<i64> = vec![-1_000_000; width as usize];
    l.generate(&offsets);
    l
}

#[test]
fn explosion_grows_then_fades() {
    let mut l = full_ground(10, 10);
    // radius 15 px grows at 150 px/s: full size after 100 ms, gone after 200
    let mut e = Explosion::new(Point2::new(-900_000, -900_000), 15_000, 0);
    assert!(e.is_life());
    assert!(!e.update(&mut l, 40));
    assert_eq!(e.cur_radius, 6_000);
    assert_eq!(e.cur_opacity, 1000);
    assert!(!e.update(&mut l, 150));
    assert_eq!(e.cur_radius, 15_000);
    assert_eq!(e.cur_opacity, 500);
    assert!(e.update(&mut l, 200));
    assert_eq!(e.cur_opacity, 0);
    assert!(!e.is_life());
    // a finished explosion stays finished
    assert!(e.update(&mut l, 300));
}

#[test]
fn explosion_carves_a_disk_once() {
    let mut l = full_ground(200, 200);
    let mut e = Explosion::new(Point2::new(100_000, 100_000), 50_000, 0);
    assert!(l.is_not_empty(100, 100));
    // before the growth completes nothing is carved
    e.update(&mut l, 100);
    assert!(l.is_not_empty(100, 100));
    // one update past the full radius carves the disk
    e.update(&mut l, 400);
    assert!(!l.is_not_empty(100, 100), "the blast center must be cleared");
    assert!(!l.is_not_empty(140, 100), "inside the radius must be cleared");
    assert!(l.is_not_empty(100, 160), "below the disk must stay ground");
    assert!(l.is_not_empty(5, 5), "far corners must stay ground");
    assert!(l.changed());
}

#[test]
fn overlap_is_full_for_a_rectangle_inside_the_circle() {
    let e = Explosion::new(Point2::new(120_500, 120_500), 50_000, 0);
    // the tank-sized rectangle centered on the blast lies fully inside
    let rect = Rect::new(100_000, 100_000, 41_000, 41_000);
    assert_eq!(e.get_intersection_percents(rect), 100);
}

#[test]
fn overlap_is_zero_for_a_disjoint_rectangle() {
    let e = Explosion::new(Point2::new(120_500, 120_500), 50_000, 0);
    let rect = Rect::new(300_000, 100_000, 41_000, 41_000);
    assert_eq!(e.get_intersection_percents(rect), 0);
    // and zero for an empty rectangle wherever it lies
    let degenerate = Rect::new(120_000, 120_000, 0, 41_000);
    assert_eq!(e.get_intersection_percents(degenerate), 0);
}

#[test]
fn overlap_is_forty_percent_at_the_reference_offset() {
    // the blast center sits 52.5 px right of the tank center
    let e = Explosion::new(Point2::new(120_500 + 52_500, 120_500), 50_000, 0);
    let rect = Rect::new(100_000, 100_000, 41_000, 41_000);
    assert_eq!(e.get_intersection_percents(rect), 40);
}

#[test]
fn overlap_never_increases_when_moving_away() {
    let e = Explosion::new(Point2::new(0, 0), 50_000, 0);
    let mut last: u8 = 100;
    for step in 0..12 {
        let rect = Rect::new(10_000 + step * 12_000, -20_500, 41_000, 41_000);
        let p = e.get_intersection_percents(rect);
        assert!(p <= last, "overlap grew from {} to {} at step {}", last, p, step);
        last = p;
    }
    assert_eq!(last, 0);
}

#[test]
fn carving_stays_within_the_blast_square() {
    let mut l = full_ground(200, 200);
    let mut e = Explosion::new(Point2::new(100_000, 100_000), 50_000, 0);
    e.update(&mut l, 400);
    // the carve radius is one pixel under the blast radius: nothing outside
    // the surrounding square may change
    for d in 0..200 {
        assert!(l.is_not_empty(d, 49), "row above the square at x={}", d);
        assert!(l.is_not_empty(d, 151), "row below the square at x={}", d);
        assert!(l.is_not_empty(49, d), "column left of the square at y={}", d);
        assert!(l.is_not_empty(151, d), "column right of the square at y={}", d);
    }
}

#[test]
fn overlap_rounds_to_the_nearest_percent() {
    // a thin one-milli-pixel-high sliver whose share is exactly 12.5
    // percent: it must round up, not truncate down
    let e = Explosion::new(Point2::new(0, 0), 1_000, 0);
    let sliver = Rect::new(-3, 999, 8, 1);
    assert_eq!(e.get_intersection_percents(sliver), 13);
}

#[test]
fn blast_damage_applies_to_tank_health() {
    // two tanks with full health; one takes a 40 percent blast, the other
    // is out of reach: they end at 60 and 100.
    let mut near = Tank::new(1, Point2::new(100_000, 100_000), 0);
    let mut far = Tank::new(2, Point2::new(500_000, 100_000), 0);
    let e = Explosion::new(Point2::new(120_500 + 52_500, 120_500), 50_000, 0);
    let p_near = e.get_intersection_percents(near.rect);
    let p_far = e.get_intersection_percents(far.rect);
    assert_eq!(p_near, 40);
    assert_eq!(p_far, 0);
    near.damage(p_near);
    far.damage(p_far);
    assert_eq!(near.health, 60);
    assert_eq!(far.health, 100);
}
