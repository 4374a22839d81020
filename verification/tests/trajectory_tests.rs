//! Trajectory sampler tests: exact positions, the gap-free cell walk and
//! its composition across calls.

use scorched_earth::ballistics::Ballistics;
use scorched_earth::types::Point2;
use scorched_earth::types::Vector2;

fn assert_no_dup_and_no_skip(cells: &[(i64, i64)], start: (i64, i64)) {
    let mut prev = start;
    for (i, c) in cells.iter().enumerate() {
        assert!(*c != prev, "repeated cell at {}: {:?}", i, c);
        assert!(
            (c.0 - prev.0).abs() <= 1 && (c.1 - prev.1).abs() <= 1,
            "gap at {}: {:?} -> {:?}",
            i,
            prev,
            c
        );
        prev = *c;
    }
}

#[test]
fn position_follows_the_quadratic_form() {
    // p(t) = p0 + (v0 + a*t)*t: one second at v0 = 10 px/s, a = 2 px/s^2
    // gives 10 + 2 = 12 px of travel (not the 11 of exact kinematics).
    let b = Ballistics::new(
        Point2::new(0, 0),
        Vector2::new(10_000_000, 0),
        Vector2::new(2_000_000, 0),
    );
    let p = b.position_at(1_000_000);
    assert_eq!(p.x, 12_000);
    assert_eq!(p.y, 0);
    // the time scale multiplies the internal clock
    let b3 = Ballistics::new(
        Point2::new(0, 0),
        Vector2::new(10_000_000, 0),
        Vector2::new(0, 0),
    ).time_scale(3);
    let p3 = b3.position_at(1_000_000);
    assert_eq!(p3.x, 30_000);
}

#[test]
fn visited_cells_walk_is_gap_free() {
    // a fast diagonal shot with gravity pulling down-right
    let mut b = Ballistics::new(
        Point2::new(500, 500),
        Vector2::new(200_000_000, 50_000_000),
        Vector2::new(1_000_000, 9_806_650),
    ).time_scale(3);
    let start = (0i64, 0i64);
    let cells = b.visited_cells(2_000_000, None);
    assert!(cells.len() > 100, "walked {} cells", cells.len());
    assert_no_dup_and_no_skip(&cells, start);
}

#[test]
fn visited_cells_compose_across_calls() {
    let mk = || {
        Ballistics::new(
            Point2::new(500, 500),
            Vector2::new(120_000_000, 30_000_000),
            Vector2::new(0, 9_806_650),
        ).time_scale(3)
    };
    // walking in nine pieces re-visits no cell and leaves no gap across the
    // piece boundaries, and it ends where the single walk ends
    let mut stepped = mk();
    let mut pieces: Vec<(i64, i64)> = Vec::new();
    for k in 1..=9 {
        let part = stepped.visited_cells(k * 100_000, None);
        pieces.extend(part);
    }
    assert_no_dup_and_no_skip(&pieces, (0, 0));
    let mut whole = mk();
    let all = whole.visited_cells(900_000, None);
    assert_eq!(all.last(), pieces.last(), "both walks end at the cell of the end time");
    assert_eq!(whole.cur_pos(), stepped.cur_pos());
}

#[test]
fn visited_cells_stop_at_the_first_cell_outside_bounds() {
    // straight down from x = 5: leaves a 10-row field through the bottom
    let mut b = Ballistics::new(
        Point2::new(5_500, 500),
        Vector2::new(0, 80_000_000),
        Vector2::new(0, 0),
    );
    let cells = b.visited_cells(1_000_000, Some((10, 10)));
    assert!(!cells.is_empty());
    for c in cells.iter().take(cells.len() - 1) {
        assert!(c.1 < 10, "cell {:?} inside the bounds", c);
    }
    let last = cells[cells.len() - 1];
    assert_eq!(last, (5, 10), "the first outside cell is reported once");
    // the next call resumes from the stop, without repeating the last cell
    let more = b.visited_cells(1_000_000, None);
    assert_no_dup_and_no_skip(&more, last);
}

#[test]
fn zero_velocity_stays_put() {
    let mut b = Ballistics::new(Point2::new(7_499, 3_200), Vector2::new(0, 0), Vector2::new(0, 0));
    let cells = b.visited_cells(5_000_000, None);
    assert!(cells.is_empty());
    let p = b.cur_pos();
    assert_eq!(p.x, 7_499);
    assert_eq!(p.y, 3_200);
}
