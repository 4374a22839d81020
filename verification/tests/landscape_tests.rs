//! Terrain tests: generation, span clearing, queries and gravity settling.

use scorched_earth::landscape::Landscape;

fn flat(width: u16, height: u16) -> Landscape {
    let mut l = Landscape::new(width, height).unwrap();
    let offsets: Vec<i64> = vec![0; width as usize];
    l.generate(&offsets);
    l
}

fn column_fill_count(l: &Landscape, x: i32) -> u32 {
    let (_, h) = l.size();
    let mut n: u32 = 0;
    for y in 0..h as i32 {
        if l.is_not_empty(x, y) {
            n += 1;
        }
    }
    n
}

fn column_is_supported(l: &Landscape, x: i32) -> bool {
    let (_, h) = l.size();
    let mut seen_filled = false;
    for y in 0..h as i32 {
        let filled = l.is_not_empty(x, y);
        if seen_filled && !filled {
            return false;
        }
        if filled {
            seen_filled = true;
        }
    }
    true
}

#[test]
fn new_rejects_zero_dimensions() {
    assert!(Landscape::new(0, 10).is_err());
    assert!(Landscape::new(10, 0).is_err());
    assert!(Landscape::new(0, 0).is_err());
    assert!(Landscape::new(1, 1).is_ok());
}

#[test]
fn generate_flat_boundary_at_center() {
    let l = flat(100, 100);
    for x in 0..100 {
        assert!(!l.is_not_empty(x, 49), "x={}", x);
        assert!(l.is_not_empty(x, 50), "x={}", x);
        assert!(l.is_not_empty(x, 99), "x={}", x);
    }
}

#[test]
fn generate_columns_are_contiguous_runs() {
    let mut l = Landscape::new(8, 12).unwrap();
    let offsets: Vec<i64> = vec![-3_000, 0, 2_000, 12_000, -500, 499, 500, -12_000];
    l.generate(&offsets);
    for x in 0..8 {
        assert!(column_is_supported(&l, x), "column {} must be one run", x);
    }
    // boundary = round(6 + offset in rows), clamped to [0, 12]
    assert!(l.is_not_empty(0, 3) && !l.is_not_empty(0, 2));
    assert!(l.is_not_empty(1, 6) && !l.is_not_empty(1, 5));
    assert!(l.is_not_empty(2, 8) && !l.is_not_empty(2, 7));
    assert!(!l.is_not_empty(3, 11)); // boundary clamped to 12: all empty
    assert!(l.is_not_empty(4, 6) && !l.is_not_empty(4, 5)); // round(5.5) = 6
    assert!(l.is_not_empty(5, 6) && !l.is_not_empty(5, 5)); // round(6.499) = 6
    assert!(l.is_not_empty(6, 7) && !l.is_not_empty(6, 6)); // round(6.5) = 7
    assert!(l.is_not_empty(7, 0)); // boundary clamped to 0: all filled
}

#[test]
fn generate_overwrites_previous_carving() {
    let mut l = flat(20, 20);
    l.clear_span(0, 15, 20);
    assert!(!l.is_not_empty(5, 15));
    let offsets: Vec<i64> = vec![0; 20];
    l.generate(&offsets);
    assert!(l.is_not_empty(5, 15));
}

#[test]
fn clear_span_clears_exactly_the_span() {
    let mut l = flat(10, 10);
    l.clear_span(2, 7, 3);
    for x in 0..10 {
        for y in 5..10 {
            let expected = !(y == 7 && (2..5).contains(&x));
            assert_eq!(l.is_not_empty(x, y), expected, "({}, {})", x, y);
        }
    }
}

#[test]
fn clear_span_clamps_to_right_edge() {
    let mut l = flat(10, 10);
    // length far beyond the row: must clear only up to x = 9
    l.clear_span(6, 8, 60000);
    for x in 0..6 {
        assert!(l.is_not_empty(x, 8));
    }
    for x in 6..10 {
        assert!(!l.is_not_empty(x, 8));
    }
    // the neighbouring rows are untouched
    for x in 0..10 {
        assert!(l.is_not_empty(x, 7));
        assert!(l.is_not_empty(x, 9));
    }
}

#[test]
fn clear_span_out_of_bounds_or_empty_is_noop() {
    let mut l = flat(10, 10);
    l.clear_span(-1, 8, 5);
    l.clear_span(10, 8, 5);
    l.clear_span(3, -1, 5);
    l.clear_span(3, 10, 5);
    l.clear_span(3, 8, 0);
    for x in 0..10 {
        for y in 5..10 {
            assert!(l.is_not_empty(x, y), "({}, {})", x, y);
        }
    }
}

#[test]
fn queries_out_of_bounds_read_empty() {
    let l = flat(10, 10);
    assert!(!l.is_not_empty(-1, 7));
    assert!(!l.is_not_empty(10, 7));
    assert!(!l.is_not_empty(3, -1));
    assert!(!l.is_not_empty(3, 10));
    assert_eq!(l.count_empty_span(-1, 5, 3), None);
    assert_eq!(l.count_empty_span(0, 10, 3), None);
    assert_eq!(l.count_empty_span(0, 5, 0), None);
}

#[test]
fn count_empty_span_counts_and_clamps() {
    let mut l = flat(10, 10);
    l.clear_span(4, 6, 2);
    assert_eq!(l.count_empty_span(0, 6, 10), Some(2));
    assert_eq!(l.count_empty_span(4, 6, 2), Some(2));
    assert_eq!(l.count_empty_span(5, 6, 10), Some(1));
    assert_eq!(l.count_empty_span(0, 2, 10), Some(10));
    // length clamped at the right edge: 6 cells remain from x = 4
    assert_eq!(l.count_empty_span(4, 9, 60000), Some(0));
}

#[test]
fn subsidence_step_at_rest_is_noop() {
    let mut l = flat(10, 10);
    assert!(!l.is_subsidence());
    assert!(!l.update(100));
    assert!(!l.update(200));
    for x in 0..10 {
        for y in 0..10 {
            assert_eq!(l.is_not_empty(x, y), y >= 5, "({}, {})", x, y);
        }
    }
}

#[test]
fn subsidence_arming_is_idempotent() {
    let mut l = flat(10, 10);
    l.subsidence(100);
    assert!(l.is_subsidence());
    // re-arming later must not restart the clock: settle fully first
    l.subsidence(50_000);
    let mut t = 100;
    let mut finished = false;
    for _ in 0..1000 {
        t += 100;
        if l.update(t) {
            finished = true;
            break;
        }
    }
    assert!(finished);
    assert!(!l.is_subsidence());
}

#[test]
fn subsidence_drops_floating_ground_and_preserves_column_counts() {
    let mut l = flat(12, 12);
    // carve a cave under the surface in columns 3..9: rows 8 and 9
    l.clear_span(3, 8, 6);
    l.clear_span(3, 9, 6);
    let before: Vec<u32> = (0..12).map(|x| column_fill_count(&l, x)).collect();
    assert!(!column_is_supported(&l, 4));
    l.subsidence(0);
    let mut t = 0;
    let mut finished = false;
    for _ in 0..10_000 {
        t += 50;
        // counts never change while settling runs
        for x in 0..12 {
            assert_eq!(column_fill_count(&l, x), before[x as usize]);
        }
        if l.update(t) {
            finished = true;
            break;
        }
    }
    assert!(finished, "settling must finish in finite ticks");
    let after: Vec<u32> = (0..12).map(|x| column_fill_count(&l, x)).collect();
    assert_eq!(before, after);
    for x in 0..12 {
        assert!(column_is_supported(&l, x), "column {} still floating", x);
    }
    // the dropped columns now start two rows lower
    assert!(!l.is_not_empty(4, 6));
    assert!(!l.is_not_empty(4, 7));
    assert!(l.is_not_empty(4, 8));
}

#[test]
fn changed_flag_reports_carving() {
    let mut l = flat(10, 10);
    assert!(l.changed());
    l.clear_changed();
    assert!(!l.changed());
    l.set_changed();
    assert!(l.changed());
}

#[test]
fn profile_configuration_is_stored() {
    let mut l = Landscape::new(10, 10).unwrap();
    assert_eq!(l.seed(), 0);
    assert_eq!(l.amplitude(), 5_000);
    assert_eq!(l.dx(), 0);
    l.set_seed(77);
    l.set_amplitude(12_345);
    l.set_dx(-4);
    assert_eq!(l.seed(), 77);
    assert_eq!(l.amplitude(), 12_345);
    assert_eq!(l.dx(), -4);
}
