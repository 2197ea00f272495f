use darts::board::DartThrow;
use darts::segment::compute_segment;

#[test]
fn lib_test_compute_segment_due_north_equals_20() {
    let throw = DartThrow { x: 0, y: 100 };
    assert_eq!(compute_segment(throw), 20);
}

#[test]
fn lib_test_compute_segment_due_south_equals_3() {
    let throw = DartThrow { x: 0, y: -100 };
    assert_eq!(compute_segment(throw), 3);
}

#[test]
fn lib_test_compute_segment_due_east_equals_6() {
    let throw = DartThrow { x: 100, y: 0 };
    assert_eq!(compute_segment(throw), 6);
}

#[test]
fn lib_test_compute_segment_due_west_equals_11() {
    let throw = DartThrow { x: -100, y: 0 };
    assert_eq!(compute_segment(throw), 11);
}

#[test]
fn main_test_compute_segment_due_north_equals_20() {
    let throw = DartThrow { x: 0, y: 100 };
    assert_eq!(compute_segment(throw), 20);
}

#[test]
fn main_test_compute_segment_due_south_equals_3() {
    let throw = DartThrow { x: 0, y: -100 };
    assert_eq!(compute_segment(throw), 3);
}

#[test]
fn main_test_compute_segment_due_east_equals_6() {
    let throw = DartThrow { x: 100, y: 0 };
    assert_eq!(compute_segment(throw), 6);
}

#[test]
fn main_test_compute_segment_due_west_equals_11() {
    let throw = DartThrow { x: -100, y: 0 };
    assert_eq!(compute_segment(throw), 11);
}

/// The 20 wedge centers, walked clockwise from the top in 18-degree steps,
/// hit every segment of the standard ordering exactly once.
#[test]
fn test_segment_ordering_covers_all_twenty() {
    let centers: [(i64, i64); 20] = [
        (0, 1000),
        (309, 951),
        (588, 809),
        (809, 588),
        (951, 309),
        (1000, 0),
        (951, -309),
        (809, -588),
        (588, -809),
        (309, -951),
        (0, -1000),
        (-309, -951),
        (-588, -809),
        (-809, -588),
        (-951, -309),
        (-1000, 0),
        (-951, 309),
        (-809, 588),
        (-588, 809),
        (-309, 951),
    ];
    let expected: [u8; 20] = [
        20, 1, 18, 4, 13, 6, 10, 15, 2, 17, 3, 19, 7, 16, 8, 11, 14, 9, 12, 5,
    ];
    let mut seen = [false; 21];
    for i in 0..20 {
        let s = compute_segment(DartThrow { x: centers[i].0, y: centers[i].1 });
        assert_eq!(s, expected[i]);
        assert!(!seen[s as usize]);
        seen[s as usize] = true;
    }
    for v in 1..=20 {
        assert!(seen[v]);
    }
}

/// Wedge boundaries sit 9 degrees off the axes: just inside either side of
/// the boundary between the 20 and the 1 wedges the segment flips.
#[test]
fn test_segment_boundary_near_nine_degrees() {
    // tan(9 deg) ~ 0.15838; x slightly below that slope stays in 20,
    // slightly above moves to 1.
    assert_eq!(compute_segment(DartThrow { x: 15825, y: 100000 }), 20);
    assert_eq!(compute_segment(DartThrow { x: 15850, y: 100000 }), 1);
}
