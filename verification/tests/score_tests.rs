use darts::board::{BoardConfig, DartThrow};
use darts::score::{compute_score, ScoreKind};

fn standard() -> BoardConfig {
    BoardConfig::standard()
}

#[test]
fn test_center_is_inner_bullseye() {
    let b = standard();
    let s = compute_score(&b, DartThrow { x: 0, y: 0 });
    assert_eq!(s.value, 50);
    assert_eq!(s.representation(), "Inner Bullseye");
    assert_eq!(s.kind, ScoreKind::InnerBullseye);
}

#[test]
fn test_triple_twenty_midline() {
    // 103.00 mm straight up: the triple-ring midline of the 20 wedge.
    let b = standard();
    let s = compute_score(&b, DartThrow { x: 0, y: 10300 });
    assert_eq!(s.value, 60);
    assert_eq!(s.representation(), "Triple 20");
}

#[test]
fn test_double_twenty() {
    // 166.00 mm straight up: inside the double ring.
    let b = standard();
    let s = compute_score(&b, DartThrow { x: 0, y: 16600 });
    assert_eq!(s.value, 40);
    assert_eq!(s.representation(), "Double 20");
}

#[test]
fn test_beyond_board_is_miss() {
    // 200.00 mm straight up: past the board edge.
    let b = standard();
    let s = compute_score(&b, DartThrow { x: 0, y: 20000 });
    assert_eq!(s.value, 0);
    assert_eq!(s.representation(), "Miss");
}

#[test]
fn test_inner_bullseye_everywhere_within_radius() {
    // 3.00 mm toward the upper right: distance ~4.24 mm, inside 6.35 mm.
    let b = standard();
    let s = compute_score(&b, DartThrow { x: 300, y: 300 });
    assert_eq!(s.value, 50);
}

#[test]
fn test_bullseye_boundaries_inclusive() {
    let b = standard();
    // Exactly on the inner bullseye radius: still 50.
    assert_eq!(compute_score(&b, DartThrow { x: 635, y: 0 }).value, 50);
    // Just past it: outer bullseye.
    let outer = compute_score(&b, DartThrow { x: 636, y: 0 });
    assert_eq!(outer.value, 25);
    assert_eq!(outer.representation(), "Outer Bullseye");
    // Exactly on the outer bullseye radius: still 25.
    assert_eq!(compute_score(&b, DartThrow { x: 1600, y: 0 }).value, 25);
    // Just past it: a plain single of the 6 wedge (due east).
    let single = compute_score(&b, DartThrow { x: 1601, y: 0 });
    assert_eq!(single.value, 6);
    assert_eq!(single.representation(), "Single 6");
}

#[test]
fn test_ring_boundaries_inclusive() {
    let b = standard();
    // Both edges of the triple band, straight up.
    assert_eq!(compute_score(&b, DartThrow { x: 0, y: 9900 }).value, 60);
    assert_eq!(compute_score(&b, DartThrow { x: 0, y: 10700 }).value, 60);
    // Just outside the triple band: singles.
    assert_eq!(compute_score(&b, DartThrow { x: 0, y: 9899 }).value, 20);
    assert_eq!(compute_score(&b, DartThrow { x: 0, y: 10701 }).value, 20);
    // Both edges of the double band.
    assert_eq!(compute_score(&b, DartThrow { x: 0, y: 16200 }).value, 40);
    assert_eq!(compute_score(&b, DartThrow { x: 0, y: 17000 }).value, 40);
    // Just inside the board and just off it.
    assert_eq!(compute_score(&b, DartThrow { x: 0, y: 16199 }).value, 20);
    assert_eq!(compute_score(&b, DartThrow { x: 0, y: 17001 }).value, 0);
}

#[test]
fn test_wide_bullseye_variant() {
    let wide = BoardConfig::wide_bullseye();
    let std_board = standard();
    // 10.00 mm out: inner bullseye on the wide variant, outer on standard.
    let at = DartThrow { x: 1000, y: 0 };
    assert_eq!(compute_score(&wide, at).value, 50);
    assert_eq!(compute_score(&std_board, at).value, 25);
    // 30.00 mm out: outer bullseye on the wide variant, single on standard.
    let farther = DartThrow { x: 3000, y: 0 };
    assert_eq!(compute_score(&wide, farther).value, 25);
    assert_eq!(compute_score(&std_board, farther).value, 6);
}

#[test]
fn test_treble_labels_in_all_wedges() {
    // The triple-ring midline at each canonical treble target.
    let b = standard();
    let t19 = compute_score(&b, DartThrow { x: -3183, y: -9796 });
    assert_eq!(t19.value, 57);
    assert_eq!(t19.representation(), "Triple 19");
    let t18 = compute_score(&b, DartThrow { x: 6054, y: 8333 });
    assert_eq!(t18.value, 54);
    assert_eq!(t18.representation(), "Triple 18");
    let t14 = compute_score(&b, DartThrow { x: -9796, y: 3183 });
    assert_eq!(t14.value, 42);
    assert_eq!(t14.representation(), "Triple 14");
}

#[test]
fn test_far_coordinates_are_misses() {
    let b = standard();
    assert_eq!(compute_score(&b, DartThrow { x: 5_000_000, y: -9_000_000 }).value, 0);
    assert_eq!(compute_score(&b, DartThrow { x: i64::MIN, y: i64::MAX }).value, 0);
}
