use bomber_core::geom::boxes_overlap;
use bomber_core::world::move_coord;

#[test]
fn overlap_close_hazard() {
    // actor at (0,0) with a 25x25 footprint, horizontal hazard bar at
    // (10,0) with a 250x25 footprint: |10 - 0| < (250 + 25) / 2
    assert!(boxes_overlap(10, 0, 250, 25, 0, 0, 25, 25));
}

#[test]
fn no_overlap_distant_actor() {
    // same hazard with the actor at (200,0): |10 - 200| >= 137.5
    assert!(!boxes_overlap(10, 0, 250, 25, 200, 0, 25, 25));
}

#[test]
fn overlap_threshold_is_strict() {
    // center distance 137: 2*137 = 274 < 275, still overlapping
    assert!(boxes_overlap(0, 0, 250, 25, 137, 0, 25, 25));
    // center distance 138: 2*138 = 276 >= 275, no longer overlapping
    assert!(!boxes_overlap(0, 0, 250, 25, 138, 0, 25, 25));
}

#[test]
fn overlap_needs_both_axes() {
    assert!(!boxes_overlap(0, 0, 250, 25, 0, 100, 25, 25));
    assert!(boxes_overlap(0, 0, 25, 250, 0, 100, 25, 25));
}

#[test]
fn overlap_symmetric() {
    assert_eq!(
        boxes_overlap(10, 0, 250, 25, 0, 0, 25, 25),
        boxes_overlap(0, 0, 25, 25, 10, 0, 250, 25),
    );
}

#[test]
fn move_coord_applies_displacement() {
    assert_eq!(move_coord(0, 2, true, false), 2);
    assert_eq!(move_coord(0, 2, false, true), -2);
    assert_eq!(move_coord(7, 2, false, false), 7);
    // opposite keys cancel
    assert_eq!(move_coord(7, 2, true, true), 7);
}

#[test]
fn move_coord_saturates_at_plane_edge() {
    assert_eq!(move_coord(i64::MAX - 1, 2, true, false), i64::MAX);
    assert_eq!(move_coord(i64::MIN + 1, 2, false, true), i64::MIN);
    assert_eq!(move_coord(i64::MAX, 2, false, true), i64::MAX - 2);
}
