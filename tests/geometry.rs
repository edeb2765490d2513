use passive_power::geometry::{inner_interval, is_invalid_spot, overlaps, Point};

fn pt(x: i64, y: i64) -> Point {
    Point { x, y }
}

#[test]
fn overlaps_when_x_is_close() {
    assert!(overlaps(pt(0, 0), pt(29, 500), 30));
    assert!(overlaps(pt(0, 0), pt(-29, -500), 30));
}

#[test]
fn overlaps_when_y_is_close() {
    assert!(overlaps(pt(0, 0), pt(400, 10), 30));
}

#[test]
fn no_overlap_at_exact_separation() {
    assert!(!overlaps(pt(0, 0), pt(30, 30), 30));
    assert!(!overlaps(pt(0, 0), pt(-30, 45), 30));
}

#[test]
fn diagonal_points_that_share_no_axis_do_not_overlap() {
    assert!(!overlaps(pt(100, 100), pt(200, 200), 30));
}

#[test]
fn zero_separation_never_overlaps() {
    assert!(!overlaps(pt(5, 5), pt(5, 5), 0));
}

#[test]
fn overlaps_at_extreme_coordinates() {
    assert!(!overlaps(pt(i64::MIN, i64::MIN), pt(i64::MAX, i64::MAX), 30));
    assert!(overlaps(pt(i64::MAX, 0), pt(i64::MAX - 1, 1000), 30));
}

#[test]
fn empty_spot_list_is_never_invalid() {
    assert!(!is_invalid_spot(&vec![], pt(0, 0), 30));
}

#[test]
fn spot_is_invalid_when_any_point_is_close() {
    let spots = vec![pt(-500, -300), pt(100, 200)];
    assert!(is_invalid_spot(&spots, pt(110, -100), 30));
    assert!(!is_invalid_spot(&spots, pt(0, 0), 30));
}

#[test]
fn inner_interval_shrinks_both_ends() {
    assert_eq!(inner_interval(-750, 750, 25), Some((-725, 725)));
    assert_eq!(inner_interval(0, 50, 25), Some((25, 25)));
}

#[test]
fn inner_interval_is_none_when_margin_is_too_wide() {
    assert_eq!(inner_interval(0, 49, 25), None);
    assert_eq!(inner_interval(10, 0, 0), None);
}

#[test]
fn coinciding_spot_is_invalid_even_without_separation() {
    assert!(is_invalid_spot(&vec![pt(3, 4)], pt(3, 4), 0));
    assert!(!is_invalid_spot(&vec![pt(3, 4)], pt(3, 5), 0));
}
