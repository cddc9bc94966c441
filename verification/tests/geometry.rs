use anodium::geometry::{centre_on, clip_to_i32, halve, Point, Rectangle, Size};

fn rect(x: i32, y: i32, w: i32, h: i32) -> Rectangle {
    Rectangle::from_loc_and_size(Point::new(x, y), Size::new(w, h))
}

#[test]
fn clip_keeps_what_fits_and_caps_the_rest() {
    assert_eq!(clip_to_i32(0), 0);
    assert_eq!(clip_to_i32(-7), -7);
    assert_eq!(clip_to_i32(i32::MAX as i64), i32::MAX);
    assert_eq!(clip_to_i32(i32::MAX as i64 + 1), i32::MAX);
    assert_eq!(clip_to_i32(i32::MIN as i64 - 1), i32::MIN);
    assert_eq!(clip_to_i32(i64::MAX), i32::MAX);
}

#[test]
fn halve_rounds_towards_zero() {
    assert_eq!(halve(7), 3);
    assert_eq!(halve(-7), -3);
    assert_eq!(halve(0), 0);
    assert_eq!(halve(i32::MIN), -1073741824);
}

#[test]
fn centre_on_a_stretch() {
    assert_eq!(centre_on(10, 100, 20), 50);
    assert_eq!(centre_on(0, 101, 11), 45);
    assert_eq!(centre_on(0, 10, 30), -10);
}

#[test]
fn offset_adds_and_clips() {
    assert_eq!(Point::new(3, 4).offset(Point::new(10, -20)), Point::new(13, -16));
    assert_eq!(Point::new(i32::MAX, 0).offset(Point::new(1, -5)), Point::new(i32::MAX, -5));
    assert_eq!(Point::new(i32::MIN, 1).offset(Point::new(-1, 1)), Point::new(i32::MIN, 2));
}

#[test]
fn back_subtracts_and_clips() {
    assert_eq!(Point::new(3, 4).back(Point::new(10, -20)), Point::new(-7, 24));
    assert_eq!(Point::new(i32::MIN, 0).back(Point::new(1, 0)), Point::new(i32::MIN, 0));
    assert_eq!(Point::origin(), Point::new(0, 0));
}

#[test]
fn contains_is_closed_at_the_corner_and_open_at_the_far_edges() {
    let r = rect(10, 10, 5, 5);
    assert!(r.contains(Point::new(10, 10)));
    assert!(r.contains(Point::new(14, 14)));
    assert!(!r.contains(Point::new(15, 10)));
    assert!(!r.contains(Point::new(10, 15)));
    assert!(!r.contains(Point::new(9, 10)));
    assert!(!r.contains(Point::new(10, 9)));
}

#[test]
fn a_rectangle_without_extent_holds_no_point() {
    assert!(!Rectangle::at(Point::new(3, 3)).contains(Point::new(3, 3)));
    assert!(!rect(0, 0, 0, 10).contains(Point::new(0, 0)));
    assert!(!rect(0, 0, -5, 10).contains(Point::new(-1, 0)));
}

#[test]
fn contains_at_the_end_of_the_range_does_not_overflow() {
    let r = rect(i32::MAX - 1, 0, 10, 1);
    assert!(r.contains(Point::new(i32::MAX, 0)));
    assert!(!r.contains(Point::new(i32::MAX - 2, 0)));
}

#[test]
fn merge_is_the_smallest_rectangle_that_holds_both() {
    let m = rect(0, 0, 10, 10).merge(rect(5, -5, 10, 10));
    assert_eq!(m, rect(0, -5, 15, 15));
    let m = rect(0, 0, 3, 3).merge(rect(20, 30, 1, 2));
    assert_eq!(m, rect(0, 0, 21, 32));
}

#[test]
fn merge_with_a_rectangle_without_extent_reaches_its_corner() {
    let m = Rectangle::at(Point::new(5, 5)).merge(rect(0, 0, 3, 3));
    assert_eq!(m, rect(0, 0, 5, 5));
    let m = Rectangle::at(Point::new(1, 1)).merge(rect(0, 0, 3, 3));
    assert_eq!(m, rect(0, 0, 3, 3));
}

#[test]
fn merge_takes_a_negative_extent_by_its_corners() {
    let m = rect(10, 10, -4, -4).merge(rect(0, 0, 1, 1));
    assert_eq!(m, rect(0, 0, 10, 10));
}

#[test]
fn merge_clips_an_extent_beyond_the_range() {
    let m = rect(i32::MIN, 0, 10, 1).merge(rect(i32::MAX - 5, 0, 5, 1));
    assert_eq!(m, rect(i32::MIN, 0, i32::MAX, 1));
}

#[test]
fn merged_rectangle_holds_the_points_of_both() {
    let a = rect(-3, 4, 7, 2);
    let b = rect(10, -8, 1, 30);
    let m = a.merge(b);
    for p in [Point::new(-3, 4), Point::new(3, 5), Point::new(10, -8), Point::new(10, 21)] {
        assert!(a.contains(p) || b.contains(p));
        assert!(m.contains(p));
    }
}

#[test]
fn centred_puts_the_middle_on_the_middle() {
    assert_eq!(rect(0, 0, 100, 50).centred(Size::new(20, 10)), Point::new(40, 20));
    assert_eq!(rect(10, 20, 800, 600).centred(Size::new(200, 100)), Point::new(310, 270));
    assert_eq!(rect(0, 0, 101, 51).centred(Size::new(20, 11)), Point::new(40, 20));
}

#[test]
fn size_is_empty_when_a_side_is_zero() {
    assert!(Size::zero().is_empty());
    assert!(Size::new(0, 5).is_empty());
    assert!(Size::new(5, 0).is_empty());
    assert!(!Size::new(1, 1).is_empty());
}
