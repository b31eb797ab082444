use hypertile::geometry::{axis_distance, rect_contains, translate_rect, translate_u16, Rect};

fn rect(x: u16, y: u16, width: u16, height: u16) -> Rect {
    Rect { x, y, width, height }
}

#[test]
fn rect_new_cuts_size_at_the_edge() {
    assert_eq!(Rect::new(1, 2, 3, 4), rect(1, 2, 3, 4));
    assert_eq!(Rect::new(65530, 65500, 10, 100), rect(65530, 65500, 5, 35));
}

#[test]
fn rect_area_and_intersection() {
    let a = rect(0, 0, 50, 20);
    let b = rect(19, 0, 50, 20);
    assert_eq!(a.area(), 1000);
    assert_eq!(a.intersection(b), rect(19, 0, 31, 20));
    assert_eq!(a.intersection(rect(60, 30, 5, 5)).area(), 0);
    assert_eq!(rect(65535, 65535, 65535, 65535).area(), 65535u32 * 65535u32);
}

#[test]
fn rect_contains_half_open() {
    let r = rect(10, 5, 3, 2);
    assert!(rect_contains(r, 10, 5));
    assert!(rect_contains(r, 12, 6));
    assert!(!rect_contains(r, 13, 6));
    assert!(!rect_contains(r, 12, 7));
    assert!(!r.contains(9, 5));
}

#[test]
fn axis_distance_is_absolute_difference() {
    assert_eq!(axis_distance(3, 10), 7);
    assert_eq!(axis_distance(10, 3), 7);
    assert_eq!(axis_distance(4, 4), 0);
}

#[test]
fn translate_saturates_both_ways() {
    assert_eq!(translate_u16(10, -3), 7);
    assert_eq!(translate_u16(10, -30), 0);
    assert_eq!(translate_u16(10, 5), 15);
    assert_eq!(translate_u16(65530, 100), 65535);
    assert_eq!(translate_u16(5, i32::MIN), 0);
    assert_eq!(translate_u16(5, i32::MAX), 65535);
}

#[test]
fn translate_rect_keeps_size() {
    assert_eq!(translate_rect(rect(0, 0, 50, 20), 9, 3), rect(9, 3, 50, 20));
    assert_eq!(translate_rect(rect(5, 5, 50, 20), -10, -1), rect(0, 4, 50, 20));
    assert_eq!(translate_rect(rect(65500, 0, 50, 20), 30, 0), rect(65530, 0, 5, 20));
}
