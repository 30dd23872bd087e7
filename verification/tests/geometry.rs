use rogue_core::{Coord, Rect};

#[test]
fn rect_center_is_the_middle() {
    let r = Rect::new(2, 4, 6, 8);
    assert_eq!(r.center(), (5, 8));
}

#[test]
fn rects_that_touch_intersect() {
    let a = Rect::new(0, 0, 4, 4);
    let b = Rect::new(4, 4, 2, 2);
    let c = Rect::new(5, 5, 2, 2);
    assert!(a.intersect(&b));
    assert!(!a.intersect(&c));
}

#[test]
fn distance_is_squared() {
    let a = Coord::new(1, 1);
    let b = Coord::new(4, 5);
    assert_eq!(a.distance_squared_to(b), 25);
    assert!(a.is_closer_than(b, 51));
    assert!(!a.is_closer_than(b, 50));
    assert!(a.is_farther_than(b, 49));
    assert!(!a.is_farther_than(b, 50));
}
