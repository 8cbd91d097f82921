use primer::eat_at_restaurant;
use primer::hosting::add_to_waitlist;
use primer::rectangle::Rectangle;

#[test]
fn rectangle_area() {
    let r = Rectangle { width: 30, height: 50 };
    assert_eq!(r.area(), 1500);
}

#[test]
fn square_has_equal_sides() {
    let s = Rectangle::square(7);
    assert_eq!(s.width, 7);
    assert_eq!(s.height, 7);
    assert_eq!(s.area(), 49);
}

#[test]
fn can_hold_needs_both_sides_larger() {
    let rect1 = Rectangle { width: 30, height: 50 };
    let rect2 = Rectangle { width: 10, height: 40 };
    let rect3 = Rectangle { width: 60, height: 45 };
    assert!(rect1.can_hold(&rect2));
    assert!(!rect1.can_hold(&rect3));
    assert!(!rect1.can_hold(&Rectangle { width: 30, height: 10 }));
}

#[test]
fn restaurant_seats_parties() {
    add_to_waitlist();
    eat_at_restaurant();
}
