use mosaic::color::MyColor;

#[test]
fn new_keeps_the_three_components() {
    let c = MyColor::new(1, 2, 3);
    assert_eq!((c.r, c.g, c.b), (1, 2, 3));
    assert_eq!(c, MyColor { r: 1, g: 2, b: 3 });
}

#[test]
fn colors_are_equal_only_component_by_component() {
    assert_eq!(MyColor::new(10, 20, 30), MyColor::new(10, 20, 30));
    assert_ne!(MyColor::new(10, 20, 30), MyColor::new(10, 20, 31));
    assert_ne!(MyColor::new(10, 20, 30), MyColor::new(11, 20, 30));
}

#[test]
fn distance_squared_is_the_sum_of_squared_gaps() {
    let a = MyColor::new(0, 0, 0);
    let b = MyColor::new(3, 4, 12);
    assert_eq!(a.distance_squared(&b), 9 + 16 + 144);
    assert_eq!(MyColor::new(10, 10, 10).distance_squared(&a), 300);
}

#[test]
fn distance_squared_to_itself_is_zero() {
    for c in [MyColor::new(0, 0, 0), MyColor::new(255, 255, 255), MyColor::new(7, 200, 31)] {
        assert_eq!(c.distance_squared(&c), 0);
    }
}

#[test]
fn distance_squared_is_symmetric() {
    let a = MyColor::new(12, 250, 3);
    let b = MyColor::new(200, 5, 77);
    assert_eq!(a.distance_squared(&b), b.distance_squared(&a));
    assert_eq!(a.distance_squared(&b), 188 * 188 + 245 * 245 + 74 * 74);
}

#[test]
fn distance_squared_at_the_far_corners() {
    let black = MyColor::new(0, 0, 0);
    let white = MyColor::new(255, 255, 255);
    assert_eq!(black.distance_squared(&white), 195075);
    // every pair of opposite corners is as far apart
    assert_eq!(MyColor::new(255, 0, 0).distance_squared(&MyColor::new(0, 255, 255)), 195075);
    assert_eq!(MyColor::new(0, 255, 0).distance_squared(&MyColor::new(255, 0, 255)), 195075);
}

#[test]
fn precedes_orders_by_red_then_green_then_blue() {
    let c = MyColor::new(5, 5, 5);
    assert!(MyColor::new(4, 255, 255).precedes(&c));
    assert!(MyColor::new(5, 4, 255).precedes(&c));
    assert!(MyColor::new(5, 5, 4).precedes(&c));
    assert!(!c.precedes(&c));
    assert!(!MyColor::new(5, 5, 6).precedes(&c));
    assert!(!MyColor::new(6, 0, 0).precedes(&c));
}

#[test]
fn keys_and_colours_stand_for_each_other() {
    assert_eq!(MyColor::new(0, 0, 0).key(), 0);
    assert_eq!(MyColor::new(0, 0, 1).key(), 1);
    assert_eq!(MyColor::new(0, 1, 0).key(), 256);
    assert_eq!(MyColor::new(1, 0, 0).key(), 65536);
    assert_eq!(MyColor::new(255, 255, 255).key(), 0xff_ffff);
    assert_eq!(MyColor::new(18, 52, 86).key(), 0x12_3456);
    assert_eq!(MyColor::from_key(0x12_3456), MyColor::new(18, 52, 86));
    for c in [MyColor::new(0, 0, 0), MyColor::new(255, 0, 7), MyColor::new(9, 200, 255)] {
        assert_eq!(MyColor::from_key(c.key()), c);
    }
}

#[test]
fn a_smaller_key_means_an_earlier_colour() {
    let a = MyColor::new(3, 200, 200);
    let b = MyColor::new(4, 0, 0);
    assert!(a.key() < b.key());
    assert!(a.precedes(&b));
}
