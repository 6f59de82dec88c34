use bsp_dungeon::point::Point;
use bsp_dungeon::rectangle::Rectangle;

#[test]
fn rectangles_are_created_correctly() {
    let top_left = Point::new(1, 2);
    let bottom_right = Point::new(3, 4);
    let rectangle = Rectangle::new(top_left, bottom_right);
    assert_eq!(rectangle.top_left, Point::new(1, 2));
    assert_eq!(rectangle.bottom_right, Point::new(3, 4));
    let rectangle = Rectangle::new(bottom_right, top_left);
    assert_eq!(rectangle.top_left, Point::new(1, 2));
    assert_eq!(rectangle.bottom_right, Point::new(3, 4));
}

#[test]
fn rectange_width_height_and_area_are_calculated_correctly() {
    let top_left = Point::new(1, 2);
    let bottom_right = Point::new(3, 4);
    let rectangle = Rectangle::new(top_left, bottom_right);
    assert_eq!(rectangle.width(), 2);
    assert_eq!(rectangle.height(), 2);
    assert_eq!(rectangle.area(), 4);
}

#[test]
fn rectangles_know_if_they_contain_a_point() {
    let top_left = Point::new(1, 2);
    let bottom_right = Point::new(3, 4);
    let rectangle = Rectangle::new(top_left, bottom_right);
    assert!(rectangle.contains(Point::new(1, 2)));
    assert!(rectangle.contains(Point::new(2, 3)));
    assert!(!rectangle.contains(Point::new(0, 2)));
    assert!(!rectangle.contains(Point::new(1, 1)));
    assert!(!rectangle.contains(Point::new(3, 4)));
    assert!(!rectangle.contains(Point::new(4, 3)));
}

#[test]
fn rectangles_know_if_they_intersect() {
    let top_left = Point::new(1, 2);
    let bottom_right = Point::new(3, 4);
    let rectangle = Rectangle::new(top_left, bottom_right);
    let other = Rectangle::new(Point::new(2, 3), Point::new(4, 5));
    assert!(rectangle.intersects(&other));
    let other = Rectangle::new(Point::new(0, 1), Point::new(1, 2));
    assert!(rectangle.intersects(&other));
    let other = Rectangle::new(Point::new(4, 5), Point::new(5, 6));
    assert!(!rectangle.intersects(&other));
}

#[test]
fn rectangles_know_their_center() {
    let top_left = Point::new(1, 2);
    let bottom_right = Point::new(3, 4);
    let rectangle = Rectangle::new(top_left, bottom_right);
    assert_eq!(rectangle.center(), Point::new(2, 3));
    let top_left = Point::new(1, 2);
    let bottom_right = Point::new(4, 5);
    let rectangle = Rectangle::new(top_left, bottom_right);
    assert_eq!(rectangle.center(), Point::new(2, 3));
    let top_left = Point::new(1, 2);
    let bottom_right = Point::new(5, 6);
    let rectangle = Rectangle::new(top_left, bottom_right);
    assert_eq!(rectangle.center(), Point::new(3, 4));
}

#[test]
fn degenerate_rectangles_have_zero_area() {
    let rectangle = Rectangle::new(Point::new(2, 2), Point::new(2, 5));
    assert_eq!(rectangle.width(), 0);
    assert_eq!(rectangle.height(), 3);
    assert_eq!(rectangle.area(), 0);
    assert!(!rectangle.contains(Point::new(2, 2)));
}
