use guessing_game::geometry::{Dimension, Rectangle};

#[test]
fn test_area() {
    let rect = Rectangle { width: 30, height: 50 };
    assert_eq!(rect.area(), 1500);
}

#[test]
fn test_clear() {
    let mut rect = Rectangle { width: 30, height: 50 };
    rect.clear();
    assert_eq!(rect.width, 0);
    assert_eq!(rect.height, 0);
}

#[test]
fn test_square() {
    let square = Rectangle::square(10);
    assert_eq!(square.area(), 100);
    assert_eq!(square.width, 10);
    assert_eq!(square.height, 10);
}

#[test]
fn squared_distance_from_origin() {
    assert_eq!(Dimension(2, 2).distance(), 8);
    assert_eq!(Dimension(-4, 3).distance(), 25);
    assert_eq!(Dimension(0, 0).distance(), 0);
}
