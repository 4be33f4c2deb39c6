use symgraph::shapes::{Direction, Point};

#[test]
fn point_new_keeps_its_coordinates() {
    let p = Point::new(10, 20);
    assert_eq!(p.x, 10);
    assert_eq!(p.y, 20);
}

#[test]
fn squared_distance_of_a_point() {
    assert_eq!(Point::new(10, 20).squared_distance(), Some(500));
    assert_eq!(Point::new(-3, 4).squared_distance(), Some(25));
    assert_eq!(Point::new(0, 0).squared_distance(), Some(0));
}

#[test]
fn squared_distance_that_does_not_fit() {
    assert_eq!(Point::new(46341, 0).squared_distance(), None);
    assert_eq!(Point::new(46340, 0).squared_distance(), Some(2147395600));
    assert_eq!(Point::new(i32::MIN, i32::MIN).squared_distance(), None);
    assert_eq!(Point::new(40000, 40000).squared_distance(), None);
}

#[test]
fn directions_differ() {
    assert_ne!(Direction::North, Direction::South);
    assert_ne!(Direction::East, Direction::West);
}
