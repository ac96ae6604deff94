use connect4::cartesian::{Direction, Position};

#[test]
fn cartesian_translation() {
    let position = Position::new(2, 3);
    let direction = Direction { x: -9, y: 1 };
    assert_eq!(position.translate(direction), Position::new(-7, 4));
}

#[test]
fn cartesian_reversal() {
    let direction = Direction { x: -1, y: 1 };
    assert_eq!(direction.reverse(), Direction::north_east());
}

#[test]
fn lib_translation() {
    let position = Position::new(2, 3);
    let direction = Direction { x: -9, y: 1 };
    assert_eq!(position.translate(direction), Position::new(-7, 4));
}

#[test]
fn lib_reversal() {
    let direction = Direction { x: -1, y: 1 };
    assert_eq!(direction.reverse(), Direction::north_east());
}

#[test]
fn accessors() {
    let position = Position::new(-5, 11);
    assert_eq!(position.x(), -5);
    assert_eq!(position.y(), 11);
    assert_eq!(Direction::south(), Direction { x: 0, y: 1 });
    assert_eq!(Direction::east(), Direction { x: 1, y: 0 });
    assert_eq!(Direction::south_east(), Direction { x: 1, y: 1 });
    assert_eq!(Direction::north_east().reverse(), Direction { x: -1, y: 1 });
}
