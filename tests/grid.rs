use snak::game::self_collides;
use snak::{Coord, Direction};

#[test]
fn steps_move_one_cell() {
    let o = Coord::new(3, -2);
    assert_eq!(o.step(Direction::Up), Coord::new(3, -1));
    assert_eq!(o.step(Direction::Down), Coord::new(3, -3));
    assert_eq!(o.step(Direction::Left), Coord::new(2, -2));
    assert_eq!(o.step(Direction::Right), Coord::new(4, -2));
    assert_eq!(o.step(Direction::Still), o);
}

#[test]
fn field_bounds() {
    assert!(Coord::new(-10, -7).in_field());
    assert!(Coord::new(10, 7).in_field());
    assert!(!Coord::new(11, 0).in_field());
    assert!(!Coord::new(-11, 0).in_field());
    assert!(!Coord::new(0, 8).in_field());
    assert!(!Coord::new(0, -8).in_field());
}

#[test]
fn opposites() {
    assert!(Direction::Up.is_opposite(Direction::Down));
    assert!(Direction::Left.is_opposite(Direction::Right));
    assert!(!Direction::Up.is_opposite(Direction::Left));
    assert!(!Direction::Still.is_opposite(Direction::Still));
    assert!(!Direction::Up.is_opposite(Direction::Up));
}

#[test]
fn collision_needs_more_than_two_cells() {
    let c = Coord::new;
    assert!(!self_collides(&vec![c(0, 0)]));
    assert!(!self_collides(&vec![c(0, 0), c(0, 0)]));
    assert!(self_collides(&vec![c(0, 0), c(1, 0), c(0, 0)]));
    assert!(!self_collides(&vec![c(0, 0), c(1, 0), c(2, 0)]));
    assert!(self_collides(&vec![c(5, 5), c(0, 0), c(1, 0), c(5, 5)]));
}
