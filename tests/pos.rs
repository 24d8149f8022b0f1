use snake::{Dir, Pos};

#[test]
fn pos_simple_test() {
    assert_eq!(Pos { x: 1, y: 2 }, Pos { x: 2, y: 0 } + Pos { x: -1, y: 2 });
    assert_eq!(Pos { x: 1, y: 2 }, Pos { x: 2, y: 1 } - Pos { x: 1, y: -1 });
}

#[test]
fn pos_add_wraps_on_overflow() {
    assert_eq!(Pos { x: i16::MIN, y: 0 }, Pos { x: i16::MAX, y: 0 } + Pos { x: 1, y: 0 });
    assert_eq!(Pos { x: 0, y: i16::MAX }, Pos { x: 0, y: i16::MIN } - Pos { x: 0, y: 1 });
}

#[test]
fn dir_unit_vectors() {
    assert_eq!(Dir::Down.into_pos(), Pos { x: 0, y: 1 });
    assert_eq!(Dir::Left.into_pos(), Pos { x: -1, y: 0 });
    assert_eq!(Dir::Right.into_pos(), Pos { x: 1, y: 0 });
    assert_eq!(Dir::Up.into_pos(), Pos { x: 0, y: -1 });
}
