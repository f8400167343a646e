use twenty48::geometry::{from_row_col, scan_sequence, space_to, to_row_col, Direction, LENGTH, SIZE};

#[test]
fn rows_and_columns() {
    assert_eq!(to_row_col(0), (0, 0));
    assert_eq!(to_row_col(3), (0, 3));
    assert_eq!(to_row_col(4), (1, 0));
    assert_eq!(to_row_col(14), (3, 2));
    assert_eq!(from_row_col(0, 0), 0);
    assert_eq!(from_row_col(2, 1), 9);
    assert_eq!(from_row_col(3, 3), 15);
    for i in 0..LENGTH {
        let (r, c) = to_row_col(i);
        assert!(r < SIZE && c < SIZE);
        assert_eq!(from_row_col(r, c), i);
    }
}

#[test]
fn steps_stop_at_the_edges() {
    for i in 0..SIZE {
        assert_eq!(space_to(Direction::Up, i), None);
        assert_eq!(space_to(Direction::Down, 12 + i), None);
        assert_eq!(space_to(Direction::Left, 4 * i), None);
        assert_eq!(space_to(Direction::Right, 4 * i + 3), None);
    }
}

#[test]
fn steps_never_wrap_around() {
    assert_eq!(space_to(Direction::Right, 3), None);
    assert_eq!(space_to(Direction::Left, 4), None);
    assert_eq!(space_to(Direction::Right, 7), None);
    assert_eq!(space_to(Direction::Left, 12), None);
}

#[test]
fn steps_inside_the_board() {
    assert_eq!(space_to(Direction::Up, 5), Some(1));
    assert_eq!(space_to(Direction::Down, 5), Some(9));
    assert_eq!(space_to(Direction::Left, 5), Some(4));
    assert_eq!(space_to(Direction::Right, 5), Some(6));
    assert_eq!(space_to(Direction::Up, 15), Some(11));
    assert_eq!(space_to(Direction::Left, 15), Some(14));
    assert_eq!(space_to(Direction::Down, 0), Some(4));
    assert_eq!(space_to(Direction::Right, 0), Some(1));
}

#[test]
fn scan_goes_up_for_up_and_left() {
    let ascending: Vec<usize> = (0..LENGTH).collect();
    assert_eq!(scan_sequence(Direction::Up), ascending);
    assert_eq!(scan_sequence(Direction::Left), ascending);
}

#[test]
fn scan_goes_down_for_down_and_right() {
    let descending: Vec<usize> = (0..LENGTH).rev().collect();
    assert_eq!(scan_sequence(Direction::Down), descending);
    assert_eq!(scan_sequence(Direction::Right), descending);
}
