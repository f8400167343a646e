use twenty48::board::Board;
use twenty48::geometry::{Direction, LENGTH};
use twenty48::tile::Tile;

#[allow(non_upper_case_globals)]
const o: Tile = Tile::Empty;
const A: Tile = Tile::Occupied(1);
const B: Tile = Tile::Occupied(2);
const C: Tile = Tile::Occupied(3);
const D: Tile = Tile::Occupied(4);
const E: Tile = Tile::Occupied(5);
const F: Tile = Tile::Occupied(6);
const G: Tile = Tile::Occupied(7);
const H: Tile = Tile::Occupied(8);
const I: Tile = Tile::Occupied(9);
const J: Tile = Tile::Occupied(10);
const K: Tile = Tile::Occupied(11);

fn board(tiles: [Tile; 16], score: u32) -> Board {
    Board { tiles: tiles.to_vec(), score }
}

fn assert_move(d: Direction, before: [Tile; 16], ts: u32, after: [Tile; 16], ns: u32) {
    let start = board(before, ts);
    assert!(start.is_valid());
    assert!(start.move_fits(d));
    assert_eq!(start.move_board(d), Some(board(after, ns)));
}

#[test]
fn add_tile() {
    let mut b = Board::new();

    for expected_count in (0..LENGTH + 1).rev() {
        assert_eq!(b.empty_tiles().len(), expected_count);
        assert_eq!(b.score, 0);

        let result = b.add_tile();

        if expected_count > 0 {
            assert!(result.is_some());
            b = result.unwrap();
        } else {
            assert!(result.is_none());
        }
    }
}

#[test]
fn create_new() {
    assert_eq!(Board::new().tiles.len(), LENGTH);
}

#[test]
fn board_macro() {
    assert_eq!(
        board(
            [
                A, B, C, D, //
                E, F, G, H, //
                I, J, K, o, //
                o, o, o, o,
            ],
            0
        )
        .tiles[0],
        Tile::Occupied(1)
    );
}

#[test]
fn tile_macro() {
    assert_eq!(A, Tile::Occupied(1));
    assert_eq!(o, Tile::Empty);
}

#[test]
fn simple_move() {
    assert_move(
        Direction::Right,
        [
            o, o, o, o, //
            A, B, C, o, //
            C, A, o, B, //
            A, o, o, o,
        ],
        0,
        [
            o, o, o, o, //
            o, A, B, C, //
            o, C, A, B, //
            o, o, o, A,
        ],
        0,
    );
}

#[test]
fn simple_merge() {
    assert_move(
        Direction::Right,
        [
            o, o, o, o, //
            A, B, C, C, //
            C, A, A, B, //
            A, o, o, A,
        ],
        0,
        [
            o, o, o, o, //
            o, A, B, D, //
            o, C, B, B, //
            o, o, o, B,
        ],
        16 + 4 + 4,
    );
}

#[test]
fn tricky_merge() {
    assert_move(
        Direction::Right,
        [
            A, A, B, B, //
            A, B, A, B, //
            A, A, A, A, //
            A, B, B, A,
        ],
        0,
        [
            o, o, B, C, //
            A, B, A, B, //
            o, o, B, B, //
            o, A, C, A,
        ],
        4 + 8 + 4 + 4 + 8,
    );
}

#[test]
fn other_direction() {
    assert_move(
        Direction::Left,
        [
            A, A, B, B, //
            A, B, A, B, //
            A, A, A, A, //
            A, B, B, A,
        ],
        0,
        [
            B, C, o, o, //
            A, B, A, B, //
            B, B, o, o, //
            A, C, A, o,
        ],
        4 + 8 + 4 + 4 + 8,
    );
}

#[test]
fn up_and_down() {
    assert_move(
        Direction::Up,
        [
            A, A, B, B, //
            A, B, A, B, //
            A, A, A, A, //
            A, B, B, A,
        ],
        0,
        [
            B, A, B, C, //
            B, B, B, B, //
            o, A, B, o, //
            o, B, o, o,
        ],
        4 + 4 + 4 + 8 + 4,
    );

    assert_move(
        Direction::Down,
        [
            A, A, B, B, //
            A, B, A, B, //
            A, A, A, A, //
            A, B, B, A,
        ],
        0,
        [
            o, A, o, o, //
            o, B, B, o, //
            B, A, B, C, //
            B, B, B, B,
        ],
        4 + 4 + 4 + 8 + 4,
    );
}

#[test]
fn can_move() {
    let b = board(
        [
            A, o, o, o, //
            o, o, o, o, //
            o, o, o, o, //
            o, o, o, o,
        ],
        0,
    );

    assert!(b.can_move(Direction::Down));
    assert!(b.can_move(Direction::Right));
    assert!(!b.can_move(Direction::Up));
    assert!(!b.can_move(Direction::Left));

    let b = board(
        [
            A, A, o, o, //
            o, o, o, o, //
            o, o, o, o, //
            o, o, o, o,
        ],
        0,
    );

    assert!(b.can_move(Direction::Down));
    assert!(b.can_move(Direction::Right));
    assert!(b.can_move(Direction::Left));
    assert!(!b.can_move(Direction::Up));

    let b = board(
        [
            A, A, B, C, //
            D, E, F, G, //
            H, I, J, K, //
            J, K, I, H,
        ],
        0,
    );

    assert!(b.can_move(Direction::Left));
    assert!(b.can_move(Direction::Right));
    assert!(!b.can_move(Direction::Down));
    assert!(!b.can_move(Direction::Up));
}

#[test]
fn has_possible_moves() {
    let b = board(
        [
            A, B, C, D, //
            E, F, G, H, //
            I, J, K, J, //
            H, I, J, o,
        ],
        0,
    );

    assert!(b.has_possible_moves());

    let b = board(
        [
            A, B, C, D, //
            E, F, G, H, //
            I, J, K, J, //
            H, I, A, A,
        ],
        0,
    );

    assert!(b.has_possible_moves());

    let b = board(
        [
            A, B, C, D, //
            E, F, G, H, //
            I, J, K, J, //
            H, I, B, A,
        ],
        0,
    );

    assert!(!b.has_possible_moves());
}
