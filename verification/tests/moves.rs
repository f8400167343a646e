use twenty48::board::Board;
use twenty48::geometry::Direction;
use twenty48::tile::Tile;

#[allow(non_upper_case_globals)]
const o: Tile = Tile::Empty;
const A: Tile = Tile::Occupied(1);
const B: Tile = Tile::Occupied(2);
const C: Tile = Tile::Occupied(3);
const D: Tile = Tile::Occupied(4);
const E: Tile = Tile::Occupied(5);
const F: Tile = Tile::Occupied(6);
const G: Tile = Tile::Occupied(7);
const H: Tile = Tile::Occupied(8);

const ALL: [Direction; 4] = [Direction::Up, Direction::Down, Direction::Left, Direction::Right];

fn grid(tiles: [Tile; 16], score: u32) -> Board {
    Board { tiles: tiles.to_vec(), score }
}

fn row(cells: [Tile; 4], score: u32) -> Board {
    let mut tiles = vec![o; 16];
    tiles[4..8].copy_from_slice(&cells);
    Board { tiles, score }
}

fn column(cells: [Tile; 4], score: u32) -> Board {
    let mut tiles = vec![o; 16];
    for (r, t) in cells.iter().enumerate() {
        tiles[4 * r + 2] = *t;
    }
    Board { tiles, score }
}

fn count(b: &Board) -> usize {
    b.tiles.iter().filter(|t| **t != o).count()
}

fn checked_move(b: &Board, d: Direction) -> Option<Board> {
    assert!(b.is_valid());
    assert!(b.move_fits(d));
    b.move_board(d)
}

fn samples() -> Vec<Board> {
    vec![
        grid([A, A, B, B, A, B, A, B, A, A, A, A, A, B, B, A], 0),
        grid([o, o, o, o, A, B, C, C, C, A, A, B, A, o, o, A], 7),
        grid([A, o, o, o, o, o, o, o, o, o, o, o, o, o, o, o], 0),
        grid([A, B, C, D, E, F, G, H, A, B, C, D, E, F, G, H], 100),
        grid([A, B, A, B, B, A, B, A, A, B, A, B, B, A, B, A], 3),
        grid([o, A, o, A, B, o, o, B, o, C, C, o, D, D, D, o], 12),
        grid([o; 16], 5),
        grid([H, H, H, H, H, H, H, H, H, H, H, H, H, H, H, H], 0),
    ]
}

#[test]
fn slide_without_merge() {
    assert_eq!(checked_move(&row([A, B, C, o], 5), Direction::Right), Some(row([o, A, B, C], 5)));
}

#[test]
fn slide_with_one_merge() {
    assert_eq!(
        checked_move(&row([A, B, C, C], 5), Direction::Right),
        Some(row([o, A, B, D], 5 + 16))
    );
}

#[test]
fn two_pairs_merge_apart() {
    assert_eq!(
        checked_move(&row([A, A, B, B], 0), Direction::Left),
        Some(row([B, C, o, o], 4 + 8))
    );
}

#[test]
fn lone_tile_in_the_corner() {
    let b = grid([A, o, o, o, o, o, o, o, o, o, o, o, o, o, o, o], 0);
    assert!(!b.can_move(Direction::Up));
    assert!(b.can_move(Direction::Down));
    assert!(!b.can_move(Direction::Left));
    assert!(b.can_move(Direction::Right));
}

#[test]
fn full_board_without_equal_neighbours() {
    let b = grid([A, B, A, B, B, A, B, A, A, B, A, B, B, A, B, A], 0);
    assert!(b.empty_tiles().is_empty());
    assert!(!b.has_possible_moves());
}

#[test]
fn four_equal_tiles_make_two() {
    assert_eq!(
        checked_move(&row([A, A, A, A], 0), Direction::Left),
        Some(row([B, B, o, o], 8))
    );
    assert_eq!(
        checked_move(&row([A, A, A, A], 0), Direction::Right),
        Some(row([o, o, B, B], 8))
    );
}

#[test]
fn a_merged_tile_does_not_merge_again() {
    assert_eq!(
        checked_move(&row([A, A, B, o], 0), Direction::Left),
        Some(row([B, B, o, o], 4))
    );
    assert_eq!(
        checked_move(&row([B, A, A, o], 0), Direction::Right),
        Some(row([o, o, B, B], 4))
    );
    assert_eq!(
        checked_move(&row([C, B, A, A], 0), Direction::Left),
        Some(row([C, B, B, o], 4))
    );
}

#[test]
fn three_equal_tiles_merge_at_the_edge() {
    assert_eq!(
        checked_move(&row([A, A, A, o], 0), Direction::Left),
        Some(row([B, A, o, o], 4))
    );
    assert_eq!(
        checked_move(&row([A, A, A, o], 0), Direction::Right),
        Some(row([o, o, A, B], 4))
    );
}

#[test]
fn tiles_merge_across_a_gap() {
    assert_eq!(
        checked_move(&row([A, o, o, A], 0), Direction::Left),
        Some(row([B, o, o, o], 4))
    );
    assert_eq!(
        checked_move(&column([C, o, C, o], 1), Direction::Down),
        Some(column([o, o, o, D], 17))
    );
}

#[test]
fn columns_slide_like_rows() {
    assert_eq!(
        checked_move(&column([A, A, B, B], 0), Direction::Up),
        Some(column([B, C, o, o], 12))
    );
    assert_eq!(
        checked_move(&column([A, A, B, B], 0), Direction::Down),
        Some(column([o, o, B, C], 12))
    );
    assert_eq!(checked_move(&column([o, A, o, B], 0), Direction::Up), Some(column([A, B, o, o], 0)));
}

#[test]
fn rows_do_not_mix() {
    let b = grid([o, o, o, A, A, o, o, o, o, o, o, o, o, o, o, o], 0);
    assert_eq!(
        checked_move(&b, Direction::Right),
        Some(grid([o, o, o, A, o, o, o, A, o, o, o, o, o, o, o, o], 0))
    );
    assert_eq!(
        checked_move(&b, Direction::Left),
        Some(grid([A, o, o, o, A, o, o, o, o, o, o, o, o, o, o, o], 0))
    );
}

#[test]
fn a_blocked_move_is_refused_and_changes_nothing() {
    for b in samples() {
        for d in ALL {
            let before = b.clone();
            if !b.can_move(d) {
                assert_eq!(checked_move(&b, d), None);
            }
            assert_eq!(b, before);
        }
    }
}

#[test]
fn can_move_says_what_move_board_does() {
    for b in samples() {
        for d in ALL {
            let moved = checked_move(&b, d);
            assert_eq!(b.can_move(d), moved.is_some());
            if let Some(after) = moved {
                assert_ne!(after.tiles, b.tiles);
                assert!(after.is_valid());
            }
        }
    }
}

#[test]
fn a_move_never_adds_a_tile() {
    for b in samples() {
        for d in ALL {
            if let Some(after) = checked_move(&b, d) {
                assert!(count(&after) <= count(&b));
                if after.score == b.score {
                    assert_eq!(count(&after), count(&b));
                } else {
                    assert!(count(&after) < count(&b));
                }
            }
        }
    }
}

#[test]
fn merges_take_one_tile_each() {
    let b = grid([A, A, B, B, A, B, A, B, A, A, A, A, A, B, B, A], 0);
    let after = checked_move(&b, Direction::Left).unwrap();
    assert_eq!(count(&b), 16);
    assert_eq!(count(&after), 16 - 5);
}

#[test]
fn the_score_never_falls() {
    for b in samples() {
        for d in ALL {
            if let Some(after) = checked_move(&b, d) {
                assert!(after.score >= b.score);
            }
        }
    }
}

#[test]
fn the_score_grows_by_the_merged_values() {
    let b = grid([o, A, o, A, B, o, o, B, o, C, C, o, D, D, D, o], 12);
    let after = checked_move(&b, Direction::Left).unwrap();
    assert_eq!(after.tiles, grid([B, o, o, o, C, o, o, o, D, o, o, o, E, D, o, o], 0).tiles);
    assert_eq!(after.score, 12 + 4 + 8 + 16 + 32);
}

#[test]
fn the_values_on_the_board_are_kept() {
    fn worth(b: &Board) -> u64 {
        b.tiles
            .iter()
            .map(|t| match t {
                Tile::Occupied(r) => 1u64 << r,
                _ => 0,
            })
            .sum()
    }
    for b in samples() {
        for d in ALL {
            if let Some(after) = checked_move(&b, d) {
                assert_eq!(worth(&after), worth(&b));
            }
        }
    }
}

#[test]
fn the_input_board_is_left_alone() {
    let b = grid([A, A, B, B, A, B, A, B, A, A, A, A, A, B, B, A], 9);
    let before = b.clone();
    let _ = checked_move(&b, Direction::Up);
    let _ = b.can_move(Direction::Down);
    let _ = b.has_possible_moves();
    let _ = b.add_tile();
    assert_eq!(b, before);
}

#[test]
fn has_possible_moves_is_an_empty_cell_or_a_move() {
    for b in samples() {
        let any_move = ALL.iter().any(|d| b.can_move(*d));
        assert_eq!(b.has_possible_moves(), !b.empty_tiles().is_empty() || any_move);
    }
}

#[test]
fn a_full_board_with_a_pair_goes_on() {
    let b = grid([A, B, A, B, B, A, B, A, A, B, A, B, B, A, C, C], 0);
    assert!(b.empty_tiles().is_empty());
    assert!(b.has_possible_moves());
    assert!(b.can_move(Direction::Left));
    assert!(b.can_move(Direction::Right));
    assert!(!b.can_move(Direction::Up));
    assert!(!b.can_move(Direction::Down));
}

#[test]
fn an_empty_board_cannot_move() {
    let b = Board::new();
    for d in ALL {
        assert!(!b.can_move(d));
        assert_eq!(checked_move(&b, d), None);
    }
    assert!(b.has_possible_moves());
}

#[test]
fn move_fits_looks_at_the_score_counter() {
    let b = row([A, A, o, o], u32::MAX - 4);
    assert!(b.move_fits(Direction::Left));
    assert_eq!(b.move_board(Direction::Left), Some(row([B, o, o, o], u32::MAX)));
    let b = row([A, A, o, o], u32::MAX - 3);
    assert!(!b.move_fits(Direction::Left));
    assert!(b.move_fits(Direction::Up));
    assert_eq!(b.move_board(Direction::Up).map(|after| after.score), Some(u32::MAX - 3));
}

#[test]
fn move_fits_looks_at_the_merged_values() {
    let top = Tile::Occupied(31);
    let b = row([top, top, o, o], 0);
    assert!(!b.move_fits(Direction::Left));
    assert!(b.move_fits(Direction::Down));
    let high = Tile::Occupied(30);
    let b = row([high, high, o, o], 0);
    assert!(b.move_fits(Direction::Left));
    assert_eq!(
        b.move_board(Direction::Left),
        Some(row([top, o, o, o], 2147483648))
    );
    let b = row([high, high, high, high], 0);
    assert!(!b.move_fits(Direction::Left));
    let huge = Tile::Occupied(254);
    let b = row([huge, huge, o, o], 0);
    assert!(b.is_valid());
    assert!(!b.move_fits(Direction::Right));
    assert!(b.can_move(Direction::Right));
}

#[test]
fn is_valid_asks_for_sixteen_settled_tiles() {
    assert!(Board::new().is_valid());
    assert!(grid([A, B, C, D, E, F, G, H, o, o, o, o, o, o, o, o], 3).is_valid());
    assert!(row([Tile::Occupied(254), o, o, o], 0).is_valid());
    assert!(!row([Tile::Occupied(255), o, o, o], 0).is_valid());
    assert!(!row([Tile::Occupied(0), o, o, o], 0).is_valid());
    assert!(!row([Tile::WillOccupy(2), o, o, o], 0).is_valid());
    assert!(!Board { tiles: vec![o; 15], score: 0 }.is_valid());
    assert!(!Board { tiles: vec![o; 17], score: 0 }.is_valid());
    assert!(!Board { tiles: Vec::new(), score: 0 }.is_valid());
}
