use twenty48::board::{Board, HIGH_TILE_OUT_OF, HIGH_TILE_SHARE};
use twenty48::tile::Tile;

#[allow(non_upper_case_globals)]
const o: Tile = Tile::Empty;
const A: Tile = Tile::Occupied(1);
const B: Tile = Tile::Occupied(2);

fn grid(tiles: [Tile; 16], score: u32) -> Board {
    Board { tiles: tiles.to_vec(), score }
}

#[test]
fn new_board_is_empty() {
    let b = Board::new();
    assert_eq!(b.tiles, vec![o; 16]);
    assert_eq!(b.score, 0);
    assert_eq!(b.empty_tiles(), (0..16).collect::<Vec<usize>>());
}

#[test]
fn empty_tiles_come_in_ascending_order() {
    let b = grid([A, o, B, o, o, A, A, A, B, B, o, B, A, A, A, o], 0);
    assert_eq!(b.empty_tiles(), vec![1, 3, 4, 10, 15]);
    let b = grid([A; 16], 0);
    assert_eq!(b.empty_tiles(), Vec::<usize>::new());
}

#[test]
fn spawn_on_an_empty_board_adds_one_low_tile() {
    for _ in 0..200 {
        let b = Board::new().add_tile().unwrap();
        assert_eq!(b.score, 0);
        assert_eq!(b.tiles.len(), 16);
        let tiles: Vec<&Tile> = b.tiles.iter().filter(|t| **t != o).collect();
        assert_eq!(tiles.len(), 1);
        assert!(*tiles[0] == A || *tiles[0] == B);
    }
}

#[test]
fn spawn_fills_an_empty_cell_only() {
    let start = grid([A, o, B, o, o, A, A, A, B, B, o, B, A, A, A, o], 40);
    for _ in 0..200 {
        let b = start.add_tile().unwrap();
        assert_eq!(b.score, 40);
        let changed: Vec<usize> = (0..16).filter(|i| b.tiles[*i] != start.tiles[*i]).collect();
        assert_eq!(changed.len(), 1);
        assert_eq!(start.tiles[changed[0]], o);
        assert!(b.tiles[changed[0]] == A || b.tiles[changed[0]] == B);
    }
}

#[test]
fn spawn_on_a_full_board_is_refused() {
    let b = grid([A, B, A, B, B, A, B, A, A, B, A, B, B, A, B, A], 8);
    let before = b.clone();
    assert_eq!(b.add_tile(), None);
    assert_eq!(b.add_tile_with(0, false), None);
    assert_eq!(b.add_tile_with(7, true), None);
    assert_eq!(b, before);
}

#[test]
fn spawn_reaches_every_empty_cell_and_both_ranks() {
    let start = grid([A, o, A, A, A, A, A, A, A, A, o, A, A, A, A, A], 0);
    let mut seen = [false; 4];
    for _ in 0..2000 {
        let b = start.add_tile().unwrap();
        let at = (0..16).find(|i| b.tiles[*i] != start.tiles[*i]).unwrap();
        let cell = if at == 1 { 0 } else { 1 };
        let rank = if b.tiles[at] == A { 0 } else { 1 };
        seen[2 * cell + rank] = true;
    }
    assert_eq!(seen, [true; 4]);
}

#[test]
fn the_pick_counts_round_the_empty_cells() {
    let start = grid([A, o, B, o, o, A, A, A, B, B, o, B, A, A, A, o], 3);
    let cells = [1, 3, 4, 10, 15];
    for pick in 0..12 {
        let b = start.add_tile_with(pick, false).unwrap();
        let mut expected = start.clone();
        expected.tiles[cells[pick % 5]] = A;
        assert_eq!(b, expected);
    }
    let b = start.add_tile_with(usize::MAX, false).unwrap();
    let mut expected = start.clone();
    expected.tiles[cells[usize::MAX % 5]] = A;
    assert_eq!(b, expected);
}

#[test]
fn a_high_draw_gives_rank_two() {
    let start = grid([A, o, B, o, o, A, A, A, B, B, o, B, A, A, A, o], 3);
    let b = start.add_tile_with(2, true).unwrap();
    let mut expected = start.clone();
    expected.tiles[4] = B;
    assert_eq!(b, expected);
}

#[test]
fn one_new_tile_in_ten_is_high() {
    assert_eq!(HIGH_TILE_SHARE, 1);
    assert_eq!(HIGH_TILE_OUT_OF, 10);
    let mut high = 0;
    let rounds = 4000;
    for _ in 0..rounds {
        let b = Board::new().add_tile().unwrap();
        if b.tiles.iter().any(|t| *t == B) {
            high += 1;
        }
    }
    assert!(high > rounds / 25 && high < rounds / 5);
}
