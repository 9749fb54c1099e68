use rusty2048_core::{Board, Tile};

#[test]
fn test_board_creation() {
    let board = Board::new(4).unwrap();
    assert_eq!(board.size(), 4);
    assert!(board.is_empty(0, 0).unwrap());
}

#[test]
fn test_invalid_board_size() {
    assert!(Board::new(0).is_err());
}

#[test]
fn test_tile_operations() {
    let mut tile = Tile::empty();
    assert!(tile.is_empty());

    tile = Tile::new(2);
    assert!(!tile.is_empty());
    assert_eq!(tile.value, 2);

    let other = Tile::new(2);
    assert!(tile.can_merge_with(&other));
    assert_eq!(tile.merge_with(&other), 4);
}

#[test]
fn test_board_operations() {
    let mut board = Board::new(4).unwrap();

    // Test setting and getting tiles
    board.set_tile(0, 0, Tile::new(2)).unwrap();
    assert_eq!(board.get_tile(0, 0).unwrap().value, 2);

    // Test invalid positions
    assert!(board.get_tile(4, 0).is_err());
    assert!(board.set_tile(0, 4, Tile::new(2)).is_err());

    // Test empty positions
    let empty = board.empty_positions();
    assert_eq!(empty.len(), 15); // 16 - 1 = 15 empty positions

    // Test max tile
    assert_eq!(board.max_tile(), 2);
}

#[test]
fn test_empty_positions_row_major_order() {
    let mut board = Board::new(2).unwrap();
    board.set_tile(0, 1, Tile::new(2)).unwrap();
    let empty = board.empty_positions();
    assert_eq!(empty, vec![(0, 0), (1, 0), (1, 1)]);
}

#[test]
fn test_count_tiles() {
    let mut board = Board::new(3).unwrap();
    board.set_tile(0, 0, Tile::new(2)).unwrap();
    board.set_tile(1, 1, Tile::new(2)).unwrap();
    board.set_tile(2, 2, Tile::new(4)).unwrap();
    assert_eq!(board.count_tiles(2), 2);
    assert_eq!(board.count_tiles(4), 1);
    assert_eq!(board.count_tiles(0), 6);
}

#[test]
fn test_terminal_detection() {
    // A full board with no equal adjacent pair has no valid move.
    let mut board = Board::new(2).unwrap();
    board.set_tile(0, 0, Tile::new(2)).unwrap();
    board.set_tile(0, 1, Tile::new(4)).unwrap();
    board.set_tile(1, 0, Tile::new(8)).unwrap();
    board.set_tile(1, 1, Tile::new(16)).unwrap();
    assert!(board.is_full());
    assert!(!board.has_valid_moves());

    // An empty cell makes a move possible.
    board.set_tile(1, 1, Tile::empty()).unwrap();
    assert!(board.has_valid_moves());

    // So does a full board with an equal adjacent pair.
    board.set_tile(1, 1, Tile::new(8)).unwrap();
    assert!(board.is_full());
    assert!(board.has_valid_moves());
}

#[test]
fn test_merge_with_declines_unequal_tiles() {
    let mut tile = Tile::new(4);
    let other = Tile::new(2);
    assert!(!tile.can_merge_with(&other));
    assert_eq!(tile.merge_with(&other), 0);
    assert_eq!(tile.value, 4);
}

#[test]
fn test_color_index() {
    assert_eq!(Tile::empty().color_index(), 0);
    assert_eq!(Tile::new(2).color_index(), 1);
    assert_eq!(Tile::new(2048).color_index(), 11);
}

#[test]
fn test_board_to_vec() {
    let mut board = Board::new(2).unwrap();
    board.set_tile(0, 1, Tile::new(2)).unwrap();
    board.set_tile(1, 0, Tile::new(4)).unwrap();
    assert_eq!(board.to_vec(), vec![vec![0, 2], vec![4, 0]]);
}
