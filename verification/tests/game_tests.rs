use rusty2048_core::{Direction, Game, GameConfig, GameError, GameState, Tile};

/// Overwrite every cell of the game's board with the given rows.
fn set_board(game: &mut Game, rows: &[&[u32]]) {
    for (r, row) in rows.iter().enumerate() {
        for (c, v) in row.iter().enumerate() {
            game.board_mut().set_tile(r, c, Tile::new(*v)).unwrap();
        }
    }
}

fn board_sum(game: &Game) -> u64 {
    game.board().to_vec().iter().flatten().map(|v| *v as u64).sum()
}

#[test]
fn test_game_creation() {
    let config = GameConfig::default();
    let game = Game::new(config).unwrap();

    assert_eq!(game.state(), GameState::Playing);
    assert_eq!(game.moves(), 0);
    assert_eq!(game.board().size(), 4);
}

#[test]
fn test_basic_move() {
    let config = GameConfig::default();
    let mut game = Game::new(config).unwrap();

    // Try to move left
    let moved = game.make_move(Direction::Left).unwrap();
    // Should move if there are tiles that can be moved
    assert!(moved || !moved); // Either moved or didn't move is valid
}

#[test]
fn test_undo() {
    let mut config = GameConfig::default();
    config.allow_undo = true;

    let mut game = Game::new(config).unwrap();
    let initial_score = game.score().current();

    // Make a move
    game.make_move(Direction::Left).unwrap();

    // Undo the move
    game.undo().unwrap();

    assert_eq!(game.score().current(), initial_score);
}

#[test]
fn test_new_game_starts_with_two_tiles() {
    let mut config = GameConfig::default();
    config.seed = Some(9);
    let game = Game::new(config).unwrap();
    let grid = game.board().to_vec();
    let nonzero: Vec<u32> = grid.iter().flatten().copied().filter(|v| *v != 0).collect();
    assert_eq!(nonzero.len(), 2);
    assert!(nonzero.iter().all(|v| *v == 2 || *v == 4));
}

#[test]
fn test_basic_left_merge() {
    // Row [2, 2, 4, 0]: moving left merges the pair into a 4, awards 4
    // points, and compacts the row to [4, 4, 0, 0] before the spawn.
    let mut config = GameConfig::default();
    config.seed = Some(1);
    let mut game = Game::new(config).unwrap();
    set_board(
        &mut game,
        &[&[2, 2, 4, 0], &[0, 0, 0, 0], &[0, 0, 0, 0], &[0, 0, 0, 0]],
    );
    let sum_before = board_sum(&game);
    let moved = game.make_move(Direction::Left).unwrap();
    assert!(moved);
    assert_eq!(game.score().current(), 4);
    assert_eq!(game.score().last_move(), 4);
    assert_eq!(game.moves(), 1);
    let grid = game.board().to_vec();
    assert_eq!(grid[0][0], 4);
    assert_eq!(grid[0][1], 4);
    // The collapse conserves value; the one spawned tile adds 2 or 4.
    let sum_after = board_sum(&game);
    assert!(sum_after == sum_before + 2 || sum_after == sum_before + 4);
    // Exactly one tile beyond the two merged survivors: the spawn.
    let nonzero = grid.iter().flatten().filter(|v| **v != 0).count();
    assert_eq!(nonzero, 3);
}

#[test]
fn test_at_most_one_merge_per_tile() {
    // [2, 2, 2, 2] collapses to [4, 4], never to an 8; and [2, 2, 2, 0]
    // merges once, leaving a 4 and a 2.
    let mut config = GameConfig::default();
    config.seed = Some(2);
    let mut game = Game::new(config).unwrap();
    set_board(
        &mut game,
        &[&[2, 2, 2, 2], &[0, 0, 0, 0], &[0, 0, 0, 0], &[0, 0, 0, 0]],
    );
    assert!(game.make_move(Direction::Left).unwrap());
    let grid = game.board().to_vec();
    assert_eq!(grid[0][0], 4);
    assert_eq!(grid[0][1], 4);
    assert_eq!(game.score().current(), 8);

    let mut config2 = GameConfig::default();
    config2.seed = Some(3);
    let mut game2 = Game::new(config2).unwrap();
    set_board(
        &mut game2,
        &[&[2, 2, 2, 0], &[0, 0, 0, 0], &[0, 0, 0, 0], &[0, 0, 0, 0]],
    );
    assert!(game2.make_move(Direction::Left).unwrap());
    let grid2 = game2.board().to_vec();
    assert_eq!(grid2[0][0], 4);
    assert_eq!(grid2[0][1], 2);
    assert_eq!(game2.score().current(), 4);
}

#[test]
fn test_blocked_move() {
    // A fully-populated board where no direction changes anything: the
    // move is a no-op, nothing spawns, the counter stays put.
    let mut config = GameConfig::default();
    config.seed = Some(4);
    let mut game = Game::new(config).unwrap();
    let rows: &[&[u32]] = &[
        &[2, 4, 2, 4],
        &[4, 2, 4, 2],
        &[2, 4, 2, 4],
        &[4, 2, 4, 2],
    ];
    set_board(&mut game, rows);
    let before = game.board().to_vec();
    for d in [Direction::Up, Direction::Down, Direction::Left, Direction::Right] {
        let moved = game.make_move(d).unwrap();
        assert!(!moved);
        assert_eq!(game.moves(), 0);
        assert_eq!(game.board().to_vec(), before);
        assert_eq!(game.score().current(), 0);
    }
}

#[test]
fn test_win_condition() {
    // A move that brings a tile to the target value wins on that call.
    let mut config = GameConfig::default();
    config.seed = Some(5);
    let mut game = Game::new(config).unwrap();
    set_board(
        &mut game,
        &[&[1024, 1024, 0, 0], &[0, 0, 0, 0], &[0, 0, 0, 0], &[0, 0, 0, 0]],
    );
    assert_eq!(game.state(), GameState::Playing);
    assert!(game.make_move(Direction::Left).unwrap());
    assert_eq!(game.state(), GameState::Won);
    assert_eq!(game.board().to_vec()[0][0], 2048);
    // Once won, further moves are rejected.
    match game.make_move(Direction::Right) {
        Err(GameError::GameOver) => {}
        other => panic!("expected GameOver, got {:?}", other.is_ok()),
    }
}

#[test]
fn test_undo_restores_exactly() {
    // A move that moved, then an undo: board, current score and move
    // counter come back exactly; a second undo fails.
    let mut config = GameConfig::default();
    config.seed = Some(6);
    let mut game = Game::new(config).unwrap();
    set_board(
        &mut game,
        &[&[2, 2, 0, 0], &[0, 4, 0, 0], &[0, 0, 8, 0], &[0, 0, 0, 0]],
    );
    let board_before = game.board().to_vec();
    let score_before = game.score().current();
    let moves_before = game.moves();

    assert!(game.make_move(Direction::Left).unwrap());
    assert_ne!(game.board().to_vec(), board_before);

    game.undo().unwrap();
    assert_eq!(game.board().to_vec(), board_before);
    assert_eq!(game.score().current(), score_before);
    assert_eq!(game.moves(), moves_before);
    assert_eq!(game.state(), GameState::Playing);

    match game.undo() {
        Err(GameError::NoUndoAvailable) => {}
        _ => panic!("second undo in a row must fail"),
    }
}

#[test]
fn test_undo_disabled() {
    let mut config = GameConfig::default();
    config.allow_undo = false;
    config.seed = Some(7);
    let mut game = Game::new(config).unwrap();
    let _ = game.make_move(Direction::Left).unwrap();
    match game.undo() {
        Err(GameError::NoUndoAvailable) => {}
        _ => panic!("undo must fail when disabled"),
    }
}

#[test]
fn test_undo_preserves_best_score() {
    let mut config = GameConfig::default();
    config.seed = Some(8);
    let mut game = Game::new(config).unwrap();
    set_board(
        &mut game,
        &[&[2, 2, 0, 0], &[0, 0, 0, 0], &[0, 0, 0, 0], &[0, 0, 0, 0]],
    );
    assert!(game.make_move(Direction::Left).unwrap());
    let best = game.score().best();
    assert_eq!(best, 4);
    game.undo().unwrap();
    // The current score comes back; the best score keeps its mark.
    assert_eq!(game.score().current(), 0);
    assert_eq!(game.score().best(), best);
}

#[test]
fn test_new_game_preserves_best() {
    let mut config = GameConfig::default();
    config.seed = Some(10);
    let mut game = Game::new(config).unwrap();
    set_board(
        &mut game,
        &[&[4, 4, 0, 0], &[0, 0, 0, 0], &[0, 0, 0, 0], &[0, 0, 0, 0]],
    );
    assert!(game.make_move(Direction::Left).unwrap());
    let best = game.score().best();
    game.new_game().unwrap();
    assert_eq!(game.score().current(), 0);
    assert_eq!(game.score().best(), best);
    assert_eq!(game.moves(), 0);
    assert_eq!(game.state(), GameState::Playing);
}

#[test]
fn test_invalid_board_size_from_config() {
    let mut config = GameConfig::default();
    config.board_size = 0;
    match Game::new(config) {
        Err(GameError::InvalidBoardSize { size: 0 }) => {}
        _ => panic!("expected InvalidBoardSize"),
    }
}

#[test]
fn test_stats() {
    let mut config = GameConfig::default();
    config.seed = Some(11);
    let mut game = Game::new(config).unwrap();
    set_board(
        &mut game,
        &[&[2, 2, 0, 0], &[0, 0, 0, 0], &[0, 0, 0, 0], &[0, 0, 0, 0]],
    );
    assert!(game.make_move(Direction::Left).unwrap());
    let stats = game.stats();
    assert_eq!(stats.score, 4);
    assert_eq!(stats.best_score, 4);
    assert_eq!(stats.moves, 1);
    assert!(!stats.won);
    assert!(!stats.game_over);
}
