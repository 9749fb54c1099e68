use rusty2048_core::{
    AIAlgorithm, AIGameController, AIPlayer, Direction, Game, GameConfig, Tile,
};

/// Overwrite every cell of the game's board with the given rows.
fn set_board(game: &mut Game, rows: &[&[u32]]) {
    for (r, row) in rows.iter().enumerate() {
        for (c, v) in row.iter().enumerate() {
            game.board_mut().set_tile(r, c, Tile::new(*v)).unwrap();
        }
    }
}

#[test]
fn test_greedy_picks_strictly_best_direction() {
    // Left merges the two 4s for 8 points; Up and Down merge the two 2s
    // for 4; the greedy player keeps the strictly largest.
    let mut config = GameConfig::default();
    config.seed = Some(21);
    let mut game = Game::new(config).unwrap();
    set_board(
        &mut game,
        &[&[4, 4, 0, 0], &[0, 0, 0, 0], &[0, 0, 2, 0], &[0, 0, 2, 0]],
    );
    let player = AIPlayer::new(AIAlgorithm::Greedy);
    assert_eq!(player.get_best_move(&game).unwrap(), Direction::Left);
}

#[test]
fn test_greedy_falls_back_to_up() {
    // On a blocked board no direction moves anything: the fallback is Up.
    let mut config = GameConfig::default();
    config.seed = Some(22);
    let mut game = Game::new(config).unwrap();
    let rows: &[&[u32]] = &[
        &[2, 4, 2, 4],
        &[4, 2, 4, 2],
        &[2, 4, 2, 4],
        &[4, 2, 4, 2],
    ];
    set_board(&mut game, rows);
    let player = AIPlayer::new(AIAlgorithm::Greedy);
    assert_eq!(player.get_best_move(&game).unwrap(), Direction::Up);
}

#[test]
fn test_greedy_ties_keep_first() {
    // Up, Down, Left and Right all score 4; the first trial order wins.
    let mut config = GameConfig::default();
    config.seed = Some(23);
    let mut game = Game::new(config).unwrap();
    set_board(
        &mut game,
        &[&[0, 0, 0, 0], &[0, 2, 0, 0], &[0, 2, 0, 0], &[0, 0, 0, 0]],
    );
    let player = AIPlayer::new(AIAlgorithm::Greedy);
    assert_eq!(player.get_best_move(&game).unwrap(), Direction::Up);
}

#[test]
fn test_expectimax_returns_a_usable_direction() {
    let mut config = GameConfig::default();
    config.seed = Some(24);
    let mut game = Game::new(config).unwrap();
    set_board(
        &mut game,
        &[&[2, 2, 4, 0], &[0, 4, 0, 0], &[0, 0, 8, 0], &[0, 0, 0, 2]],
    );
    let player = AIPlayer::new(AIAlgorithm::Expectimax).with_max_depth(2);
    let d = player.get_best_move(&game).unwrap();
    // The chosen direction applies as a real move.
    assert!(game.make_move(d).unwrap());
}

#[test]
fn test_mcts_returns_a_moving_direction() {
    let mut config = GameConfig::default();
    config.seed = Some(25);
    let mut game = Game::new(config).unwrap();
    set_board(
        &mut game,
        &[&[2, 2, 0, 0], &[0, 4, 0, 0], &[0, 0, 0, 0], &[0, 0, 0, 0]],
    );
    let player = AIPlayer::new(AIAlgorithm::MCTS).with_simulation_count(20);
    let d = player.get_best_move(&game).unwrap();
    // MCTS only ever recommends a direction that changes the board.
    assert!(game.make_move(d).unwrap());
}

#[test]
fn test_mcts_without_iterations_fails() {
    // With no iterations the root never gains a child and the strategy
    // reports that it has no move to offer.
    let mut config = GameConfig::default();
    config.seed = Some(26);
    let game = Game::new(config).unwrap();
    let player = AIPlayer::new(AIAlgorithm::MCTS).with_simulation_count(0);
    assert!(player.get_best_move(&game).is_err());
}

#[test]
fn test_player_defaults() {
    let greedy = AIPlayer::new(AIAlgorithm::Greedy);
    let expectimax = AIPlayer::new(AIAlgorithm::Expectimax);
    let mcts = AIPlayer::new(AIAlgorithm::MCTS);
    // The builders replace the per-strategy defaults.
    let tuned = expectimax.with_max_depth(2).with_simulation_count(3);
    let _ = (greedy, mcts, tuned);
}

#[test]
fn test_controller_plays_ticks() {
    let mut config = GameConfig::default();
    config.seed = Some(27);
    let mut controller = AIGameController::new(config, AIAlgorithm::Greedy).unwrap();
    assert_eq!(controller.algorithm(), AIAlgorithm::Greedy);
    controller.set_auto_play(true);
    controller.set_move_delay(0);
    for _ in 0..5 {
        let r = controller.make_ai_move();
        assert!(r.is_ok());
    }
    assert!(controller.game().moves() <= 5);
    controller.new_game().unwrap();
    assert_eq!(controller.game().moves(), 0);
}

#[test]
fn test_controller_game_mut_mirrors_external_game() {
    let mut config = GameConfig::default();
    config.seed = Some(28);
    let mut controller = AIGameController::new(config, AIAlgorithm::Greedy).unwrap();
    set_board(
        controller.game_mut(),
        &[&[2, 2, 0, 0], &[0, 0, 0, 0], &[0, 0, 0, 0], &[0, 0, 0, 0]],
    );
    assert!(controller.make_ai_move().unwrap());
    assert_eq!(controller.game().score().current(), 4);
}
