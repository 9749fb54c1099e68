use rusty2048_core::{Direction, GameConfig, ReplayManager, ReplayMetadata, ReplayPlayer, ReplayRecorder};

#[test]
fn test_recorder_records_applied_moves() {
    let mut config = GameConfig::default();
    config.seed = Some(31);
    let mut recorder = ReplayRecorder::new(config).unwrap();
    let mut applied = 0;
    for d in [Direction::Left, Direction::Up, Direction::Right, Direction::Down] {
        if recorder.make_move(d).unwrap() {
            applied += 1;
        }
    }
    assert_eq!(recorder.replay_data().moves.len(), applied);
    assert_eq!(recorder.replay_data().total_moves as usize, applied);
    let data = recorder.stop_recording();
    assert_eq!(data.moves.len(), applied);
    // A stopped recorder rejects further moves.
    assert!(recorder.make_move(Direction::Left).is_err());
}

#[test]
fn test_recorded_moves_carry_board_snapshots() {
    let mut config = GameConfig::default();
    config.seed = Some(32);
    let mut recorder = ReplayRecorder::new(config).unwrap();
    let before = recorder.game().board().to_vec();
    let mut moved_dir = None;
    for d in [Direction::Left, Direction::Up, Direction::Right, Direction::Down] {
        if recorder.make_move(d).unwrap() {
            moved_dir = Some(d);
            break;
        }
    }
    let d = moved_dir.expect("a fresh game always has a move");
    let after = recorder.game().board().to_vec();
    let rec = &recorder.replay_data().moves[0];
    assert_eq!(rec.direction, d);
    assert_eq!(rec.board_before, before);
    assert_eq!(rec.board_after, after);
    assert_eq!(rec.move_number, 0);
}

#[test]
fn test_metadata_builders() {
    let m = ReplayMetadata::new("first run".to_string())
        .with_player_name("someone".to_string())
        .with_notes("a note".to_string());
    assert_eq!(m.name, "first run");
    assert_eq!(m.player_name.as_deref(), Some("someone"));
    assert_eq!(m.notes.as_deref(), Some("a note"));
    let mut config = GameConfig::default();
    config.seed = Some(33);
    let mut recorder = ReplayRecorder::new(config).unwrap();
    recorder.set_metadata(m);
    assert_eq!(recorder.replay_data().metadata.name, "first run");
}

#[test]
fn test_replay_manager() {
    let mut config = GameConfig::default();
    config.seed = Some(34);
    let mut recorder = ReplayRecorder::new(config).unwrap();
    let _ = recorder.make_move(Direction::Left).unwrap();
    let data = recorder.stop_recording();

    let mut manager = ReplayManager::new();
    assert_eq!(manager.replay_count(), 0);
    manager.add_replay(data);
    assert_eq!(manager.replay_count(), 1);
    assert!(manager.get_replay(0).is_some());
    assert!(manager.get_replay(1).is_none());
    assert_eq!(manager.get_replays().len(), 1);
    let removed = manager.remove_replay(0);
    assert!(removed.is_some());
    assert_eq!(manager.replay_count(), 0);
    assert!(manager.remove_replay(0).is_none());
    manager.add_replay(removed.unwrap());
    manager.clear_replays();
    assert_eq!(manager.replay_count(), 0);
}

#[test]
fn test_replay_playback_with_seed() {
    // With an explicit seed the playback game replays the recorded
    // direction sequence deterministically.
    let mut config = GameConfig::default();
    config.seed = Some(35);
    let mut recorder = ReplayRecorder::new(config).unwrap();
    let mut steps = 0;
    for d in [
        Direction::Left,
        Direction::Up,
        Direction::Right,
        Direction::Down,
        Direction::Left,
        Direction::Up,
    ] {
        if recorder.make_move(d).unwrap() {
            steps += 1;
        }
    }
    let final_board = recorder.game().board().to_vec();
    let data = recorder.stop_recording();

    let mut player = ReplayPlayer::new(data).unwrap();
    assert!(!player.is_playing());
    player.play();
    assert!(player.is_playing());
    assert_eq!(player.total_moves(), steps);
    while !player.is_finished() {
        assert!(player.next_move().unwrap());
    }
    assert!(!player.next_move().unwrap());
    assert_eq!(player.current_move_index(), steps);
    assert_eq!(player.current_game().board().to_vec(), final_board);

    // Step back and jump around.
    if steps > 0 {
        assert!(player.previous_move().unwrap());
        assert_eq!(player.current_move_index(), steps - 1);
        assert!(player.go_to_move(0).unwrap());
        assert_eq!(player.current_move_index(), 0);
        assert!(player.go_to_move(steps).unwrap());
        assert_eq!(player.current_game().board().to_vec(), final_board);
    }
    assert!(player.go_to_move(steps + 1).is_err());
    player.pause();
    player.stop();
    assert_eq!(player.current_move_index(), 0);
}
