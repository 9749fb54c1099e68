use rusty2048_core::Score;

#[test]
fn test_score_creation() {
    let score = Score::new();
    assert_eq!(score.current(), 0);
    assert_eq!(score.best(), 0);
    assert_eq!(score.last_move(), 0);
}

#[test]
fn test_score_operations() {
    let mut score = Score::new();

    // Add merge points
    score.add_merge_points(4);
    assert_eq!(score.current(), 4);
    assert_eq!(score.best(), 4);
    assert_eq!(score.last_move(), 4);

    // Add more points
    score.add_merge_points(8);
    assert_eq!(score.current(), 12);
    assert_eq!(score.best(), 12);
    assert_eq!(score.last_move(), 8);

    // Reset current
    score.reset_current();
    assert_eq!(score.current(), 0);
    assert_eq!(score.best(), 12); // Best should remain
    assert_eq!(score.last_move(), 0);
}

#[test]
fn test_merge_score_calculation() {
    assert_eq!(Score::calculate_merge_score(2), 2);
    assert_eq!(Score::calculate_merge_score(4), 4);
    assert_eq!(Score::calculate_merge_score(8), 8);
    assert_eq!(Score::calculate_merge_score(2048), 2048);
}

#[test]
fn test_best_never_behind_current() {
    let mut score = Score::new();
    let mut last_best = 0;
    for v in [2u32, 4, 16, 2, 1024, 8] {
        score.add_merge_points(v);
        assert!(score.best() >= score.current());
        assert!(score.best() >= last_best);
        last_best = score.best();
    }
    score.reset_current();
    assert!(score.best() >= score.current());
    assert_eq!(score.best(), last_best);
}

#[test]
fn test_reset_all() {
    let mut score = Score::new();
    score.add_merge_points(64);
    score.reset_all();
    assert_eq!(score.current(), 0);
    assert_eq!(score.best(), 0);
    assert_eq!(score.last_move(), 0);
}

#[test]
fn test_current_saturates() {
    let mut score = Score::new();
    score.add_merge_points(u32::MAX);
    score.add_merge_points(16);
    assert_eq!(score.current(), u32::MAX);
    assert_eq!(score.best(), u32::MAX);
    assert_eq!(score.last_move(), 16);
}
