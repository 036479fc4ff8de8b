use wdl_bot::scores::{accuracy_percent, ScoreBoard};

#[test]
fn first_upsert_seeds_and_counts_the_attempt() {
    let mut board = ScoreBoard::new();
    let rec = board.upsert_score(42, true, 100);
    assert_eq!(rec.user_id, 42);
    assert_eq!(rec.total_attempts, 1);
    assert_eq!(rec.correct_count, 1);
    assert_eq!(rec.points, 100);
    assert_eq!(rec.current_streak, 1);
    assert_eq!(rec.best_streak, 1);
}

#[test]
fn incorrect_upsert_resets_streak_and_keeps_best() {
    let mut board = ScoreBoard::new();
    board.upsert_score(1, true, 50);
    board.upsert_score(1, true, 60);
    let rec = board.upsert_score(1, false, -5);
    assert_eq!(rec.total_attempts, 3);
    assert_eq!(rec.correct_count, 2);
    assert_eq!(rec.points, 105);
    assert_eq!(rec.current_streak, 0);
    assert_eq!(rec.best_streak, 2);
}

#[test]
fn upserts_for_different_users_do_not_mix() {
    let mut board = ScoreBoard::new();
    board.upsert_score(1, true, 70);
    board.upsert_score(2, false, -5);
    let a = board.fetch_score(1).unwrap();
    let b = board.fetch_score(2).unwrap();
    assert_eq!(a.points, 70);
    assert_eq!(b.points, -5);
    assert!(board.fetch_score(3).is_none());
}

#[test]
fn serialized_upsert_pair_loses_neither_update() {
    // Correct first, incorrect second: the last writer leaves streak 0.
    let mut board = ScoreBoard::new();
    board.upsert_score(9, true, 80);
    let rec = board.upsert_score(9, false, -5);
    assert_eq!(rec.total_attempts, 2);
    assert_eq!(rec.correct_count, 1);
    assert_eq!(rec.points, 75);
    assert_eq!(rec.current_streak, 0);

    // Incorrect first, correct second: the last writer leaves streak 1.
    let mut board = ScoreBoard::new();
    board.upsert_score(9, false, -5);
    let rec = board.upsert_score(9, true, 80);
    assert_eq!(rec.total_attempts, 2);
    assert_eq!(rec.correct_count, 1);
    assert_eq!(rec.points, 75);
    assert_eq!(rec.current_streak, 1);
}

#[test]
fn top_scores_orders_by_points_descending() {
    let mut board = ScoreBoard::new();
    board.upsert_score(1, true, 50);
    board.upsert_score(2, true, 100);
    board.upsert_score(3, false, -5);
    let top = board.top_scores(10);
    assert_eq!(top.len(), 3);
    assert_eq!(top[0].user_id, 2);
    assert_eq!(top[1].user_id, 1);
    assert_eq!(top[2].user_id, 3);
}

#[test]
fn top_scores_breaks_point_ties_by_accuracy() {
    let mut board = ScoreBoard::new();
    // User 1: 50 points from one attempt, all correct.
    board.upsert_score(1, true, 50);
    // User 2: 50 points from two attempts, one correct.
    board.upsert_score(2, true, 55);
    board.upsert_score(2, false, -5);
    let top = board.top_scores(10);
    assert_eq!(top[0].user_id, 1);
    assert_eq!(top[1].user_id, 2);
}

#[test]
fn top_scores_honours_the_limit() {
    let mut board = ScoreBoard::new();
    for u in 0..5i64 {
        board.upsert_score(u, true, 10 + u as i32);
    }
    let top = board.top_scores(2);
    assert_eq!(top.len(), 2);
    assert_eq!(top[0].user_id, 4);
    assert_eq!(top[1].user_id, 3);
    assert_eq!(board.top_scores(0).len(), 0);
    assert_eq!(board.top_scores(100).len(), 5);
}

#[test]
fn accuracy_percent_rounds_half_away_from_zero() {
    assert_eq!(accuracy_percent(1, 3), 33);
    assert_eq!(accuracy_percent(1, 2), 50);
    assert_eq!(accuracy_percent(1, 8), 13);
    assert_eq!(accuracy_percent(7, 8), 88);
    assert_eq!(accuracy_percent(0, 1), 0);
    assert_eq!(accuracy_percent(5, 5), 100);
}
