use wdl_bot::scoring::score_guess;

#[test]
fn instant_correct_answer_scores_hundred() {
    assert_eq!(score_guess(true, 0, 0), 100);
}

#[test]
fn deadline_correct_answer_scores_ten() {
    assert_eq!(score_guess(true, 30, 0), 10);
}

#[test]
fn late_correct_answer_still_scores_ten() {
    assert_eq!(score_guess(true, 200, 0), 10);
}

#[test]
fn midway_correct_answer_scales_linearly() {
    assert_eq!(score_guess(true, 15, 0), 55);
    assert_eq!(score_guess(true, 10, 0), 70);
    assert_eq!(score_guess(true, 29, 0), 13);
}

#[test]
fn streak_bonus_adds_five_per_level() {
    assert_eq!(score_guess(true, 0, 1), 105);
    assert_eq!(score_guess(true, 0, 4), 120);
    assert_eq!(score_guess(true, 10, 3), 85);
}

#[test]
fn streak_bonus_saturates_at_twenty_five() {
    assert_eq!(score_guess(true, 0, 5), 125);
    assert_eq!(score_guess(true, 0, 6), 125);
    assert_eq!(score_guess(true, 0, 1000), 125);
    assert_eq!(score_guess(true, 30, 5), 35);
}

#[test]
fn incorrect_answer_costs_fixed_penalty() {
    assert_eq!(score_guess(false, 0, 0), -5);
    assert_eq!(score_guess(false, 30, 7), -5);
}

#[test]
fn correct_score_is_monotone_and_bounded_over_window() {
    let mut prev = i32::MAX;
    for e in 0..=30u32 {
        let s = score_guess(true, e, 0);
        assert!(s <= prev, "score rose from {prev} to {s} at {e}s");
        assert!((10..=100).contains(&s), "score {s} out of bounds at {e}s");
        prev = s;
    }
}
