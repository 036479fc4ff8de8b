// Scoring engine: a pure function from a guess outcome, its timing and the
// guesser's prior streak to a point delta. The policy here is the documented
// one: a correct guess earns time-scaled base points plus a capped streak
// bonus; an incorrect guess costs a fixed 5-point penalty.

use vstd::prelude::*;

verus! {

/// Length of the collection window in seconds; base points scale over it.
pub const ROUND_WINDOW_SECONDS: u32 = 30;

/// Fixed penalty for an incorrect guess.
pub const INCORRECT_PENALTY: i32 = 5;

/// Base points for a correct guess after `elapsed` whole seconds: 100 points
/// for an instant answer, falling linearly to 10 points at the 30-second
/// deadline, and never below 10.
pub open spec fn spec_base_points(elapsed: int) -> int {
    if elapsed >= 30 {
        10
    } else {
        (30 - elapsed) * 3 + 10
    }
}

/// Streak bonus: 5 points per consecutive correct guess already held, capped
/// at 25 once the streak reaches 5.
pub open spec fn spec_streak_bonus(prior_streak: int) -> int {
    if prior_streak >= 5 {
        25
    } else {
        prior_streak * 5
    }
}

/// The full point delta for one guess.
pub open spec fn spec_score_guess(is_correct: bool, elapsed: int, prior_streak: int) -> int {
    if is_correct {
        spec_base_points(elapsed) + spec_streak_bonus(prior_streak)
    } else {
        -(INCORRECT_PENALTY as int)
    }
}

/// Computes the point delta for one guess: time-scaled base points plus the
/// capped streak bonus when correct, a fixed penalty when incorrect.
pub fn score_guess(is_correct: bool, elapsed_seconds: u32, prior_streak: u32) -> (delta: i32)
    ensures
        delta == spec_score_guess(is_correct, elapsed_seconds as int, prior_streak as int),
{
    if is_correct {
        let base: i32 = if elapsed_seconds >= 30 {
            10
        } else {
            (30 - elapsed_seconds as i32) * 3 + 10
        };
        let bonus: i32 = if prior_streak >= 5 {
            25
        } else {
            (prior_streak as i32) * 5
        };
        base + bonus
    } else {
        -INCORRECT_PENALTY
    }
}

/// Law: with no streak, the score of a correct guess never increases as the
/// answer arrives later within the window, and stays within [10, 100].
pub proof fn lemma_correct_score_monotonic(e1: int, e2: int)
    requires
        0 <= e1 <= e2 <= 30,
    ensures
        spec_score_guess(true, e2, 0) <= spec_score_guess(true, e1, 0),
        10 <= spec_score_guess(true, e2, 0) <= 100,
{
}

/// Law: once the prior streak reaches 5, the streak bonus saturates: every
/// such streak scores the same, exactly 25 points above the no-streak score.
pub proof fn lemma_streak_bonus_saturates(elapsed: int, s1: int, s2: int)
    requires
        s1 >= 5,
        s2 >= 5,
    ensures
        spec_score_guess(true, elapsed, s1) == spec_score_guess(true, elapsed, s2),
        spec_score_guess(true, elapsed, s1) == spec_score_guess(true, elapsed, 0) + 25,
{
}

/// The delta of any single guess lies within [-5, 125]; callers use this to
/// bound how far one round can move a stored point total.
pub proof fn lemma_score_guess_bounds(is_correct: bool, elapsed: int, prior_streak: int)
    requires
        elapsed >= 0,
        prior_streak >= 0,
    ensures
        -5 <= spec_score_guess(is_correct, elapsed, prior_streak) <= 125,
{
}

} // verus!
