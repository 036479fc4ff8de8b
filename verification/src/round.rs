// Round coordinator: one timed guessing round. While the round collects,
// guess events are judged and recorded — a user with a correct guess on
// record is ignored from then on, while incorrect guesses may be retried.
// Finalizing scores every recorded attempt in arrival order against the
// score board and yields the round summary.

use vstd::prelude::*;

use crate::scores::{
    board_wf, can_absorb, spec_apply_outcome, spec_get, spec_upsert, ScoreBoard, ScoreRecord,
};
use crate::scoring::{
    lemma_score_guess_bounds, score_guess, spec_score_guess, ROUND_WINDOW_SECONDS,
};
use crate::select::Quote;
use crate::text::{judge_guess, spec_guess_correct};

verus! {

/// One recorded guess attempt.
#[derive(Clone, Copy, Debug, PartialEq, Eq, Structural)]
pub struct Attempt {
    pub user_id: i64,
    pub is_correct: bool,
    pub elapsed_seconds: u32,
}

/// A user has a correct attempt on record.
pub open spec fn has_correct(s: Seq<Attempt>, u: i64) -> bool
    decreases s.len(),
{
    if s.len() == 0 {
        false
    } else {
        (s.last().user_id == u && s.last().is_correct) || has_correct(s.drop_last(), u)
    }
}

/// Number of correct attempts on record.
pub open spec fn count_correct(s: Seq<Attempt>) -> int
    decreases s.len(),
{
    if s.len() == 0 {
        0
    } else {
        count_correct(s.drop_last()) + if s.last().is_correct {
            1int
        } else {
            0int
        }
    }
}

proof fn lemma_has_correct_push(s: Seq<Attempt>, a: Attempt, u: i64)
    ensures
        has_correct(s.push(a), u) == ((a.user_id == u && a.is_correct) || has_correct(s, u)),
{
    assert(s.push(a).drop_last() =~= s);
    assert(s.push(a).last() == a);
}

/// The state of one collecting round: the target quote, the collection
/// window, the attempts in arrival order, and the users whose correct
/// guess already resolved them.
pub struct RoundState {
    pub quote: Quote,
    pub window_seconds: u32,
    pub attempts: Vec<Attempt>,
    pub resolved_users: Vec<i64>,
}

/// Round invariant: the resolved set holds exactly the users with a correct
/// attempt on record, without duplicates, and every attempt arrived within
/// the window.
pub open spec fn round_wf(r: RoundState) -> bool {
    &&& forall|u: i64|
        #[trigger] r.resolved_users@.contains(u) <==> has_correct(r.attempts@, u)
    &&& forall|i: int, j: int|
        0 <= i < j < r.resolved_users@.len() ==> r.resolved_users@[i] != r.resolved_users@[j]
    &&& forall|i: int|
        0 <= i < r.attempts@.len() ==> (#[trigger] r.attempts@[i]).elapsed_seconds
            <= r.window_seconds
}

/// A line of the round summary: one scored attempt with the point delta it
/// earned and the user's record as stored after it.
pub struct GuessLine {
    pub user_id: i64,
    pub is_correct: bool,
    pub points_delta: i32,
    pub record: ScoreRecord,
}

/// The summary of a finalized round: the reveal, then one line per correct
/// attempt and one per incorrect attempt, in arrival order.
pub struct RoundSummary {
    pub author_id: i64,
    pub author_name: String,
    pub posted_at: i64,
    pub correct_lines: Vec<GuessLine>,
    pub incorrect_lines: Vec<GuessLine>,
}

/// What scoring one attempt does to the board: one upsert for the attempt's
/// user, with the delta the scoring engine gives for the user's stored
/// streak at that moment.
pub open spec fn spec_score_step(s: Seq<ScoreRecord>, a: Attempt) -> Seq<ScoreRecord> {
    spec_upsert(
        s,
        a.user_id,
        a.is_correct,
        spec_score_guess(
            a.is_correct,
            a.elapsed_seconds as int,
            spec_get(s, a.user_id).current_streak as int,
        ),
    )
}

/// The board after scoring the attempts in order.
pub open spec fn spec_score_run(s: Seq<ScoreRecord>, attempts: Seq<Attempt>) -> Seq<ScoreRecord>
    decreases attempts.len(),
{
    if attempts.len() == 0 {
        s
    } else {
        spec_score_step(spec_score_run(s, attempts.drop_last()), attempts.last())
    }
}

/// The summary line one attempt yields against a given board state: the
/// scoring engine's delta for the user's stored streak, and the user's
/// record with the outcome applied.
pub open spec fn spec_line_of(s: Seq<ScoreRecord>, a: Attempt) -> GuessLine {
    let delta = spec_score_guess(
        a.is_correct,
        a.elapsed_seconds as int,
        spec_get(s, a.user_id).current_streak as int,
    );
    GuessLine {
        user_id: a.user_id,
        is_correct: a.is_correct,
        points_delta: delta as i32,
        record: spec_apply_outcome(spec_get(s, a.user_id), a.is_correct, delta),
    }
}

/// The summary lines of the correct attempts, in arrival order, each taken
/// against the board as it stood when the attempt was scored.
pub open spec fn correct_lines_of(s: Seq<ScoreRecord>, attempts: Seq<Attempt>) -> Seq<GuessLine>
    decreases attempts.len(),
{
    if attempts.len() == 0 {
        Seq::empty()
    } else {
        let prev = correct_lines_of(s, attempts.drop_last());
        if attempts.last().is_correct {
            prev.push(spec_line_of(spec_score_run(s, attempts.drop_last()), attempts.last()))
        } else {
            prev
        }
    }
}

/// The summary lines of the incorrect attempts, likewise.
pub open spec fn incorrect_lines_of(s: Seq<ScoreRecord>, attempts: Seq<Attempt>) -> Seq<GuessLine>
    decreases attempts.len(),
{
    if attempts.len() == 0 {
        Seq::empty()
    } else {
        let prev = incorrect_lines_of(s, attempts.drop_last());
        if !attempts.last().is_correct {
            prev.push(spec_line_of(spec_score_run(s, attempts.drop_last()), attempts.last()))
        } else {
            prev
        }
    }
}

/// Every record the board could hand out — stored or still to be seeded —
/// can take `n` more outcomes without overflow.
pub open spec fn board_can_absorb(s: Seq<ScoreRecord>, n: int) -> bool {
    forall|u: i64| can_absorb(#[trigger] spec_get(s, u), n)
}

/// Scoring one attempt keeps the board well formed and uses up one unit of
/// absorption headroom.
proof fn lemma_score_step_absorb(s: Seq<ScoreRecord>, a: Attempt, n: int)
    requires
        board_wf(s),
        board_can_absorb(s, n),
        n >= 1,
    ensures
        board_wf(spec_score_step(s, a)),
        board_can_absorb(spec_score_step(s, a), n - 1),
{
    let delta = spec_score_guess(
        a.is_correct,
        a.elapsed_seconds as int,
        spec_get(s, a.user_id).current_streak as int,
    );
    lemma_score_guess_bounds(
        a.is_correct,
        a.elapsed_seconds as int,
        spec_get(s, a.user_id).current_streak as int,
    );
    crate::scores::lemma_upsert_get(s, a.user_id, a.is_correct, delta);
    let t = spec_score_step(s, a);
    assert forall|u: i64| can_absorb(#[trigger] spec_get(t, u), n - 1) by {
        if u == a.user_id {
            assert(can_absorb(spec_get(s, u), n));
        } else {
            assert(spec_get(t, u) == spec_get(s, u));
        }
    }
}

impl RoundState {
    /// Starts a round on the given quote: a fresh 30-second collection
    /// window with nothing recorded.
    pub fn new_round(quote: Quote) -> (r: RoundState)
        ensures
            round_wf(r),
            r.quote == quote,
            r.window_seconds == 30,
            r.attempts@.len() == 0,
            r.resolved_users@.len() == 0,
    {
        RoundState {
            quote,
            window_seconds: ROUND_WINDOW_SECONDS,
            attempts: Vec::new(),
            resolved_users: Vec::new(),
        }
    }

    /// Handles one guess event during collection. A user already resolved
    /// by a correct guess is ignored; any other guess is judged against the
    /// target quote and recorded, and a correct one resolves the user.
    #[verifier::loop_isolation(false)]
    pub fn handle_guess(
        &mut self,
        user_id: i64,
        content: &str,
        mentioned_ids: &Vec<i64>,
        elapsed_seconds: u32,
    ) -> (accepted: bool)
        requires
            round_wf(*old(self)),
            elapsed_seconds <= old(self).window_seconds,
        ensures
            round_wf(*final(self)),
            final(self).quote == old(self).quote,
            final(self).window_seconds == old(self).window_seconds,
            accepted == !old(self).resolved_users@.contains(user_id),
            !accepted ==> *final(self) == *old(self),
            accepted ==> final(self).attempts@ == old(self).attempts@.push(
                (Attempt {
                    user_id,
                    is_correct: spec_guess_correct(
                        old(self).quote.author_id,
                        old(self).quote.author_name@,
                        mentioned_ids@,
                        content@,
                    ),
                    elapsed_seconds,
                }),
            ),
    {
        let n = self.resolved_users.len();
        let mut i: usize = 0;
        while i < n
            invariant
                i <= n,
                forall|k: int| 0 <= k < i ==> self.resolved_users@[k] != user_id,
            decreases n - i,
        {
            if self.resolved_users[i] == user_id {
                return false;
            }
            i += 1;
        }
        let is_correct = judge_guess(
            self.quote.author_id,
            self.quote.author_name.as_str(),
            mentioned_ids,
            content,
        );
        let attempt = Attempt { user_id, is_correct, elapsed_seconds };
        let ghost old_attempts = self.attempts@;
        let ghost old_resolved = self.resolved_users@;
        self.attempts.push(attempt);
        if is_correct {
            self.resolved_users.push(user_id);
        }
        proof {
            assert forall|u: i64| #[trigger] self.resolved_users@.contains(u) implies has_correct(
                self.attempts@,
                u,
            ) by {
                lemma_has_correct_push(old_attempts, attempt, u);
                if is_correct {
                    if u != user_id {
                        let k = choose|k: int|
                            0 <= k < self.resolved_users@.len() && self.resolved_users@[k] == u;
                        assert(old_resolved[k] == u);
                        assert(old_resolved.contains(u));
                    }
                } else {
                    assert(old_resolved.contains(u));
                }
            }
            assert forall|u: i64| has_correct(self.attempts@, u) implies self.resolved_users@.contains(
                u,
            ) by {
                lemma_has_correct_push(old_attempts, attempt, u);
                if is_correct && u == user_id {
                    assert(self.resolved_users@[old_resolved.len() as int] == u);
                } else {
                    assert(old_resolved.contains(u));
                    let k = choose|k: int| 0 <= k < old_resolved.len() && old_resolved[k] == u;
                    assert(self.resolved_users@[k] == u);
                }
            }
        }
        true
    }

    /// Finalizes the round: scores every recorded attempt in arrival order,
    /// upserts each into the board, and partitions the results into correct
    /// and incorrect summary lines. With no attempts the summary has no
    /// lines of either kind and the board is untouched.
    #[verifier::loop_isolation(false)]
    pub fn finalize_round(self, board: &mut ScoreBoard) -> (summary: RoundSummary)
        requires
            round_wf(self),
            old(board).wf(),
            board_can_absorb(old(board)@, self.attempts@.len() as int),
        ensures
            final(board).wf(),
            final(board)@ == spec_score_run(old(board)@, self.attempts@),
            summary.correct_lines@.len() == count_correct(self.attempts@),
            summary.incorrect_lines@.len() == self.attempts@.len() - count_correct(
                self.attempts@,
            ),
            summary.correct_lines@ == correct_lines_of(old(board)@, self.attempts@),
            summary.incorrect_lines@ == incorrect_lines_of(old(board)@, self.attempts@),
            summary.author_id == self.quote.author_id,
            summary.author_name == self.quote.author_name,
            summary.posted_at == self.quote.posted_at,
            self.attempts@.len() == 0 ==> final(board)@ == old(board)@,
    {
        let n = self.attempts.len();
        let mut correct_lines: Vec<GuessLine> = Vec::new();
        let mut incorrect_lines: Vec<GuessLine> = Vec::new();
        let mut i: usize = 0;
        while i < n
            invariant
                i <= n,
                board.wf(),
                board@ == spec_score_run(old(board)@, self.attempts@.take(i as int)),
                board_can_absorb(board@, n - i),
                correct_lines@.len() == count_correct(self.attempts@.take(i as int)),
                incorrect_lines@.len() == i - count_correct(self.attempts@.take(i as int)),
                correct_lines@ == correct_lines_of(old(board)@, self.attempts@.take(i as int)),
                incorrect_lines@ == incorrect_lines_of(old(board)@, self.attempts@.take(i as int)),
            decreases n - i,
        {
            let a = self.attempts[i];
            let prior_streak: u64 = match board.fetch_score(a.user_id) {
                Some(rec) => rec.current_streak,
                None => 0,
            };
            let capped_streak: u32 = if prior_streak >= 5 {
                5
            } else {
                prior_streak as u32
            };
            proof {
                assert(spec_score_guess(a.is_correct, a.elapsed_seconds as int, capped_streak as int)
                    == spec_score_guess(
                    a.is_correct,
                    a.elapsed_seconds as int,
                    spec_get(board@, a.user_id).current_streak as int,
                ));
            }
            let delta = score_guess(a.is_correct, a.elapsed_seconds, capped_streak);
            proof {
                lemma_score_guess_bounds(
                    a.is_correct,
                    a.elapsed_seconds as int,
                    capped_streak as int,
                );
                assert(can_absorb(spec_get(board@, a.user_id), n - i));
                lemma_score_step_absorb(board@, a, n - i);
            }
            let ghost board_before = board@;
            let rec = board.upsert_score(a.user_id, a.is_correct, delta);
            let line = GuessLine {
                user_id: a.user_id,
                is_correct: a.is_correct,
                points_delta: delta,
                record: rec,
            };
            if a.is_correct {
                correct_lines.push(line);
            } else {
                incorrect_lines.push(line);
            }
            proof {
                assert(board@ == spec_score_step(board_before, a));
                assert(line == spec_line_of(board_before, a));
                assert(self.attempts@.take(i + 1).drop_last() =~= self.attempts@.take(i as int));
                assert(self.attempts@.take(i + 1).last() == self.attempts@[i as int]);
            }
            i += 1;
        }
        proof {
            assert(self.attempts@.take(n as int) =~= self.attempts@);
        }
        RoundSummary {
            author_id: self.quote.author_id,
            author_name: self.quote.author_name,
            posted_at: self.quote.posted_at,
            correct_lines,
            incorrect_lines,
        }
    }
}

/// Per-context flag that at most one round collects at a time. Claiming it
/// while a round is active is rejected and changes nothing.
pub struct RoundGate {
    pub active: bool,
}

impl RoundGate {
    pub fn new() -> (g: RoundGate)
        ensures
            !g.active,
    {
        RoundGate { active: false }
    }

    /// Claims the context for a new round; fails exactly when one is active.
    pub fn try_begin(&mut self) -> (ok: bool)
        ensures
            ok == !old(self).active,
            final(self).active,
    {
        if self.active {
            false
        } else {
            self.active = true;
            true
        }
    }

    /// Releases the context once the round has finalized.
    pub fn finish(&mut self)
        ensures
            !final(self).active,
    {
        self.active = false;
    }
}

} // verus!
