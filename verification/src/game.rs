// Game orchestration: the transitions of one guessing round. A round is
// started only when its context is idle and an eligible quote exists; the
// collection window is then fed guess events one by one; finalizing scores
// the attempts, yields the summary and returns the context to idle. The
// waiting itself — for guess events or for the deadline — is the
// transport's business and happens outside the library.

use vstd::prelude::*;

use crate::dispatch::BotError;
use crate::round::{board_can_absorb, round_wf, RoundGate, RoundState, RoundSummary};
use crate::round::{correct_lines_of, count_correct, incorrect_lines_of, spec_score_run};
use crate::scores::ScoreBoard;
use crate::select::{count_eligible, eligible, select_quote, Quote};

verus! {

/// Starts a round: claims the context and picks a random eligible quote.
/// Rejected while a round is active; with no eligible quote the context is
/// released again and nothing starts.
pub fn start_round(
    gate: &mut RoundGate,
    quotes: &Vec<Quote>,
    allow_list: &Vec<i64>,
    min_length: usize,
) -> (r: Result<RoundState, BotError>)
    ensures
        match r {
            Ok(round) => {
                &&& !old(gate).active
                &&& final(gate).active
                &&& round_wf(round)
                &&& round.attempts@.len() == 0
                &&& round.window_seconds == 30
                &&& quotes@.contains(round.quote)
                &&& eligible(round.quote, allow_list@, min_length as int)
            },
            Err(e) => {
                &&& (e == BotError::RoundAlreadyActive <==> old(gate).active)
                &&& (e == BotError::RoundAlreadyActive ==> *final(gate) == *old(gate))
                &&& (e == BotError::NotFound ==> !final(gate).active && count_eligible(
                    quotes@,
                    allow_list@,
                    min_length as int,
                ) == 0)
                &&& (e == BotError::RoundAlreadyActive || e == BotError::NotFound)
            },
        },
        r is Err <==> old(gate).active || count_eligible(quotes@, allow_list@, min_length as int)
            == 0,
{
    if !gate.try_begin() {
        return Err(BotError::RoundAlreadyActive);
    }
    match select_quote(quotes, allow_list, min_length) {
        Some(quote) => Ok(RoundState::new_round(quote)),
        None => {
            gate.finish();
            proof {
                crate::select::lemma_count_eligible_nonneg(
                    quotes@,
                    allow_list@,
                    min_length as int,
                );
            }
            Err(BotError::NotFound)
        },
    }
}

/// Finalizes a round and returns its context to idle: every attempt is
/// scored against the board in arrival order and the one summary for the
/// round comes back.
pub fn finish_round(gate: &mut RoundGate, round: RoundState, board: &mut ScoreBoard) -> (summary:
    RoundSummary)
    requires
        round_wf(round),
        old(board).wf(),
        board_can_absorb(old(board)@, round.attempts@.len() as int),
    ensures
        !final(gate).active,
        final(board).wf(),
        final(board)@ == spec_score_run(old(board)@, round.attempts@),
        summary.correct_lines@.len() == count_correct(round.attempts@),
        summary.incorrect_lines@.len() == round.attempts@.len() - count_correct(round.attempts@),
        summary.correct_lines@ == correct_lines_of(old(board)@, round.attempts@),
        summary.incorrect_lines@ == incorrect_lines_of(old(board)@, round.attempts@),
        round.attempts@.len() == 0 ==> final(board)@ == old(board)@,
{
    let summary = round.finalize_round(board);
    gate.finish();
    summary
}

} // verus!
