use wdl_bot::dispatch::BotError;
use wdl_bot::game::{finish_round, start_round};
use wdl_bot::round::RoundGate;
use wdl_bot::scores::ScoreBoard;
use wdl_bot::select::Quote;

fn quotes() -> Vec<Quote> {
    vec![Quote {
        id: 1,
        author_id: 42,
        author_name: "Alice".to_string(),
        text: "a quote long enough for the guessing game".to_string(),
        posted_at: 1_700_000_000,
    }]
}

#[test]
fn a_round_runs_from_start_to_summary() {
    let mut gate = RoundGate::new();
    let mut board = ScoreBoard::new();
    let allow: Vec<i64> = Vec::new();
    let none: Vec<i64> = Vec::new();

    let mut round = start_round(&mut gate, &quotes(), &allow, 20).unwrap();
    assert!(gate.active);
    assert!(round.handle_guess(7, "that sounds like alice", &none, 4));
    let summary = finish_round(&mut gate, round, &mut board);
    assert!(!gate.active);
    assert_eq!(summary.correct_lines.len(), 1);
    assert_eq!(summary.author_name, "Alice");
    assert_eq!(board.fetch_score(7).unwrap().correct_count, 1);
}

#[test]
fn a_second_round_is_rejected_while_one_collects() {
    let mut gate = RoundGate::new();
    let allow: Vec<i64> = Vec::new();
    let _round = start_round(&mut gate, &quotes(), &allow, 20).unwrap();
    match start_round(&mut gate, &quotes(), &allow, 20) {
        Err(BotError::RoundAlreadyActive) => {}
        _ => panic!("expected the second round to be rejected"),
    }
    assert!(gate.active);
}

#[test]
fn starting_without_an_eligible_quote_releases_the_gate() {
    let mut gate = RoundGate::new();
    let allow = vec![999];
    match start_round(&mut gate, &quotes(), &allow, 20) {
        Err(BotError::NotFound) => {}
        _ => panic!("expected no quote to be found"),
    }
    assert!(!gate.active);
    // The context is free for the next try.
    let no_allow: Vec<i64> = Vec::new();
    assert!(start_round(&mut gate, &quotes(), &no_allow, 20).is_ok());
}
