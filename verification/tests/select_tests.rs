use wdl_bot::dispatch::{
    dispatch_command, parse_command, should_archive, Action, BotError, Command,
};
use wdl_bot::roll::RollTrigger;
use wdl_bot::select::{select_quote, Quote};

fn quote(id: i64, author_id: i64, text: &str) -> Quote {
    Quote {
        id,
        author_id,
        author_name: format!("user{author_id}"),
        text: text.to_string(),
        posted_at: 0,
    }
}

#[test]
fn allow_list_is_never_escaped_across_repeated_draws() {
    let quotes = vec![
        quote(1, 1, "the first quote, long enough to matter"),
        quote(2, 2, "the second quote, also long enough"),
        quote(3, 3, "the third quote, long enough as well"),
        quote(4, 2, "another one from the second author"),
    ];
    let allow = vec![2];
    for _ in 0..100 {
        let q = select_quote(&quotes, &allow, 1).expect("an eligible quote exists");
        assert_eq!(q.author_id, 2);
    }
}

#[test]
fn empty_allow_list_accepts_every_author() {
    let quotes = vec![quote(1, 1, "long enough to be chosen here")];
    let allow: Vec<i64> = Vec::new();
    let q = select_quote(&quotes, &allow, 1).unwrap();
    assert_eq!(q.id, 1);
}

#[test]
fn minimum_length_filters_short_quotes() {
    let quotes = vec![quote(1, 1, "short"), quote(2, 1, "this one is comfortably long enough")];
    let allow: Vec<i64> = Vec::new();
    for _ in 0..50 {
        let q = select_quote(&quotes, &allow, 20).unwrap();
        assert_eq!(q.id, 2);
    }
    assert!(select_quote(&quotes, &allow, 200).is_none());
}

#[test]
fn no_eligible_quote_yields_none() {
    let quotes = vec![quote(1, 1, "whatever length this has")];
    let allow = vec![9];
    assert!(select_quote(&quotes, &allow, 1).is_none());
    let empty: Vec<Quote> = Vec::new();
    let no_allow: Vec<i64> = Vec::new();
    assert!(select_quote(&empty, &no_allow, 1).is_none());
}

#[test]
fn roll_trigger_counts_to_the_threshold() {
    let mut t = RollTrigger::new(3, 0);
    assert!(!t.observe_message());
    assert!(!t.observe_message());
    // Threshold reached, but a zero chance never fires.
    assert!(!t.observe_message());
    assert_eq!(t.counter, 0);
}

#[test]
fn roll_trigger_with_full_chance_fires_on_every_reset() {
    let mut t = RollTrigger::new(2, 100);
    assert!(!t.observe_message());
    assert!(t.observe_message());
    assert_eq!(t.counter, 0);
    assert!(!t.observe_message());
    assert!(t.observe_message());
}

#[test]
fn roll_trigger_with_threshold_one_rolls_each_message() {
    let mut t = RollTrigger::new(1, 100);
    assert!(t.observe_message());
    assert!(t.observe_message());
}

#[test]
fn command_names_parse_to_their_commands() {
    assert_eq!(parse_command("guessquote"), Some(Command::StartGame));
    assert_eq!(parse_command("scoreboard"), Some(Command::Scoreboard));
    assert_eq!(parse_command("version"), Some(Command::Version));
    assert_eq!(parse_command("f1"), Some(Command::RaceInfo));
    assert_eq!(parse_command("karaoke"), None);
    assert_eq!(parse_command(""), None);
}

#[test]
fn dispatcher_rejects_a_game_only_while_one_runs() {
    assert_eq!(dispatch_command(Command::StartGame, false), Action::BeginRound);
    assert_eq!(dispatch_command(Command::StartGame, true), Action::RejectAlreadyActive);
    assert_eq!(dispatch_command(Command::Scoreboard, true), Action::ShowScoreboard);
    assert_eq!(dispatch_command(Command::Version, false), Action::ShowVersion);
    assert_eq!(dispatch_command(Command::RaceInfo, true), Action::ShowRaceInfo);
}

#[test]
fn errors_carry_their_user_messages() {
    assert_eq!(
        BotError::Store.user_message(),
        "Sorry, something went wrong talking to the store."
    );
    assert_eq!(BotError::Transport.user_message(), "The message could not be sent.");
    assert_eq!(BotError::NotFound.user_message(), "Nothing matched that request.");
    assert_eq!(
        BotError::RoundAlreadyActive.user_message(),
        "A round is already running in this channel."
    );
}

#[test]
fn archive_filter_takes_the_open_interval() {
    assert!(should_archive(5, 0, 10));
    assert!(!should_archive(0, 0, 10));
    assert!(!should_archive(10, 0, 10));
    assert!(!should_archive(-1, 0, 10));
}
