use wdl_bot::dates::{days_between, days_in_month, parse_date, Date};
use wdl_bot::race::{
    check_upcoming_race, current_date, find_next_race, race_status, Circuit, F1Calendar, Location,
    MRData, Race, RaceCheck, RaceStatus, RaceTable,
};

fn race(name: &str, date: &str) -> Race {
    Race {
        race_name: name.to_string(),
        circuit: Circuit {
            circuit_name: "Circuit".to_string(),
            location: Location {
                locality: "Town".to_string(),
                country: "Country".to_string(),
            },
        },
        date: date.to_string(),
        time: "13:00:00Z".to_string(),
        round: "1".to_string(),
    }
}

fn date(year: u32, month: u32, day: u32) -> Date {
    Date { year, month, day }
}

#[test]
fn parse_date_accepts_the_plain_shape() {
    let d = parse_date("2026-01-01").unwrap();
    assert_eq!(d, date(2026, 1, 1));
    assert_eq!(parse_date("1970-01-01").unwrap(), date(1970, 1, 1));
}

#[test]
fn parse_date_knows_leap_years() {
    assert_eq!(parse_date("2024-02-29").unwrap(), date(2024, 2, 29));
    assert!(parse_date("2023-02-29").is_none());
    assert!(parse_date("2100-02-29").is_none());
    assert!(parse_date("2000-02-29").is_some());
}

#[test]
fn parse_date_rejects_malformed_text() {
    assert!(parse_date("2026-13-01").is_none());
    assert!(parse_date("2026-00-10").is_none());
    assert!(parse_date("2026-04-31").is_none());
    assert!(parse_date("2026-1-1").is_none());
    assert!(parse_date("2026/01/01").is_none());
    assert!(parse_date("26-01-01").is_none());
    assert!(parse_date("1969-12-31").is_none());
    assert!(parse_date("").is_none());
}

#[test]
fn day_numbers_count_from_the_epoch() {
    assert_eq!(date(1970, 1, 1).day_number(), 0);
    assert_eq!(date(1970, 1, 2).day_number(), 1);
    assert_eq!(date(1970, 2, 1).day_number(), 31);
    assert_eq!(date(1971, 1, 1).day_number(), 365);
    assert_eq!(date(1972, 3, 1).day_number(), 365 + 365 + 31 + 29);
}

#[test]
fn thursdays_repeat_every_seven_days() {
    // The epoch was a Thursday, and so was 2026-01-01.
    assert!(date(1970, 1, 1).is_thursday());
    assert!(!date(1970, 1, 2).is_thursday());
    assert!(date(1970, 1, 8).is_thursday());
    assert!(date(2026, 1, 1).is_thursday());
    assert!(!date(2026, 1, 2).is_thursday());
}

#[test]
fn days_between_is_signed() {
    assert_eq!(days_between(&date(2026, 1, 1), &date(2026, 1, 5)), 4);
    assert_eq!(days_between(&date(2026, 1, 5), &date(2026, 1, 1)), -4);
    assert_eq!(days_between(&date(2025, 12, 31), &date(2026, 1, 1)), 1);
}

#[test]
fn month_lengths_follow_the_calendar() {
    assert_eq!(days_in_month(2026, 1), 31);
    assert_eq!(days_in_month(2026, 2), 28);
    assert_eq!(days_in_month(2024, 2), 29);
    assert_eq!(days_in_month(2026, 4), 30);
    assert_eq!(days_in_month(2026, 12), 31);
}

#[test]
fn next_race_is_the_earliest_not_before_today() {
    let races = vec![
        race("Past", "2025-12-01"),
        race("Far", "2026-03-15"),
        race("Near", "2026-01-02"),
    ];
    let today = date(2026, 1, 1);
    let next = find_next_race(&races, &today).unwrap();
    assert_eq!(next.race_name, "Near");
}

#[test]
fn next_race_skips_unparseable_dates_and_may_be_none() {
    let races = vec![race("Broken", "someday"), race("Past", "2020-01-01")];
    let today = date(2026, 1, 1);
    assert!(find_next_race(&races, &today).is_none());
    let none: Vec<Race> = Vec::new();
    assert!(find_next_race(&none, &today).is_none());
}

#[test]
fn race_today_counts_as_upcoming_for_selection() {
    let races = vec![race("Today", "2026-01-01")];
    let today = date(2026, 1, 1);
    assert_eq!(find_next_race(&races, &today).unwrap().race_name, "Today");
}

#[test]
fn announcement_fires_on_thursday_within_four_days() {
    // 2026-01-01 is a Thursday; races tomorrow and in ten days.
    let races = vec![race("Soon", "2026-01-02"), race("Later", "2026-01-11")];
    let today = date(2026, 1, 1);
    match check_upcoming_race(&races, &today) {
        RaceCheck::Announce(r) => assert_eq!(r.race_name, "Soon"),
        RaceCheck::Skip => panic!("expected an announcement"),
    }
}

#[test]
fn announcement_skips_when_the_race_is_far_off() {
    let races = vec![race("Later", "2026-01-11")];
    let today = date(2026, 1, 1);
    assert!(matches!(check_upcoming_race(&races, &today), RaceCheck::Skip));
}

#[test]
fn announcement_skips_off_the_weekday_gate() {
    // 2026-01-02 is a Friday, with a race the next day.
    let races = vec![race("Soon", "2026-01-03")];
    let today = date(2026, 1, 2);
    assert!(matches!(check_upcoming_race(&races, &today), RaceCheck::Skip));
}

#[test]
fn announcement_skips_with_no_upcoming_race() {
    let races = vec![race("Past", "2020-05-05")];
    let today = date(2026, 1, 1);
    assert!(matches!(check_upcoming_race(&races, &today), RaceCheck::Skip));
}

#[test]
fn race_status_compares_against_today() {
    let today = date(2026, 1, 10);
    assert_eq!(race_status(&today, &date(2026, 1, 9)), RaceStatus::Completed);
    assert_eq!(race_status(&today, &date(2026, 1, 10)), RaceStatus::Today);
    assert_eq!(race_status(&today, &date(2026, 1, 11)), RaceStatus::Upcoming);
}

#[test]
fn the_calendar_model_nests_as_the_api_does() {
    let calendar = F1Calendar {
        mr_data: MRData {
            race_table: RaceTable { races: vec![race("Only", "2026-06-07")] },
        },
    };
    assert_eq!(calendar.mr_data.race_table.races.len(), 1);
    assert_eq!(calendar.mr_data.race_table.races[0].date, "2026-06-07");
}

#[test]
fn the_current_date_is_a_supported_one() {
    let today = current_date().expect("the clock reads a supported year");
    assert!(today.is_valid());
}
