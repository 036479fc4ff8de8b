// Race announcer: the season calendar as plain data, the next upcoming
// race, and the once-a-week announcement gate. Race dates arrive as
// `YYYY-MM-DD` text and are compared by their day number; the current date
// comes from the system clock behind a trusted wrapper.

use vstd::prelude::*;

use crate::dates::{
    date_of_text, day_number, days_between, parse_date, parseable_date, spec_days_in_month,
    spec_is_thursday, valid_date, Date,
};

verus! {

/// A season's calendar as the sports API hands it out.
#[derive(Clone, Debug)]
pub struct F1Calendar {
    pub mr_data: MRData,
}

#[derive(Clone, Debug)]
pub struct MRData {
    pub race_table: RaceTable,
}

#[derive(Clone, Debug)]
pub struct RaceTable {
    pub races: Vec<Race>,
}

/// One race: its date is `YYYY-MM-DD` text, its time may be empty.
#[derive(Clone, Debug)]
pub struct Race {
    pub race_name: String,
    pub circuit: Circuit,
    pub date: String,
    pub time: String,
    pub round: String,
}

#[derive(Clone, Debug)]
pub struct Circuit {
    pub circuit_name: String,
    pub location: Location,
}

#[derive(Clone, Debug)]
pub struct Location {
    pub locality: String,
    pub country: String,
}

/// The date a race's text denotes.
pub open spec fn race_date(r: Race) -> Date {
    date_of_text(r.date@)
}

/// A race qualifies as upcoming: its date parses and is not before today.
pub open spec fn race_qualifies(r: Race, today: Date) -> bool {
    &&& parseable_date(r.date@)
    &&& day_number(race_date(r)) >= day_number(today)
}

/// `race` is an upcoming race of the list and none comes earlier.
pub open spec fn is_earliest_qualifying(races: Seq<Race>, today: Date, race: Race) -> bool {
    &&& races.contains(race)
    &&& race_qualifies(race, today)
    &&& forall|j: int|
        0 <= j < races.len() && race_qualifies(#[trigger] races[j], today) ==> day_number(
            race_date(race),
        ) <= day_number(race_date(races[j]))
}

/// The announcement fires: today is the announcement weekday and some
/// upcoming race — hence also the earliest — is at most four days away.
pub open spec fn should_announce(races: Seq<Race>, today: Date) -> bool {
    &&& spec_is_thursday(today)
    &&& exists|i: int|
        0 <= i < races.len() && race_qualifies(#[trigger] races[i], today) && day_number(
            race_date(races[i]),
        ) - day_number(today) <= 4
}

fn clone_race(r: &Race) -> (c: Race)
    ensures
        c == *r,
{
    Race {
        race_name: r.race_name.clone(),
        circuit: Circuit {
            circuit_name: r.circuit.circuit_name.clone(),
            location: Location {
                locality: r.circuit.location.locality.clone(),
                country: r.circuit.location.country.clone(),
            },
        },
        date: r.date.clone(),
        time: r.time.clone(),
        round: r.round.clone(),
    }
}

/// Finds the earliest race not before `today`: the race list need not be
/// sorted, and races whose date does not parse are passed over.
#[verifier::loop_isolation(false)]
pub fn find_next_race(races: &Vec<Race>, today: &Date) -> (r: Option<Race>)
    requires
        valid_date(*today),
    ensures
        r is Some <==> exists|i: int|
            0 <= i < races@.len() && race_qualifies(#[trigger] races@[i], *today),
        match r {
            Some(race) => is_earliest_qualifying(races@, *today, race),
            None => true,
        },
{
    let n = races.len();
    let mut best: Option<usize> = None;
    let mut best_dn: u32 = 0;
    let mut i: usize = 0;
    while i < n
        invariant
            i <= n,
            match best {
                Some(b) => b < i && race_qualifies(races@[b as int], *today) && best_dn
                    == day_number(race_date(races@[b as int])) && forall|j: int|
                    0 <= j < i && race_qualifies(#[trigger] races@[j], *today) ==> best_dn
                        <= day_number(race_date(races@[j])),
                None => forall|j: int| 0 <= j < i ==> !race_qualifies(#[trigger] races@[j], *today),
            },
        decreases n - i,
    {
        match parse_date(races[i].date.as_str()) {
            Some(d) => {
                let dn = d.day_number();
                let tn = today.day_number();
                if dn >= tn {
                    match best {
                        Some(_) => {
                            if dn < best_dn {
                                best = Some(i);
                                best_dn = dn;
                            }
                        },
                        None => {
                            best = Some(i);
                            best_dn = dn;
                        },
                    }
                }
            },
            None => {},
        }
        i += 1;
    }
    match best {
        Some(b) => {
            let race = clone_race(&races[b]);
            proof {
                assert(races@.contains(races@[b as int]));
            }
            Some(race)
        },
        None => None,
    }
}

/// The announcer's verdict for one check.
pub enum RaceCheck {
    Announce(Race),
    Skip,
}

/// One announcement check: announce the earliest upcoming race when today
/// is Thursday and that race is at most four days away; otherwise skip.
/// Running the check on other weekdays skips, which keeps one announcement
/// per week per upcoming race.
pub fn check_upcoming_race(races: &Vec<Race>, today: &Date) -> (r: RaceCheck)
    requires
        valid_date(*today),
    ensures
        r is Announce <==> should_announce(races@, *today),
        match r {
            RaceCheck::Announce(race) => is_earliest_qualifying(races@, *today, race)
                && day_number(race_date(race)) - day_number(*today) <= 4,
            RaceCheck::Skip => true,
        },
{
    if !today.is_thursday() {
        return RaceCheck::Skip;
    }
    match find_next_race(races, today) {
        Some(race) => {
            match parse_date(race.date.as_str()) {
                Some(d) => {
                    let du = days_between(today, &d);
                    if du <= 4 {
                        proof {
                            let i = choose|i: int|
                                0 <= i < races@.len() && races@[i] == race;
                            assert(race_qualifies(races@[i], *today));
                        }
                        RaceCheck::Announce(race)
                    } else {
                        RaceCheck::Skip
                    }
                },
                None => {
                    proof {
                        assert(false);
                    }
                    RaceCheck::Skip
                },
            }
        },
        None => RaceCheck::Skip,
    }
}

/// A race's standing relative to today.
#[derive(Clone, Copy, Debug, PartialEq, Eq, Structural)]
pub enum RaceStatus {
    Completed,
    Today,
    Upcoming,
}

/// How a race's day relates to today, as the season listing shows it.
pub fn race_status(today: &Date, race_day: &Date) -> (s: RaceStatus)
    requires
        valid_date(*today),
        valid_date(*race_day),
    ensures
        s == RaceStatus::Completed <==> day_number(*race_day) < day_number(*today),
        s == RaceStatus::Today <==> day_number(*race_day) == day_number(*today),
        s == RaceStatus::Upcoming <==> day_number(*race_day) > day_number(*today),
{
    let rn = race_day.day_number();
    let tn = today.day_number();
    if rn < tn {
        RaceStatus::Completed
    } else if rn == tn {
        RaceStatus::Today
    } else {
        RaceStatus::Upcoming
    }
}

/// Relies on chrono::Local::now: the current civil date in the machine's
/// local time zone; chrono guarantees a real month and a day that exists
/// in it.
#[verifier::external_body]
fn local_today_raw() -> (r: (i64, u32, u32))
    ensures
        1 <= r.1 <= 12,
        1 <= r.2 <= spec_days_in_month(r.0 as int, r.1 as int),
{
    let now = chrono::Local::now().date_naive();
    (
        chrono::Datelike::year(&now) as i64,
        chrono::Datelike::month(&now),
        chrono::Datelike::day(&now),
    )
}

/// Today's local date, when it falls in the library's supported year range.
pub fn current_date() -> (r: Option<Date>)
    ensures
        match r {
            Some(d) => valid_date(d),
            None => true,
        },
{
    let (y, m, d) = local_today_raw();
    if y < 1970 || y > 9999 {
        return None;
    }
    Some(Date { year: y as u32, month: m, day: d })
}

} // verus!
