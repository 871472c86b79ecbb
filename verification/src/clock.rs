//! The number of the grid of today, by the clock of the Pacific coast of the United States.

use chrono::{Datelike, TimeZone, Timelike, Utc};
use chrono_tz::US::Pacific;
use vstd::prelude::*;

use crate::calendar::Date;

verus! {

/// A date and a time of day on the Pacific coast.
#[derive(Debug, Clone, Copy, PartialEq, Eq, Structural)]
pub struct PacificClock {
    pub year: i32,
    pub month: u32,
    pub day: u32,
    pub hour: u32,
    pub minute: u32,
}

pub open spec fn date_of(year: i32, month: u32, day: u32) -> Date {
    Date { year: year as int, month: month as int, day: day as int }
}

impl PacificClock {
    pub open spec fn date(self) -> Date {
        date_of(self.year, self.month, self.day)
    }
}

pub const MINUTE_MILLIS: i64 = 60000;

pub const HOUR_MILLIS: i64 = 3600000;

pub const DAY_MILLIS: i64 = 86400000;

/// The first moment in the range of `chrono`, the start of the year -262143.
pub const FIRST_MILLIS: i64 = -8334601228800000;

/// The last moment in the range of `chrono`, to the millisecond, the end of the year 262142.
pub const LAST_MILLIS: i64 = 8210266876799999;

/// From 1969 on the clocks on the Pacific coast are seven or eight hours behind those of Greenwich,
/// and are changed at two in the morning. The tables of `chrono_tz` hold no change after 2099, and
/// leave the clocks eight hours behind from then on.
pub const FIRST_KNOWN_YEAR: i32 = 1969;

/// The last year in the range of `chrono`. All moments from the epoch to the end of that range fall
/// on dates of known years.
pub const LAST_KNOWN_YEAR: i32 = 262142;

/// The date of the first grid.
pub const FIRST_YEAR: i32 = 2022;

pub const FIRST_MONTH: u32 = 1;

pub const FIRST_DAY: u32 = 8;

/// What the clocks on the Pacific coast show `millis` milliseconds after the epoch, by the tables
/// of `chrono_tz`. `None` where the moment is out of the range of `chrono`.
pub uninterp spec fn pacific_clock_at(millis: i64) -> Option<PacificClock>;

/// The milliseconds after the epoch at which the clocks on the Pacific coast show a date and a
/// time of day, by the tables of `chrono_tz`. `None` where they never do, or do so twice.
pub uninterp spec fn pacific_instant_of(
    year: i32,
    month: u32,
    day: u32,
    hour: u32,
    minute: u32,
    second: u32,
) -> Option<i64>;

pub open spec fn is_known_date(date: Date) -> bool {
    crate::calendar::is_date(date) && FIRST_KNOWN_YEAR <= date.year <= LAST_KNOWN_YEAR
}

/// The moment at which a date starts on the Pacific coast.
pub open spec fn midnight_of(date: Date) -> Option<i64> {
    pacific_instant_of(date.year as i32, date.month as u32, date.day as u32, 0, 0, 0)
}

/// Whether `midnight` is a moment at which a date can start on the Pacific coast: as many days after
/// the epoch as the calendar has, and seven or eight hours later.
pub open spec fn is_pacific_midnight(midnight: Option<i64>, date: Date) -> bool {
    let start = crate::calendar::day_number(date) * DAY_MILLIS;
    match midnight {
        Some(millis) => millis == start + 7 * HOUR_MILLIS || millis == start + 8 * HOUR_MILLIS,
        None => false,
    }
}

/// Whether `date` is the date at `millis`: the dates that have started by then are those up to it,
/// and it is one that can have started, seven or eight hours after midnight in Greenwich, while the
/// next one can be still to come.
pub open spec fn is_date_at(millis: i64, date: Date) -> bool {
    let days = crate::calendar::day_number(date);
    &&& is_known_date(date)
    &&& days * DAY_MILLIS + 7 * HOUR_MILLIS <= millis
    &&& millis < (days + 1) * DAY_MILLIS + 8 * HOUR_MILLIS
    &&& forall|other: Date|
        is_known_date(other) ==> match #[trigger] midnight_of(other) {
            Some(start) => start <= millis <==> crate::calendar::day_number(other) <= days,
            None => true,
        }
}

/// Whether the time of day that a clock shows is the time since its date started: to the minute in
/// the first two hours of the date, and one hour or more from then on.
pub open spec fn is_time_at(millis: i64, clock: PacificClock) -> bool {
    match midnight_of(clock.date()) {
        Some(start) => {
            let shown = clock.hour * HOUR_MILLIS + clock.minute * MINUTE_MILLIS;
            if millis < start + 2 * HOUR_MILLIS {
                shown <= millis - start < shown + MINUTE_MILLIS
            } else {
                shown >= HOUR_MILLIS
            }
        },
        None => true,
    }
}

/// Whether a clock shows the date at `millis`, and the time of day.
pub open spec fn is_shown_at(shown: Option<PacificClock>, millis: i64) -> bool {
    match shown {
        Some(clock) => is_date_at(millis, clock.date()) && is_time_at(millis, clock),
        None => false,
    }
}

/// `Utc::now`, as milliseconds after the epoch. It measures from the epoch, so the result is not
/// negative, and it is a moment in the range of `chrono`; nothing else is said of what the clock of
/// the machine shows.
#[verifier::external_body]
fn utc_now_millis() -> (r: i64)
    ensures
        0 <= r <= LAST_MILLIS,
{
    Utc::now().timestamp_millis()
}

/// `DateTime::with_timezone`, on the moment that `TimeZone::timestamp_millis_opt` gives: the fields
/// of the local time that `Datelike` and `Timelike` document, within the ranges that they document.
/// There is such a moment exactly where it is in the range of `chrono`. In the known years, by the tables of `chrono_tz`, the local date
/// is the last one that has started, since the clocks are never put back to an earlier date, and the
/// time of day is the time since then until two, when the clocks may be put forward or back an hour.
#[verifier::external_body]
fn pacific_clock(millis: i64) -> (r: Option<PacificClock>)
    ensures
        r == pacific_clock_at(millis),
        r is Some <==> FIRST_MILLIS <= millis <= LAST_MILLIS,
        r matches Some(clock) ==> 1 <= clock.month <= 12 && 1 <= clock.day <= 31 && clock.hour < 24
            && clock.minute < 60,
        0 <= millis <= LAST_MILLIS ==> is_shown_at(r, millis),
{
    let local = Utc.timestamp_millis_opt(millis).single()?.with_timezone(&Pacific);
    Some(PacificClock {
        year: local.year(),
        month: local.month(),
        day: local.day(),
        hour: local.hour(),
        minute: local.minute(),
    })
}

/// `TimeZone::with_ymd_and_hms` for the Pacific coast, as milliseconds after the epoch, where it
/// gives a single moment. `chrono` counts the days by the Gregorian calendar. In the known years, by
/// the tables of `chrono_tz`, every date starts at a single moment, since no change of the clocks
/// falls on midnight, and the clocks are then seven or eight hours behind.
#[verifier::external_body]
fn pacific_instant(
    year: i32,
    month: u32,
    day: u32,
    hour: u32,
    minute: u32,
    second: u32,
) -> (r: Option<i64>)
    ensures
        r == pacific_instant_of(year, month, day, hour, minute, second),
        is_known_date(date_of(year, month, day)) && hour == 0 && minute == 0 && second == 0
            ==> is_pacific_midnight(r, date_of(year, month, day)),
{
    let local = Pacific.with_ymd_and_hms(year, month, day, hour, minute, second).single()?;
    Some(local.timestamp_millis())
}

/// The number of days in a span of milliseconds, rounded to the nearest, and away from zero from
/// the middle between two.
pub open spec fn rounded_days(millis: int) -> int {
    if millis >= 0 {
        (millis + DAY_MILLIS / 2) / (DAY_MILLIS as int)
    } else {
        -((-millis + DAY_MILLIS / 2) / (DAY_MILLIS as int))
    }
}

/// The number of the grid of a day that starts at `midnight`, where the day of the first grid
/// starts at `first_midnight`.
pub open spec fn grid_of_day(midnight: int, first_midnight: int) -> int {
    rounded_days(midnight - first_midnight) + 1
}

/// The number of the grid of the day, `millis` milliseconds after the epoch.
pub open spec fn grid_number_at(millis: i64) -> Option<i64> {
    match pacific_clock_at(millis) {
        Some(clock) => match (
            pacific_instant_of(clock.year, clock.month, clock.day, 0, 0, 0),
            pacific_instant_of(FIRST_YEAR, FIRST_MONTH, FIRST_DAY, 0, 0, 0),
        ) {
            (Some(midnight), Some(first)) => Some(
                grid_of_day(midnight as int, first as int) as i64,
            ),
            _ => None,
        },
        None => None,
    }
}

/// The number of the grid of a day, from the moments at which that day and the day of the first
/// grid start.
pub fn grid_from_midnights(midnight: i64, first_midnight: i64) -> (r: i64)
    ensures
        r == grid_of_day(midnight as int, first_midnight as int),
{
    let span: i128 = midnight as i128 - first_midnight as i128;
    let day: i128 = DAY_MILLIS as i128;
    let days: i128 = if span >= 0 {
        (span + day / 2) / day
    } else {
        -((day / 2 - span) / day)
    };
    (days + 1) as i64
}

/// The number of the grid of a date: the days since the first one, and one.
pub open spec fn grid_of_date(date: Date) -> int {
    crate::calendar::day_number(date) - crate::calendar::day_number(
        date_of(FIRST_YEAR, FIRST_MONTH, FIRST_DAY),
    ) + 1
}

/// Whether the grid at `millis` is that of the date on the Pacific coast, which has a midnight.
pub open spec fn is_grid_of_the_date(millis: i64) -> bool {
    match (pacific_clock_at(millis), grid_number_at(millis)) {
        (Some(clock), Some(grid)) => {
            &&& is_date_at(millis, clock.date())
            &&& midnight_of(clock.date()) is Some
            &&& grid == grid_of_date(clock.date())
        },
        _ => false,
    }
}

/// The number of the grid of the day, `millis` milliseconds after the epoch. `None` where the
/// moment is out of range, or the tables give no single midnight for its day, which does not happen
/// in the known years.
pub fn sutom_grid_number_at(millis: i64) -> (r: Option<i64>)
    ensures
        r == grid_number_at(millis),
        pacific_clock_at(millis) is Some <==> FIRST_MILLIS <= millis <= LAST_MILLIS,
        0 <= millis <= LAST_MILLIS ==> is_grid_of_the_date(millis),
{
    let clock = pacific_clock(millis)?;
    let midnight = pacific_instant(clock.year, clock.month, clock.day, 0, 0, 0)?;
    let first = pacific_instant(FIRST_YEAR, FIRST_MONTH, FIRST_DAY, 0, 0, 0)?;
    proof {
        if 0 <= millis <= LAST_MILLIS {
            let days = grid_of_date(clock.date()) - 1;
            law_one_grid_a_day(
                midnight as int,
                first as int,
                days,
                midnight - first - days * DAY_MILLIS,
            );
        }
    }
    Some(grid_from_midnights(midnight, first))
}

/// Whether `now` is a moment that a reading of the machine's clock gave.
pub closed spec fn was_read(now: i64) -> bool {
    call_ensures(utc_now_millis, (), now)
}

/// The number of the grid of today.
pub fn sutom_grid_number() -> (r: i64)
    ensures
        exists|now: i64|
            0 <= now <= LAST_MILLIS && #[trigger] grid_number_at(now) == Some(r)
                && is_grid_of_the_date(now) && was_read(now),
{
    sutom_grid_number_at(utc_now_millis()).unwrap()
}

/// What the clocks on the Pacific coast show now.
pub fn pacific_now() -> (r: PacificClock)
    ensures
        exists|now: i64|
            0 <= now <= LAST_MILLIS && #[trigger] pacific_clock_at(now) == Some(r) && is_shown_at(
                Some(r),
                now,
            ) && was_read(now),
        r.hour < 24 && r.minute < 60,
{
    pacific_clock(utc_now_millis()).unwrap()
}

/// Each day has its own grid: the day that starts `days` days after the first one, give or take
/// less than half a day for the change of the clocks, has the grid `days + 1`.
pub proof fn law_one_grid_a_day(midnight: int, first_midnight: int, days: int, shift: int)
    requires
        midnight == first_midnight + days * DAY_MILLIS + shift,
        -DAY_MILLIS < 2 * shift < DAY_MILLIS,
    ensures
        grid_of_day(midnight, first_midnight) == days + 1,
{
}

/// All moments of one day on the Pacific coast have the same grid.
pub proof fn law_grid_is_that_of_the_day(a: i64, b: i64)
    requires
        pacific_clock_at(a) matches Some(x) && pacific_clock_at(b) matches Some(y) && x.year
            == y.year && x.month == y.month && x.day == y.day,
    ensures
        grid_number_at(a) == grid_number_at(b),
{
}

/// At any moment, the grid is one more than the days between the midnight of its date and that of the
/// first grid, to the nearest day. There is none where the moment has no date or a midnight is
/// missing, and only then.
pub proof fn law_grid_counts_the_days(millis: i64, days: int)
    requires
        i64::MIN < days < i64::MAX,
    ensures
        ({
            let date = pacific_clock_at(millis)->0.date();
            let first = midnight_of(Date { year: 2022, month: 1, day: 8 });
            let known = pacific_clock_at(millis) is Some && midnight_of(date) is Some
                && first is Some;
            &&& grid_number_at(millis) is Some <==> known
            &&& known && -DAY_MILLIS < 2 * (midnight_of(date)->0 - first->0 - days * DAY_MILLIS)
                < DAY_MILLIS ==> grid_number_at(millis) == Some((days + 1) as i64)
        }),
{
    if pacific_clock_at(millis) is Some {
        let date = pacific_clock_at(millis)->0.date();
        let first = midnight_of(Date { year: 2022, month: 1, day: 8 });
        if midnight_of(date) is Some && first is Some {
            let (a, b) = (midnight_of(date)->0, first->0);
            if -DAY_MILLIS < 2 * (a - b - days * DAY_MILLIS) < DAY_MILLIS {
                law_one_grid_a_day(a as int, b as int, days, a - b - days * DAY_MILLIS);
            }
        }
    }
}

/// A later day never has an earlier grid.
pub proof fn law_grids_do_not_go_back(midnight: int, later: int, first_midnight: int)
    requires
        midnight <= later,
    ensures
        grid_of_day(midnight, first_midnight) <= grid_of_day(later, first_midnight),
{
}

/// The clocks show zero hours and zero minutes in the first minute of a date, and only then.
pub proof fn law_midnight_is_the_first_minute(millis: i64, clock: PacificClock, start: i64)
    requires
        is_shown_at(Some(clock), millis),
        midnight_of(clock.date()) == Some(start),
    ensures
        start <= millis,
        crate::bot::is_midnight(clock.hour, clock.minute) <==> millis < start + MINUTE_MILLIS,
{
}

/// At a moment that falls on the same date whether the clocks are seven or eight hours behind, the
/// grid is one more than the days that have passed since the first, which is day 19000 after the
/// epoch.
pub proof fn law_grid_of_a_moment(millis: i64, days: int)
    requires
        is_grid_of_the_date(millis),
        (19000 + days) * DAY_MILLIS + 8 * HOUR_MILLIS <= millis,
        millis < (19001 + days) * DAY_MILLIS + 7 * HOUR_MILLIS,
    ensures
        grid_number_at(millis) == Some((days + 1) as i64),
{
    assert(crate::calendar::day_number(date_of(FIRST_YEAR, FIRST_MONTH, FIRST_DAY)) == 19000);
}

/// Grids follow the calendar. At a later moment the grid is the same or a later one. It is the same
/// exactly as long as the date on the Pacific coast is, and the grid of the next date is the next
/// one, whether the clocks are changed in between or not.
pub proof fn law_grids_follow_the_calendar(a: i64, b: i64)
    requires
        is_grid_of_the_date(a),
        is_grid_of_the_date(b),
        a <= b,
    ensures
        ({
            let (x, y) = (pacific_clock_at(a)->0.date(), pacific_clock_at(b)->0.date());
            let (m, n) = (grid_number_at(a)->0, grid_number_at(b)->0);
            &&& m <= n
            &&& m == n <==> x == y
            &&& y == crate::calendar::next_date(x) ==> n == m + 1
        }),
{
    let (x, y) = (pacific_clock_at(a)->0.date(), pacific_clock_at(b)->0.date());
    assert(midnight_of(x) is Some);
    if crate::calendar::day_number(x) == crate::calendar::day_number(y) {
        crate::calendar::law_dates_have_their_own_numbers(x, y);
    }
    crate::calendar::law_next_date_has_next_number(x);
}

} // verus!
