//! Shared results: how a message is read for one.

use vstd::prelude::*;

use crate::duration::count_secs;
use crate::pattern::{captures, SHARE_PATTERN};
use crate::player::Score;
use crate::text::parse_number;

verus! {

/// `s` without its spoiler bars: pairs of `|`, taken from the left.
pub open spec fn without_bars(s: Seq<char>) -> Seq<char>
    decreases s.len(),
{
    if s.len() == 0 {
        s
    } else if s.len() >= 2 && s[0] == '|' && s[1] == '|' {
        without_bars(s.skip(2))
    } else {
        seq![s[0]] + without_bars(s.skip(1))
    }
}

/// The number that a group holds: a numeral that fits in a `usize`.
pub open spec fn number_in(group: Option<Seq<char>>) -> Option<usize> {
    match group {
        Some(text) => if crate::text::is_numeral(text) && crate::text::value(text) <= usize::MAX {
            Some(crate::text::value(text) as usize)
        } else {
            None
        },
        None => None,
    }
}

/// The hours that a group holds, which are none where it took no part in the match.
pub open spec fn hours_in(group: Option<Seq<char>>) -> Option<usize> {
    match group {
        Some(_) => number_in(group),
        None => Some(0),
    }
}

/// The grid and the score that the groups of a shared result stand for. `None` where one of the
/// numbers is not made of the digits `0` to `9`, or does not fit in a `usize`.
pub open spec fn score_in(groups: Seq<Option<Seq<char>>>) -> Option<(usize, Score)> {
    if groups.len() != 6 {
        None
    } else {
        match (
            number_in(groups[1]),
            number_in(groups[2]),
            hours_in(groups[3]),
            number_in(groups[4]),
            number_in(groups[5]),
        ) {
            (Some(id), Some(tries), Some(hours), Some(minutes), Some(seconds)) => {
                let secs = crate::duration::counted_secs(
                    hours as nat,
                    minutes as nat,
                    seconds as nat,
                );
                if secs <= usize::MAX {
                    Some((id, Score { tries, secs: secs as usize }))
                } else {
                    None
                }
            },
            _ => None,
        }
    }
}

/// The groups that are captured from a message.
pub open spec fn share_groups(message: Seq<char>) -> crate::pattern::Groups {
    crate::pattern::regex_captures(SHARE_PATTERN@, without_bars(message))
}

/// Whether the numbers of the shared result in a message, if it holds one, can be read.
pub open spec fn is_readable(groups: crate::pattern::Groups) -> bool {
    match groups {
        Some(found) => score_in(found) is Some,
        None => true,
    }
}

/// The grid and the score that a search leads to: those of the shared result that was found.
pub open spec fn score_found(groups: crate::pattern::Groups) -> Option<(usize, Score)> {
    match groups {
        Some(found) => score_in(found),
        None => None,
    }
}

/// The numbers of a shared result cannot be read.
#[derive(Debug, Clone, Copy, PartialEq, Eq, Structural)]
pub struct UnreadableNumber;

/// Removes the spoiler bars of a message.
pub fn remove_bars(message: &str) -> (r: String)
    ensures
        r@ == without_bars(message@),
{
    let mut out = String::new();
    let mut pending = false;
    let ghost bar: Seq<char> = seq!['|'];
    assert(message@.skip(0) =~= message@);
    for c in it: message.chars()
        invariant
            it.seq() == message@,
            bar == seq!['|'],
            without_bars(message@) == out@ + without_bars(
                if pending {
                    bar + message@.skip(it.index())
                } else {
                    message@.skip(it.index())
                },
            ),
    {
        let ghost before = out@;
        let ghost rest = message@.skip(it.index() + 1);
        let ghost one = seq![c];
        assert(message@.skip(it.index()) =~= one + rest);
        assert((one + rest).skip(1) =~= rest);
        if c == '|' {
            if pending {
                assert((bar + (one + rest)).skip(2) =~= rest);
            }
            pending = !pending;
        } else {
            if pending {
                assert((bar + (one + rest)).skip(1) =~= one + rest);
                assert(without_bars(bar + (one + rest)) == bar + without_bars(one + rest));
                out.push('|');
                pending = false;
            }
            out.push(c);
            assert(without_bars(one + rest) == one + without_bars(rest));
        }
        assert(without_bars(message@) =~= out@ + without_bars(
            if pending {
                bar + rest
            } else {
                rest
            },
        ));
    }
    assert(message@.skip(message@.len() as int) =~= Seq::<char>::empty());
    assert(without_bars(Seq::<char>::empty()) =~= Seq::<char>::empty());
    if pending {
        out.push('|');
        assert(bar + Seq::<char>::empty() =~= bar);
        assert(bar.skip(1) =~= Seq::<char>::empty());
        assert(without_bars(bar) =~= bar);
    }
    assert(out@ =~= without_bars(message@));
    out
}

/// Reads the number that a group holds.
fn read_number(group: &Option<String>) -> (r: Option<usize>)
    ensures
        r == number_in(crate::pattern::group_text(*group)),
{
    match group {
        Some(text) => parse_number(text.as_str()),
        None => None,
    }
}

/// Reads the groups of a shared result.
pub fn read_score(groups: &Vec<Option<String>>) -> (r: Option<(usize, Score)>)
    ensures
        r == score_in(groups@.map_values(|g: Option<String>| crate::pattern::group_text(g))),
{
    let ghost texts = groups@.map_values(|g: Option<String>| crate::pattern::group_text(g));
    if groups.len() != 6 {
        return None;
    }
    let hours: Option<usize> = match &groups[3] {
        Some(text) => parse_number(text.as_str()),
        None => Some(0),
    };
    assert(hours == hours_in(texts[3]));
    match (
        read_number(&groups[1]),
        read_number(&groups[2]),
        hours,
        read_number(&groups[4]),
        read_number(&groups[5]),
    ) {
        (Some(id), Some(tries), Some(hours), Some(minutes), Some(seconds)) => {
            match count_secs(hours, minutes, seconds) {
                Some(secs) => Some((id, Score { tries, secs })),
                None => None,
            }
        },
        _ => None,
    }
}

/// Searches a message for a shared result.
fn search_share(message: &str) -> (r: Option<Vec<Option<String>>>)
    ensures
        crate::pattern::groups_view(r) == share_groups(message@),
        crate::pattern::finds_share(without_bars(message@), share_groups(message@)),
{
    let text = remove_bars(message);
    captures(SHARE_PATTERN, text.as_str())
}

/// The grid and the score that a message shares. `None` where it shares none.
pub fn extract_score(message: &str) -> (r: Option<(usize, Score)>)
    requires
        is_readable(share_groups(message@)),
    ensures
        r == score_found(share_groups(message@)),
        crate::pattern::finds_share(without_bars(message@), share_groups(message@)),
{
    match search_share(message) {
        Some(groups) => read_score(&groups),
        None => None,
    }
}

/// Whether the numbers of the shared result in a message, if it holds one, can be read.
pub fn can_be_read(message: &str) -> (r: bool)
    ensures
        r == is_readable(share_groups(message@)),
        crate::pattern::finds_share(without_bars(message@), share_groups(message@)),
{
    match search_share(message) {
        Some(groups) => read_score(&groups).is_some(),
        None => true,
    }
}

/// The grid and the score that a message shares, or the error that its numbers cannot be read.
pub fn try_extract_score(message: &str) -> (r: Result<Option<(usize, Score)>, UnreadableNumber>)
    ensures
        r == (if is_readable(share_groups(message@)) {
            Ok(score_found(share_groups(message@)))
        } else {
            Err(UnreadableNumber)
        }),
        crate::pattern::finds_share(without_bars(message@), share_groups(message@)),
{
    if can_be_read(message) {
        Ok(extract_score(message))
    } else {
        Err(UnreadableNumber)
    }
}

/// A group is read as a number exactly where it holds one or more of the digits `0` to `9`, nothing
/// else, and a number that fits in a `usize`; then it is read as that number. Hours that took no part
/// in a match are none.
pub proof fn law_groups_hold_numbers(text: Seq<char>)
    ensures
        number_in(Some(text)) is Some <==> crate::text::is_numeral(text) && crate::text::value(text)
            <= usize::MAX,
        number_in(Some(text)) matches Some(n) ==> n == crate::text::value(text),
        number_in(None) is None,
        hours_in(Some(text)) == number_in(Some(text)),
        hours_in(None) == Some(0usize),
{
}

/// Whether a text is a numeral whose number fits in a `usize`.
pub open spec fn fits(text: Seq<char>) -> bool {
    crate::text::is_numeral(text) && crate::text::value(text) <= usize::MAX
}

/// The seconds of a time that is written with these fields, where the hours may be left out.
pub open spec fn written_secs(hours: Option<Seq<char>>, minutes: Seq<char>, seconds: Seq<char>) -> nat {
    crate::duration::counted_secs(
        match hours {
            Some(text) => crate::text::value(text),
            None => 0,
        },
        crate::text::value(minutes),
        crate::text::value(seconds),
    )
}

/// The groups of a share are read as the numbers that they hold: the grid, the tries, and the time
/// in seconds. They are not read where one of them is no numeral, or a number does not fit.
pub proof fn law_groups_are_read(
    groups: Seq<Option<Seq<char>>>,
    id: Seq<char>,
    tries: Seq<char>,
    hours: Option<Seq<char>>,
    minutes: Seq<char>,
    seconds: Seq<char>,
)
    requires
        groups.len() == 6,
        groups[1] == Some(id),
        groups[2] == Some(tries),
        groups[3] == hours,
        groups[4] == Some(minutes),
        groups[5] == Some(seconds),
    ensures
        score_found(Some(groups)) == score_in(groups),
        is_readable(Some(groups)) <==> score_in(groups) is Some,
        score_in(groups) is Some <==> fits(id) && fits(tries) && (hours is Some ==> fits(hours->0))
            && fits(minutes) && fits(seconds) && written_secs(hours, minutes, seconds)
            <= usize::MAX,
        score_in(groups) matches Some((read_id, score)) ==> {
            &&& read_id == crate::text::value(id)
            &&& score.tries == crate::text::value(tries)
            &&& score.secs == written_secs(hours, minutes, seconds)
        },
{
}

/// Nothing is read where nothing was found, and nothing is wrong then.
pub proof fn law_nothing_found_is_nothing_read()
    ensures
        score_found(None) is None,
        is_readable(None),
{
}

/// The time that is written with numerals counts 3600 seconds for each hour, 60 for each minute and
/// one for each second, but for `24h01:38`.
pub proof fn law_written_times_count(
    hours: Option<Seq<char>>,
    minutes: Seq<char>,
    seconds: Seq<char>,
)
    ensures
        ({
            let h = match hours {
                Some(text) => crate::text::value(text),
                None => 0,
            };
            let (m, s) = (crate::text::value(minutes), crate::text::value(seconds));
            written_secs(hours, minutes, seconds) == if h == 24 && m == 1 && s == 38 {
                88740
            } else {
                3600 * h + 60 * m + s
            }
        }),
{
}

/// A share that is written in any way that the game's form allows: words, a grid of any number of
/// digits, one digit for the tries, hours or none, and minutes and seconds of two digits.
pub open spec fn written_share(
    id: Seq<char>,
    tries: char,
    hours: Option<Seq<char>>,
    minutes: (char, char),
    seconds: (char, char),
) -> Seq<char> {
    "SUTOM #"@ + id + seq![' ', tries, '/', '6', ' '] + (match hours {
        Some(text) => text + seq!['h'],
        None => Seq::empty(),
    }) + seq![minutes.0, minutes.1, ':', seconds.0, seconds.1]
}

pub open spec fn is_written_share(
    id: Seq<char>,
    tries: char,
    hours: Option<Seq<char>>,
    minutes: (char, char),
    seconds: (char, char),
) -> bool {
    &&& id.len() > 0
    &&& forall|i: int| 0 <= i < id.len() ==> crate::pattern::is_decimal(#[trigger] id[i])
    &&& crate::pattern::is_decimal(tries)
    &&& hours matches Some(text) ==> text.len() > 0 && forall|i: int|
        0 <= i < text.len() ==> crate::pattern::is_decimal(#[trigger] text[i])
    &&& '0' <= minutes.0 <= '5' && crate::pattern::is_decimal(minutes.1)
    &&& '0' <= seconds.0 <= '5' && crate::pattern::is_decimal(seconds.1)
}

/// The first share in a text is found, however it is written, and its groups are its parts. Where
/// its numbers fit, they are what is read: the grid, the tries, and the time; where one of them does
/// not, the message cannot be read.
pub proof fn law_any_share_is_found(
    text: Seq<char>,
    groups: crate::pattern::Groups,
    before: Seq<char>,
    id: Seq<char>,
    tries: char,
    hours: Option<Seq<char>>,
    minutes: (char, char),
    seconds: (char, char),
    after: Seq<char>,
)
    requires
        crate::pattern::finds_share(text, groups),
        is_written_share(id, tries, hours, minutes, seconds),
        text == before + written_share(id, tries, hours, minutes, seconds) + after,
        nothing_shared_before(text, before.len() as int),
    ensures
        groups == Some(
            seq![
                Some(written_share(id, tries, hours, minutes, seconds)),
                Some(id),
                Some(seq![tries]),
                hours,
                Some(seq![minutes.0, minutes.1]),
                Some(seq![seconds.0, seconds.1]),
            ],
        ),
        ({
            let secs = written_secs(
                hours,
                seq![minutes.0, minutes.1],
                seq![seconds.0, seconds.1],
            );
            let readable = fits(id) && fits(seq![tries]) && (hours is Some ==> fits(hours->0))
                && fits(seq![minutes.0, minutes.1]) && fits(seq![seconds.0, seconds.1]) && secs
                <= usize::MAX;
            &&& is_readable(groups) <==> readable
            &&& readable ==> score_found(groups) == Some(
                (
                    crate::text::value(id) as usize,
                    Score {
                        tries: crate::text::value(seq![tries]) as usize,
                        secs: secs as usize,
                    },
                ),
            )
        }),
{
    let fields = crate::pattern::ShareFields {
        id,
        tries: seq![tries],
        hours,
        minutes: seq![minutes.0, minutes.1],
        seconds: seq![seconds.0, seconds.1],
    };
    let decimals = crate::pattern::decimals();
    crate::pattern::law_first_decimals();
    reveal_strlit(" ");
    reveal_strlit("/6 ");
    reveal_strlit("h");
    reveal_strlit(":");
    assert(fields.text() =~= written_share(id, tries, hours, minutes, seconds));
    assert(decimals.contains(tries));
    assert forall|i: int| 0 <= i < id.len() implies decimals.contains(#[trigger] id[i]) by {}
    assert(fields.valid());
    let here = before.len() as int;
    assert(text.skip(here) =~= fields.text() + after);
    assert(fields.text() =~= (fields.text() + after).subrange(0, fields.text().len() as int));
    assert(fields.stand_at(text, here));
    assert(groups is Some);
    let (start, found) = choose|start: int, found: crate::pattern::ShareFields| #[trigger]
        found.stand_at(text, start) && groups->0 == found.groups()
            && crate::pattern::no_share_before(text, start);
    lemma_starts_with_words(found, text, start);
    assert(start == here);
    crate::pattern::law_share_is_unique(text, here, found, fields);
    law_groups_are_read(groups->0, id, fields.tries, hours, fields.minutes, fields.seconds);
}

/// What is found in a text stands in it, written as a share: nothing is found in a text without one.
pub proof fn law_what_is_found_is_written(text: Seq<char>, groups: crate::pattern::Groups)
    requires
        crate::pattern::finds_share(text, groups),
    ensures
        groups matches Some(found) ==> exists|
            before: Seq<char>,
            id: Seq<char>,
            tries: char,
            hours: Option<Seq<char>>,
            minutes: (char, char),
            seconds: (char, char),
            after: Seq<char>,
        |
            #![trigger before + written_share(id, tries, hours, minutes, seconds) + after]
            {
                &&& is_written_share(id, tries, hours, minutes, seconds)
                &&& text == before + written_share(id, tries, hours, minutes, seconds) + after
                &&& found[1] == Some(id)
            },
{
    if groups is Some {
        let (start, fields) = choose|start: int, fields: crate::pattern::ShareFields| #[trigger]
            fields.stand_at(text, start) && groups->0 == fields.groups()
                && crate::pattern::no_share_before(text, start);
        let (before, tail) = (text.take(start), text.skip(start));
        let after = tail.skip(fields.text().len() as int);
        let tries = fields.tries[0];
        let minutes = (fields.minutes[0], fields.minutes[1]);
        let seconds = (fields.seconds[0], fields.seconds[1]);
        reveal_strlit(" ");
        reveal_strlit("/6 ");
        reveal_strlit("h");
        reveal_strlit(":");
        let decimals = crate::pattern::decimals();
        assert(decimals.contains(fields.tries[0]));
        assert forall|i: int| 0 <= i < fields.id.len() implies crate::pattern::is_decimal(
            #[trigger] fields.id[i],
        ) by {
            assert(decimals.contains(fields.id[i]));
        }
        if fields.hours is Some {
            let hours = fields.hours->0;
            assert forall|i: int| 0 <= i < hours.len() implies crate::pattern::is_decimal(
                #[trigger] hours[i],
            ) by {
                assert(decimals.contains(hours[i]));
            }
        }
        let written = written_share(fields.id, tries, fields.hours, minutes, seconds);
        assert(fields.text() =~= written);
        assert(tail =~= written + after) by {
            assert(written == tail.subrange(0, written.len() as int));
            assert(tail =~= tail.subrange(0, written.len() as int) + tail.skip(written.len() as int));
        }
        assert(text =~= before + tail);
        assert(text =~= before + written + after);
        assert(is_written_share(fields.id, tries, fields.hours, minutes, seconds));
    }
}

/// Spoiler bars make no difference: a message reads the same wherever a pair of bars is put in.
pub proof fn law_bars_are_ignored(before: Seq<char>, after: Seq<char>)
    ensures
        without_bars(before + seq!['|', '|'] + after) == without_bars(before + after),
    decreases before.len(),
{
    let barred = before + seq!['|', '|'] + after;
    let plain = before + after;
    if before.len() == 0 {
        assert(barred.skip(2) =~= after);
        assert(plain =~= after);
    } else if before.len() == 1 && before[0] == '|' {
        assert(barred.skip(2) =~= plain);
    } else if before.len() >= 2 && before[0] == '|' && before[1] == '|' {
        law_bars_are_ignored(before.skip(2), after);
        assert(barred.skip(2) =~= before.skip(2) + seq!['|', '|'] + after);
        assert(plain.skip(2) =~= before.skip(2) + after);
    } else {
        law_bars_are_ignored(before.skip(1), after);
        assert(barred.skip(1) =~= before.skip(1) + seq!['|', '|'] + after);
        assert(plain.skip(1) =~= before.skip(1) + after);
    }
}

/// A message in which no two bars stand side by side is read as it is.
pub proof fn law_only_bars_are_removed(message: Seq<char>)
    requires
        forall|i: int|
            0 <= i < message.len() - 1 ==> #[trigger] message[i] != '|' || message[i + 1] != '|',
    ensures
        without_bars(message) == message,
    decreases message.len(),
{
    if message.len() > 0 {
        let rest = message.skip(1);
        assert forall|i: int| 0 <= i < rest.len() - 1 implies #[trigger] rest[i] != '|' || rest[i
            + 1] != '|' by {
            assert(rest[i] == message[i + 1]);
        }
        law_only_bars_are_removed(rest);
        assert(message[0] != '|' || message.len() == 1 || message[1] != '|');
        assert(seq![message[0]] + rest =~= message);
    }
}

/// A shared result in the form in which the game gives it, with the time as `pp_secs` shows it.
pub open spec fn shared_text(id: nat, tries: nat, secs: nat) -> Seq<char> {
    "SUTOM #"@ + crate::text::decimal(id) + " "@ + seq![crate::text::digit(tries)] + "/6 "@
        + crate::duration::shown_time(secs)
}

/// Whether `text` goes on at `start` with the words that a shared result starts with, and a digit
/// behind them.
pub open spec fn starts_share(text: Seq<char>, start: int) -> bool {
    &&& 0 <= start && start + 7 < text.len()
    &&& "SUTOM #"@.is_prefix_of(text.skip(start))
    &&& crate::pattern::is_decimal(text[start + 7])
}

/// No shared result starts in `text` before `end`.
pub open spec fn nothing_shared_before(text: Seq<char>, end: int) -> bool {
    forall|start: int| start < end ==> !#[trigger] starts_share(text, start)
}

spec fn shared_fields(id: nat, tries: nat, secs: nat) -> crate::pattern::ShareFields {
    crate::pattern::ShareFields {
        id: crate::text::decimal(id),
        tries: seq![crate::text::digit(tries)],
        hours: if secs / 3600 > 0 {
            Some(crate::text::decimal(secs / 3600))
        } else {
            None
        },
        minutes: crate::text::two_digits((secs / 60) % 60),
        seconds: crate::text::two_digits(secs % 60),
    }
}

proof fn lemma_shared_fields(id: nat, tries: nat, secs: nat)
    requires
        tries < 10,
    ensures
        shared_fields(id, tries, secs).valid(),
        shared_fields(id, tries, secs).text() == shared_text(id, tries, secs),
{
    let fields = shared_fields(id, tries, secs);
    crate::text::law_decimal_value(id);
    crate::text::law_decimal_value(secs / 3600);
    crate::text::lemma_digit(tries);
    crate::text::lemma_two_digits_value((secs / 60) % 60);
    crate::text::lemma_two_digits_value(secs % 60);
    crate::pattern::law_first_decimals();
    assert forall|c: char| crate::text::is_digit(c) implies #[trigger]
        crate::pattern::decimals().contains(c) by {}
    reveal_strlit("h");
    reveal_strlit(":");
    assert(":"@ =~= seq![':']);
    assert("h"@ =~= seq!['h']);
    assert(fields.time() =~= crate::duration::shown_time(secs));
    assert(crate::pattern::decimals().contains(fields.minutes[1]));
    assert(crate::pattern::decimals().contains(fields.seconds[1]));
}

/// A share that stands somewhere starts there.
proof fn lemma_starts_with_words(
    fields: crate::pattern::ShareFields,
    text: Seq<char>,
    start: int,
)
    requires
        fields.stand_at(text, start),
    ensures
        starts_share(text, start),
{
    reveal_strlit("SUTOM #");
    reveal_strlit("/6 ");
    let s = text.skip(start);
    assert forall|i: int| 0 <= i < 8 implies fields.text()[i] == s[i] by {
        assert(fields.text()[i] == s.subrange(0, fields.text().len() as int)[i]);
    }
    assert("SUTOM #"@ =~= s.subrange(0, 7));
    assert(fields.text()[7] == fields.id[0]);
}

/// A result that was shared with its time as it is shown is read back, whatever stands behind it
/// and whatever stands before it that does not start like a share itself: the grid and the tries
/// are those that were shared, and so is the time, but for the one recounted time, which counts as
/// twenty-four hours and thirty-nine minutes. Here `text` is a message without its bars, and
/// `groups` are what the search for a share finds in it.
pub proof fn law_share_is_read_back(
    text: Seq<char>,
    groups: crate::pattern::Groups,
    before: Seq<char>,
    id: usize,
    tries: usize,
    secs: usize,
    after: Seq<char>,
)
    requires
        crate::pattern::finds_share(text, groups),
        tries < 10,
        text == before + shared_text(id as nat, tries as nat, secs as nat) + after,
        nothing_shared_before(text, before.len() as int),
    ensures
        is_readable(groups),
        score_found(groups) matches Some((read_id, score)) && read_id == id && score.tries == tries
            && score.secs == (if crate::duration::is_recounted(secs as nat) {
            88740
        } else {
            secs
        }),
{
    let fields = shared_fields(id as nat, tries as nat, secs as nat);
    lemma_shared_fields(id as nat, tries as nat, secs as nat);
    let here = before.len() as int;
    assert(text.skip(here) =~= fields.text() + after);
    assert(fields.text() =~= (fields.text() + after).subrange(0, fields.text().len() as int));
    assert(fields.stand_at(text, here));
    assert(groups is Some);
    let (start, found) = choose|start: int, found: crate::pattern::ShareFields| #[trigger]
        found.stand_at(text, start) && groups->0 == found.groups()
            && crate::pattern::no_share_before(text, start);
    lemma_starts_with_words(found, text, start);
    assert(start == here);
    crate::pattern::law_share_is_unique(text, here, found, fields);
    let g = fields.groups();
    crate::text::law_decimal_value(id as nat);
    crate::text::law_decimal_value(secs as nat / 3600);
    crate::text::lemma_digit(tries as nat);
    crate::text::lemma_two_digits_value((secs as nat / 60) % 60);
    crate::text::lemma_two_digits_value(secs as nat % 60);
    if !crate::duration::is_recounted(secs as nat) {
        crate::duration::law_shown_fields_count(secs as nat);
    }
    assert(crate::text::value(fields.tries) == tries) by {
        assert(fields.tries.drop_last() =~= Seq::<char>::empty());
        assert(crate::text::value(Seq::<char>::empty()) == 0);
    }
    assert(number_in(g[1]) == Some(id));
    assert(number_in(g[2]) == Some(tries));
    assert(hours_in(g[3]) == Some((secs / 3600) as usize));
    assert(number_in(g[4]) == Some(((secs / 60) % 60) as usize));
    assert(number_in(g[5]) == Some((secs % 60) as usize));
}

/// Bars do not reach across a text that has none.
proof fn lemma_bars_behind(before: Seq<char>, s: Seq<char>)
    requires
        !before.contains('|'),
    ensures
        without_bars(before + s) == before + without_bars(s),
    decreases before.len(),
{
    if before.len() == 0 {
        assert(before + s =~= s);
        assert(before + without_bars(s) =~= without_bars(s));
    } else {
        let rest = before.skip(1);
        assert(before.contains(before[0]));
        assert forall|i: int| 0 <= i < rest.len() implies rest[i] != '|' by {
            assert(before.contains(before[i + 1]));
        }
        lemma_bars_behind(rest, s);
        assert((before + s).skip(1) =~= rest + s);
        assert(seq![before[0]] + (rest + without_bars(s)) =~= before + without_bars(s));
    }
}

/// What follows a text can take nothing of it away but a last bar: `kept` is what remains.
proof fn lemma_bars_before(s: Seq<char>, after: Seq<char>) -> (kept: Seq<char>)
    ensures
        kept.is_prefix_of(without_bars(s + after)),
        without_bars(s) == kept || without_bars(s) == kept.push('|'),
    decreases s.len(),
{
    let all = s + after;
    if s.len() == 0 {
        s
    } else if s.len() == 1 && s[0] == '|' {
        assert(s.skip(1) =~= Seq::<char>::empty());
        assert(without_bars(s.skip(1)) =~= Seq::<char>::empty());
        assert(without_bars(s) =~= Seq::<char>::empty().push('|'));
        Seq::empty()
    } else if s.len() >= 2 && s[0] == '|' && s[1] == '|' {
        assert(all.skip(2) =~= s.skip(2) + after);
        lemma_bars_before(s.skip(2), after)
    } else {
        let rest = lemma_bars_before(s.skip(1), after);
        let first = seq![s[0]];
        assert(all.skip(1) =~= s.skip(1) + after);
        assert(first + rest.push('|') =~= (first + rest).push('|'));
        assert(first + rest =~= (first + without_bars(all.skip(1))).subrange(
            0,
            (first + rest).len() as int,
        ));
        first + rest
    }
}

/// What stands around a shared result makes no difference to how it is read, and of several the
/// first is read: where the search finds one in `message`, it finds the same in `message` with
/// anything behind it, and with anything before it that holds no bar and in which no shared result
/// starts.
pub proof fn law_surroundings_make_no_difference(
    before: Seq<char>,
    message: Seq<char>,
    after: Seq<char>,
    groups: crate::pattern::Groups,
    groups_of_all: crate::pattern::Groups,
)
    requires
        crate::pattern::finds_share(without_bars(message), groups),
        crate::pattern::finds_share(without_bars(before + message + after), groups_of_all),
        groups is Some,
        !before.contains('|'),
        nothing_shared_before(without_bars(before + message + after), before.len() as int),
    ensures
        groups_of_all == groups,
        is_readable(groups_of_all) == is_readable(groups),
        score_found(groups_of_all) == score_found(groups),
{
    let part = without_bars(message);
    let all = without_bars(before + message + after);
    let offset = before.len() as int;
    assert(before + message + after =~= before + (message + after));
    lemma_bars_behind(before, message + after);
    let kept = lemma_bars_before(message, after);
    assert forall|i: int| 0 <= i < kept.len() implies all[offset + i] == #[trigger] part[i] by {
        let tail = without_bars(message + after);
        assert(kept[i] == tail.subrange(0, kept.len() as int)[i]);
    }
    let (start, fields) = choose|start: int, fields: crate::pattern::ShareFields| #[trigger]
        fields.stand_at(part, start) && groups->0 == fields.groups()
            && crate::pattern::no_share_before(part, start);
    let text = fields.text();
    fields.lemma_characters();
    assert forall|i: int| 0 <= i < text.len() implies #[trigger] text[i] == part[start + i] by {
        assert(text[i] == part.skip(start).subrange(0, text.len() as int)[i]);
    }
    assert(start + text.len() <= kept.len()) by {
        assert(text[text.len() - 1] == part[start + text.len() - 1]);
    }
    assert(text =~= all.skip(offset + start).subrange(0, text.len() as int));
    assert(fields.stand_at(all, offset + start));
    let (first, found) = choose|first: int, found: crate::pattern::ShareFields| #[trigger]
        found.stand_at(all, first) && groups_of_all->0 == found.groups()
            && crate::pattern::no_share_before(all, first);
    lemma_starts_with_words(found, all, first);
    assert(offset <= first <= offset + start);
    if first < offset + start {
        let other = found.text();
        let place = first - offset;
        found.lemma_characters();
        assert forall|i: int| 0 <= i < other.len() implies #[trigger] other[i] == all[first + i] by {
            assert(other[i] == all.skip(first).subrange(0, other.len() as int)[i]);
        }
        if place + other.len() <= start {
            assert(other =~= part.skip(place).subrange(0, other.len() as int));
            assert(found.stand_at(part, place));
        } else {
            assert(text[0] == part[start]);
            assert(other[start - place] == all[offset + start]);
        }
    }
    crate::pattern::law_share_is_unique(all, offset + start, fields, found);
}

/// A text without an `S` and without bars can be put before a message that shares a result, and any
/// text behind it: what is read stays the same.
pub proof fn law_texts_around_are_ignored(
    before: Seq<char>,
    message: Seq<char>,
    after: Seq<char>,
    groups: crate::pattern::Groups,
    groups_of_all: crate::pattern::Groups,
)
    requires
        crate::pattern::finds_share(without_bars(message), groups),
        crate::pattern::finds_share(without_bars(before + message + after), groups_of_all),
        groups is Some,
        !before.contains('S'),
        !before.contains('|'),
    ensures
        groups_of_all == groups,
        is_readable(groups_of_all) == is_readable(groups),
        score_found(groups_of_all) == score_found(groups),
{
    let all = without_bars(before + message + after);
    assert(before + message + after =~= before + (message + after));
    lemma_bars_behind(before, message + after);
    assert forall|start: int| start < before.len() implies !#[trigger] starts_share(all, start) by {
        reveal_strlit("SUTOM #");
        if starts_share(all, start) {
            assert("SUTOM #"@[0] == all.skip(start).subrange(0, 7)[0]);
            assert(before[start] == 'S');
        }
    }
    law_surroundings_make_no_difference(before, message, after, groups, groups_of_all);
}

/// Nothing is found in a message in which no share starts, and it is read as sharing nothing.
pub proof fn law_nothing_is_made_up(text: Seq<char>, groups: crate::pattern::Groups)
    requires
        crate::pattern::finds_share(text, groups),
        nothing_shared_before(text, text.len() as int + 1),
    ensures
        groups is None,
        is_readable(groups),
        score_found(groups) is None,
{
    if groups is Some {
        let (start, found) = choose|start: int, found: crate::pattern::ShareFields| #[trigger]
            found.stand_at(text, start) && groups->0 == found.groups()
                && crate::pattern::no_share_before(text, start);
        lemma_starts_with_words(found, text, start);
    }
}

/// No two times are shown the same.
pub proof fn law_shown_times_differ(a: nat, b: nat)
    requires
        crate::duration::shown_time(a) == crate::duration::shown_time(b),
    ensures
        a == b,
{
    let text = shared_text(0, 0, a);
    let (x, y) = (shared_fields(0, 0, a), shared_fields(0, 0, b));
    lemma_shared_fields(0, 0, a);
    lemma_shared_fields(0, 0, b);
    assert(text.skip(0) =~= text);
    assert(text =~= text.subrange(0, text.len() as int));
    crate::pattern::law_share_is_unique(text, 0, x, y);
    crate::text::law_decimal_value(a / 3600);
    crate::text::law_decimal_value(b / 3600);
    crate::text::lemma_two_digits_value((a / 60) % 60);
    crate::text::lemma_two_digits_value((b / 60) % 60);
    crate::text::lemma_two_digits_value(a % 60);
    crate::text::lemma_two_digits_value(b % 60);
    vstd::arithmetic::div_mod::lemma_div_denominator(a as int, 60, 60);
    vstd::arithmetic::div_mod::lemma_div_denominator(b as int, 60, 60);
}

} // verus!
