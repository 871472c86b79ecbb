//! What the bot does, and when.

use vstd::prelude::*;

use crate::pattern::{captures, REQUEST_PATTERN};
use crate::share::UnreadableNumber;
use crate::text::{is_text, parse_number};

verus! {

/// Something that the bot does about a message.
#[derive(Debug, Clone, Copy, PartialEq, Eq, Structural)]
pub enum Action {
    /// Scan all messages of the channel.
    ScanAll,
    /// Answer with `REFUSAL`.
    Refuse,
    /// Answer with the scores of a grid.
    SendScoresForGrid(usize),
    /// Scan the last two days, and answer with the scores of today's grid.
    SendScoresNow,
    /// Answer with the positions of all players over the grids from one on.
    SendTimeScores(usize),
    /// Answer with the positions of all players over the grids from `recent_from` on.
    SendRecentTimeScores,
    /// Read the message itself for a share.
    ScanMessage,
}

/// What anybody but the administrator is told who asks for a scan of everything.
pub const REFUSAL: &'static str = "ah ah ah you didn't say the magic word";

/// How many grids back the recent positions go.
pub const RECENT_GRIDS: i64 = 30;

/// Whether the number of the grid that a request names, if it names one, can be read.
pub open spec fn is_readable_request(groups: crate::pattern::Groups) -> bool {
    match groups {
        Some(found) => found.len() == 2 && (found[1] is Some ==> crate::share::number_in(
            found[1],
        ) is Some),
        None => true,
    }
}

/// What is done about a request for scores, by what the search for one found.
pub open spec fn request_actions(groups: crate::pattern::Groups) -> Seq<Action> {
    match groups {
        Some(found) => match found[1] {
            Some(_) => seq![Action::SendScoresForGrid(crate::share::number_in(found[1])->0)],
            None => seq![Action::SendScoresNow],
        },
        None => Seq::empty(),
    }
}

/// What the search for a request finds in a message.
pub open spec fn request_groups(content: Seq<char>) -> crate::pattern::Groups {
    crate::pattern::regex_captures(REQUEST_PATTERN@, content)
}

pub open spec fn if_done(condition: bool, action: Action) -> Seq<Action> {
    if condition {
        seq![action]
    } else {
        Seq::empty()
    }
}

/// What is done about a message of `author`, in this order. The bot does nothing about its own
/// messages, and scans every other one in the end.
pub open spec fn actions_for(
    author: u64,
    bot: u64,
    admin: u64,
    content: Seq<char>,
    groups: crate::pattern::Groups,
) -> Seq<Action> {
    if author == bot {
        Seq::empty()
    } else {
        if_done(
            content == "!scan_all"@,
            if author == admin {
                Action::ScanAll
            } else {
                Action::Refuse
            },
        ) + request_actions(groups) + if_done(
            content == "!all_time"@,
            Action::SendTimeScores(0),
        ) + if_done(
            content == "!last_30"@,
            Action::SendRecentTimeScores,
        ) + seq![Action::ScanMessage]
    }
}

/// What is done about a message in which the search for a request found `groups`. `None` where the
/// number of the grid that is requested cannot be read.
pub fn plan_actions(
    author: u64,
    bot: u64,
    admin: u64,
    content: &str,
    groups: &Option<Vec<Option<String>>>,
) -> (r: Option<Vec<Action>>)
    ensures
        ({
            let found = crate::pattern::groups_view(*groups);
            match r {
                Some(actions) => (author == bot || is_readable_request(found)) && actions@
                    == actions_for(author, bot, admin, content@, found),
                None => author != bot && !is_readable_request(found),
            }
        }),
{
    let mut actions: Vec<Action> = Vec::new();
    if author == bot {
        return Some(actions);
    }
    if is_text(content, "!scan_all") {
        if author == admin {
            actions.push(Action::ScanAll);
        } else {
            actions.push(Action::Refuse);
        }
    }
    if let Some(found) = groups {
        if found.len() != 2 {
            return None;
        }
        assert(crate::pattern::groups_view(*groups)->0[1] == crate::pattern::group_text(found@[1]));
        match &found[1] {
            Some(text) => match parse_number(text.as_str()) {
                Some(grid_id) => {
                    actions.push(Action::SendScoresForGrid(grid_id));
                },
                None => {
                    return None;
                },
            },
            None => {
                actions.push(Action::SendScoresNow);
            },
        }
    }
    if is_text(content, "!all_time") {
        actions.push(Action::SendTimeScores(0));
    }
    if is_text(content, "!last_30") {
        actions.push(Action::SendRecentTimeScores);
    }
    actions.push(Action::ScanMessage);
    assert(actions@ =~= actions_for(
        author,
        bot,
        admin,
        content@,
        crate::pattern::groups_view(*groups),
    ));
    Some(actions)
}

/// What is done about a message.
pub fn message_actions(author: u64, bot: u64, admin: u64, content: &str) -> (r:
    Vec<Action>)
    requires
        author != bot ==> is_readable_request(request_groups(content@)),
    ensures
        r@ == actions_for(author, bot, admin, content@, request_groups(content@)),
        author != bot ==> crate::pattern::finds_request(content@, request_groups(content@)),
{
    if author == bot {
        return Vec::new();
    }
    let groups = captures(REQUEST_PATTERN, content);
    match plan_actions(author, bot, admin, content, &groups) {
        Some(actions) => actions,
        None => {
            assert(false);
            Vec::new()
        },
    }
}

/// Whether the number of the grid that a message requests, if it requests one, can be read.
pub fn can_be_requested(content: &str) -> (r: bool)
    ensures
        r == is_readable_request(request_groups(content@)),
        crate::pattern::finds_request(content@, request_groups(content@)),
{
    match captures(REQUEST_PATTERN, content) {
        Some(found) => found.len() == 2 && match &found[1] {
            Some(text) => parse_number(text.as_str()).is_some(),
            None => true,
        },
        None => true,
    }
}

/// What is done about a message, or the error that the number of the grid that it requests cannot
/// be read.
pub fn try_message_actions(
    author: u64,
    bot: u64,
    admin: u64,
    content: &str,
) -> (r: Result<Vec<Action>, UnreadableNumber>)
    ensures
        match r {
            Ok(actions) => (author == bot || is_readable_request(request_groups(content@)))
                && actions@ == actions_for(
                author,
                bot,
                admin,
                content@,
                request_groups(content@),
            ),
            Err(_) => author != bot && !is_readable_request(request_groups(content@)),
        },
        author != bot ==> crate::pattern::finds_request(content@, request_groups(content@)),
{
    if author == bot || can_be_requested(content) {
        Ok(message_actions(author, bot, admin, content))
    } else {
        Err(UnreadableNumber)
    }
}

/// The grid before today's, by the number of today's.
pub fn previous_grid(grid_number: i64) -> (r: usize)
    requires
        grid_number > i64::MIN,
    ensures
        r == (grid_number - 1) as usize,
{
    (grid_number - 1) as usize
}

/// Today's grid, by its number.
pub fn current_grid(grid_number: i64) -> (r: usize)
    ensures
        r == grid_number as usize,
{
    grid_number as usize
}

/// The grid from which on the recent positions are counted, by the number of today's.
pub fn recent_from(grid_number: i64) -> (r: usize)
    requires
        grid_number >= i64::MIN + RECENT_GRIDS,
    ensures
        r == (grid_number - RECENT_GRIDS) as usize,
{
    (grid_number - RECENT_GRIDS) as usize
}

/// The part of the bot that is told when the connection to the chat service stands.
#[derive(Debug)]
pub struct Handler {
    pub is_daily_running: bool,
}

impl Handler {
    pub fn new() -> (r: Self)
        ensures
            !r.is_daily_running,
    {
        Handler { is_daily_running: false }
    }

    /// Whether the daily loop is to be started. It is at the first connection, and at no other.
    pub fn ready(&mut self) -> (start: bool)
        ensures
            start == !old(self).is_daily_running,
            final(self).is_daily_running,
    {
        let start = !self.is_daily_running;
        self.is_daily_running = true;
        start
    }
}

/// The first minute of a day.
pub open spec fn is_midnight(hour: u32, minute: u32) -> bool {
    hour == 0 && minute == 0
}

/// The daily loop, which looks at the clock every second.
#[derive(Debug)]
pub struct DailyLoop {
    pub ran: bool,
}

impl DailyLoop {
    pub fn new() -> (r: Self)
        ensures
            !r.ran,
            r.ran == ran_after(Seq::empty()),
    {
        DailyLoop { ran: false }
    }

    /// Whether the scores of the day that ended are to be sent, now that the clock shows this hour
    /// and minute. Whatever `ticks` the loop saw before, this one is the next of them.
    pub fn tick(&mut self, hour: u32, minute: u32) -> (send: bool)
        ensures
            send == (is_midnight(hour, minute) && !old(self).ran),
            final(self).ran == is_midnight(hour, minute),
            send == (hour == 0 && minute == 0 && !old(self).ran),
            final(self).ran == (hour == 0 && minute == 0),
            send == sends_at(old(self).ran, seq![(hour, minute)], 0, 0),
            forall|ticks: Seq<(u32, u32)>|
                old(self).ran == #[trigger] ran_after(ticks) ==> {
                    &&& send == sends_at(false, ticks.push((hour, minute)), 0, ticks.len() as int)
                    &&& final(self).ran == ran_after(ticks.push((hour, minute)))
                },
    {
        proof {
            assert forall|ticks: Seq<(u32, u32)>|
                old(self).ran == #[trigger] ran_after(ticks) implies sends_at(
                false,
                ticks.push((hour, minute)),
                0,
                ticks.len() as int,
            ) == (is_midnight(hour, minute) && !old(self).ran) by {
                let all = ticks.push((hour, minute));
                law_sends_once_each_midnight(false, all, 0, ticks.len() as int);
                if ticks.len() > 0 {
                    assert(all[ticks.len() - 1] == ticks.last());
                }
            }
        }
        if hour == 0 && minute == 0 {
            let send = !self.ran;
            self.ran = true;
            send
        } else {
            self.ran = false;
            false
        }
    }
}

/// Whether the loop has sent the scores and not seen another minute since, after it saw the
/// clock show `ticks`.
pub open spec fn ran_after(ticks: Seq<(u32, u32)>) -> bool {
    ticks.len() > 0 && is_midnight(ticks.last().0, ticks.last().1)
}

/// Whether the loop, starting with `ran` as it is after the first `from` ticks, sends the scores
/// at tick `at`.
pub open spec fn sends_at(ran: bool, ticks: Seq<(u32, u32)>, from: int, at: int) -> bool
    decreases at - from,
{
    if at <= from {
        is_midnight(ticks[at].0, ticks[at].1) && !ran
    } else {
        sends_at(is_midnight(ticks[from].0, ticks[from].1), ticks, from + 1, at)
    }
}

/// However many ticks fall into the first minute of a day, the scores are sent at the first of
/// them and at no other; and nothing is sent in any other minute.
pub proof fn law_sends_once_each_midnight(ran: bool, ticks: Seq<(u32, u32)>, from: int, at: int)
    requires
        0 <= from <= at < ticks.len(),
        ran == ran_after(ticks.take(from)),
    ensures
        sends_at(ran, ticks, from, at) <==> is_midnight(ticks[at].0, ticks[at].1) && (at == 0
            || !is_midnight(ticks[at - 1].0, ticks[at - 1].1)),
        sends_at(ran, ticks, from, at) <==> ticks[at] == (0u32, 0u32) && (at == 0 || ticks[at - 1]
            != (0u32, 0u32)),
    decreases at - from,
{
    if from < at {
        assert(ticks.take(from + 1).last() == ticks[from]);
        law_sends_once_each_midnight(
            is_midnight(ticks[from].0, ticks[from].1),
            ticks,
            from + 1,
            at,
        );
    } else if from > 0 {
        assert(ticks.take(from).last() == ticks[from - 1]);
    }
}

/// The bot does nothing about its own messages.
pub proof fn law_own_messages_are_ignored(
    bot: u64,
    admin: u64,
    content: Seq<char>,
    groups: crate::pattern::Groups,
)
    ensures
        actions_for(bot, bot, admin, content, groups) == Seq::<Action>::empty(),
{
}

/// Every message of anybody else is scanned, once and last.
pub proof fn law_other_messages_are_scanned(
    author: u64,
    bot: u64,
    admin: u64,
    content: Seq<char>,
    groups: crate::pattern::Groups,
)
    requires
        author != bot,
    ensures
        ({
            let actions = actions_for(author, bot, admin, content, groups);
            &&& actions.len() > 0
            &&& forall|i: int|
                0 <= i < actions.len() ==> (#[trigger] actions[i] == Action::ScanMessage <==> i
                    == actions.len() - 1)
        }),
{
}

/// Everything is scanned for nobody but the administrator, and only when asked for; anybody else
/// who asks for it is refused.
pub proof fn law_only_the_admin_scans_all(
    author: u64,
    bot: u64,
    admin: u64,
    content: Seq<char>,
    groups: crate::pattern::Groups,
)
    ensures
        ({
            let actions = actions_for(author, bot, admin, content, groups);
            let asked = author != bot && content == "!scan_all"@;
            &&& actions.contains(Action::ScanAll) <==> asked && author == admin
            &&& actions.contains(Action::Refuse) <==> asked && author != admin
        }),
{
    let actions = actions_for(author, bot, admin, content, groups);
    if author != bot && content == "!scan_all"@ {
        assert(actions[0] == if author == admin {
            Action::ScanAll
        } else {
            Action::Refuse
        });
    }
}

/// Characters of a class at the start make no difference to what follows the leading ones.
proof fn lemma_after_leading(class: Set<char>, a: Seq<char>, b: Seq<char>)
    requires
        crate::pattern::all_in(class, a),
    ensures
        crate::pattern::after_leading(class, a + b) == crate::pattern::after_leading(class, b),
    decreases a.len(),
{
    if a.len() == 0 {
        assert(a + b =~= b);
    } else {
        assert(class.contains(a[0]));
        let rest = a.skip(1);
        assert forall|i: int| 0 <= i < rest.len() implies class.contains(#[trigger] rest[i]) by {
            assert(rest[i] == a[i + 1]);
        }
        lemma_after_leading(class, rest, b);
        assert((a + b).skip(1) =~= rest + b);
    }
}

/// A request that stands first in a text is found there.
proof fn lemma_request_found(
    text: Seq<char>,
    groups: crate::pattern::Groups,
    before: Seq<char>,
    rest: Seq<char>,
)
    requires
        crate::pattern::finds_request(text, groups),
        text == before + "!score"@ + rest,
        forall|i: int| i < before.len() ==> !#[trigger] crate::pattern::request_at(text, i),
    ensures
        groups matches Some(found) && found.len() == 2 && found[1] == crate::pattern::named_grid(
            rest,
        ),
{
    reveal_strlit("!score");
    let here = before.len() as int;
    assert(text.skip(here) =~= "!score"@ + rest);
    assert("!score"@ =~= text.skip(here).subrange(0, 6));
    assert(crate::pattern::request_at(text, here));
    assert(groups is Some);
    let found = groups->0;
    let start = choose|start: int| #[trigger]
        crate::pattern::request_at(text, start) && found.len() == 2 && found[1]
            == crate::pattern::named_grid(text.skip(start + 6)) && forall|earlier: int|
            earlier < start ==> !#[trigger] crate::pattern::request_at(text, earlier);
    assert(start == here);
    assert(text.skip(here + 6) =~= rest);
}

/// `s`, or nothing.
pub open spec fn optional(s: Seq<char>, there: bool) -> Seq<char> {
    if there {
        s
    } else {
        Seq::empty()
    }
}

/// What may follow the word `!score`: an `s`, a gap, a `#`, a second gap, and then `end`.
pub open spec fn after_word(
    plural: bool,
    gap: Seq<char>,
    hash: bool,
    second_gap: Seq<char>,
    end: Seq<char>,
) -> Seq<char> {
    optional(seq!['s'], plural) + (gap + (optional(seq!['#'], hash) + (second_gap + end)))
}

/// Whether what stands before `end` ends there: `end` does not go on with a part that is left out.
pub open spec fn is_told_apart(
    plural: bool,
    gap: Seq<char>,
    hash: bool,
    second_gap: Seq<char>,
    end: Seq<char>,
) -> bool {
    end.len() > 0 ==> {
        &&& !crate::pattern::is_space(end[0])
        &&& !hash ==> end[0] != '#'
        &&& !plural && !hash && gap.len() == 0 && second_gap.len() == 0 ==> end[0] != 's'
    }
}

proof fn lemma_named_grid(
    plural: bool,
    gap: Seq<char>,
    hash: bool,
    second_gap: Seq<char>,
    end: Seq<char>,
)
    requires
        crate::pattern::all_in(crate::pattern::spaces(), gap),
        crate::pattern::all_in(crate::pattern::spaces(), second_gap),
        is_told_apart(plural, gap, hash, second_gap, end),
    ensures
        crate::pattern::named_grid(after_word(plural, gap, hash, second_gap, end)) == ({
            let number = crate::pattern::leading(crate::pattern::decimals(), end);
            if number.len() > 0 {
                Some(number)
            } else {
                None
            }
        }),
{
    let spaces = crate::pattern::spaces();
    let tail = optional(seq!['#'], hash) + (second_gap + end);
    let rest = after_word(plural, gap, hash, second_gap, end);
    lemma_after_leading(spaces, gap, tail);
    lemma_after_leading(spaces, second_gap, end);
    assert(crate::pattern::after_leading(spaces, end) == end);
    if hash {
        assert(tail[0] == '#');
        assert(crate::pattern::after_leading(spaces, tail) == tail);
        assert(crate::pattern::after_optional('#', tail) =~= second_gap + end);
    } else {
        assert(tail =~= second_gap + end);
        assert(crate::pattern::after_optional('#', end) == end);
    }
    assert(crate::pattern::after_optional('s', rest) =~= gap + tail) by {
        if !plural {
            assert(rest =~= gap + tail);
            if gap.len() > 0 {
                assert(rest[0] == gap[0]);
            } else if hash {
                assert(rest[0] == '#');
            } else if second_gap.len() > 0 {
                assert(rest[0] == second_gap[0]);
            } else {
                assert(rest =~= end);
            }
        }
    }
}

/// A request that names a grid, with or without a `#` and with any blanks, is answered with the
/// scores of that grid. What follows the number is no digit, and no request stands before.
pub proof fn law_request_for_a_grid(
    text: Seq<char>,
    groups: crate::pattern::Groups,
    before: Seq<char>,
    plural: bool,
    gap: Seq<char>,
    hash: bool,
    second_gap: Seq<char>,
    number: Seq<char>,
    after: Seq<char>,
)
    requires
        crate::pattern::finds_request(text, groups),
        text == before + "!score"@ + after_word(plural, gap, hash, second_gap, number + after),
        crate::pattern::all_in(crate::pattern::spaces(), gap),
        crate::pattern::all_in(crate::pattern::spaces(), second_gap),
        crate::text::is_numeral(number),
        crate::text::value(number) <= usize::MAX,
        after.len() > 0 ==> !crate::pattern::is_decimal(after[0]),
        forall|i: int| i < before.len() ==> !#[trigger] crate::pattern::request_at(text, i),
    ensures
        is_readable_request(groups),
        request_actions(groups) == seq![
            Action::SendScoresForGrid(crate::text::value(number) as usize),
        ],
{
    let end = number + after;
    let digits = crate::pattern::decimals();
    crate::pattern::law_first_decimals();
    assert(crate::text::is_digit(number[0]));
    assert(end[0] == number[0]);
    lemma_request_found(text, groups, before, after_word(plural, gap, hash, second_gap, end));
    lemma_named_grid(plural, gap, hash, second_gap, end);
    assert forall|i: int| 0 <= i < number.len() implies digits.contains(#[trigger] number[i]) by {
        assert(crate::text::is_digit(number[i]));
    }
    lemma_after_leading(digits, number, after);
    assert(crate::pattern::after_leading(digits, after) == after);
    assert(crate::pattern::leading(digits, end) =~= number);
}

/// A request that names no grid, with or without a `#` and with any blanks, is answered with the
/// scores of today's. What follows is no digit, and no request stands before.
pub proof fn law_request_for_today(
    text: Seq<char>,
    groups: crate::pattern::Groups,
    before: Seq<char>,
    plural: bool,
    gap: Seq<char>,
    hash: bool,
    second_gap: Seq<char>,
    after: Seq<char>,
)
    requires
        crate::pattern::finds_request(text, groups),
        text == before + "!score"@ + after_word(plural, gap, hash, second_gap, after),
        crate::pattern::all_in(crate::pattern::spaces(), gap),
        crate::pattern::all_in(crate::pattern::spaces(), second_gap),
        is_told_apart(plural, gap, hash, second_gap, after),
        after.len() > 0 ==> !crate::pattern::is_decimal(after[0]),
        forall|i: int| i < before.len() ==> !#[trigger] crate::pattern::request_at(text, i),
    ensures
        is_readable_request(groups),
        request_actions(groups) == seq![Action::SendScoresNow],
{
    lemma_request_found(text, groups, before, after_word(plural, gap, hash, second_gap, after));
    lemma_named_grid(plural, gap, hash, second_gap, after);
    assert(crate::pattern::after_leading(crate::pattern::decimals(), after) == after);
    assert(crate::pattern::leading(crate::pattern::decimals(), after).len() == 0);
}

/// A message without the word of a request is answered with no scores of a grid.
pub proof fn law_no_request(text: Seq<char>, groups: crate::pattern::Groups)
    requires
        crate::pattern::finds_request(text, groups),
        forall|i: int| !#[trigger] crate::pattern::request_at(text, i),
    ensures
        is_readable_request(groups),
        request_actions(groups) == Seq::<Action>::empty(),
{
}

/// What is asked for is what is done. The positions over all grids are answered to `!all_time` and
/// to nothing else, and those over the recent grids to `!last_30`. The scores of a grid are answered
/// exactly where the search found its number, and those of today's where it found a request without
/// a number.
pub proof fn law_what_is_asked_is_answered(
    author: u64,
    bot: u64,
    admin: u64,
    content: Seq<char>,
    groups: crate::pattern::Groups,
)
    requires
        author != bot,
        is_readable_request(groups),
    ensures
        ({
            let actions = actions_for(author, bot, admin, content, groups);
            &&& forall|from: usize| #[trigger]
                actions.contains(Action::SendTimeScores(from)) <==> from == 0 && content
                    == "!all_time"@
            &&& actions.contains(Action::SendRecentTimeScores) <==> content == "!last_30"@
            &&& forall|grid_id: usize| #[trigger]
                actions.contains(Action::SendScoresForGrid(grid_id)) <==> groups is Some
                    && groups->0[1] is Some && crate::text::value(groups->0[1]->0) == grid_id
            &&& actions.contains(Action::SendScoresNow) <==> groups is Some && groups->0[1] is None
        }),
{
    let actions = actions_for(author, bot, admin, content, groups);
    let first = if_done(
        content == "!scan_all"@,
        if author == admin {
            Action::ScanAll
        } else {
            Action::Refuse
        },
    );
    let asked = request_actions(groups);
    let all_time = if_done(content == "!all_time"@, Action::SendTimeScores(0));
    let recent = if_done(content == "!last_30"@, Action::SendRecentTimeScores);
    if asked.len() > 0 {
        assert(actions[first.len() as int] == asked[0]);
    }
    if all_time.len() > 0 {
        assert(actions[(first.len() + asked.len()) as int] == all_time[0]);
    }
    if recent.len() > 0 {
        assert(actions[(first.len() + asked.len() + all_time.len()) as int] == recent[0]);
    }
}

/// The other commands hold no request for scores.
proof fn lemma_commands_are_no_requests(content: Seq<char>, start: int)
    requires
        content == "!scan_all"@ || content == "!all_time"@ || content == "!last_30"@,
    ensures
        !crate::pattern::request_at(content, start),
{
    reveal_strlit("!scan_all");
    reveal_strlit("!all_time");
    reveal_strlit("!last_30");
    reveal_strlit("!score");
    if crate::pattern::request_at(content, start) {
        let head = content.skip(start).subrange(0, 6);
        assert(head[0] == '!' && head[1] == 's' && head[2] == 'c' && head[3] == 'o');
        assert(content[start] == '!');
        assert(start == 0);
        assert(content[3] == 'o');
    }
}

/// A request that names a grid is answered with the scores of that grid, whichever it is, and with
/// nothing else; then the message is scanned.
pub proof fn law_named_grid_is_answered(
    author: u64,
    bot: u64,
    admin: u64,
    text: Seq<char>,
    groups: crate::pattern::Groups,
    before: Seq<char>,
    plural: bool,
    gap: Seq<char>,
    hash: bool,
    second_gap: Seq<char>,
    number: Seq<char>,
    after: Seq<char>,
)
    requires
        author != bot,
        crate::pattern::finds_request(text, groups),
        text == before + "!score"@ + after_word(plural, gap, hash, second_gap, number + after),
        crate::pattern::all_in(crate::pattern::spaces(), gap),
        crate::pattern::all_in(crate::pattern::spaces(), second_gap),
        crate::text::is_numeral(number),
        crate::text::value(number) <= usize::MAX,
        after.len() > 0 ==> !crate::pattern::is_decimal(after[0]),
        forall|i: int| i < before.len() ==> !#[trigger] crate::pattern::request_at(text, i),
    ensures
        actions_for(author, bot, admin, text, groups) == seq![
            Action::SendScoresForGrid(crate::text::value(number) as usize),
            Action::ScanMessage,
        ],
{
    law_request_for_a_grid(
        text,
        groups,
        before,
        plural,
        gap,
        hash,
        second_gap,
        number,
        after,
    );
    assert(request_actions(groups).len() == 1);
    lemma_request_is_no_command(text, groups);
    assert(actions_for(author, bot, admin, text, groups) =~= seq![
        Action::SendScoresForGrid(crate::text::value(number) as usize),
        Action::ScanMessage,
    ]);
}

/// A text in which a request is found is none of the other commands.
proof fn lemma_request_is_no_command(text: Seq<char>, groups: crate::pattern::Groups)
    requires
        crate::pattern::finds_request(text, groups),
        groups is Some,
    ensures
        text != "!scan_all"@,
        text != "!all_time"@,
        text != "!last_30"@,
{
    let found = groups->0;
    let start = choose|start: int| #[trigger]
        crate::pattern::request_at(text, start) && found.len() == 2 && found[1]
            == crate::pattern::named_grid(text.skip(start + 6)) && forall|earlier: int|
            earlier < start ==> !#[trigger] crate::pattern::request_at(text, earlier);
    if text == "!scan_all"@ || text == "!all_time"@ || text == "!last_30"@ {
        lemma_commands_are_no_requests(text, start);
    }
}

/// A request that names no grid is answered with the scores of today's, and with nothing else; then
/// the message is scanned.
pub proof fn law_request_without_a_grid_is_answered(
    author: u64,
    bot: u64,
    admin: u64,
    text: Seq<char>,
    groups: crate::pattern::Groups,
    before: Seq<char>,
    plural: bool,
    gap: Seq<char>,
    hash: bool,
    second_gap: Seq<char>,
    after: Seq<char>,
)
    requires
        author != bot,
        crate::pattern::finds_request(text, groups),
        text == before + "!score"@ + after_word(plural, gap, hash, second_gap, after),
        crate::pattern::all_in(crate::pattern::spaces(), gap),
        crate::pattern::all_in(crate::pattern::spaces(), second_gap),
        is_told_apart(plural, gap, hash, second_gap, after),
        after.len() > 0 ==> !crate::pattern::is_decimal(after[0]),
        forall|i: int| i < before.len() ==> !#[trigger] crate::pattern::request_at(text, i),
    ensures
        actions_for(author, bot, admin, text, groups) == seq![
            Action::SendScoresNow,
            Action::ScanMessage,
        ],
{
    law_request_for_today(text, groups, before, plural, gap, hash, second_gap, after);
    assert(request_actions(groups).len() == 1);
    lemma_request_is_no_command(text, groups);
    assert(actions_for(author, bot, admin, text, groups) =~= seq![
        Action::SendScoresNow,
        Action::ScanMessage,
    ]);
}

/// The number of a grid that a request names can be read exactly where it is made of the digits `0`
/// to `9` and fits in a `usize`.
pub proof fn law_requested_number_is_readable(
    text: Seq<char>,
    groups: crate::pattern::Groups,
    before: Seq<char>,
    plural: bool,
    gap: Seq<char>,
    hash: bool,
    second_gap: Seq<char>,
    number: Seq<char>,
    after: Seq<char>,
)
    requires
        crate::pattern::finds_request(text, groups),
        text == before + "!score"@ + after_word(plural, gap, hash, second_gap, number + after),
        crate::pattern::all_in(crate::pattern::spaces(), gap),
        crate::pattern::all_in(crate::pattern::spaces(), second_gap),
        number.len() > 0,
        crate::pattern::all_in(crate::pattern::decimals(), number),
        after.len() > 0 ==> !crate::pattern::is_decimal(after[0]),
        forall|i: int| i < before.len() ==> !#[trigger] crate::pattern::request_at(text, i),
    ensures
        is_readable_request(groups) <==> crate::text::is_numeral(number) && crate::text::value(
            number,
        ) <= usize::MAX,
{
    let end = number + after;
    let digits = crate::pattern::decimals();
    assert(end[0] == number[0]);
    assert(digits.contains(number[0]));
    crate::pattern::law_decimals_stand_apart(number[0]);
    lemma_request_found(text, groups, before, after_word(plural, gap, hash, second_gap, end));
    lemma_named_grid(plural, gap, hash, second_gap, end);
    lemma_after_leading(digits, number, after);
    assert(crate::pattern::after_leading(digits, after) == after);
    assert(crate::pattern::leading(digits, end) =~= number);
}

/// A message without a request is answered by the command that it is: the administrator's scan, or
/// the refusal of it, the positions over all grids or over the recent ones. Any other message is
/// answered with nothing. In the end the message is scanned.
pub proof fn law_commands_are_answered(
    author: u64,
    bot: u64,
    admin: u64,
    text: Seq<char>,
    groups: crate::pattern::Groups,
)
    requires
        author != bot,
        crate::pattern::finds_request(text, groups),
        forall|i: int| !#[trigger] crate::pattern::request_at(text, i),
    ensures
        ({
            let actions = actions_for(author, bot, admin, text, groups);
            &&& text == "!scan_all"@ && author == admin ==> actions == seq![
                Action::ScanAll,
                Action::ScanMessage,
            ]
            &&& text == "!scan_all"@ && author != admin ==> actions == seq![
                Action::Refuse,
                Action::ScanMessage,
            ]
            &&& text == "!all_time"@ ==> actions == seq![
                Action::SendTimeScores(0),
                Action::ScanMessage,
            ]
            &&& text == "!last_30"@ ==> actions == seq![
                Action::SendRecentTimeScores,
                Action::ScanMessage,
            ]
            &&& text != "!scan_all"@ && text != "!all_time"@ && text != "!last_30"@ ==> actions
                == seq![Action::ScanMessage]
        }),
{
    law_no_request(text, groups);
    reveal_strlit("!scan_all");
    reveal_strlit("!all_time");
    reveal_strlit("!last_30");
    assert("!scan_all"@[1] != "!all_time"@[1] && "!scan_all"@[1] != "!last_30"@[1]);
    assert("!all_time"@[1] != "!last_30"@[1]);
}

/// No message gets two answers.
pub proof fn law_one_answer_at_most(
    author: u64,
    bot: u64,
    admin: u64,
    text: Seq<char>,
    groups: crate::pattern::Groups,
)
    requires
        crate::pattern::finds_request(text, groups),
        is_readable_request(groups),
    ensures
        actions_for(author, bot, admin, text, groups).len() <= 2,
{
    if author != bot {
        if groups is Some {
            lemma_request_is_no_command(text, groups);
        } else {
            law_commands_are_answered(author, bot, admin, text, groups);
        }
    }
}

/// The recent grids are thirty, and the refusal says what it says.
pub proof fn law_recent_grids_are_thirty()
    ensures
        RECENT_GRIDS == 30,
        REFUSAL@ == "ah ah ah you didn't say the magic word"@,
{
}

} // verus!
