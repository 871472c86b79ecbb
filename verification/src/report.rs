//! The messages that show scores.

use std::collections::HashMap;

use vstd::prelude::*;

use crate::daily::ordered_daily_scores_by_secs;
use crate::duration::pp_secs;
use crate::leaderboard::Leaderboard;
use crate::player::{GlobalName, Score, User, UserWithGlobalName};
use crate::text::{push_decimal, push_signed};
use crate::times::{make_times, order_all_time, times_in, Position, TimesBoard};

verus! {

broadcast use vstd::std_specs::hash::group_hash_axioms;

/// The answers of the chat service that came for the global names of accounts, by the account.
pub type Names = Map<u64, UserWithGlobalName>;

/// The name that a player is shown under.
pub open spec fn shown_name(user: User, names: Names) -> Seq<char> {
    crate::player::preferred_name(user.name@, names.get(user.id))
}

/// What stands in front of the player at `place` in the ranking of a grid, the first being 0.
pub open spec fn place_mark(place: int) -> Seq<char> {
    if place == 0 {
        "1. 🥇 "@
    } else if place == 1 {
        "2. 🥈 "@
    } else if place == 2 {
        "3. 🥉 "@
    } else {
        crate::text::decimal((place + 1) as nat) + ".       "@
    }
}

/// The line for the player at `place` in the ranking of a grid.
pub open spec fn daily_line(place: int, user: User, score: Score, names: Names) -> Seq<char> {
    place_mark(place) + crate::duration::shown_time(score.secs as nat) + " "@ + shown_name(
        user,
        names,
    ) + "\n"@
}

/// The lines for ranked players, in their order.
pub open spec fn daily_lines(ranked: Seq<(User, Score)>, names: Names) -> Seq<char>
    decreases ranked.len(),
{
    if ranked.len() == 0 {
        Seq::empty()
    } else {
        daily_lines(ranked.drop_last(), names) + daily_line(
            ranked.len() - 1,
            ranked.last().0,
            ranked.last().1,
            names,
        )
    }
}

/// The players of a grid with their scores, in the order of `ids`.
pub open spec fn in_order(scores: crate::daily::DailyMap, ids: Seq<u64>) -> Seq<(User, Score)> {
    ids.map_values(|id: u64| scores[id])
}

/// The text above the ranking of a grid.
pub open spec fn daily_title(grid_id: usize) -> Seq<char> {
    "Meilleurs temps #"@ + crate::text::decimal(grid_id as nat) + "\n"@
}

/// What is said of a grid without scores.
pub open spec fn no_scores_text(grid_id: usize) -> Seq<char> {
    "Pas de temps pour grille #"@ + crate::text::decimal(grid_id as nat)
}

/// Whether `text` shows the scores of a grid: its title, and the lines of a ranking.
pub open spec fn shows_scores(
    text: Seq<char>,
    grid_id: usize,
    scores: crate::daily::DailyMap,
    names: Names,
) -> bool {
    exists|ids: Seq<u64>| #[trigger]
        crate::daily::is_ranking(scores, ids) && text == daily_title(grid_id) + daily_lines(
            in_order(scores, ids),
            names,
        )
}

/// The name that a player is shown under.
fn name_of(user: &User, names: &HashMap<u64, UserWithGlobalName>) -> (r: String)
    ensures
        r@ == shown_name(*user, names@),
{
    user.global_name(names.get(&user.id))
}

/// Writes the lines of a ranking.
pub fn pretty_print_daily_ordered(
    ordered: &Vec<(&User, &Score)>,
    names: &HashMap<u64, UserWithGlobalName>,
) -> (r: String)
    ensures
        r@ == daily_lines(
            ordered@.map_values(|entry: (&User, &Score)| (*entry.0, *entry.1)),
            names@,
        ),
{
    let mut out = String::new();
    let ghost ranked = ordered@.map_values(|entry: (&User, &Score)| (*entry.0, *entry.1));
    assert(ranked.take(0) =~= Seq::<(User, Score)>::empty());
    for i in 0..ordered.len()
        invariant
            ranked == ordered@.map_values(|entry: (&User, &Score)| (*entry.0, *entry.1)),
            out@ == daily_lines(ranked.take(i as int), names@),
    {
        let (user, score) = ordered[i];
        let ghost before = out@;
        if i == 0 {
            out.append("1. 🥇 ");
        } else if i == 1 {
            out.append("2. 🥈 ");
        } else if i == 2 {
            out.append("3. 🥉 ");
        } else {
            push_decimal(&mut out, i as u64 + 1);
            out.append(".       ");
        }
        out.append(pp_secs(score.secs).as_str());
        out.append(" ");
        out.append(name_of(user, names).as_str());
        out.append("\n");
        assert(out@ =~= before + daily_line(i as int, *user, *score, names@));
        assert(ranked.take(i + 1).drop_last() =~= ranked.take(i as int));
        assert(ranked.take(i + 1).last() == (*user, *score));
    }
    assert(ranked.take(ranked.len() as int) =~= ranked);
    out
}

/// The scores of a grid, or as an error the text that there are none.
pub fn pp_daily(
    all_time: &Leaderboard,
    grid_id: usize,
    names: &HashMap<u64, UserWithGlobalName>,
) -> (r: Result<String, String>)
    requires
        all_time.wf(),
    ensures
        match r {
            Ok(text) => all_time@.contains_key(grid_id) && shows_scores(
                text@,
                grid_id,
                all_time@[grid_id],
                names@,
            ),
            Err(text) => !all_time@.contains_key(grid_id) && text@ == no_scores_text(grid_id),
        },
{
    match all_time.get(grid_id) {
        Some(daily_scores) => {
            let ordered = ordered_daily_scores_by_secs(daily_scores);
            let mut out = String::new();
            out.append("Meilleurs temps #");
            push_decimal(&mut out, grid_id as u64);
            out.append("\n");
            out.append(pretty_print_daily_ordered(&ordered, names).as_str());
            proof {
                let scores = daily_scores@;
                let ids = crate::daily::ranked_ids(ordered@);
                let ranked = ordered@.map_values(|entry: (&User, &Score)| (*entry.0, *entry.1));
                assert(in_order(scores, ids) =~= ranked);
                assert(out@ =~= daily_title(grid_id) + daily_lines(ranked, names@));
            }
            Ok(out)
        },
        None => {
            let mut out = String::new();
            out.append("Pas de temps pour grille #");
            push_decimal(&mut out, grid_id as u64);
            assert(out@ =~= no_scores_text(grid_id));
            Err(out)
        },
    }
}

/// What is answered to a request for the scores of a grid.
pub fn daily_response(
    all_time: &Leaderboard,
    grid_id: usize,
    names: &HashMap<u64, UserWithGlobalName>,
) -> (r: String)
    requires
        all_time.wf(),
    ensures
        if all_time@.contains_key(grid_id) {
            shows_scores(r@, grid_id, all_time@[grid_id], names@)
        } else {
            r@ == no_scores_text(grid_id)
        },
{
    match pp_daily(all_time, grid_id, names) {
        Ok(text) => text,
        Err(text) => text,
    }
}

/// The span of grids that a ranking over several grids is about.
pub open spec fn span_text(from_game_id: usize, grid_number: i64) -> Seq<char> {
    if from_game_id == 0 {
        "depuis toujours"@
    } else {
        "pour les "@ + crate::text::signed_decimal(grid_number - (from_game_id as i64))
            + " derniers jeux"@
    }
}

/// The text above a ranking over several grids.
pub open spec fn times_title(from_game_id: usize, grid_number: i64) -> Seq<char> {
    "Classement général (temps) "@ + span_text(from_game_id, grid_number) + ":\n\n"@
}

/// The line for the player at `place` in a ranking over several grids, the first being 0.
pub open spec fn times_line(
    place: int,
    user: User,
    counts: Map<Position, usize>,
    names: Names,
) -> Seq<char> {
    crate::text::decimal((place + 1) as nat) + ". "@ + shown_name(user, names) + " 🥇x"@
        + crate::text::decimal(crate::times::count_at(counts, 0) as nat) + " 🥈x"@
        + crate::text::decimal(crate::times::count_at(counts, 1) as nat) + " 🥉x"@
        + crate::text::decimal(crate::times::count_at(counts, 2) as nat) + "\n"@
}

/// The lines for ranked players, in their order.
pub open spec fn times_lines(
    ranked: Seq<(User, Map<Position, usize>)>,
    names: Names,
) -> Seq<char>
    decreases ranked.len(),
{
    if ranked.len() == 0 {
        Seq::empty()
    } else {
        times_lines(ranked.drop_last(), names) + times_line(
            ranked.len() - 1,
            ranked.last().0,
            ranked.last().1,
            names,
        )
    }
}

/// Whether `text` shows the positions of all players: the title, and the lines of a ranking.
pub open spec fn shows_times(
    text: Seq<char>,
    times: crate::times::TimesMap,
    from_game_id: usize,
    grid_number: i64,
    names: Names,
) -> bool {
    exists|ids: Seq<u64>| #[trigger]
        crate::times::is_times_ranking(times, ids) && text == times_title(
            from_game_id,
            grid_number,
        ) + times_lines(ids.map_values(|id: u64| times[id]), names)
}

/// Appends the line for the player at `place`.
fn push_times_line(
    out: &mut String,
    place: usize,
    user: &User,
    counts: &HashMap<Position, usize>,
    names: &HashMap<u64, UserWithGlobalName>,
)
    requires
        place < usize::MAX,
    ensures
        final(out)@ == old(out)@ + times_line(place as int, *user, counts@, names@),
{
    push_decimal(out, place as u64 + 1);
    out.append(". ");
    out.append(name_of(user, names).as_str());
    out.append(" 🥇x");
    push_decimal(out, times_in(counts, 0) as u64);
    out.append(" 🥈x");
    push_decimal(out, times_in(counts, 1) as u64);
    out.append(" 🥉x");
    push_decimal(out, times_in(counts, 2) as u64);
    out.append("\n");
    assert(out@ =~= old(out)@ + times_line(place as int, *user, counts@, names@));
}

/// The positions of all players over the grids from `from_game_id` on, where today's grid has the
/// number `grid_number`.
pub fn pp_times(
    all_time_board: &TimesBoard,
    from_game_id: usize,
    grid_number: i64,
    names: &HashMap<u64, UserWithGlobalName>,
) -> (r: String)
    requires
        all_time_board.wf(),
        i64::MIN <= grid_number - (from_game_id as i64) <= i64::MAX,
    ensures
        shows_times(r@, all_time_board@, from_game_id, grid_number, names@),
{
    let mut out = String::new();
    out.append("Classement général (temps) ");
    if from_game_id == 0 {
        out.append("depuis toujours");
    } else {
        out.append("pour les ");
        push_signed(&mut out, grid_number - (from_game_id as i64));
        out.append(" derniers jeux");
    }
    out.append(":\n\n");
    let ghost title = times_title(from_game_id, grid_number);
    assert(out@ =~= title);
    let ordered = order_all_time(all_time_board);
    let ghost times = all_time_board@;
    let ghost ids = crate::times::row_ids(ordered@);
    let ghost ranked = ids.map_values(|id: u64| times[id]);
    assert(ranked.take(0) =~= Seq::<(User, Map<Position, usize>)>::empty());
    assert(out@ =~= title + times_lines(ranked.take(0), names@));
    for i in 0..ordered.len()
        invariant
            ranked.len() == ordered@.len(),
            forall|j: int|
                0 <= j < ordered@.len() ==> ranked[j] == (
                    *(#[trigger] ordered@[j]).0,
                    ordered@[j].1@,
                ),
            out@ == title + times_lines(ranked.take(i as int), names@),
    {
        let (user, counts) = ordered[i];
        push_times_line(&mut out, i, user, counts, names);
        assert(ranked.take(i + 1).drop_last() =~= ranked.take(i as int));
        assert(ranked.take(i + 1).last() == (*user, counts@));
        assert(out@ =~= title + times_lines(ranked.take(i + 1), names@));
    }
    assert(ranked.take(ranked.len() as int) =~= ranked);
    out
}

/// Whether `text` shows the positions of all players over the grids of `board` from `from_game_id`
/// on and before the one of today: by some ranking of each of these grids, how often each player
/// came in at each position.
pub open spec fn shows_times_of(
    text: Seq<char>,
    board: crate::leaderboard::BoardMap,
    from_game_id: usize,
    grid_number: i64,
    names: Names,
) -> bool {
    let grids = crate::times::counted_grids(board, from_game_id, grid_number as usize);
    exists|times: crate::times::TimesMap, ranks: Map<usize, Seq<u64>>|
        {
            &&& #[trigger] crate::times::counts_positions(times, grids, ranks)
            &&& crate::times::are_rankings(board, grids, ranks)
            &&& crate::times::has_accounts(times, board, grids)
            &&& shows_times(text, times, from_game_id, grid_number, names)
        }
}

/// What is answered to a request for the positions of all players over the grids from
/// `from_game_id` on, where today's grid has the number `grid_number`.
pub fn times_response(
    all_time: &Leaderboard,
    from_game_id: usize,
    grid_number: i64,
    names: &HashMap<u64, UserWithGlobalName>,
) -> (r: String)
    requires
        all_time.wf(),
        i64::MIN <= grid_number - (from_game_id as i64) <= i64::MAX,
    ensures
        shows_times_of(r@, all_time@, from_game_id, grid_number, names@),
{
    let board = make_times(all_time, from_game_id, grid_number);
    pp_times(&board, from_game_id, grid_number, names)
}

/// The positions over the recent grids are about the thirty grids before today's, and their title
/// says so.
pub proof fn law_recent_positions(board: crate::leaderboard::BoardMap, grid_number: i64)
    requires
        crate::bot::RECENT_GRIDS < grid_number <= usize::MAX,
    ensures
        ({
            let from = (grid_number - crate::bot::RECENT_GRIDS) as usize;
            &&& forall|id: usize| #[trigger]
                crate::times::counted_grids(board, from, grid_number as usize).contains(id)
                    <==> board.contains_key(id) && grid_number - crate::bot::RECENT_GRIDS <= id
                    < grid_number
            &&& span_text(from, grid_number) == "pour les 30 derniers jeux"@
        }),
{
    let from = (grid_number - crate::bot::RECENT_GRIDS) as usize;
    reveal_strlit("pour les ");
    reveal_strlit(" derniers jeux");
    reveal_strlit("pour les 30 derniers jeux");
    assert(crate::text::decimal(3) == seq![crate::text::digit(3)]);
    assert(crate::text::decimal(30) =~= seq!['3', '0']);
    assert(span_text(from, grid_number) =~= "pour les 30 derniers jeux"@);
}

/// A player is shown under the global name that was answered for the player's account, whatever it
/// is, and under the account's own name where none was.
pub proof fn law_players_are_shown_by_name(user: User, names: Names)
    ensures
        names.contains_key(user.id) && names[user.id].global_name is Some ==> shown_name(user, names)
            == (names[user.id].global_name->0)@,
        names.contains_key(user.id) && names[user.id].global_name is None ==> shown_name(user, names)
            == user.name@,
        !names.contains_key(user.id) ==> shown_name(user, names) == user.name@,
{
}

/// The ranking of a grid shows one line for each player, in their order: the place, with a medal for
/// the first three, the time, and the name. A player more at the end adds a line at the end, and
/// changes none before it.
pub proof fn law_each_ranked_player_has_a_line(
    ranked: Seq<(User, Score)>,
    user: User,
    score: Score,
    names: Names,
)
    ensures
        daily_lines(Seq::empty(), names) == Seq::<char>::empty(),
        ({
            let mark = if ranked.len() == 0 {
                "1. 🥇 "@
            } else if ranked.len() == 1 {
                "2. 🥈 "@
            } else if ranked.len() == 2 {
                "3. 🥉 "@
            } else {
                crate::text::decimal(ranked.len() + 1) + ".       "@
            };
            daily_lines(ranked.push((user, score)), names) == daily_lines(ranked, names) + (mark
                + crate::duration::shown_time(score.secs as nat) + " "@ + shown_name(user, names)
                + "\n"@)
        }),
{
    assert(ranked.push((user, score)).drop_last() =~= ranked);
}

/// The answer about a grid with scores is its number and the lines of all its players, once each, the
/// faster before the slower, and the one with fewer tries first where they took as long. The answer
/// about any other grid says that there are none.
pub proof fn law_scores_are_answered(
    text: Seq<char>,
    grid_id: usize,
    scores: crate::daily::DailyMap,
    names: Names,
)
    ensures
        no_scores_text(grid_id) == "Pas de temps pour grille #"@ + crate::text::decimal(
            grid_id as nat,
        ),
        shows_scores(text, grid_id, scores, names) ==> exists|ids: Seq<u64>|
            #![trigger in_order(scores, ids)]
            {
                &&& ids.len() == scores.dom().len()
                &&& forall|id: u64| #[trigger] scores.contains_key(id) ==> ids.contains(id)
                &&& forall|i: int, j: int|
                    0 <= i < j < ids.len() ==> {
                        let (a, b) = (scores[#[trigger] ids[i]].1, scores[#[trigger] ids[j]].1);
                        &&& ids[i] != ids[j]
                        &&& a.secs <= b.secs
                        &&& a.secs == b.secs ==> a.tries <= b.tries
                    }
                &&& in_order(scores, ids).len() == ids.len()
                &&& forall|i: int|
                    0 <= i < ids.len() ==> #[trigger] in_order(scores, ids)[i] == scores[ids[i]]
                &&& text == "Meilleurs temps #"@ + crate::text::decimal(grid_id as nat) + "\n"@
                    + daily_lines(in_order(scores, ids), names)
            },
{
    if shows_scores(text, grid_id, scores, names) {
        let ids = choose|ids: Seq<u64>| #[trigger]
            crate::daily::is_ranking(scores, ids) && text == daily_title(grid_id) + daily_lines(
                in_order(scores, ids),
                names,
            );
        crate::daily::law_each_player_is_ranked_once(scores, ids);
        assert forall|i: int, j: int| 0 <= i < j < ids.len() implies {
            let (a, b) = (scores[#[trigger] ids[i]].1, scores[#[trigger] ids[j]].1);
            &&& ids[i] != ids[j]
            &&& a.secs <= b.secs
            &&& a.secs == b.secs ==> a.tries <= b.tries
        } by {
            crate::daily::law_ranked_by_time_then_tries(scores, ids, i, j);
        }
        assert(in_order(scores, ids).len() == ids.len());
    }
}

/// The title of the positions says what they are about: everything, where they are counted from grid
/// 0, and else how many grids lie between the first one and today's.
pub proof fn law_span_is_named(from_game_id: usize, grid_number: i64)
    ensures
        times_title(0, grid_number) == "Classement général (temps) "@ + "depuis toujours"@
            + ":\n\n"@,
        from_game_id > 0 ==> times_title(from_game_id, grid_number)
            == "Classement général (temps) "@ + ("pour les "@ + crate::text::signed_decimal(
            grid_number - (from_game_id as i64),
        ) + " derniers jeux"@) + ":\n\n"@,
{
}

/// The positions show one line for each player, in their order: the place, the name, and how often
/// the player came in first, second and third. A player more at the end adds a line at the end, and
/// changes none before it.
pub proof fn law_each_listed_player_has_a_line(
    ranked: Seq<(User, Map<Position, usize>)>,
    user: User,
    counts: Map<Position, usize>,
    names: Names,
)
    ensures
        times_lines(Seq::empty(), names) == Seq::<char>::empty(),
        times_lines(ranked.push((user, counts)), names) == times_lines(ranked, names) + (
        crate::text::decimal(ranked.len() + 1) + ". "@ + shown_name(user, names) + " 🥇x"@
            + crate::text::decimal(crate::times::count_at(counts, 0) as nat) + " 🥈x"@
            + crate::text::decimal(crate::times::count_at(counts, 1) as nat) + " 🥉x"@
            + crate::text::decimal(crate::times::count_at(counts, 2) as nat) + "\n"@),
{
    assert(ranked.push((user, counts)).drop_last() =~= ranked);
}

/// The answer with the positions is the title and the lines of all players of the board, once each,
/// with more first places first, then with more second places, then with more third places.
pub proof fn law_positions_are_answered(
    text: Seq<char>,
    times: crate::times::TimesMap,
    from_game_id: usize,
    grid_number: i64,
    names: Names,
)
    requires
        shows_times(text, times, from_game_id, grid_number, names),
    ensures
        exists|ids: Seq<u64>|
            {
                &&& #[trigger] ids.no_duplicates()
                &&& ids.len() == times.dom().len()
                &&& forall|id: u64| #[trigger] times.contains_key(id) ==> ids.contains(id)
                &&& forall|i: int, j: int|
                    0 <= i < j < ids.len() ==> {
                        let (a, b) = (times[#[trigger] ids[i]].1, times[#[trigger] ids[j]].1);
                        &&& ids[i] != ids[j]
                        &&& crate::times::count_at(a, 0) >= crate::times::count_at(b, 0)
                        &&& crate::times::count_at(a, 0) == crate::times::count_at(b, 0)
                            ==> crate::times::count_at(a, 1) >= crate::times::count_at(b, 1)
                        &&& crate::times::count_at(a, 0) == crate::times::count_at(b, 0)
                            && crate::times::count_at(a, 1) == crate::times::count_at(b, 1)
                            ==> crate::times::count_at(a, 2) >= crate::times::count_at(b, 2)
                    }
                &&& text == times_title(from_game_id, grid_number) + times_lines(
                    ids.map_values(|id: u64| times[id]),
                    names,
                )
            },
{
    let ids = choose|ids: Seq<u64>| #[trigger]
        crate::times::is_times_ranking(times, ids) && text == times_title(
            from_game_id,
            grid_number,
        ) + times_lines(ids.map_values(|id: u64| times[id]), names);
    crate::times::law_each_player_is_listed_once(times, ids);
    assert forall|i: int, j: int| 0 <= i < j < ids.len() implies {
        let (a, b) = (times[#[trigger] ids[i]].1, times[#[trigger] ids[j]].1);
        &&& ids[i] != ids[j]
        &&& crate::times::count_at(a, 0) >= crate::times::count_at(b, 0)
        &&& crate::times::count_at(a, 0) == crate::times::count_at(b, 0) ==> crate::times::count_at(
            a,
            1,
        ) >= crate::times::count_at(b, 1)
        &&& crate::times::count_at(a, 0) == crate::times::count_at(b, 0) && crate::times::count_at(
            a,
            1,
        ) == crate::times::count_at(b, 1) ==> crate::times::count_at(a, 2)
            >= crate::times::count_at(b, 2)
    } by {
        crate::times::law_ranked_by_first_places(times, ids, i, j);
    }
    let rows = ids.map_values(|id: u64| times[id]);
    assert(rows.len() == ids.len());
}

/// The answer with the positions over a span of grids shows counts over exactly the grids of the
/// board in the span: the players are all those who shared a score for one of them, and how often a
/// player came in at a position is the number of these grids in which the player stands there by time
/// and tries.
pub proof fn law_positions_are_over_the_span(
    text: Seq<char>,
    board: crate::leaderboard::BoardMap,
    from_game_id: usize,
    grid_number: i64,
    names: Names,
)
    requires
        shows_times_of(text, board, from_game_id, grid_number, names),
    ensures
        exists|times: crate::times::TimesMap, ranks: Map<usize, Seq<u64>>|
            {
                &&& #[trigger] shows_times(text, times, from_game_id, grid_number, names)
                &&& #[trigger] crate::times::are_rankings(
                    board,
                    crate::times::counted_grids(board, from_game_id, grid_number as usize),
                    ranks,
                )
                &&& forall|player: u64| #[trigger]
                    times.contains_key(player) <==> exists|id: usize| #[trigger]
                        board.contains_key(id) && from_game_id <= id && id < grid_number as usize
                            && board[id].contains_key(player)
                &&& forall|player: u64, position: Position|
                    times.contains_key(player) ==> #[trigger] crate::times::count_at(
                        times[player].1,
                        position,
                    ) == crate::times::grids_at(
                        board,
                        from_game_id,
                        grid_number as usize,
                        ranks,
                        player,
                        position,
                    ).len()
                &&& forall|id: usize, i: int, j: int|
                    #![trigger ranks[id][i], ranks[id][j]]
                    board.contains_key(id) && from_game_id <= id && id < grid_number as usize && 0
                        <= i < j < ranks[id].len() ==> {
                        let (a, b) = (board[id][ranks[id][i]].1, board[id][ranks[id][j]].1);
                        &&& ranks[id][i] != ranks[id][j]
                        &&& a.secs <= b.secs
                        &&& a.secs == b.secs ==> a.tries <= b.tries
                    }
            },
{
    let until = grid_number as usize;
    let grids = crate::times::counted_grids(board, from_game_id, until);
    let (times, ranks) = choose|times: crate::times::TimesMap, ranks: Map<usize, Seq<u64>>|
        {
            &&& #[trigger] crate::times::counts_positions(times, grids, ranks)
            &&& crate::times::are_rankings(board, grids, ranks)
            &&& crate::times::has_accounts(times, board, grids)
            &&& shows_times(text, times, from_game_id, grid_number, names)
        };
    assert forall|player: u64| #[trigger] times.contains_key(player) <==> exists|id: usize|
        #[trigger] board.contains_key(id) && from_game_id <= id && id < until
            && board[id].contains_key(player) by {
        crate::times::law_places_are_counted(
            board,
            from_game_id,
            until,
            times,
            ranks,
            player,
            0,
        );
    }
    assert forall|player: u64, position: Position| times.contains_key(player) implies #[trigger]
        crate::times::count_at(times[player].1, position) == crate::times::grids_at(
        board,
        from_game_id,
        until,
        ranks,
        player,
        position,
    ).len() by {
        crate::times::law_places_are_counted(
            board,
            from_game_id,
            until,
            times,
            ranks,
            player,
            position,
        );
    }
    crate::times::law_places_are_counted(board, from_game_id, until, times, ranks, 0, 0);
}

} // verus!
