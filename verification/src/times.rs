//! How often each player came in at which position.

use std::collections::HashMap;

use vstd::prelude::*;

use crate::daily::{ordered_daily_scores_by_secs, DailyScores};
use crate::leaderboard::Leaderboard;
use crate::player::User;

verus! {

broadcast use vstd::std_specs::hash::group_hash_axioms;

/// A place in the ranking of a grid, the first being 0.
pub type Position = usize;

/// What a player achieved over several grids, by the account and the number of times that the
/// player came in at each position.
pub type TimesMap = Map<u64, (User, Map<Position, usize>)>;

#[derive(Debug)]
struct TimesRow {
    user: User,
    counts: HashMap<Position, usize>,
}

/// The positions of all players over several grids.
#[derive(Debug)]
pub struct TimesBoard {
    rows: HashMap<u64, TimesRow>,
}

impl View for TimesBoard {
    type V = TimesMap;

    closed spec fn view(&self) -> TimesMap {
        self.rows@.map_values(|row: TimesRow| (row.user, row.counts@))
    }
}

/// Every row is filed under the id of its player.
pub open spec fn rows_by_player(times: TimesMap) -> bool {
    &&& times.dom().finite()
    &&& forall|id: u64| #[trigger] times.contains_key(id) ==> times[id].0.id == id
}

/// How many times a player came in at a position.
pub open spec fn count_at(counts: Map<Position, usize>, position: Position) -> usize {
    if counts.contains_key(position) {
        counts[position]
    } else {
        0
    }
}

/// More first places, or as many and more second places, or as many of both and more third places.
pub open spec fn outranks(a: Map<Position, usize>, b: Map<Position, usize>) -> bool {
    ||| count_at(a, 0) > count_at(b, 0)
    ||| count_at(a, 0) == count_at(b, 0) && count_at(a, 1) > count_at(b, 1)
    ||| count_at(a, 0) == count_at(b, 0) && count_at(a, 1) == count_at(b, 1) && count_at(a, 2)
        > count_at(b, 2)
}

/// Whether `ids` ranks the players of `times`: each player once, and nobody behind a player who is
/// outranked. Players with the same first three counts stand in any order.
pub open spec fn is_times_ranking(times: TimesMap, ids: Seq<u64>) -> bool {
    &&& ids.no_duplicates()
    &&& forall|id: u64|
        #![trigger ids.contains(id)]
        #![trigger times.contains_key(id)]
        ids.contains(id) <==> times.contains_key(id)
    &&& forall|i: int, j: int|
        0 <= i < j < ids.len() ==> !outranks(
            times[#[trigger] ids[j]].1,
            times[#[trigger] ids[i]].1,
        )
}

/// The ids of ranked players.
pub open spec fn row_ids(ranked: Seq<(&User, &HashMap<Position, usize>)>) -> Seq<u64> {
    ranked.map_values(|row: (&User, &HashMap<Position, usize>)| row.0.id)
}

/// The grids of a board that count: those from `from` on, and before `until`.
pub open spec fn counted_grids(
    board: crate::leaderboard::BoardMap,
    from: usize,
    until: usize,
) -> Set<usize> {
    board.dom().filter(|id: usize| from <= id < until)
}

/// Whether the player came in at the position in the ranking of grid `id`.
pub open spec fn came_in(
    ranks: Map<usize, Seq<u64>>,
    id: usize,
    player: u64,
    position: Position,
) -> bool {
    position < ranks[id].len() && ranks[id][position as int] == player
}

/// How many times the player came in at the position, over the rankings of `grids`.
pub open spec fn times_at(
    grids: Set<usize>,
    ranks: Map<usize, Seq<u64>>,
    player: u64,
    position: Position,
) -> nat {
    grids.filter(|id: usize| came_in(ranks, id, player, position)).len()
}

/// Whether `times` counts the positions in the rankings of `grids`: the players are those who are
/// ranked somewhere, and every position at which a player came in has the number of times.
pub open spec fn counts_positions(
    times: TimesMap,
    grids: Set<usize>,
    ranks: Map<usize, Seq<u64>>,
) -> bool {
    &&& forall|player: u64| #[trigger]
        times.contains_key(player) <==> exists|id: usize| #[trigger]
            grids.contains(id) && ranks[id].contains(player)
    &&& forall|player: u64, position: Position|
        #![trigger times[player].1.contains_key(position)]
        #![trigger times_at(grids, ranks, player, position)]
        times.contains_key(player) ==> {
            &&& times[player].1.contains_key(position) <==> times_at(
                grids,
                ranks,
                player,
                position,
            ) > 0
            &&& times[player].1.contains_key(position) ==> times[player].1[position] == times_at(
                grids,
                ranks,
                player,
                position,
            )
        }
}

/// Whether every row is for an account that its player's score was filed for on one of `grids`.
pub open spec fn has_accounts(
    times: TimesMap,
    board: crate::leaderboard::BoardMap,
    grids: Set<usize>,
) -> bool {
    forall|player: u64| #[trigger]
        times.contains_key(player) ==> exists|id: usize| #[trigger]
            grids.contains(id) && board[id].contains_key(player) && times[player].0
                == board[id][player].0
}

/// Whether `ranks` holds a ranking of each of `grids`.
pub open spec fn are_rankings(
    board: crate::leaderboard::BoardMap,
    grids: Set<usize>,
    ranks: Map<usize, Seq<u64>>,
) -> bool {
    forall|id: usize| #[trigger]
        grids.contains(id) ==> crate::daily::is_ranking(board[id], ranks[id])
}

/// The counts after a player came in at a position once more.
spec fn with_place(times: TimesMap, user: User, position: Position) -> TimesMap {
    let row = if times.contains_key(user.id) {
        times[user.id]
    } else {
        (user, Map::empty())
    };
    let count = if row.1.contains_key(position) {
        (row.1[position] + 1) as usize
    } else {
        1
    };
    times.insert(user.id, (row.0, row.1.insert(position, count)))
}

impl TimesBoard {
    pub open spec fn wf(&self) -> bool {
        rows_by_player(self@)
    }

    fn new() -> (r: Self)
        ensures
            r@ == Map::<u64, (User, Map<Position, usize>)>::empty(),
    {
        let r = TimesBoard { rows: HashMap::new() };
        assert(r@ =~= Map::<u64, (User, Map<Position, usize>)>::empty());
        r
    }

    /// Counts that a player came in at a position.
    fn count_place(&mut self, user: &User, position: Position)
        requires
            old(self)@.contains_key(user.id) && old(self)@[user.id].1.contains_key(position)
                ==> old(self)@[user.id].1[position] < usize::MAX,
        ensures
            final(self)@ == with_place(old(self)@, *user, position),
    {
        let row = self.rows.entry(user.id).or_insert(
            TimesRow { user: user.clone(), counts: HashMap::new() },
        );
        let count = row.counts.entry(position).or_insert(0);
        *count += 1;
        assert(self@ =~= with_place(old(self)@, *user, position));
    }
}

/// One more player in the ranking of a grid counts once more at the next position, and changes no
/// other count.
proof fn lemma_next_place(grids: Set<usize>, ranks: Map<usize, Seq<u64>>, id: usize, player: u64)
    requires
        grids.finite(),
        grids.contains(id),
        ranks[id].len() <= usize::MAX,
    ensures
        ({
            let more = ranks.insert(id, ranks[id].push(player));
            let next = ranks[id].len() as usize;
            &&& times_at(grids, more, player, next) == times_at(grids, ranks, player, next) + 1
            &&& times_at(grids, more, player, next) <= grids.len()
            &&& forall|p: u64, position: Position|
                p != player || position != next ==> #[trigger] times_at(grids, more, p, position)
                    == times_at(grids, ranks, p, position)
        }),
{
    let more = ranks.insert(id, ranks[id].push(player));
    let next = ranks[id].len() as usize;
    let before = grids.filter(|g: usize| came_in(ranks, g, player, next));
    let after = grids.filter(|g: usize| came_in(more, g, player, next));
    assert(after =~= before.insert(id));
    assert(!before.contains(id));
    vstd::set_lib::lemma_len_subset(after, grids);
    assert forall|p: u64, position: Position|
        p != player || position != next implies #[trigger] times_at(grids, more, p, position)
        == times_at(grids, ranks, p, position) by {
        assert(grids.filter(|g: usize| came_in(more, g, p, position)) =~= grids.filter(
            |g: usize| came_in(ranks, g, p, position),
        ));
    }
}

/// A grid whose ranking is still empty changes no count.
proof fn lemma_empty_ranking(
    times: TimesMap,
    board: crate::leaderboard::BoardMap,
    grids: Set<usize>,
    ranks: Map<usize, Seq<u64>>,
    id: usize,
)
    requires
        grids.finite(),
        !grids.contains(id),
        counts_positions(times, grids, ranks),
        has_accounts(times, board, grids),
    ensures
        counts_positions(times, grids.insert(id), ranks.insert(id, Seq::empty())),
        has_accounts(times, board, grids.insert(id)),
{
    let more = ranks.insert(id, Seq::empty());
    let with_id = grids.insert(id);
    assert forall|p: u64, position: Position| #[trigger]
        times_at(with_id, more, p, position) == times_at(grids, ranks, p, position) by {
        assert(with_id.filter(|g: usize| came_in(more, g, p, position)) =~= grids.filter(
            |g: usize| came_in(ranks, g, p, position),
        ));
    }
    assert forall|player: u64| #[trigger] times.contains_key(player) <==> exists|g: usize|
        #[trigger] with_id.contains(g) && more[g].contains(player) by {
        if times.contains_key(player) {
            let g = choose|g: usize| #[trigger] grids.contains(g) && ranks[g].contains(player);
            assert(with_id.contains(g) && more[g].contains(player));
        }
        if exists|g: usize| #[trigger] with_id.contains(g) && more[g].contains(player) {
            let g = choose|g: usize| #[trigger] with_id.contains(g) && more[g].contains(player);
            assert(grids.contains(g) && ranks[g].contains(player));
        }
    }
    assert forall|player: u64| #[trigger] times.contains_key(player) implies exists|g: usize|
        #[trigger] with_id.contains(g) && board[g].contains_key(player) && times[player].0
            == board[g][player].0 by {
        let g = choose|g: usize| #[trigger]
            grids.contains(g) && board[g].contains_key(player) && times[player].0
                == board[g][player].0;
        assert(with_id.contains(g));
    }
}

/// Counting the next place in the ranking of a grid keeps the counts right.
proof fn lemma_count_place(
    times: TimesMap,
    board: crate::leaderboard::BoardMap,
    grids: Set<usize>,
    ranks: Map<usize, Seq<u64>>,
    id: usize,
    user: User,
)
    requires
        grids.finite(),
        grids.len() <= usize::MAX,
        grids.contains(id),
        ranks[id].len() <= usize::MAX,
        board[id].contains_key(user.id),
        user == board[id][user.id].0,
        counts_positions(times, grids, ranks),
        has_accounts(times, board, grids),
    ensures
        ({
            let next = ranks[id].len() as usize;
            let more = ranks.insert(id, ranks[id].push(user.id));
            &&& times.contains_key(user.id) && times[user.id].1.contains_key(next)
                ==> times[user.id].1[next] < usize::MAX
            &&& counts_positions(with_place(times, user, next), grids, more)
            &&& has_accounts(with_place(times, user, next), board, grids)
        }),
{
    let next = ranks[id].len() as usize;
    let more = ranks.insert(id, ranks[id].push(user.id));
    let after = with_place(times, user, next);
    lemma_next_place(grids, ranks, id, user.id);
    assert(more[id].last() == user.id);
    assert(more[id].contains(user.id));
    assert forall|p: u64| ranks[id].contains(p) implies more[id].contains(p) by {
        let i = choose|i: int| 0 <= i < ranks[id].len() && ranks[id][i] == p;
        assert(more[id][i] == p);
    }
    assert forall|p: u64| more[id].contains(p) && p != user.id implies ranks[id].contains(p) by {
        let i = choose|i: int| 0 <= i < more[id].len() && more[id][i] == p;
        assert(ranks[id][i] == p);
    }
    assert forall|player: u64| #[trigger] after.contains_key(player) <==> exists|g: usize|
        #[trigger] grids.contains(g) && more[g].contains(player) by {
        if player == user.id {
            assert(grids.contains(id) && more[id].contains(player));
        } else {
            if times.contains_key(player) {
                let g = choose|g: usize| #[trigger] grids.contains(g) && ranks[g].contains(player);
                assert(grids.contains(g) && more[g].contains(player));
            }
            if exists|g: usize| #[trigger] grids.contains(g) && more[g].contains(player) {
                let g = choose|g: usize| #[trigger] grids.contains(g) && more[g].contains(player);
                assert(grids.contains(g) && ranks[g].contains(player));
            }
        }
    }
    if !times.contains_key(user.id) {
        assert forall|position: Position| #[trigger]
            times_at(grids, ranks, user.id, position) == 0 by {
            let at = grids.filter(|g: usize| came_in(ranks, g, user.id, position));
            assert forall|g: usize| !at.contains(g) by {
                if at.contains(g) {
                    assert(ranks[g][position as int] == user.id);
                    assert(grids.contains(g) && ranks[g].contains(user.id));
                }
            }
            assert(at =~= Set::<usize>::empty());
        }
    }
    assert forall|player: u64, position: Position|
        #![trigger after[player].1.contains_key(position)]
        #![trigger times_at(grids, more, player, position)]
        after.contains_key(player) implies {
        &&& after[player].1.contains_key(position) <==> times_at(grids, more, player, position) > 0
        &&& after[player].1.contains_key(position) ==> after[player].1[position] == times_at(
            grids,
            more,
            player,
            position,
        )
    } by {
        let old_count = times_at(grids, ranks, player, position);
        let new_count = times_at(grids, more, player, position);
        if player != user.id || position != next {
            assert(new_count == old_count);
        }
        if times.contains_key(player) {
            assert(times[player].1.contains_key(position) <==> old_count > 0);
        }
    }
    assert forall|player: u64| #[trigger] after.contains_key(player) implies exists|g: usize|
        #[trigger] grids.contains(g) && board[g].contains_key(player) && after[player].0
            == board[g][player].0 by {
        if times.contains_key(player) {
            let g = choose|g: usize| #[trigger]
                grids.contains(g) && board[g].contains_key(player) && times[player].0
                    == board[g][player].0;
            assert(grids.contains(g));
        } else {
            assert(grids.contains(id));
        }
    }
}

/// Counts, for every player, how often the player came in at each position in the grids from
/// `from_game_id` on and before the one of today, whose number is `grid_number`.
pub fn make_times(all_time: &Leaderboard, from_game_id: usize, grid_number: i64) -> (r: TimesBoard)
    requires
        all_time.wf(),
    ensures
        ({
            let grids = counted_grids(all_time@, from_game_id, grid_number as usize);
            &&& r.wf()
            &&& has_accounts(r@, all_time@, grids)
            &&& exists|ranks: Map<usize, Seq<u64>>| #[trigger]
                are_rankings(all_time@, grids, ranks) && counts_positions(r@, grids, ranks)
        }),
        forall|player: u64| #[trigger]
            r@.contains_key(player) <==> exists|id: usize| #[trigger]
                all_time@.contains_key(id) && from_game_id <= id && id < grid_number as usize
                    && all_time@[id].contains_key(player),
{
    let until: usize = grid_number as usize;
    let mut times = TimesBoard::new();
    let ids = all_time.grids();
    let ghost board = all_time@;
    let ghost mut ranks = Map::<usize, Seq<u64>>::empty();
    let ghost mut grids = Set::<usize>::empty();
    for i in 0..ids.len()
        invariant
            all_time.wf(),
            board == all_time@,
            ids@.no_duplicates(),
            forall|id: usize| #[trigger] ids@.contains(id) <==> board.contains_key(id),
            grids.finite(),
            grids.len() <= i,
            forall|id: usize| #[trigger]
                grids.contains(id) <==> (from_game_id <= id < until && ids@.take(
                    i as int,
                ).contains(id)),
            are_rankings(board, grids, ranks),
            times.wf(),
            counts_positions(times@, grids, ranks),
            has_accounts(times@, board, grids),
    {
        let id = ids[i];
        assert(ids@.contains(id));
        proof {
            assert(!ids@.take(i as int).contains(id));
            crate::walk::lemma_insert(ids@.take(i as int), i as int, id);
            assert(ids@.take(i + 1) =~= ids@.take(i as int).insert(i as int, id));
        }
        if id >= from_game_id && id < until {
            if let Some(game) = all_time.get(id) {
                let ordered = ordered_daily_scores_by_secs(game);
                let ghost full = crate::daily::ranked_ids(ordered@);
                proof {
                    lemma_empty_ranking(times@, board, grids, ranks, id);
                    ranks = ranks.insert(id, Seq::empty());
                    grids = grids.insert(id);
                }
                for position in 0..ordered.len()
                    invariant
                        grids.finite(),
                        grids.contains(id),
                        grids.len() <= usize::MAX,
                        full == crate::daily::ranked_ids(ordered@),
                        ranks[id] == full.take(position as int),
                        forall|g: usize| #[trigger]
                            grids.contains(g) && g != id ==> crate::daily::is_ranking(
                                board[g],
                                ranks[g],
                            ),
                        crate::daily::is_ranking(board[id], full),
                        forall|j: int|
                            0 <= j < ordered@.len() ==> *(#[trigger] ordered@[j]).0
                                == board[id][ordered@[j].0.id].0,
                        times.wf(),
                        counts_positions(times@, grids, ranks),
                        has_accounts(times@, board, grids),
                {
                    let user = ordered[position].0;
                    proof {
                        assert(full[position as int] == user.id);
                        assert(full.contains(user.id));
                        assert(full.take(position + 1) =~= full.take(position as int).push(
                            user.id,
                        ));
                        lemma_count_place(times@, board, grids, ranks, id, *user);
                    }
                    times.count_place(user, position);
                    proof {
                        ranks = ranks.insert(id, ranks[id].push(user.id));
                    }
                }
                assert(full.take(ordered@.len() as int) =~= full);
            }
        }
    }
    assert(ids@.take(ids@.len() as int) =~= ids@);
    assert(grids =~= counted_grids(board, from_game_id, until));
    assert forall|player: u64| #[trigger] times@.contains_key(player) <==> exists|id: usize|
        #[trigger] board.contains_key(id) && from_game_id <= id && id < until
            && board[id].contains_key(player) by {
        law_places_are_counted(board, from_game_id, until, times@, ranks, player, 0);
    }
    times
}

/// The number of times that a player came in at a position.
pub fn times_in(counts: &HashMap<Position, usize>, position: Position) -> (r: usize)
    ensures
        r == count_at(counts@, position),
        counts@.contains_key(position) ==> r == counts@[position],
        !counts@.contains_key(position) ==> r == 0,
{
    match counts.get(&position) {
        Some(count) => *count,
        None => 0,
    }
}

/// Whether the first counts outrank the second.
fn is_outranking(a: &HashMap<Position, usize>, b: &HashMap<Position, usize>) -> (r: bool)
    ensures
        r == outranks(a@, b@),
{
    if times_in(a, 0) == times_in(b, 0) {
        if times_in(a, 1) == times_in(b, 1) {
            times_in(a, 2) > times_in(b, 2)
        } else {
            times_in(a, 1) > times_in(b, 1)
        }
    } else {
        times_in(a, 0) > times_in(b, 0)
    }
}

/// The place for a row in ranked rows: in front of all those that do not outrank it.
fn place_of(
    ranked: &Vec<(&User, &HashMap<Position, usize>)>,
    counts: &HashMap<Position, usize>,
) -> (r: usize)
    requires
        forall|i: int, j: int|
            0 <= i < j < ranked@.len() ==> !outranks(
                (#[trigger] ranked@[j]).1@,
                (#[trigger] ranked@[i]).1@,
            ),
    ensures
        r <= ranked@.len(),
        forall|i: int| 0 <= i < r ==> outranks((#[trigger] ranked@[i]).1@, counts@),
        forall|i: int| r <= i < ranked@.len() ==> !outranks((#[trigger] ranked@[i]).1@, counts@),
{
    let mut place: usize = 0;
    while place < ranked.len() && is_outranking(ranked[place].1, counts)
        invariant
            place <= ranked@.len(),
            forall|i: int| 0 <= i < place ==> outranks((#[trigger] ranked@[i]).1@, counts@),
        decreases ranked@.len() - place,
    {
        place += 1;
    }
    place
}

/// Ranks the players of a board by their first places, then by their second, then by their third.
pub fn order_all_time(all_time_board: &TimesBoard) -> (r: Vec<
    (&User, &HashMap<Position, usize>),
>)
    requires
        all_time_board.wf(),
    ensures
        is_times_ranking(all_time_board@, row_ids(r@)),
        forall|i: int|
            0 <= i < r@.len() ==> (*(#[trigger] r@[i]).0, r@[i].1@)
                == all_time_board@[r@[i].0.id],
        r@.len() == all_time_board@.dom().len(),
        forall|i: int|
            0 <= i < r@.len() ==> all_time_board@.contains_key((#[trigger] r@[i]).0.id),
        forall|i: int, j: int|
            0 <= i < j < r@.len() ==> {
                let (a, b) = ((#[trigger] r@[i]).1@, (#[trigger] r@[j]).1@);
                &&& r@[i].0.id != r@[j].0.id
                &&& count_at(a, 0) >= count_at(b, 0)
                &&& count_at(a, 0) == count_at(b, 0) ==> count_at(a, 1) >= count_at(b, 1)
                &&& count_at(a, 0) == count_at(b, 0) && count_at(a, 1) == count_at(b, 1)
                    ==> count_at(a, 2) >= count_at(b, 2)
            },
{
    let mut ranked: Vec<(&User, &HashMap<Position, usize>)> = Vec::new();
    let ghost times = all_time_board@;
    let ghost rows = all_time_board.rows@;
    let ghost mut done = Set::<u64>::empty();
    for (id, row) in it: all_time_board.rows.iter()
        invariant
            rows == all_time_board.rows@,
            times == rows.map_values(|row: TimesRow| (row.user, row.counts@)),
            rows_by_player(times),
            crate::walk::covers(it.seq(), rows),
            crate::walk::is_done(it.seq(), it.index(), done),
            row_ids(ranked@).no_duplicates(),
            forall|x: u64| #[trigger] row_ids(ranked@).contains(x) <==> done.contains(x),
            forall|i: int|
                0 <= i < ranked@.len() ==> times.contains_key((#[trigger] ranked@[i]).0.id)
                    && times[ranked@[i].0.id] == (*ranked@[i].0, ranked@[i].1@),
            forall|i: int, j: int|
                0 <= i < j < ranked@.len() ==> !outranks(
                    (#[trigger] ranked@[j]).1@,
                    (#[trigger] ranked@[i]).1@,
                ),
    {
        let ghost before = ranked@;
        let place: usize = place_of(&ranked, &row.counts);
        ranked.insert(place, (&row.user, &row.counts));
        proof {
            crate::walk::lemma_next(it.seq(), rows, it.index(), done);
            assert(times.contains_key(*id));
            crate::walk::lemma_insert(row_ids(before), place as int, *id);
            assert(row_ids(ranked@) =~= row_ids(before).insert(place as int, *id));
            done = done.insert(*id);
        }
    }
    assert forall|id: u64| row_ids(ranked@).contains(id) <==> #[trigger] times.contains_key(
        id,
    ) by {
        assert(times.contains_key(id) <==> rows.contains_key(id));
    }
    proof {
        let ids = row_ids(ranked@);
        law_each_player_is_listed_once(times, ids);
        assert forall|i: int, j: int| 0 <= i < j < ranked@.len() implies {
            let (a, b) = ((#[trigger] ranked@[i]).1@, (#[trigger] ranked@[j]).1@);
            &&& ranked@[i].0.id != ranked@[j].0.id
            &&& count_at(a, 0) >= count_at(b, 0)
            &&& count_at(a, 0) == count_at(b, 0) ==> count_at(a, 1) >= count_at(b, 1)
            &&& count_at(a, 0) == count_at(b, 0) && count_at(a, 1) == count_at(b, 1) ==> count_at(
                a,
                2,
            ) >= count_at(b, 2)
        } by {
            assert(ids[i] == ranked@[i].0.id && ids[j] == ranked@[j].0.id);
            law_ranked_by_first_places(times, ids, i, j);
        }
    }
    ranked
}

/// How often a player came in at a position is what is counted there, and no time where nothing is.
pub proof fn law_no_count_is_zero(counts: Map<Position, usize>, position: Position)
    ensures
        counts.contains_key(position) ==> count_at(counts, position) == counts[position],
        !counts.contains_key(position) ==> count_at(counts, position) == 0,
{
}

/// Nobody is listed behind a player with fewer first places; nor, where these are as many, behind
/// one with fewer second places; nor, where these are as many too, behind one with fewer third
/// places. Other places make no difference.
pub proof fn law_ranked_by_first_places(times: TimesMap, ids: Seq<u64>, i: int, j: int)
    requires
        is_times_ranking(times, ids),
        0 <= i < j < ids.len(),
    ensures
        ({
            let (a, b) = (times[ids[i]].1, times[ids[j]].1);
            &&& count_at(a, 0) >= count_at(b, 0)
            &&& count_at(a, 0) == count_at(b, 0) ==> count_at(a, 1) >= count_at(b, 1)
            &&& count_at(a, 0) == count_at(b, 0) && count_at(a, 1) == count_at(b, 1) ==> count_at(
                a,
                2,
            ) >= count_at(b, 2)
        }),
{
}

/// Every player of a board is listed, once, and nobody else is.
pub proof fn law_each_player_is_listed_once(times: TimesMap, ids: Seq<u64>)
    requires
        is_times_ranking(times, ids),
    ensures
        ids.len() == times.dom().len(),
        forall|i: int, j: int| 0 <= i < j < ids.len() ==> #[trigger] ids[i] != #[trigger] ids[j],
        forall|i: int| 0 <= i < ids.len() ==> times.contains_key(#[trigger] ids[i]),
        forall|id: u64| #[trigger]
            times.contains_key(id) ==> exists|i: int| 0 <= i < ids.len() && #[trigger] ids[i] == id,
{
    assert forall|i: int| 0 <= i < ids.len() implies times.contains_key(#[trigger] ids[i]) by {
        assert(ids.contains(ids[i]));
    }
    assert forall|id: u64| #[trigger] times.contains_key(id) implies exists|i: int|
        0 <= i < ids.len() && #[trigger] ids[i] == id by {
        assert(ids.contains(id));
    }
    ids.unique_seq_to_set();
    assert(ids.to_set() =~= times.dom());
}

/// A grid counts exactly when scores were shared for it and its number lies in the span, however
/// long the span is: counted from 0, every grid before `until` counts.
pub proof fn law_all_grids_of_the_span_count(
    board: crate::leaderboard::BoardMap,
    from: usize,
    until: usize,
)
    ensures
        forall|id: usize| #[trigger]
            counted_grids(board, from, until).contains(id) <==> board.contains_key(id) && from <= id
                && id < until,
        forall|id: usize| #[trigger]
            counted_grids(board, 0, until).contains(id) <==> board.contains_key(id) && id < until,
{
}

/// The grids of a span in which the player stands at the position.
pub open spec fn grids_at(
    board: crate::leaderboard::BoardMap,
    from: usize,
    until: usize,
    ranks: Map<usize, Seq<u64>>,
    player: u64,
    position: Position,
) -> Set<usize> {
    board.dom().filter(
        |id: usize|
            from <= id && id < until && position < ranks[id].len() && ranks[id][position as int]
                == player,
    )
}

/// What the positions over a span of grids count. The players are those who shared a score for some
/// grid of the span, each under an account that such a score was filed for. How often a player came
/// in at a position is the number of grids of the span in which the player stands at this position,
/// where the players of a grid stand by time, and by tries where the times are the same.
pub proof fn law_places_are_counted(
    board: crate::leaderboard::BoardMap,
    from: usize,
    until: usize,
    times: TimesMap,
    ranks: Map<usize, Seq<u64>>,
    player: u64,
    position: Position,
)
    requires
        are_rankings(board, counted_grids(board, from, until), ranks),
        counts_positions(times, counted_grids(board, from, until), ranks),
        has_accounts(times, board, counted_grids(board, from, until)),
    ensures
        times.contains_key(player) <==> exists|id: usize| #[trigger]
            board.contains_key(id) && from <= id < until && board[id].contains_key(player),
        times.contains_key(player) ==> exists|id: usize| #[trigger]
            board.contains_key(id) && from <= id < until && board[id].contains_key(player)
                && times[player].0 == board[id][player].0,
        times.contains_key(player) ==> count_at(times[player].1, position) == grids_at(
            board,
            from,
            until,
            ranks,
            player,
            position,
        ).len(),
        forall|id: usize| #[trigger]
            grids_at(board, from, until, ranks, player, position).contains(id)
                <==> board.contains_key(id) && from <= id && id < until && position
                < ranks[id].len() && ranks[id][position as int] == player,
        forall|id: usize| #[trigger]
            board.contains_key(id) && from <= id < until ==> {
                &&& ranks[id].len() == board[id].dom().len()
                &&& forall|i: int, j: int|
                    0 <= i < j < ranks[id].len() ==> {
                        let (a, b) = (#[trigger] ranks[id][i], #[trigger] ranks[id][j]);
                        &&& a != b
                        &&& board[id].contains_key(a) && board[id].contains_key(b)
                        &&& board[id][a].1.secs <= board[id][b].1.secs
                        &&& board[id][a].1.secs == board[id][b].1.secs ==> board[id][a].1.tries
                            <= board[id][b].1.tries
                    }
            },
{
    let grids = counted_grids(board, from, until);
    law_all_grids_of_the_span_count(board, from, until);
    assert forall|id: usize| #[trigger] grids.contains(id) implies (ranks[id].contains(player)
        <==> board[id].contains_key(player)) by {
        assert(crate::daily::is_ranking(board[id], ranks[id]));
    }
    if times.contains_key(player) {
        let id = choose|id: usize| #[trigger] grids.contains(id) && ranks[id].contains(player);
        assert(board.contains_key(id) && board[id].contains_key(player));
        let filed = choose|id: usize| #[trigger]
            grids.contains(id) && board[id].contains_key(player) && times[player].0
                == board[id][player].0;
        assert(board.contains_key(filed) && board[filed].contains_key(player));
        assert(grids.filter(|id: usize| came_in(ranks, id, player, position))
            =~= grids_at(board, from, until, ranks, player, position));
        assert(times[player].1.contains_key(position) <==> times_at(
            grids,
            ranks,
            player,
            position,
        ) > 0);
    }
    if exists|id: usize| #[trigger]
        board.contains_key(id) && from <= id < until && board[id].contains_key(player) {
        let id = choose|id: usize| #[trigger]
            board.contains_key(id) && from <= id < until && board[id].contains_key(player);
        assert(grids.contains(id));
        assert(ranks[id].contains(player) <==> board[id].contains_key(player));
    }
    assert forall|id: usize| #[trigger] board.contains_key(id) && from <= id < until implies {
        &&& ranks[id].len() == board[id].dom().len()
        &&& forall|i: int, j: int|
            0 <= i < j < ranks[id].len() ==> {
                let (a, b) = (#[trigger] ranks[id][i], #[trigger] ranks[id][j]);
                &&& a != b
                &&& board[id].contains_key(a) && board[id].contains_key(b)
                &&& board[id][a].1.secs <= board[id][b].1.secs
                &&& board[id][a].1.secs == board[id][b].1.secs ==> board[id][a].1.tries
                    <= board[id][b].1.tries
            }
    } by {
        assert(grids.contains(id));
        crate::daily::law_each_player_is_ranked_once(board[id], ranks[id]);
        assert forall|i: int, j: int| 0 <= i < j < ranks[id].len() implies {
            let (a, b) = (#[trigger] ranks[id][i], #[trigger] ranks[id][j]);
            &&& a != b
            &&& board[id].contains_key(a) && board[id].contains_key(b)
            &&& board[id][a].1.secs <= board[id][b].1.secs
            &&& board[id][a].1.secs == board[id][b].1.secs ==> board[id][a].1.tries
                <= board[id][b].1.tries
        } by {
            crate::daily::law_ranked_by_time_then_tries(board[id], ranks[id], i, j);
        }
    }
}

/// How many times the player came in at one of the first `positions` positions.
pub open spec fn times_within(
    grids: Set<usize>,
    ranks: Map<usize, Seq<u64>>,
    player: u64,
    positions: nat,
) -> nat
    decreases positions,
{
    if positions == 0 {
        0
    } else {
        times_within(grids, ranks, player, (positions - 1) as nat) + times_at(
            grids,
            ranks,
            player,
            (positions - 1) as usize,
        )
    }
}

/// One grid more counts at the position at which the player came in there.
proof fn lemma_times_within_insert(
    grids: Set<usize>,
    ranks: Map<usize, Seq<u64>>,
    id: usize,
    player: u64,
    positions: nat,
)
    requires
        grids.finite(),
        !grids.contains(id),
        ranks[id].no_duplicates(),
        positions <= usize::MAX + 1,
    ensures
        times_within(grids.insert(id), ranks, player, positions) == times_within(
            grids,
            ranks,
            player,
            positions,
        ) + (if exists|i: int|
            0 <= i < positions && i < ranks[id].len() && #[trigger] ranks[id][i] == player {
            1nat
        } else {
            0nat
        }),
    decreases positions,
{
    if positions > 0 {
        let last = (positions - 1) as usize;
        lemma_times_within_insert(grids, ranks, id, player, (positions - 1) as nat);
        let before = grids.filter(|g: usize| came_in(ranks, g, player, last));
        let after = grids.insert(id).filter(|g: usize| came_in(ranks, g, player, last));
        if came_in(ranks, id, player, last) {
            assert(after =~= before.insert(id));
            assert(ranks[id][last as int] == player);
        } else {
            assert(after =~= before);
        }
    }
}

/// Every counted grid that a player took part in counts once: the counts of all positions add up
/// to the number of these grids. Here `positions` is at least the length of every ranking.
pub proof fn law_each_grid_counts_once(
    board: crate::leaderboard::BoardMap,
    grids: Set<usize>,
    ranks: Map<usize, Seq<u64>>,
    player: u64,
    positions: nat,
)
    requires
        grids.finite(),
        are_rankings(board, grids, ranks),
        positions <= usize::MAX + 1,
        forall|id: usize| #[trigger] grids.contains(id) ==> ranks[id].len() <= positions,
    ensures
        times_within(grids, ranks, player, positions) == grids.filter(
            |id: usize| board[id].contains_key(player),
        ).len(),
    decreases grids.len(),
{
    if grids.len() == 0 {
        assert(grids =~= Set::<usize>::empty());
        lemma_no_times(ranks, player, positions);
        assert(grids.filter(|id: usize| board[id].contains_key(player)) =~= Set::<usize>::empty());
    } else {
        let id = grids.choose();
        let fewer = grids.remove(id);
        law_each_grid_counts_once(board, fewer, ranks, player, positions);
        assert(fewer.insert(id) =~= grids);
        lemma_times_within_insert(fewer, ranks, id, player, positions);
        let before = fewer.filter(|g: usize| board[g].contains_key(player));
        let after = grids.filter(|g: usize| board[g].contains_key(player));
        assert(crate::daily::is_ranking(board[id], ranks[id]));
        assert(ranks[id].contains(player) <==> board[id].contains_key(player));
        if board[id].contains_key(player) {
            assert(after =~= before.insert(id));
            let i = choose|i: int| 0 <= i < ranks[id].len() && ranks[id][i] == player;
            assert(ranks[id][i] == player && i < positions);
        } else {
            assert(after =~= before);
        }
    }
}

proof fn lemma_no_times(ranks: Map<usize, Seq<u64>>, player: u64, positions: nat)
    ensures
        times_within(Set::empty(), ranks, player, positions) == 0,
    decreases positions,
{
    if positions > 0 {
        lemma_no_times(ranks, player, (positions - 1) as nat);
        assert(Set::<usize>::empty().filter(
            |g: usize| came_in(ranks, g, player, (positions - 1) as usize),
        ) =~= Set::<usize>::empty());
    }
}

/// Nobody outranks the player who is ranked first.
pub proof fn law_first_is_not_outranked(times: TimesMap, ids: Seq<u64>, other: u64)
    requires
        is_times_ranking(times, ids),
        times.contains_key(other),
    ensures
        ids.len() > 0,
        times.contains_key(ids[0]),
        !outranks(times[other].1, times[ids[0]].1),
{
    assert(ids.contains(other));
    let i = choose|i: int| 0 <= i < ids.len() && ids[i] == other;
    assert(ids.contains(ids[0]));
    assert(ids[i] == other);
}

/// Where no two players of a counted grid have the same score, the scores alone determine what is
/// counted, in whatever order they are walked.
pub proof fn law_times_are_determined(
    board: crate::leaderboard::BoardMap,
    grids: Set<usize>,
    a: TimesMap,
    a_ranks: Map<usize, Seq<u64>>,
    b: TimesMap,
    b_ranks: Map<usize, Seq<u64>>,
)
    requires
        forall|id: usize| #[trigger] grids.contains(id) ==> crate::daily::is_without_ties(board[id]),
        are_rankings(board, grids, a_ranks),
        are_rankings(board, grids, b_ranks),
        counts_positions(a, grids, a_ranks),
        counts_positions(b, grids, b_ranks),
    ensures
        a.dom() == b.dom(),
        forall|player: u64| #[trigger] a.contains_key(player) ==> a[player].1 == b[player].1,
{
    assert forall|id: usize| #[trigger] grids.contains(id) implies a_ranks[id] == b_ranks[id] by {
        crate::daily::law_ranking_is_unique(board[id], a_ranks[id], b_ranks[id]);
    }
    assert forall|player: u64| #[trigger] a.contains_key(player) <==> b.contains_key(player) by {
        if a.contains_key(player) {
            let id = choose|id: usize| #[trigger]
                grids.contains(id) && a_ranks[id].contains(player);
            assert(grids.contains(id) && b_ranks[id].contains(player));
        }
        if b.contains_key(player) {
            let id = choose|id: usize| #[trigger]
                grids.contains(id) && b_ranks[id].contains(player);
            assert(grids.contains(id) && a_ranks[id].contains(player));
        }
    }
    assert(a.dom() =~= b.dom());
    assert forall|player: u64| #[trigger] a.contains_key(player) implies a[player].1
        == b[player].1 by {
        assert(b.contains_key(player));
        assert forall|position: Position|
            times_at(grids, a_ranks, player, position) == times_at(
                grids,
                b_ranks,
                player,
                position,
            ) by {
            assert(grids.filter(|id: usize| came_in(a_ranks, id, player, position))
                =~= grids.filter(|id: usize| came_in(b_ranks, id, player, position)));
        }
        assert(a[player].1 =~= b[player].1);
    }
}

} // verus!
