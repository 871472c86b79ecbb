//! The scores of all grids, and the messages that they are read from.

use std::collections::HashMap;

use vstd::prelude::*;

use crate::daily::DailyScores;
use crate::player::{Score, User};
use crate::share::{can_be_read, extract_score, UnreadableNumber};

verus! {

broadcast use vstd::std_specs::hash::group_hash_axioms;

/// The scores of all grids by the number of the grid.
pub type BoardMap = Map<usize, crate::daily::DailyMap>;

/// The scores that were shared so far, by grid and by player.
#[derive(Debug)]
pub struct Leaderboard {
    games: HashMap<usize, DailyScores>,
}

/// The scores of grid `id`, of which there are none where nothing was shared for it yet.
pub open spec fn scores_of(board: BoardMap, id: usize) -> crate::daily::DailyMap {
    if board.contains_key(id) {
        board[id]
    } else {
        Map::empty()
    }
}

/// The board after `user` shared `score` for grid `id`.
pub open spec fn with_record(board: BoardMap, id: usize, user: User, score: Score) -> BoardMap {
    board.insert(id, crate::daily::with_score(scores_of(board, id), user, score))
}

/// The board after `user` wrote a message in which the search for a share found `groups`.
pub open spec fn with_message(
    board: BoardMap,
    user: User,
    groups: crate::pattern::Groups,
) -> BoardMap {
    match crate::share::score_found(groups) {
        Some((id, score)) => with_record(board, id, user, score),
        None => board,
    }
}

/// A score that is filed for a grid is held there for its player, whatever it is, and takes the place
/// of an earlier one. The account stays the first one that the player's scores of the grid were
/// filed for. No other score changes, of this grid or of another.
pub proof fn law_record_is_held(board: BoardMap, id: usize, user: User, score: Score)
    ensures
        ({
            let after = with_record(board, id, user, score);
            &&& after.contains_key(id) && after[id].contains_key(user.id)
            &&& after[id][user.id].1 == score
            &&& after[id][user.id].0 == if board.contains_key(id) && board[id].contains_key(
                user.id,
            ) {
                board[id][user.id].0
            } else {
                user
            }
            &&& forall|player: u64|
                player != user.id ==> (#[trigger] after[id].contains_key(player)
                    <==> board.contains_key(id) && board[id].contains_key(player))
            &&& forall|player: u64|
                player != user.id && board.contains_key(id) && board[id].contains_key(player)
                    ==> #[trigger] after[id][player] == board[id][player]
            &&& forall|other: usize|
                other != id ==> (#[trigger] after.contains_key(other) <==> board.contains_key(other))
            &&& forall|other: usize|
                other != id && board.contains_key(other) ==> #[trigger] after[other]
                    == board[other]
        }),
{
}

/// Whatever grid and score a message reads as, the board holds that score for the author afterwards;
/// and a message that reads as none leaves the board as it was.
pub proof fn law_message_is_filed(board: BoardMap, user: User, groups: crate::pattern::Groups)
    ensures
        ({
            let after = with_message(board, user, groups);
            match crate::share::score_found(groups) {
                Some((id, score)) => {
                    &&& after.contains_key(id) && after[id].contains_key(user.id)
                    &&& after[id][user.id].1 == score
                    &&& forall|player: u64|
                        player != user.id ==> (#[trigger] after[id].contains_key(player)
                            <==> board.contains_key(id) && board[id].contains_key(player))
                    &&& forall|player: u64|
                        player != user.id && board.contains_key(id) && board[id].contains_key(
                            player,
                        ) ==> #[trigger] after[id][player] == board[id][player]
                    &&& forall|other: usize|
                        other != id ==> (#[trigger] after.contains_key(other)
                            <==> board.contains_key(other))
                    &&& forall|other: usize|
                        other != id && board.contains_key(other) ==> #[trigger] after[other]
                            == board[other]
                },
                None => after == board,
            }
        }),
{
    if let Some((id, score)) = crate::share::score_found(groups) {
        law_record_is_held(board, id, user, score);
    }
}

impl View for Leaderboard {
    type V = BoardMap;

    closed spec fn view(&self) -> BoardMap {
        self.games@.map_values(|daily: DailyScores| daily@)
    }
}

impl Leaderboard {
    pub open spec fn wf(&self) -> bool {
        &&& self@.dom().finite()
        &&& forall|id: usize| #[trigger]
            self@.contains_key(id) ==> crate::daily::filed_by_player(self@[id])
    }

    /// An empty board.
    pub fn new() -> (r: Self)
        ensures
            r.wf(),
            r@ == Map::<usize, crate::daily::DailyMap>::empty(),
    {
        let r = Leaderboard { games: HashMap::new() };
        assert(r@ =~= Map::<usize, crate::daily::DailyMap>::empty());
        r
    }

    /// Files a score for a grid.
    pub fn record(&mut self, id: usize, user: User, score: Score)
        requires
            old(self).wf(),
        ensures
            final(self).wf(),
            final(self)@ == with_record(old(self)@, id, user, score),
            final(self)@.contains_key(id) && final(self)@[id].contains_key(user.id) && final(self)@[id][user.id].1 == score,
            forall|other: usize|
                other != id ==> (#[trigger] final(self)@.contains_key(other) <==> old(self)@.contains_key(other)),
            forall|other: usize|
                other != id && old(self)@.contains_key(other) ==> #[trigger] final(self)@[other]
                    == old(self)@[other],
    {
        let ghost before = self.games@;
        let daily = self.games.entry(id).or_insert(DailyScores::new());
        assert(daily.wf()) by {
            if before.contains_key(id) {
                assert(old(self)@.contains_key(id));
            }
        }
        daily.insert(user, score);
        assert(self@ =~= with_record(old(self)@, id, user, score));
        proof {
            law_record_is_held(old(self)@, id, user, score);
        }
    }

    /// The scores of a grid, if any were shared for it.
    pub fn get(&self, id: usize) -> (r: Option<&DailyScores>)
        requires
            self.wf(),
        ensures
            match r {
                Some(daily) => self@.contains_key(id) && daily@ == self@[id] && daily.wf(),
                None => !self@.contains_key(id),
            },
    {
        self.games.get(&id)
    }

    /// The grids that scores were shared for, in no particular order.
    pub fn grids(&self) -> (r: Vec<usize>)
        ensures
            r@.no_duplicates(),
            forall|id: usize| #[trigger] r@.contains(id) <==> self@.contains_key(id),
    {
        let mut ids: Vec<usize> = Vec::new();
        let ghost mut done = Set::<usize>::empty();
        for (id, _daily) in it: self.games.iter()
            invariant
                crate::walk::covers(it.seq(), self.games@),
                crate::walk::is_done(it.seq(), it.index(), done),
                ids@.no_duplicates(),
                forall|x: usize| #[trigger] ids@.contains(x) <==> done.contains(x),
        {
            proof {
                crate::walk::lemma_insert(ids@, ids@.len() as int, *id);
                assert(ids@.push(*id) =~= ids@.insert(ids@.len() as int, *id));
                crate::walk::lemma_next(it.seq(), self.games@, it.index(), done);
                done = done.insert(*id);
            }
            ids.push(*id);
        }
        ids
    }
}

/// Reads a message of `author` for a share, and files its score.
pub fn scan_message(board: &mut Leaderboard, author: User, content: &str)
    requires
        old(board).wf(),
        crate::share::is_readable(crate::share::share_groups(content@)),
    ensures
        final(board).wf(),
        final(board)@ == with_message(
            old(board)@,
            author,
            crate::share::share_groups(content@),
        ),
        crate::pattern::finds_share(
            crate::share::without_bars(content@),
            crate::share::share_groups(content@),
        ),
        match crate::share::score_found(crate::share::share_groups(content@)) {
            Some((id, score)) => final(board)@.contains_key(id) && final(board)@[id].contains_key(
                author.id,
            ) && final(board)@[id][author.id].1 == score,
            None => final(board)@ == old(board)@,
        },
{
    if let Some((id, score)) = extract_score(content) {
        board.record(id, author, score);
    }
}

/// Reads a message of `author` for a share, and files its score. A share whose numbers cannot be
/// read is an error, and leaves the board as it was.
pub fn try_scan_message(board: &mut Leaderboard, author: User, content: &str) -> (r: Result<
    (),
    UnreadableNumber,
>)
    requires
        old(board).wf(),
    ensures
        final(board).wf(),
        r is Ok <==> crate::share::is_readable(crate::share::share_groups(content@)),
        final(board)@ == (if r is Ok {
            with_message(old(board)@, author, crate::share::share_groups(content@))
        } else {
            old(board)@
        }),
        crate::pattern::finds_share(
            crate::share::without_bars(content@),
            crate::share::share_groups(content@),
        ),
        r is Ok ==> match crate::share::score_found(crate::share::share_groups(content@)) {
            Some((id, score)) => final(board)@.contains_key(id) && final(board)@[id].contains_key(
                author.id,
            ) && final(board)@[id][author.id].1 == score,
            None => final(board)@ == old(board)@,
        },
{
    if can_be_read(content) {
        scan_message(board, author, content);
        Ok(())
    } else {
        Err(UnreadableNumber)
    }
}

} // verus!
