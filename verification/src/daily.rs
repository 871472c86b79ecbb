//! The scores of one grid and their ranking.

use std::collections::HashMap;

use vstd::prelude::*;

use crate::player::{Score, User};

verus! {

broadcast use vstd::std_specs::hash::group_hash_axioms;

/// The scores of one grid by the id of the player, each with the account that it was filed for.
pub type DailyMap = Map<u64, (User, Score)>;

/// The scores that the players shared for one grid, one for each player.
#[derive(Debug)]
pub struct DailyScores {
    entries: HashMap<u64, (User, Score)>,
}

/// Every score is filed under the id of its player.
pub open spec fn filed_by_player(scores: DailyMap) -> bool {
    &&& scores.dom().finite()
    &&& forall|id: u64| #[trigger] scores.contains_key(id) ==> scores[id].0.id == id
}

/// The scores after `user` shared `score`. A score takes the place of an earlier one of the same
/// player; the account stays the one that the player's first score was filed for.
pub open spec fn with_score(scores: DailyMap, user: User, score: Score) -> DailyMap {
    let account = if scores.contains_key(user.id) {
        scores[user.id].0
    } else {
        user
    };
    scores.insert(user.id, (account, score))
}

/// Whether `ids` ranks the players of `scores`: each player once, and nobody behind a player with
/// a worse score. Players with the same score stand in any order.
pub open spec fn is_ranking(scores: DailyMap, ids: Seq<u64>) -> bool {
    &&& ids.no_duplicates()
    &&& forall|id: u64|
        #![trigger ids.contains(id)]
        #![trigger scores.contains_key(id)]
        ids.contains(id) <==> scores.contains_key(id)
    &&& forall|i: int, j: int|
        0 <= i < j < ids.len() ==> !scores[#[trigger] ids[j]].1.better_than(
            scores[#[trigger] ids[i]].1,
        )
}

/// No two players of a grid have the same score.
pub open spec fn is_without_ties(scores: DailyMap) -> bool {
    forall|x: u64, y: u64|
        #![trigger scores.contains_key(x), scores.contains_key(y)]
        scores.contains_key(x) && scores.contains_key(y) && scores[x].1 == scores[y].1 ==> x == y
}

/// The ids of ranked players.
pub open spec fn ranked_ids(ranked: Seq<(&User, &Score)>) -> Seq<u64> {
    ranked.map_values(|entry: (&User, &Score)| entry.0.id)
}

impl View for DailyScores {
    type V = DailyMap;

    closed spec fn view(&self) -> DailyMap {
        self.entries@
    }
}

impl DailyScores {
    pub open spec fn wf(&self) -> bool {
        filed_by_player(self@)
    }

    /// No scores.
    pub fn new() -> (r: Self)
        ensures
            r.wf(),
            r@ == Map::<u64, (User, Score)>::empty(),
    {
        DailyScores { entries: HashMap::new() }
    }

    /// Files a score.
    pub fn insert(&mut self, user: User, score: Score)
        requires
            old(self).wf(),
        ensures
            final(self).wf(),
            final(self)@ == with_score(old(self)@, user, score),
            final(self)@.contains_key(user.id) && final(self)@[user.id].1 == score,
            forall|other: u64|
                other != user.id ==> (#[trigger] final(self)@.contains_key(other) <==> old(self)@.contains_key(other)),
            forall|other: u64|
                other != user.id && old(self)@.contains_key(other) ==> #[trigger] final(self)@[other]
                    == old(self)@[other],
    {
        let id = user.id;
        match self.entries.remove(&id) {
            Some((account, _)) => {
                self.entries.insert(id, (account, score));
            },
            None => {
                self.entries.insert(id, (user, score));
            },
        }
        assert(self@ =~= with_score(old(self)@, user, score));
        proof {
            law_score_is_filed(old(self)@, user, score);
        }
    }
}

/// A score that is filed is held for its player, and takes the place of an earlier one, whichever of
/// the two is better. The account stays the first one, and all other players keep their scores.
pub proof fn law_score_is_filed(scores: DailyMap, user: User, score: Score)
    ensures
        ({
            let after = with_score(scores, user, score);
            &&& after.contains_key(user.id) && after[user.id].1 == score
            &&& after[user.id].0 == if scores.contains_key(user.id) {
                scores[user.id].0
            } else {
                user
            }
            &&& forall|other: u64|
                other != user.id ==> (#[trigger] after.contains_key(other)
                    <==> scores.contains_key(other))
            &&& forall|other: u64|
                other != user.id && scores.contains_key(other) ==> #[trigger] after[other]
                    == scores[other]
        }),
{
}

/// The place for `score` in ranked scores: behind all those that are no worse.
fn place_of(ranked: &Vec<(&User, &Score)>, score: &Score) -> (r: usize)
    requires
        forall|i: int, j: int|
            0 <= i < j < ranked@.len() ==> !(#[trigger] ranked@[j]).1.better_than(
                *(#[trigger] ranked@[i]).1,
            ),
    ensures
        r <= ranked@.len(),
        forall|i: int| 0 <= i < r ==> !score.better_than(*(#[trigger] ranked@[i]).1),
        forall|i: int| r <= i < ranked@.len() ==> score.better_than(*(#[trigger] ranked@[i]).1),
{
    let mut place: usize = ranked.len();
    while place > 0 && score.is_better_than(ranked[place - 1].1)
        invariant
            place <= ranked@.len(),
            forall|i: int|
                place <= i < ranked@.len() ==> score.better_than(*(#[trigger] ranked@[i]).1),
        decreases place,
    {
        place -= 1;
    }
    place
}

/// Ranks the players of one grid by time, and by tries where the times are the same.
pub fn ordered_daily_scores_by_secs(daily_scores: &DailyScores) -> (r: Vec<(&User, &Score)>)
    requires
        daily_scores.wf(),
    ensures
        is_ranking(daily_scores@, ranked_ids(r@)),
        forall|i: int|
            0 <= i < r@.len() ==> (*(#[trigger] r@[i]).0, *r@[i].1)
                == daily_scores@[r@[i].0.id],
        r@.len() == daily_scores@.dom().len(),
        forall|i: int, j: int|
            0 <= i < j < r@.len() ==> (#[trigger] r@[i]).0.id != (#[trigger] r@[j]).0.id
                && r@[i].1.secs <= r@[j].1.secs && (r@[i].1.secs == r@[j].1.secs
                ==> r@[i].1.tries <= r@[j].1.tries),
        forall|i: int|
            0 <= i < r@.len() ==> daily_scores@.contains_key((#[trigger] r@[i]).0.id),
{
    let mut ranked: Vec<(&User, &Score)> = Vec::new();
    let ghost scores = daily_scores@;
    let ghost mut done = Set::<u64>::empty();
    for (id, entry) in it: daily_scores.entries.iter()
        invariant
            scores == daily_scores.entries@,
            filed_by_player(scores),
            crate::walk::covers(it.seq(), scores),
            crate::walk::is_done(it.seq(), it.index(), done),
            ranked_ids(ranked@).no_duplicates(),
            forall|x: u64| #[trigger] ranked_ids(ranked@).contains(x) <==> done.contains(x),
            forall|i: int|
                0 <= i < ranked@.len() ==> scores.contains_key((#[trigger] ranked@[i]).0.id)
                    && scores[ranked@[i].0.id] == (*ranked@[i].0, *ranked@[i].1),
            forall|i: int, j: int|
                0 <= i < j < ranked@.len() ==> !(#[trigger] ranked@[j]).1.better_than(
                    *(#[trigger] ranked@[i]).1,
                ),
    {
        let ghost before = ranked@;
        let place: usize = place_of(&ranked, &entry.1);
        ranked.insert(place, (&entry.0, &entry.1));
        proof {
            crate::walk::lemma_insert(ranked_ids(before), place as int, *id);
            assert(ranked_ids(ranked@) =~= ranked_ids(before).insert(place as int, *id));
            crate::walk::lemma_next(it.seq(), scores, it.index(), done);
            done = done.insert(*id);
        }
    }
    proof {
        let ids = ranked_ids(ranked@);
        law_each_player_is_ranked_once(scores, ids);
        assert forall|i: int, j: int| 0 <= i < j < ranked@.len() implies (
        #[trigger] ranked@[i]).0.id != (#[trigger] ranked@[j]).0.id && ranked@[i].1.secs
            <= ranked@[j].1.secs && (ranked@[i].1.secs == ranked@[j].1.secs ==> ranked@[i].1.tries
            <= ranked@[j].1.tries) by {
            assert(ids[i] == ranked@[i].0.id && ids[j] == ranked@[j].0.id);
            law_ranked_by_time_then_tries(scores, ids, i, j);
        }
    }
    ranked
}

/// Nobody is ranked behind a slower player, nor behind one who took as long with more tries.
pub proof fn law_ranked_by_time_then_tries(scores: DailyMap, ids: Seq<u64>, i: int, j: int)
    requires
        is_ranking(scores, ids),
        0 <= i < j < ids.len(),
    ensures
        scores[ids[i]].1.secs <= scores[ids[j]].1.secs,
        scores[ids[i]].1.secs == scores[ids[j]].1.secs ==> scores[ids[i]].1.tries
            <= scores[ids[j]].1.tries,
{
}

/// Every player of a grid is ranked, once, and nobody else is.
pub proof fn law_each_player_is_ranked_once(scores: DailyMap, ids: Seq<u64>)
    requires
        is_ranking(scores, ids),
    ensures
        ids.len() == scores.dom().len(),
        forall|i: int, j: int| 0 <= i < j < ids.len() ==> #[trigger] ids[i] != #[trigger] ids[j],
        forall|i: int| 0 <= i < ids.len() ==> scores.contains_key(#[trigger] ids[i]),
        forall|id: u64| #[trigger]
            scores.contains_key(id) ==> exists|i: int| 0 <= i < ids.len() && #[trigger] ids[i] == id,
{
    assert forall|i: int| 0 <= i < ids.len() implies scores.contains_key(#[trigger] ids[i]) by {
        assert(ids.contains(ids[i]));
    }
    assert forall|id: u64| #[trigger] scores.contains_key(id) implies exists|i: int|
        0 <= i < ids.len() && #[trigger] ids[i] == id by {
        assert(ids.contains(id));
    }
    ids.unique_seq_to_set();
    assert(ids.to_set() =~= scores.dom());
}

/// The place of a player, the first being 0, is at least the number of players who were faster, or
/// as fast with fewer tries, and less than the number of those who were no slower, and no worse where
/// they were as fast.
pub proof fn law_place_counts_better_players(scores: DailyMap, ids: Seq<u64>, place: int)
    requires
        is_ranking(scores, ids),
        0 <= place < ids.len(),
    ensures
        ({
            let score = scores[ids[place]].1;
            &&& scores.dom().filter(
                |id: u64|
                    scores[id].1.secs < score.secs || (scores[id].1.secs == score.secs
                        && scores[id].1.tries < score.tries),
            ).len() <= place
            &&& place < scores.dom().filter(
                |id: u64|
                    scores[id].1.secs < score.secs || (scores[id].1.secs == score.secs
                        && scores[id].1.tries <= score.tries),
            ).len()
        }),
{
    let score = scores[ids[place]].1;
    let better = scores.dom().filter(
        |id: u64|
            scores[id].1.secs < score.secs || (scores[id].1.secs == score.secs
                && scores[id].1.tries < score.tries),
    );
    let as_good = scores.dom().filter(
        |id: u64|
            scores[id].1.secs < score.secs || (scores[id].1.secs == score.secs
                && scores[id].1.tries <= score.tries),
    );
    let ahead = ids.take(place);
    let upto = ids.take(place + 1);
    law_each_player_is_ranked_once(scores, ids);
    ids.unique_seq_to_set();
    assert(ids.to_set() =~= scores.dom());
    ahead.unique_seq_to_set();
    upto.unique_seq_to_set();
    assert forall|id: u64| better.contains(id) implies #[trigger] ahead.to_set().contains(id) by {
        let i = choose|i: int| 0 <= i < ids.len() && #[trigger] ids[i] == id;
        if i > place {
            law_ranked_by_time_then_tries(scores, ids, place, i);
        }
        assert(ahead[i] == id);
    }
    assert forall|id: u64| upto.to_set().contains(id) implies #[trigger] as_good.contains(id) by {
        let i = choose|i: int| 0 <= i < upto.len() && #[trigger] upto[i] == id;
        assert(ids[i] == id);
        if i < place {
            law_ranked_by_time_then_tries(scores, ids, i, place);
        }
    }
    vstd::set_lib::lemma_len_subset(better, ahead.to_set());
    vstd::set_lib::lemma_len_subset(upto.to_set(), as_good);
}

/// Nobody has a better score than the player who is ranked first.
pub proof fn law_first_is_best(scores: DailyMap, ids: Seq<u64>, other: u64)
    requires
        is_ranking(scores, ids),
        scores.contains_key(other),
    ensures
        ids.len() > 0,
        scores.contains_key(ids[0]),
        !scores[other].1.better_than(scores[ids[0]].1),
{
    assert(ids.contains(other));
    let i = choose|i: int| 0 <= i < ids.len() && ids[i] == other;
    assert(ids.contains(ids[0]));
    assert(ids[i] == other);
}

/// The ranking without the last player ranks the others.
proof fn lemma_ranking_without_last(scores: DailyMap, ids: Seq<u64>)
    requires
        is_ranking(scores, ids),
        ids.len() > 0,
    ensures
        is_ranking(scores.remove(ids.last()), ids.drop_last()),
{
    let most = ids.drop_last();
    let fewer = scores.remove(ids.last());
    assert forall|id: u64| most.contains(id) <==> #[trigger] fewer.contains_key(id) by {
        if most.contains(id) {
            let i = choose|i: int| 0 <= i < most.len() && most[i] == id;
            assert(ids[i] == id);
            assert(ids.contains(id));
            assert(scores.contains_key(id));
        }
        if fewer.contains_key(id) {
            assert(ids.contains(id));
            let i = choose|i: int| 0 <= i < ids.len() && ids[i] == id;
            assert(most[i] == id);
        }
    }
    assert forall|i: int, j: int| 0 <= i < j < most.len() implies !fewer[#[trigger] most[j]].1
        .better_than(fewer[#[trigger] most[i]].1) by {
        assert(most[i] == ids[i] && most[j] == ids[j]);
        assert(ids[i] != ids.last() && ids[j] != ids.last());
    }
}

/// Where no two players have the same score there is but one ranking.
pub proof fn law_ranking_is_unique(scores: DailyMap, a: Seq<u64>, b: Seq<u64>)
    requires
        is_ranking(scores, a),
        is_ranking(scores, b),
        is_without_ties(scores),
    ensures
        a == b,
    decreases a.len(),
{
    if a.len() == 0 {
        if b.len() > 0 {
            assert(b.contains(b[0]));
            assert(scores.contains_key(b[0]));
            assert(a.contains(b[0]));
        }
        assert(a =~= b);
    } else {
        assert(a.contains(a.last()));
        assert(scores.contains_key(a.last()));
        assert(b.contains(a.last()));
        let i = choose|i: int| 0 <= i < b.len() && b[i] == a.last();
        assert(b.contains(b.last()));
        assert(scores.contains_key(b.last()));
        assert(a.contains(b.last()));
        let j = choose|j: int| 0 <= j < a.len() && a[j] == b.last();
        if i < b.len() - 1 {
            assert(!scores[b[b.len() - 1]].1.better_than(scores[b[i]].1));
            if j < a.len() - 1 {
                assert(!scores[a[a.len() - 1]].1.better_than(scores[a[j]].1));
            }
            assert(scores[a.last()].1 == scores[b.last()].1);
        }
        assert(a.last() == b.last());
        let fewer = scores.remove(a.last());
        lemma_ranking_without_last(scores, a);
        lemma_ranking_without_last(scores, b);
        assert forall|x: u64, y: u64|
            #![trigger fewer.contains_key(x), fewer.contains_key(y)]
            fewer.contains_key(x) && fewer.contains_key(y) && fewer[x].1 == fewer[y].1 implies x
            == y by {
            assert(scores.contains_key(x) && scores.contains_key(y));
        }
        law_ranking_is_unique(fewer, a.drop_last(), b.drop_last());
        assert(a =~= a.drop_last().push(a.last()));
        assert(b =~= b.drop_last().push(b.last()));
    }
}

} // verus!
