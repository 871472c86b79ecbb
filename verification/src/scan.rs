//! Scanning the messages of a channel, the newest first, back to some moment.

use vstd::prelude::*;

use crate::leaderboard::{try_scan_message, Leaderboard};
use crate::player::{Score, User};

verus! {

/// What comes next out of the channel: a message, with its time in seconds since the epoch, or a
/// message that could not be fetched.
#[derive(Debug)]
pub enum Fetched {
    Message { author: User, content: String, timestamp: i64 },
    Failed,
}

/// How a scan goes on.
#[derive(Debug, Clone, Copy, PartialEq, Eq, Structural)]
pub enum ScanStep {
    Continue,
    Stop,
    /// The numbers of a shared result cannot be read.
    Unreadable,
}

/// Seconds that are scanned again before scores are shown: two days.
pub const RESCANNED_SECS: i64 = 172800;

/// The moment that a scan of everything goes back to.
pub const SCAN_ALL_FROM: i64 = 0;

impl Fetched {
    /// The groups that the search for a share finds.
    pub open spec fn groups(self) -> crate::pattern::Groups {
        match self {
            Fetched::Message { content, .. } => crate::share::share_groups(content@),
            Fetched::Failed => None,
        }
    }

    pub open spec fn is_readable(self) -> bool {
        crate::share::is_readable(self.groups())
    }

    /// The grid, the player and the score that are shared.
    pub open spec fn shared(self) -> Option<(usize, User, Score)> {
        match (self, crate::share::score_found(self.groups())) {
            (Fetched::Message { author, .. }, Some((id, score))) => Some((id, author, score)),
            _ => None,
        }
    }

    /// A message from before `ts_from`.
    pub open spec fn is_older(self, ts_from: i64) -> bool {
        match self {
            Fetched::Message { timestamp, .. } => timestamp < ts_from,
            Fetched::Failed => false,
        }
    }
}

/// A message that was fetched shares exactly the grid and the score that its text reads as, for its
/// author; one that could not be fetched shares nothing, can be read, and is never too old.
pub proof fn law_fetched_messages_share_what_they_say(
    author: User,
    content: String,
    timestamp: i64,
    ts_from: i64,
    id: usize,
    score: Score,
)
    ensures
        ({
            let fetched = Fetched::Message { author, content, timestamp };
            let groups = crate::share::share_groups(content@);
            &&& fetched.shared() == Some((id, author, score)) <==> crate::share::score_found(groups)
                == Some((id, score))
            &&& fetched.shared() is None <==> crate::share::score_found(groups) is None
            &&& fetched.is_readable() <==> crate::share::is_readable(groups)
            &&& fetched.is_older(ts_from) <==> timestamp < ts_from
        }),
        Fetched::Failed.shared() is None,
        Fetched::Failed.is_readable(),
        !Fetched::Failed.is_older(ts_from),
{
}

/// Filing a message that was fetched files the grid and the score that its text reads as, and
/// nothing where it reads as none or the message could not be fetched.
pub proof fn law_fetched_messages_are_filed(
    board: crate::leaderboard::BoardMap,
    author: User,
    content: String,
    timestamp: i64,
)
    ensures
        ({
            let after = after_one(board, Fetched::Message { author, content, timestamp });
            match crate::share::score_found(crate::share::share_groups(content@)) {
                Some((id, score)) => {
                    &&& after.contains_key(id) && after[id].contains_key(author.id)
                    &&& after[id][author.id].1 == score
                    &&& forall|player: u64|
                        player != author.id && board.contains_key(id) && board[id].contains_key(
                            player,
                        ) ==> #[trigger] after[id][player] == board[id][player]
                    &&& forall|other: usize|
                        other != id && board.contains_key(other) ==> #[trigger] after[other]
                            == board[other]
                },
                None => after == board,
            }
        }),
        after_one(board, Fetched::Failed) == board,
{
    if let Some((id, score)) = crate::share::score_found(crate::share::share_groups(content@)) {
        crate::leaderboard::law_record_is_held(board, id, author, score);
    }
}

/// The scan before scores are shown goes back two days, and the scan of everything to the epoch.
pub proof fn law_scans_go_back_far_enough()
    ensures
        RESCANNED_SECS == 48 * 3600,
        SCAN_ALL_FROM == 0,
{
}

/// The board after what `fetched` shares is filed.
pub open spec fn after_one(
    board: crate::leaderboard::BoardMap,
    fetched: Fetched,
) -> crate::leaderboard::BoardMap {
    match fetched.shared() {
        Some((id, user, score)) => crate::leaderboard::with_record(board, id, user, score),
        None => board,
    }
}

/// The board after all of `feed` is filed in its order.
pub open spec fn after_all(
    board: crate::leaderboard::BoardMap,
    feed: Seq<Fetched>,
) -> crate::leaderboard::BoardMap
    decreases feed.len(),
{
    if feed.len() == 0 {
        board
    } else {
        after_one(after_all(board, feed.drop_last()), feed.last())
    }
}

/// Handles what came out of the channel, where `None` is its end. A message is filed, and the scan
/// stops behind the first one from before `ts_from`.
pub fn scan_step(board: &mut Leaderboard, fetched: Option<Fetched>, ts_from: i64) -> (r: ScanStep)
    requires
        old(board).wf(),
    ensures
        final(board).wf(),
        match fetched {
            None => r == ScanStep::Stop && final(board)@ == old(board)@,
            Some(next) => if !next.is_readable() {
                r == ScanStep::Unreadable && final(board)@ == old(board)@
            } else {
                &&& r == (if next.is_older(ts_from) {
                    ScanStep::Stop
                } else {
                    ScanStep::Continue
                })
                &&& final(board)@ == after_one(old(board)@, next)
            },
        },
        match fetched {
            None => final(board)@ == after_scan(old(board)@, Seq::empty(), ts_from),
            Some(next) => {
                &&& final(board)@ == after_scan(old(board)@, seq![next], ts_from)
                &&& forall|rest: Seq<Fetched>| #[trigger]
                    after_scan(old(board)@, seq![next] + rest, ts_from) == (if r
                        == ScanStep::Continue {
                        after_scan(final(board)@, rest, ts_from)
                    } else {
                        final(board)@
                    })
            },
        },
        fetched matches Some(Fetched::Message { content, .. }) ==> crate::pattern::finds_share(
            crate::share::without_bars(content@),
            crate::share::share_groups(content@),
        ),
        match fetched {
            Some(Fetched::Message { author, content, timestamp }) => crate::share::is_readable(
                crate::share::share_groups(content@),
            ) ==> {
                &&& timestamp < ts_from ==> r == ScanStep::Stop
                &&& timestamp >= ts_from ==> r == ScanStep::Continue
                &&& match crate::share::score_found(crate::share::share_groups(content@)) {
                    Some((id, score)) => final(board)@.contains_key(id)
                        && final(board)@[id].contains_key(author.id)
                        && final(board)@[id][author.id].1 == score,
                    None => final(board)@ == old(board)@,
                }
            },
            Some(Fetched::Failed) => r == ScanStep::Continue && final(board)@ == old(board)@,
            None => r == ScanStep::Stop,
        },
{
    proof {
        if fetched is Some {
            lemma_scan_of_one(board@, fetched->0, ts_from);
        }
    }
    match fetched {
        None => ScanStep::Stop,
        Some(Fetched::Failed) => ScanStep::Continue,
        Some(Fetched::Message { author, content, timestamp }) => {
            match try_scan_message(board, author, content.as_str()) {
                Ok(()) => if timestamp < ts_from {
                    ScanStep::Stop
                } else {
                    ScanStep::Continue
                },
                Err(_) => ScanStep::Unreadable,
            }
        },
    }
}

/// The moment that the scan before showing scores goes back to.
pub fn rescan_from(now: i64) -> (r: i64)
    requires
        now >= i64::MIN + RESCANNED_SECS,
    ensures
        r == now - RESCANNED_SECS,
{
    now - RESCANNED_SECS
}

/// The board at the end of a scan over `feed`, which `scan_step` makes step by step. A share that
/// cannot be read ends the scan.
pub open spec fn after_scan(
    board: crate::leaderboard::BoardMap,
    feed: Seq<Fetched>,
    ts_from: i64,
) -> crate::leaderboard::BoardMap
    decreases feed.len(),
{
    if feed.len() == 0 || !feed[0].is_readable() {
        board
    } else if feed[0].is_older(ts_from) {
        after_one(board, feed[0])
    } else {
        after_scan(after_one(board, feed[0]), feed.skip(1), ts_from)
    }
}

proof fn lemma_scan_of_one(board: crate::leaderboard::BoardMap, next: Fetched, ts_from: i64)
    ensures
        after_scan(board, seq![next], ts_from) == if next.is_readable() {
            after_one(board, next)
        } else {
            board
        },
        forall|rest: Seq<Fetched>| #[trigger]
            after_scan(board, seq![next] + rest, ts_from) == (if !next.is_readable() {
                board
            } else if next.is_older(ts_from) {
                after_one(board, next)
            } else {
                after_scan(after_one(board, next), rest, ts_from)
            }),
{
    assert(seq![next].skip(1) =~= Seq::<Fetched>::empty());
    assert(after_scan(after_one(board, next), Seq::empty(), ts_from) == after_one(board, next));
    assert forall|rest: Seq<Fetched>| #[trigger]
        after_scan(board, seq![next] + rest, ts_from) == (if !next.is_readable() {
            board
        } else if next.is_older(ts_from) {
            after_one(board, next)
        } else {
            after_scan(after_one(board, next), rest, ts_from)
        }) by {
        assert((seq![next] + rest)[0] == next);
        assert((seq![next] + rest).skip(1) =~= rest);
    }
}

proof fn lemma_after_all_first(board: crate::leaderboard::BoardMap, feed: Seq<Fetched>)
    requires
        feed.len() > 0,
    ensures
        after_all(board, feed) == after_all(after_one(board, feed[0]), feed.skip(1)),
    decreases feed.len(),
{
    if feed.len() == 1 {
        assert(feed.drop_last() =~= Seq::<Fetched>::empty());
        assert(feed.skip(1) =~= Seq::<Fetched>::empty());
        assert(after_all(board, Seq::<Fetched>::empty()) == board);
    } else {
        lemma_after_all_first(board, feed.drop_last());
        assert(feed.drop_last().skip(1) =~= feed.skip(1).drop_last());
    }
}

/// A scan files the messages up to the first one from before `ts_from`, that one among them, and
/// all of them where there is none, as long as they can be read.
pub proof fn law_scan_reaches_back(
    board: crate::leaderboard::BoardMap,
    feed: Seq<Fetched>,
    ts_from: i64,
    reach: int,
)
    requires
        0 <= reach <= feed.len(),
        forall|i: int| 0 <= i < reach ==> !(#[trigger] feed[i]).is_older(ts_from),
        reach < feed.len() ==> feed[reach].is_older(ts_from),
        forall|i: int| 0 <= i <= reach && i < feed.len() ==> (#[trigger] feed[i]).is_readable(),
    ensures
        after_scan(board, feed, ts_from) == after_all(
            board,
            if reach < feed.len() {
                feed.take(reach + 1)
            } else {
                feed
            },
        ),
    decreases feed.len(),
{
    if feed.len() > 0 {
        let filed = if reach < feed.len() {
            feed.take(reach + 1)
        } else {
            feed
        };
        lemma_after_all_first(board, filed);
        if reach == 0 {
            assert(filed.skip(1) =~= Seq::<Fetched>::empty());
        } else {
            let rest = feed.skip(1);
            assert forall|i: int| 0 <= i < reach - 1 implies !(#[trigger] rest[i]).is_older(
                ts_from,
            ) by {
                assert(rest[i] == feed[i + 1]);
            }
            assert forall|i: int| 0 <= i <= reach - 1 && i < rest.len() implies (
            #[trigger] rest[i]).is_readable() by {
                assert(rest[i] == feed[i + 1]);
            }
            law_scan_reaches_back(after_one(board, feed[0]), rest, ts_from, reach - 1);
            if reach < feed.len() {
                assert(filed.skip(1) =~= rest.take(reach));
            } else {
                assert(filed.skip(1) =~= rest);
            }
        }
    }
}

/// Whether `fetched` shares a score of player `player` for grid `id`.
pub open spec fn is_for(fetched: Fetched, id: usize, player: u64) -> bool {
    fetched.shared() matches Some((i, user, _)) && i == id && user.id == player
}

/// The score of a player for a grid that a board holds, with its account.
pub open spec fn score_on(
    board: crate::leaderboard::BoardMap,
    id: usize,
    player: u64,
) -> Option<(User, Score)> {
    if board.contains_key(id) && board[id].contains_key(player) {
        Some(board[id][player])
    } else {
        None
    }
}

/// Shares for another grid, or of another player, leave a score as it was.
pub proof fn law_other_scores_are_kept(
    board: crate::leaderboard::BoardMap,
    feed: Seq<Fetched>,
    id: usize,
    player: u64,
)
    requires
        forall|i: int| 0 <= i < feed.len() ==> !is_for(#[trigger] feed[i], id, player),
    ensures
        score_on(after_all(board, feed), id, player) == score_on(board, id, player),
    decreases feed.len(),
{
    if feed.len() > 0 {
        let most = feed.drop_last();
        assert forall|i: int| 0 <= i < most.len() implies !is_for(
            #[trigger] most[i],
            id,
            player,
        ) by {
            assert(most[i] == feed[i]);
        }
        law_other_scores_are_kept(board, most, id, player);
        assert(!is_for(feed[feed.len() - 1], id, player));
    }
}

/// The score that counts for a player is the last one filed.
pub proof fn law_last_score_counts(
    board: crate::leaderboard::BoardMap,
    feed: Seq<Fetched>,
    last: int,
    id: usize,
    player: u64,
)
    requires
        0 <= last < feed.len(),
        is_for(feed[last], id, player),
        forall|i: int| last < i < feed.len() ==> !is_for(#[trigger] feed[i], id, player),
    ensures
        score_on(after_all(board, feed), id, player) matches Some((_, score)) && score
            == (feed[last].shared()->0).2,
    decreases feed.len(),
{
    if last < feed.len() - 1 {
        let most = feed.drop_last();
        assert forall|i: int| last < i < most.len() implies !is_for(
            #[trigger] most[i],
            id,
            player,
        ) by {
            assert(most[i] == feed[i]);
        }
        law_last_score_counts(board, most, last, id, player);
        assert(!is_for(feed[feed.len() - 1], id, player));
    }
}

/// A score that is on the board stays filed for the account that it was first filed for.
proof fn lemma_account_stays(
    board: crate::leaderboard::BoardMap,
    feed: Seq<Fetched>,
    id: usize,
    player: u64,
)
    requires
        score_on(board, id, player) is Some,
    ensures
        score_on(after_all(board, feed), id, player) is Some,
        (score_on(after_all(board, feed), id, player)->0).0 == (score_on(board, id, player)->0).0,
    decreases feed.len(),
{
    if feed.len() > 0 {
        lemma_account_stays(board, feed.drop_last(), id, player);
    }
}

/// Grids stay on the board.
proof fn lemma_grid_stays(board: crate::leaderboard::BoardMap, feed: Seq<Fetched>, id: usize)
    ensures
        board.contains_key(id) ==> after_all(board, feed).contains_key(id),
        after_all(board, feed).contains_key(id) ==> board.contains_key(id) || exists|i: int|
            0 <= i < feed.len() && (#[trigger] feed[i]).shared() is Some
                && (feed[i].shared()->0).0 == id,
    decreases feed.len(),
{
    if feed.len() > 0 {
        let most = feed.drop_last();
        lemma_grid_stays(board, most, id);
        if after_all(board, feed).contains_key(id) && !board.contains_key(id) {
            if after_all(board, most).contains_key(id) {
                let i = choose|i: int|
                    0 <= i < most.len() && (#[trigger] most[i]).shared() is Some
                        && (most[i].shared()->0).0 == id;
                assert(feed[i] == most[i]);
            } else {
                assert(feed[feed.len() - 1].shared() is Some);
            }
        }
    }
}

/// A grid for which a score was filed is on the board.
proof fn lemma_grid_comes(
    board: crate::leaderboard::BoardMap,
    feed: Seq<Fetched>,
    i: int,
)
    requires
        0 <= i < feed.len(),
        feed[i].shared() is Some,
    ensures
        after_all(board, feed).contains_key((feed[i].shared()->0).0),
    decreases feed.len(),
{
    if i < feed.len() - 1 {
        lemma_grid_comes(board, feed.drop_last(), i);
    }
}

/// Filing the same messages again changes nothing.
pub proof fn law_scanning_again_changes_nothing(
    board: crate::leaderboard::BoardMap,
    feed: Seq<Fetched>,
)
    ensures
        after_all(after_all(board, feed), feed) == after_all(board, feed),
{
    let once = after_all(board, feed);
    let twice = after_all(once, feed);
    assert forall|id: usize, player: u64|
        #![trigger score_on(twice, id, player)]
        score_on(twice, id, player) == score_on(once, id, player) by {
        if exists|i: int| 0 <= i < feed.len() && is_for(#[trigger] feed[i], id, player) {
            let some = choose|i: int| 0 <= i < feed.len() && is_for(#[trigger] feed[i], id, player);
            let last = lemma_last(feed, some, id, player);
            law_last_score_counts(board, feed, last, id, player);
            law_last_score_counts(once, feed, last, id, player);
            lemma_account_stays(once, feed, id, player);
        } else {
            law_other_scores_are_kept(once, feed, id, player);
        }
    }
    assert forall|id: usize| twice.contains_key(id) <==> once.contains_key(id) by {
        lemma_grid_stays(once, feed, id);
        if twice.contains_key(id) && !once.contains_key(id) {
            let i = choose|i: int|
                0 <= i < feed.len() && (#[trigger] feed[i]).shared() is Some
                    && (feed[i].shared()->0).0 == id;
            lemma_grid_comes(board, feed, i);
        }
    }
    assert forall|id: usize| once.contains_key(id) implies twice[id] == once[id] by {
        assert forall|player: u64| twice[id].contains_key(player) <==> once[id].contains_key(
            player,
        ) by {
            assert(score_on(twice, id, player) == score_on(once, id, player));
        }
        assert forall|player: u64| twice[id].contains_key(player) implies twice[id][player]
            == once[id][player] by {
            assert(score_on(twice, id, player) == score_on(once, id, player));
        }
        assert(twice[id] =~= once[id]);
    }
    assert(twice =~= once);
}

/// The last share of a player for a grid.
proof fn lemma_last(feed: Seq<Fetched>, some: int, id: usize, player: u64) -> (last: int)
    requires
        0 <= some < feed.len(),
        is_for(feed[some], id, player),
    ensures
        some <= last < feed.len(),
        is_for(feed[last], id, player),
        forall|i: int| last < i < feed.len() ==> !is_for(#[trigger] feed[i], id, player),
    decreases feed.len() - some,
{
    if exists|i: int| some < i < feed.len() && is_for(#[trigger] feed[i], id, player) {
        let next = choose|i: int| some < i < feed.len() && is_for(#[trigger] feed[i], id, player);
        lemma_last(feed, next, id, player)
    } else {
        some
    }
}

} // verus!
