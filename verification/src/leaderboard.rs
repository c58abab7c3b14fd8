//! The leaderboard: who brought in the most members of a guild within a
//! trailing window, read-only over the store.

use vstd::prelude::*;
use crate::search::lemma_count_where_positive;
use crate::store::{
    count_used_invites, counts_toward, redeemed_count, within_window, InviteStore, TokenView,
};
use crate::text::{lemma_text_order, str_before, str_eq, text_before};

verus! {

/// One line of the leaderboard.
#[derive(Debug, Clone)]
pub struct InviteLeaderboardEntry {
    pub creator_id: String,
    /// Number of redeemed tokens of the creator within the window.
    pub invite_count: i64,
}

/// Mathematical model of an `InviteLeaderboardEntry`.
pub ghost struct EntryView {
    pub creator_id: Seq<char>,
    pub invite_count: int,
}

impl View for InviteLeaderboardEntry {
    type V = EntryView;

    open spec fn view(&self) -> EntryView {
        EntryView { creator_id: self.creator_id@, invite_count: self.invite_count as int }
    }
}

/// The views of a list of entries.
pub open spec fn entry_views(entries: Seq<InviteLeaderboardEntry>) -> Seq<EntryView> {
    entries.map_values(|e: InviteLeaderboardEntry| e@)
}

/// The length of the window that is looked back over: a negative number of
/// days counts as none.
pub open spec fn window_days(days: int) -> int {
    if days < 0 {
        0
    } else {
        days
    }
}

/// The leaderboard line of `creator_id`: the number of their redeemed tokens
/// in `guild_id` within the window.
pub open spec fn entry_of(
    tokens: Seq<TokenView>,
    creator_id: Seq<char>,
    guild_id: Seq<char>,
    days: int,
    now: int,
) -> EntryView {
    EntryView {
        creator_id,
        invite_count: redeemed_count(tokens, creator_id, guild_id, window_days(days), now) as int,
    }
}

/// The order of the leaderboard: more redemptions first, and of creators
/// with equally many, the one with the smaller id first.
pub open spec fn ranks_before(a: EntryView, b: EntryView) -> bool {
    ||| a.invite_count > b.invite_count
    ||| (a.invite_count == b.invite_count && text_before(a.creator_id, b.creator_id))
}

/// Whether `board` is the leaderboard of `guild_id`: the first `limit`
/// creators, in ranking order, among those with at least one redeemed token
/// within the window.
pub open spec fn is_leaderboard(
    tokens: Seq<TokenView>,
    guild_id: Seq<char>,
    days: int,
    now: int,
    limit: nat,
    board: Seq<EntryView>,
) -> bool {
    &&& board.len() <= limit
    &&& forall|i: int|
        0 <= i < board.len() ==> {
            &&& (#[trigger] board[i]) == entry_of(tokens, board[i].creator_id, guild_id, days, now)
            &&& board[i].invite_count > 0
        }
    &&& forall|i: int, j: int|
        0 <= i < j < board.len() ==> ranks_before(#[trigger] board[i], #[trigger] board[j])
    &&& forall|c: Seq<char>|
        (#[trigger] entry_of(tokens, c, guild_id, days, now)).invite_count > 0 ==> {
            ||| exists|i: int| 0 <= i < board.len() && (#[trigger] board[i]).creator_id == c
            ||| (board.len() == limit && forall|i: int|
                0 <= i < board.len() ==> ranks_before(
                    #[trigger] board[i],
                    entry_of(tokens, c, guild_id, days, now),
                ))
        }
}

/// Whether `entries` lists every creator with at least one redeemed token
/// within the window once, with their count, and nobody else.
pub open spec fn is_tally(
    tokens: Seq<TokenView>,
    guild_id: Seq<char>,
    days: int,
    now: int,
    entries: Seq<EntryView>,
) -> bool {
    &&& forall|i: int|
        0 <= i < entries.len() ==> {
            &&& (#[trigger] entries[i]) == entry_of(
                tokens,
                entries[i].creator_id,
                guild_id,
                days,
                now,
            )
            &&& entries[i].invite_count > 0
        }
    &&& forall|i: int, j: int|
        0 <= i < entries.len() && 0 <= j < entries.len() && i != j ==> (#[trigger] entries[i]).creator_id
            != (#[trigger] entries[j]).creator_id
    &&& forall|c: Seq<char>|
        (#[trigger] entry_of(tokens, c, guild_id, days, now)).invite_count > 0 ==> exists|i: int|
            0 <= i < entries.len() && (#[trigger] entries[i]).creator_id == c
}

/// The ranking is a strict order, and total on entries of different
/// creators.
pub proof fn lemma_ranking_order(a: EntryView, b: EntryView, c: EntryView)
    ensures
        !ranks_before(a, a),
        ranks_before(a, b) && ranks_before(b, c) ==> ranks_before(a, c),
        ranks_before(a, b) || ranks_before(b, a) || a == b,
{
    lemma_text_order(a.creator_id, b.creator_id, c.creator_id);
}

/// Whether the entry `a` ranks before the entry `b`.
pub fn ranks_ahead(a: &InviteLeaderboardEntry, b: &InviteLeaderboardEntry) -> (ahead: bool)
    ensures
        ahead == ranks_before(a@, b@),
{
    a.invite_count > b.invite_count || (a.invite_count == b.invite_count && str_before(
        a.creator_id.as_str(),
        b.creator_id.as_str(),
    ))
}

/// The number of days looked back over.
fn clamp_days(days: i32) -> (window: i32)
    ensures
        window == window_days(days as int),
{
    if days < 0 {
        0
    } else {
        days
    }
}

/// Counts the redeemed tokens of every creator of the guild within the
/// window.
fn tally(store: &InviteStore, guild_id: &str, days: i32, now: i64) -> (entries: Vec<
    InviteLeaderboardEntry,
>)
    ensures
        is_tally(store@, guild_id@, days as int, now as int, entry_views(entries@)),
{
    let window = clamp_days(days);
    let mut entries: Vec<InviteLeaderboardEntry> = Vec::new();
    let n = store.len();
    let mut i: usize = 0;
    while i < n
        invariant
            i <= n,
            n == store@.len(),
            window == window_days(days as int),
            forall|e: int|
                0 <= e < entries@.len() ==> {
                    &&& (#[trigger] entry_views(entries@)[e]) == entry_of(
                        store@,
                        entries@[e].creator_id@,
                        guild_id@,
                        days as int,
                        now as int,
                    )
                    &&& entries@[e].invite_count > 0
                },
            forall|a: int, b: int|
                0 <= a < entries@.len() && 0 <= b < entries@.len() && a != b ==> (
                #[trigger] entries@[a]).creator_id@ != (#[trigger] entries@[b]).creator_id@,
            forall|k: int|
                0 <= k < i && counts_toward(
                    #[trigger] store@[k],
                    store@[k].creator_id,
                    guild_id@,
                    window as int,
                    now as int,
                ) ==> exists|e: int|
                    0 <= e < entries@.len() && (#[trigger] entries@[e]).creator_id@
                        == store@[k].creator_id,
        decreases n - i,
    {
        let token = store.token_at(i);
        let ghost creator = store@[i as int].creator_id;
        let ghost p = |t: TokenView| counts_toward(t, creator, guild_id@, window as int, now as int);
        let ghost prev = entries@;
        if token.used_at.is_some() && within_window(token.created_at, window, now) && str_eq(
            token.guild_id.as_str(),
            guild_id,
        ) {
            assert(p(store@[i as int]));
            let mut known = false;
            let mut e: usize = 0;
            while e < entries.len()
                invariant
                    e <= entries.len(),
                    creator == token.creator_id@,
                    !known ==> forall|x: int|
                        0 <= x < e ==> (#[trigger] entries@[x]).creator_id@ != creator,
                    known ==> exists|x: int|
                        0 <= x < entries@.len() && (#[trigger] entries@[x]).creator_id@ == creator,
                decreases entries.len() - e,
            {
                if str_eq(entries[e].creator_id.as_str(), token.creator_id.as_str()) {
                    known = true;
                }
                e += 1;
            }
            if !known {
                let count = count_used_invites(
                    store,
                    token.creator_id.as_str(),
                    guild_id,
                    window,
                    now,
                );
                proof {
                    lemma_count_where_positive(store@, p);
                }
                entries.push(
                    InviteLeaderboardEntry { creator_id: token.creator_id.clone(), invite_count: count },
                );
                proof {
                    let last = entries@.len() - 1;
                    assert(entries@[last].creator_id@ == creator);
                    assert forall|k: int|
                        0 <= k < i + 1 && counts_toward(
                            #[trigger] store@[k],
                            store@[k].creator_id,
                            guild_id@,
                            window as int,
                            now as int,
                        ) implies exists|e: int|
                        0 <= e < entries@.len() && (#[trigger] entries@[e]).creator_id@
                            == store@[k].creator_id by {
                        if k < i {
                            let w = choose|e: int|
                                0 <= e < prev.len() && (#[trigger] prev[e]).creator_id@
                                    == store@[k].creator_id;
                            assert(entries@[w] == prev[w]);
                        } else {
                            assert(entries@[last].creator_id@ == store@[k].creator_id);
                        }
                    }
                    assert forall|a: int, b: int|
                        0 <= a < entries@.len() && 0 <= b < entries@.len() && a != b implies (
                    #[trigger] entries@[a]).creator_id@ != (#[trigger] entries@[b]).creator_id@ by {
                        if a < last {
                            assert(entries@[a] == prev[a]);
                        }
                        if b < last {
                            assert(entries@[b] == prev[b]);
                        }
                    }
                    assert forall|e: int| 0 <= e < entries@.len() implies {
                        &&& (#[trigger] entry_views(entries@)[e]) == entry_of(
                            store@,
                            entries@[e].creator_id@,
                            guild_id@,
                            days as int,
                            now as int,
                        )
                        &&& entries@[e].invite_count > 0
                    } by {
                        if e < last {
                            assert(entries@[e] == prev[e]);
                            assert(entry_views(prev)[e] == prev[e]@);
                        }
                    }
                }
            }
        }
        i += 1;
    }
    proof {
        let views = entry_views(entries@);
        assert forall|c: Seq<char>|
            (#[trigger] entry_of(store@, c, guild_id@, days as int, now as int)).invite_count
                > 0 implies exists|x: int|
            0 <= x < views.len() && (#[trigger] views[x]).creator_id == c by {
            let p = |t: TokenView| counts_toward(t, c, guild_id@, window as int, now as int);
            lemma_count_where_positive(store@, p);
            let k = choose|k: int| 0 <= k < store@.len() && p(#[trigger] store@[k]);
            assert(store@[k].creator_id == c);
            let e = choose|e: int|
                0 <= e < entries@.len() && (#[trigger] entries@[e]).creator_id@
                    == store@[k].creator_id;
            assert(views[e].creator_id == c);
        }
        assert forall|a: int, b: int|
            0 <= a < views.len() && 0 <= b < views.len() && a != b implies (
        #[trigger] views[a]).creator_id != (#[trigger] views[b]).creator_id by {
            assert(entries@[a].creator_id@ != entries@[b].creator_id@);
        }
    }
    entries
}

/// Whether the entry `e` is still to be ranked once `floor` was: every
/// entry is while nothing was ranked, and afterwards those that rank after
/// `floor`.
pub open spec fn follows(floor: Option<EntryView>, e: EntryView) -> bool {
    match floor {
        Some(f) => ranks_before(f, e),
        None => true,
    }
}

/// The view of an optional entry.
pub open spec fn opt_entry(e: Option<&InviteLeaderboardEntry>) -> Option<EntryView> {
    match e {
        Some(x) => Some(x@),
        None => None,
    }
}

/// Finds the entry that ranks first among those still to be ranked.
fn next_ranked(entries: &Vec<InviteLeaderboardEntry>, floor: Option<&InviteLeaderboardEntry>) -> (next:
    Option<usize>)
    requires
        forall|a: int, b: int|
            0 <= a < entries@.len() && 0 <= b < entries@.len() && a != b ==> (
            #[trigger] entries@[a]).creator_id@ != (#[trigger] entries@[b]).creator_id@,
    ensures
        match next {
            Some(j) => {
                &&& j < entries@.len()
                &&& follows(opt_entry(floor), entries@[j as int]@)
                &&& forall|k: int|
                    0 <= k < entries@.len() && k != j && follows(
                        opt_entry(floor),
                        (#[trigger] entries@[k])@,
                    ) ==> ranks_before(entries@[j as int]@, entries@[k]@)
            },
            None => forall|k: int|
                0 <= k < entries@.len() ==> !follows(opt_entry(floor), (#[trigger] entries@[k])@),
        },
{
    let mut next: Option<usize> = None;
    let mut i: usize = 0;
    while i < entries.len()
        invariant
            i <= entries.len(),
            forall|a: int, b: int|
                0 <= a < entries@.len() && 0 <= b < entries@.len() && a != b ==> (
                #[trigger] entries@[a]).creator_id@ != (#[trigger] entries@[b]).creator_id@,
            match next {
                Some(j) => {
                    &&& j < i
                    &&& follows(opt_entry(floor), entries@[j as int]@)
                    &&& forall|k: int|
                        0 <= k < i && k != j && follows(
                            opt_entry(floor),
                            (#[trigger] entries@[k])@,
                        ) ==> ranks_before(entries@[j as int]@, entries@[k]@)
                },
                None => forall|k: int|
                    0 <= k < i ==> !follows(opt_entry(floor), (#[trigger] entries@[k])@),
            },
        decreases entries.len() - i,
    {
        let entry = &entries[i];
        let open = match floor {
            Some(f) => ranks_ahead(f, entry),
            None => true,
        };
        if open {
            match next {
                Some(j) => {
                    let leader = &entries[j];
                    if ranks_ahead(entry, leader) {
                        proof {
                            assert forall|k: int|
                                0 <= k < i + 1 && k != i && follows(
                                    opt_entry(floor),
                                    (#[trigger] entries@[k])@,
                                ) implies ranks_before(entries@[i as int]@, entries@[k]@) by {
                                lemma_ranking_order(entry@, leader@, entries@[k]@);
                            }
                        }
                        next = Some(i);
                    } else {
                        proof {
                            assert(entries@[i as int].creator_id@ != entries@[j as int].creator_id@);
                            lemma_ranking_order(leader@, entry@, entry@);
                        }
                    }
                },
                None => {
                    next = Some(i);
                },
            }
        }
        i += 1;
    }
    next
}

/// The entry ranked last so far, if any was ranked.
pub open spec fn floor_of(board: Seq<EntryView>) -> Option<EntryView> {
    if board.len() > 0 {
        Some(board.last())
    } else {
        None
    }
}

/// Every entry of the board is one of the tally.
pub open spec fn board_within(all: Seq<EntryView>, board: Seq<EntryView>) -> bool {
    forall|i: int|
        0 <= i < board.len() ==> exists|e: int| 0 <= e < all.len() && #[trigger] all[e] == #[trigger] board[i]
}

/// The board is in ranking order.
pub open spec fn board_sorted(board: Seq<EntryView>) -> bool {
    forall|i: int, j: int|
        0 <= i < j < board.len() ==> ranks_before(#[trigger] board[i], #[trigger] board[j])
}

/// Whether the entry is on the board or, while the board is not complete,
/// still to be ranked.
pub open spec fn accounted_for(board: Seq<EntryView>, complete: bool, entry: EntryView) -> bool {
    ||| exists|i: int| 0 <= i < board.len() && #[trigger] board[i] == entry
    ||| (!complete && follows(floor_of(board), entry))
}

/// Every entry of the tally is on the board or, while the board is not
/// complete, still to be ranked.
pub open spec fn board_covers(all: Seq<EntryView>, board: Seq<EntryView>, complete: bool) -> bool {
    forall|e: int| 0 <= e < all.len() ==> accounted_for(board, complete, #[trigger] all[e])
}

/// Ranking the first of the entries still to be ranked keeps the board in
/// order, within the tally, and covering it.
proof fn lemma_board_grows(all: Seq<EntryView>, board: Seq<EntryView>, j: int)
    requires
        board_within(all, board),
        board_sorted(board),
        board_covers(all, board, false),
        0 <= j < all.len(),
        follows(floor_of(board), all[j]),
        forall|k: int|
            0 <= k < all.len() && k != j && follows(floor_of(board), #[trigger] all[k])
                ==> ranks_before(all[j], all[k]),
    ensures
        board_within(all, board.push(all[j])),
        board_sorted(board.push(all[j])),
        board_covers(all, board.push(all[j]), false),
{
    let next = board.push(all[j]);
    let last = board.len() as int;
    assert forall|i: int| 0 <= i < next.len() implies exists|e: int|
        0 <= e < all.len() && #[trigger] all[e] == #[trigger] next[i] by {
        if i < last {
            assert(next[i] == board[i]);
            let e = choose|e: int| 0 <= e < all.len() && #[trigger] all[e] == board[i];
            assert(all[e] == next[i]);
        } else {
            assert(all[j] == next[i]);
        }
    }
    assert forall|a: int, b: int| 0 <= a < b < next.len() implies ranks_before(
        #[trigger] next[a],
        #[trigger] next[b],
    ) by {
        if b < last {
            assert(ranks_before(board[a], board[b]));
        } else if a < last - 1 {
            assert(ranks_before(board[a], board[last - 1]));
            lemma_ranking_order(board[a], board[last - 1], all[j]);
        }
    }
    assert forall|e: int| 0 <= e < all.len() implies accounted_for(
        next,
        false,
        #[trigger] all[e],
    ) by {
        assert(accounted_for(board, false, all[e]));
        if exists|i: int| 0 <= i < board.len() && #[trigger] board[i] == all[e] {
            let i = choose|i: int| 0 <= i < board.len() && #[trigger] board[i] == all[e];
            assert(next[i] == all[e]);
        } else if e == j {
            assert(next[last] == all[e]);
        } else {
            assert(follows(floor_of(board), all[e]));
            assert(ranks_before(all[j], all[e]));
        }
    }
}

/// Once no entry is left to be ranked, every entry of the tally is on the
/// board.
proof fn lemma_board_complete(all: Seq<EntryView>, board: Seq<EntryView>)
    requires
        board_covers(all, board, false),
        forall|e: int| 0 <= e < all.len() ==> !follows(floor_of(board), #[trigger] all[e]),
    ensures
        board_covers(all, board, true),
{
    assert forall|e: int| 0 <= e < all.len() implies accounted_for(
        board,
        true,
        #[trigger] all[e],
    ) by {
        assert(accounted_for(board, false, all[e]));
        assert(!follows(floor_of(board), all[e]));
    }
}

/// A board that is in order, within the tally and covering it, and that is
/// complete or full, is the leaderboard.
proof fn lemma_board_is_leaderboard(
    tokens: Seq<TokenView>,
    guild_id: Seq<char>,
    days: int,
    now: int,
    limit: nat,
    all: Seq<EntryView>,
    board: Seq<EntryView>,
    complete: bool,
)
    requires
        is_tally(tokens, guild_id, days, now, all),
        board_within(all, board),
        board_sorted(board),
        board_covers(all, board, complete),
        board.len() <= limit,
        complete || board.len() == limit,
    ensures
        is_leaderboard(tokens, guild_id, days, now, limit, board),
{
    assert forall|i: int| 0 <= i < board.len() implies {
        &&& (#[trigger] board[i]) == entry_of(tokens, board[i].creator_id, guild_id, days, now)
        &&& board[i].invite_count > 0
    } by {
        let e = choose|e: int| 0 <= e < all.len() && #[trigger] all[e] == board[i];
        assert(all[e] == entry_of(tokens, all[e].creator_id, guild_id, days, now));
    }
    assert forall|c: Seq<char>|
        (#[trigger] entry_of(tokens, c, guild_id, days, now)).invite_count > 0 implies {
        ||| exists|i: int| 0 <= i < board.len() && (#[trigger] board[i]).creator_id == c
        ||| (board.len() == limit && forall|i: int|
            0 <= i < board.len() ==> ranks_before(
                #[trigger] board[i],
                entry_of(tokens, c, guild_id, days, now),
            ))
    } by {
        let e = choose|e: int| 0 <= e < all.len() && (#[trigger] all[e]).creator_id == c;
        assert(all[e] == entry_of(tokens, c, guild_id, days, now));
        assert(accounted_for(board, complete, all[e]));
        if exists|i: int| 0 <= i < board.len() && #[trigger] board[i] == all[e] {
            let i = choose|i: int| 0 <= i < board.len() && #[trigger] board[i] == all[e];
            assert(board[i].creator_id == c);
        } else {
            assert(follows(floor_of(board), all[e]));
            assert forall|i: int| 0 <= i < board.len() implies ranks_before(
                #[trigger] board[i],
                all[e],
            ) by {
                let last = board.len() - 1;
                if i < last {
                    assert(ranks_before(board[i], board[last]));
                    lemma_ranking_order(board[i], board[last], all[e]);
                }
            }
        }
    }
}

/// The leaderboard of a guild: the `limit` creators with the most redeemed
/// tokens created within the trailing `days` days, most first; creators with
/// equally many are ordered by their id, ascending.
pub fn get_invite_leaderboard(
    store: &InviteStore,
    guild_id: &str,
    days: i32,
    limit: usize,
    now: i64,
) -> (board: Vec<InviteLeaderboardEntry>)
    ensures
        is_leaderboard(
            store@,
            guild_id@,
            days as int,
            now as int,
            limit as nat,
            entry_views(board@),
        ),
{
    let entries = tally(store, guild_id, days, now);
    let ghost all = entry_views(entries@);
    let mut board: Vec<InviteLeaderboardEntry> = Vec::new();
    let mut complete = false;
    assert forall|a: int, b: int|
        0 <= a < entries@.len() && 0 <= b < entries@.len() && a != b implies (
    #[trigger] entries@[a]).creator_id@ != (#[trigger] entries@[b]).creator_id@ by {
        assert(all[a].creator_id != all[b].creator_id);
    }
    while !complete && board.len() < limit
        invariant
            board@.len() <= limit,
            all == entry_views(entries@),
            forall|a: int, b: int|
                0 <= a < entries@.len() && 0 <= b < entries@.len() && a != b ==> (
                #[trigger] entries@[a]).creator_id@ != (#[trigger] entries@[b]).creator_id@,
            board_within(all, entry_views(board@)),
            board_sorted(entry_views(board@)),
            board_covers(all, entry_views(board@), complete),
        decreases (if complete { 0int } else { 1int }), limit - board@.len(),
    {
        let ghost ranked = entry_views(board@);
        let floor = if board.len() > 0 {
            Some(&board[board.len() - 1])
        } else {
            None
        };
        assert(opt_entry(floor) == floor_of(ranked));
        match next_ranked(&entries, floor) {
            Some(j) => {
                let entry = &entries[j];
                proof {
                    assert forall|k: int|
                        0 <= k < all.len() && k != j && follows(
                            floor_of(ranked),
                            #[trigger] all[k],
                        ) implies ranks_before(all[j as int], all[k]) by {
                        assert(all[k] == entries@[k]@);
                    }
                    lemma_board_grows(all, ranked, j as int);
                }
                board.push(
                    InviteLeaderboardEntry {
                        creator_id: entry.creator_id.clone(),
                        invite_count: entry.invite_count,
                    },
                );
                assert(entry_views(board@) =~= ranked.push(all[j as int]));
            },
            None => {
                proof {
                    assert forall|e: int| 0 <= e < all.len() implies !follows(
                        floor_of(ranked),
                        #[trigger] all[e],
                    ) by {
                        assert(all[e] == entries@[e]@);
                    }
                    lemma_board_complete(all, ranked);
                }
                complete = true;
            },
        }
    }
    proof {
        lemma_board_is_leaderboard(
            store@,
            guild_id@,
            days as int,
            now as int,
            limit as nat,
            all,
            entry_views(board@),
            complete,
        );
    }
    board
}

/// Where two leaderboards agree on their first `i` lines, line `i` of the
/// first is line `i` of the second, or ranks after it.
proof fn lemma_line_agrees_or_follows(
    tokens: Seq<TokenView>,
    guild_id: Seq<char>,
    days: int,
    now: int,
    limit: nat,
    a: Seq<EntryView>,
    b: Seq<EntryView>,
    i: int,
)
    requires
        is_leaderboard(tokens, guild_id, days, now, limit, a),
        is_leaderboard(tokens, guild_id, days, now, limit, b),
        0 <= i < a.len(),
        i < b.len(),
        forall|k: int| 0 <= k < i ==> a[k] == b[k],
    ensures
        a[i] == b[i] || ranks_before(b[i], a[i]),
{
    let x = a[i];
    assert(x == entry_of(tokens, x.creator_id, guild_id, days, now));
    if exists|j: int| 0 <= j < b.len() && (#[trigger] b[j]).creator_id == x.creator_id {
        let j = choose|j: int| 0 <= j < b.len() && (#[trigger] b[j]).creator_id == x.creator_id;
        assert(b[j] == entry_of(tokens, b[j].creator_id, guild_id, days, now));
        assert(b[j] == x);
        if j < i {
            assert(a[j] == b[j]);
            assert(ranks_before(a[j], a[i]));
            lemma_ranking_order(x, x, x);
        } else if j > i {
            assert(ranks_before(b[i], b[j]));
        }
    } else {
        assert(ranks_before(b[i], entry_of(tokens, x.creator_id, guild_id, days, now)));
    }
}

/// Two leaderboards agree on their first `n` lines.
proof fn lemma_leaderboards_agree(
    tokens: Seq<TokenView>,
    guild_id: Seq<char>,
    days: int,
    now: int,
    limit: nat,
    a: Seq<EntryView>,
    b: Seq<EntryView>,
    n: int,
)
    requires
        is_leaderboard(tokens, guild_id, days, now, limit, a),
        is_leaderboard(tokens, guild_id, days, now, limit, b),
        0 <= n <= a.len(),
        n <= b.len(),
    ensures
        forall|k: int| 0 <= k < n ==> a[k] == b[k],
    decreases n,
{
    if n > 0 {
        let i = n - 1;
        lemma_leaderboards_agree(tokens, guild_id, days, now, limit, a, b, i);
        lemma_line_agrees_or_follows(tokens, guild_id, days, now, limit, a, b, i);
        lemma_line_agrees_or_follows(tokens, guild_id, days, now, limit, b, a, i);
        lemma_ranking_order(a[i], b[i], a[i]);
    }
}

/// A leaderboard is no longer than any other leaderboard of the same store.
proof fn lemma_leaderboard_not_longer(
    tokens: Seq<TokenView>,
    guild_id: Seq<char>,
    days: int,
    now: int,
    limit: nat,
    a: Seq<EntryView>,
    b: Seq<EntryView>,
)
    requires
        is_leaderboard(tokens, guild_id, days, now, limit, a),
        is_leaderboard(tokens, guild_id, days, now, limit, b),
    ensures
        b.len() <= a.len(),
{
    if a.len() < b.len() {
        let n = a.len() as int;
        lemma_leaderboards_agree(tokens, guild_id, days, now, limit, a, b, n);
        let y = b[n];
        assert(y == entry_of(tokens, y.creator_id, guild_id, days, now));
        if exists|j: int| 0 <= j < a.len() && (#[trigger] a[j]).creator_id == y.creator_id {
            let j = choose|j: int| 0 <= j < a.len() && (#[trigger] a[j]).creator_id == y.creator_id;
            assert(a[j] == entry_of(tokens, a[j].creator_id, guild_id, days, now));
            assert(b[j] == a[j]);
            assert(ranks_before(b[j], b[n]));
            lemma_ranking_order(y, y, y);
        }
    }
}

/// The leaderboard is unique: the ranking rule, with its tie-break by
/// creator id, leaves no choice. Whatever satisfies `is_leaderboard` for a
/// store, a guild, a window and a limit is the one leaderboard.
pub proof fn lemma_leaderboard_unique(
    tokens: Seq<TokenView>,
    guild_id: Seq<char>,
    days: int,
    now: int,
    limit: nat,
    a: Seq<EntryView>,
    b: Seq<EntryView>,
)
    requires
        is_leaderboard(tokens, guild_id, days, now, limit, a),
        is_leaderboard(tokens, guild_id, days, now, limit, b),
    ensures
        a == b,
{
    lemma_leaderboard_not_longer(tokens, guild_id, days, now, limit, a, b);
    lemma_leaderboard_not_longer(tokens, guild_id, days, now, limit, b, a);
    lemma_leaderboards_agree(tokens, guild_id, days, now, limit, a, b, a.len() as int);
    assert(a =~= b);
}

} // verus!
