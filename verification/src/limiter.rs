//! The rate limiter: whether a member may issue another token, decided from
//! the store's history alone.
//!
//! Only redeemed tokens consume quota. A token that nobody redeemed, however
//! old, never counts.

use vstd::prelude::*;
use crate::config::InviteLimit;
use crate::store::{count_used_invites, redeemed_count, InviteStore, TokenView};

verus! {

/// The verdict of the rate limiter.
#[derive(Debug, Clone, Copy, PartialEq, Eq, Structural)]
pub enum RateDecision {
    /// The member may issue another token.
    Allow,
    /// The quota is used up. `remaining` is the quota minus `used`, zero or
    /// less.
    Deny { used: i64, remaining: i64 },
}

/// What is left of a quota of `count` after `used` redemptions.
pub open spec fn remaining_of(count: int, used: int) -> int {
    count - used
}

/// The verdict for a member with `used` redeemed tokens under a quota of
/// `count`: denied exactly when `used >= count`.
pub open spec fn decision(used: int, count: int) -> RateDecision {
    if used >= count {
        RateDecision::Deny { used: used as i64, remaining: remaining_of(count, used) as i64 }
    } else {
        RateDecision::Allow
    }
}

/// What is left to `creator_id` in `guild_id` under `limit` at time `now`.
pub open spec fn allowance(
    tokens: Seq<TokenView>,
    creator_id: Seq<char>,
    guild_id: Seq<char>,
    limit: InviteLimit,
    now: int,
) -> int {
    remaining_of(
        limit.count as int,
        redeemed_count(tokens, creator_id, guild_id, limit.days as int, now) as int,
    )
}

/// Decides whether `creator_id` may issue another token in `guild_id` under
/// `role_limit`.
pub fn check(
    store: &InviteStore,
    creator_id: &str,
    guild_id: &str,
    role_limit: &InviteLimit,
    now: i64,
) -> (verdict: RateDecision)
    ensures
        verdict == decision(
            redeemed_count(store@, creator_id@, guild_id@, role_limit.days as int, now as int) as int,
            role_limit.count as int,
        ),
{
    let used = count_used_invites(store, creator_id, guild_id, role_limit.days, now);
    if used >= role_limit.count as i64 {
        RateDecision::Deny { used, remaining: role_limit.count as i64 - used }
    } else {
        RateDecision::Allow
    }
}

/// Whether `limits[i]` leaves the member the most: no other limit leaves
/// more, and none before it leaves as much.
pub open spec fn is_most_permissive(
    tokens: Seq<TokenView>,
    creator_id: Seq<char>,
    guild_id: Seq<char>,
    limits: Seq<InviteLimit>,
    now: int,
    i: int,
) -> bool {
    &&& 0 <= i < limits.len()
    &&& forall|k: int|
        0 <= k < limits.len() ==> {
            ||| allowance(tokens, creator_id, guild_id, #[trigger] limits[k], now) < allowance(
                tokens,
                creator_id,
                guild_id,
                limits[i],
                now,
            )
            ||| (allowance(tokens, creator_id, guild_id, limits[k], now) == allowance(
                tokens,
                creator_id,
                guild_id,
                limits[i],
                now,
            ) && i <= k)
        }
}

/// Picks, among the limits of the roles a member holds, the one that leaves
/// the member the most invites; the first of several that leave as much.
/// `None` only when there is no limit to pick from.
pub fn most_permissive(
    store: &InviteStore,
    creator_id: &str,
    guild_id: &str,
    limits: &Vec<InviteLimit>,
    now: i64,
) -> (best: Option<usize>)
    ensures
        match best {
            Some(i) => is_most_permissive(
                store@,
                creator_id@,
                guild_id@,
                limits@,
                now as int,
                i as int,
            ),
            None => limits@.len() == 0,
        },
{
    if limits.len() == 0 {
        return None;
    }
    let mut best: usize = 0;
    let mut best_left: i64 = left_under(store, creator_id, guild_id, &limits[0], now);
    let mut i: usize = 1;
    while i < limits.len()
        invariant
            1 <= i <= limits.len(),
            best < i,
            best_left == allowance(store@, creator_id@, guild_id@, limits@[best as int], now as int),
            is_most_permissive(
                store@,
                creator_id@,
                guild_id@,
                limits@.take(i as int),
                now as int,
                best as int,
            ),
        decreases limits.len() - i,
    {
        let left = left_under(store, creator_id, guild_id, &limits[i], now);
        let ghost before = limits@.take(i as int);
        let ghost after = limits@.take(i + 1);
        proof {
            assert forall|k: int| 0 <= k < i implies after[k] == #[trigger] before[k] by {}
        }
        if left > best_left {
            proof {
                assert forall|k: int| 0 <= k < after.len() implies {
                    ||| allowance(store@, creator_id@, guild_id@, #[trigger] after[k], now as int)
                        < allowance(store@, creator_id@, guild_id@, after[i as int], now as int)
                    ||| (allowance(store@, creator_id@, guild_id@, after[k], now as int)
                        == allowance(
                        store@,
                        creator_id@,
                        guild_id@,
                        after[i as int],
                        now as int,
                    ) && i <= k)
                } by {
                    if k < i {
                        assert(after[k] == before[k]);
                    }
                }
            }
            best = i;
            best_left = left;
        } else {
            proof {
                assert forall|k: int| 0 <= k < after.len() implies {
                    ||| allowance(store@, creator_id@, guild_id@, #[trigger] after[k], now as int)
                        < allowance(store@, creator_id@, guild_id@, after[best as int], now as int)
                    ||| (allowance(store@, creator_id@, guild_id@, after[k], now as int)
                        == allowance(
                        store@,
                        creator_id@,
                        guild_id@,
                        after[best as int],
                        now as int,
                    ) && best <= k)
                } by {
                    if k < i {
                        assert(after[k] == before[k]);
                    }
                }
            }
        }
        i += 1;
    }
    assert(limits@.take(i as int) =~= limits@);
    Some(best)
}

/// What `limit` leaves the member: the quota minus the redeemed tokens
/// within its window.
fn left_under(
    store: &InviteStore,
    creator_id: &str,
    guild_id: &str,
    limit: &InviteLimit,
    now: i64,
) -> (left: i64)
    ensures
        left == allowance(store@, creator_id@, guild_id@, *limit, now as int),
{
    let used = count_used_invites(store, creator_id, guild_id, limit.days, now);
    limit.count as i64 - used
}

/// Among the first `n` limits, one is the most permissive.
proof fn lemma_most_permissive_among(
    tokens: Seq<TokenView>,
    creator_id: Seq<char>,
    guild_id: Seq<char>,
    limits: Seq<InviteLimit>,
    now: int,
    n: int,
)
    requires
        0 < n <= limits.len(),
    ensures
        exists|j: int| is_most_permissive(tokens, creator_id, guild_id, limits.take(n), now, j),
    decreases n,
{
    let last = n - 1;
    let these = limits.take(n);
    if n == 1 {
        assert(is_most_permissive(tokens, creator_id, guild_id, these, now, 0));
    } else {
        let before = limits.take(last);
        lemma_most_permissive_among(tokens, creator_id, guild_id, limits, now, last);
        let b = choose|j: int| is_most_permissive(tokens, creator_id, guild_id, before, now, j);
        assert forall|k: int| 0 <= k < last implies these[k] == #[trigger] before[k] by {}
        let best = if allowance(tokens, creator_id, guild_id, these[last], now) > allowance(
            tokens,
            creator_id,
            guild_id,
            before[b],
            now,
        ) {
            last
        } else {
            b
        };
        assert forall|k: int| 0 <= k < these.len() implies {
            ||| allowance(tokens, creator_id, guild_id, #[trigger] these[k], now) < allowance(
                tokens,
                creator_id,
                guild_id,
                these[best],
                now,
            )
            ||| (allowance(tokens, creator_id, guild_id, these[k], now) == allowance(
                tokens,
                creator_id,
                guild_id,
                these[best],
                now,
            ) && best <= k)
        } by {
            if k < last {
                assert(these[k] == before[k]);
            }
        }
        assert(is_most_permissive(tokens, creator_id, guild_id, these, now, best));
    }
}

/// The policy always decides: of any limits, unless there are none, exactly
/// one is the most permissive.
pub proof fn lemma_most_permissive_decides(
    tokens: Seq<TokenView>,
    creator_id: Seq<char>,
    guild_id: Seq<char>,
    limits: Seq<InviteLimit>,
    now: int,
)
    requires
        limits.len() > 0,
    ensures
        exists|j: int| is_most_permissive(tokens, creator_id, guild_id, limits, now, j),
        forall|i: int, j: int|
            is_most_permissive(tokens, creator_id, guild_id, limits, now, i) && is_most_permissive(
                tokens,
                creator_id,
                guild_id,
                limits,
                now,
                j,
            ) ==> i == j,
{
    lemma_most_permissive_among(tokens, creator_id, guild_id, limits, now, limits.len() as int);
    assert(limits.take(limits.len() as int) =~= limits);
    assert forall|i: int, j: int|
        is_most_permissive(tokens, creator_id, guild_id, limits, now, i) && is_most_permissive(
            tokens,
            creator_id,
            guild_id,
            limits,
            now,
            j,
        ) implies i == j by {
        let left_i = allowance(tokens, creator_id, guild_id, limits[i], now);
        let left_j = allowance(tokens, creator_id, guild_id, limits[j], now);
        assert(left_i <= left_j && left_j <= left_i);
    }
}

} // verus!
