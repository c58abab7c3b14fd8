//! Laws that relate several operations of the engine. Each is stated over
//! the spec functions that the operations' own contracts use.

use vstd::prelude::*;
use crate::commands::invites::{after_invites, InvitesRequest};
use crate::config::{Config, InviteLimit};
use crate::issuer::after_issue;
use crate::limiter::decision;
use crate::materializer::{
    materialize, on_visit, redirect_action, redirect_tokens, ActionView, MaterializeError,
    RedirectEvent,
};
use crate::reconciler::{after_arrival, attribution, is_match, is_preferred, ActiveInviteView};
use crate::search::{count_where, first_index, lemma_first_index};
use crate::store::{
    claimable, code_owner, counts_toward, created, creation_error, mark_used, redeemed_count,
    set_code, unused_record, valid_tokens, RecordView, TokenState, TokenView,
};

verus! {

/// In a valid store, the unused token with a given id is found at its one
/// index.
pub proof fn lemma_unused_record_at(tokens: Seq<TokenView>, id: Seq<char>, i: int)
    requires
        valid_tokens(tokens),
        0 <= i < tokens.len(),
        tokens[i].id == id,
    ensures
        unused_record(tokens, id) == if tokens[i].used_at is None {
            Some(
                RecordView {
                    guild_id: tokens[i].guild_id,
                    creator_id: tokens[i].creator_id,
                    code: tokens[i].external_code,
                },
            )
        } else {
            None
        },
        claimable(tokens, id) == (tokens[i].used_at is None),
{
    let p = |t: TokenView| t.id == id && t.used_at is None;
    lemma_first_index(tokens, p);
    match first_index(tokens, p) {
        Some(k) => {
            assert(tokens[k].id == tokens[i].id);
        },
        None => {
            assert(!p(tokens[i]));
        },
    }
}

/// Exactly-once redemption. Of two claims on one unused token, in whichever
/// order the store takes them, the first succeeds and the second fails and
/// changes nothing; the token ends up redeemed by the first claimant alone,
/// and every other token is as it was.
pub proof fn lemma_claim_exactly_once(
    tokens: Seq<TokenView>,
    id: Seq<char>,
    winner: Seq<char>,
    won_at: int,
    loser: Seq<char>,
    lost_at: int,
)
    requires
        valid_tokens(tokens),
        claimable(tokens, id),
    ensures
        !claimable(mark_used(tokens, id, winner, won_at), id),
        mark_used(mark_used(tokens, id, winner, won_at), id, loser, lost_at) == mark_used(
            tokens,
            id,
            winner,
            won_at,
        ),
        valid_tokens(mark_used(tokens, id, winner, won_at)),
        forall|i: int|
            0 <= i < tokens.len() ==> (#[trigger] mark_used(tokens, id, winner, won_at)[i]) == if tokens[i].id
                == id {
                tokens[i].redeemed(winner, won_at)
            } else {
                tokens[i]
            },
{
    let p = |t: TokenView| t.id == id && t.used_at is None;
    lemma_first_index(tokens, p);
    let i = first_index(tokens, p)->0;
    let after = mark_used(tokens, id, winner, won_at);
    assert forall|k: int| 0 <= k < tokens.len() implies (#[trigger] after[k]) == if tokens[k].id == id {
        tokens[k].redeemed(winner, won_at)
    } else {
        tokens[k]
    } by {
        if tokens[k].id == id {
            assert(k == i);
        }
    }
    assert(valid_tokens(after)) by {
        assert forall|a: int, b: int|
            0 <= a < after.len() && 0 <= b < after.len() && a != b implies after[a].id
            != after[b].id by {
            assert(after[a].id == tokens[a].id);
            assert(after[b].id == tokens[b].id);
        }
        assert forall|k: int| 0 <= k < after.len() implies (#[trigger] after[k]).wf() by {
            assert(tokens[k].wf());
        }
    }
    lemma_unused_record_at(after, id, i);
    assert(mark_used(after, id, loser, lost_at) =~= after);
}

/// A claim on a token that is unknown or already redeemed fails and changes
/// nothing.
pub proof fn lemma_failed_claim_changes_nothing(
    tokens: Seq<TokenView>,
    id: Seq<char>,
    user: Seq<char>,
    now: int,
)
    requires
        !claimable(tokens, id),
    ensures
        mark_used(tokens, id, user, now) == tokens,
{
    let p = |t: TokenView| t.id == id && t.used_at is None;
    lemma_first_index(tokens, p);
    assert forall|k: int| 0 <= k < tokens.len() implies mark_used(tokens, id, user, now)[k]
        == tokens[k] by {
        assert(!p(tokens[k]));
    }
    assert(mark_used(tokens, id, user, now) =~= tokens);
}

/// The rate limiter denies exactly when the number of redeemed tokens within
/// the window has reached the quota, and that number is the same whatever
/// unused tokens the store holds: it is the count over the redeemed tokens
/// alone.
pub proof fn lemma_only_redeemed_tokens_count(
    tokens: Seq<TokenView>,
    creator_id: Seq<char>,
    guild_id: Seq<char>,
    limit: InviteLimit,
    now: int,
)
    ensures
        decision(
            redeemed_count(tokens, creator_id, guild_id, limit.days as int, now) as int,
            limit.count as int,
        ) is Deny <==> redeemed_count(tokens, creator_id, guild_id, limit.days as int, now)
            >= limit.count,
        redeemed_count(tokens, creator_id, guild_id, limit.days as int, now) == redeemed_count(
            tokens.filter(|t: TokenView| t.used_at is Some),
            creator_id,
            guild_id,
            limit.days as int,
            now,
        ),
{
    let p = |t: TokenView| counts_toward(t, creator_id, guild_id, limit.days as int, now);
    lemma_count_ignores_unused(tokens, p);
}

/// A count of tokens by a predicate that only redeemed tokens satisfy is the
/// count over the redeemed tokens.
proof fn lemma_count_ignores_unused(tokens: Seq<TokenView>, p: spec_fn(TokenView) -> bool)
    requires
        forall|t: TokenView| #[trigger] p(t) ==> t.used_at is Some,
    ensures
        count_where(tokens, p) == count_where(tokens.filter(|t: TokenView| t.used_at is Some), p),
    decreases tokens.len(),
{
    let used = |t: TokenView| t.used_at is Some;
    reveal(Seq::filter);
    if tokens.len() > 0 {
        let front = tokens.drop_last();
        lemma_count_ignores_unused(front, p);
        if used(tokens.last()) {
            assert(tokens.filter(used) == front.filter(used).push(tokens.last()));
            assert(front.filter(used).push(tokens.last()).drop_last() =~= front.filter(used));
        } else {
            assert(tokens.filter(used) == front.filter(used));
            assert(!p(tokens.last()));
        }
    }
}

/// Issuing a token never consumes quota: the count of a creator is the same
/// before and after any token is created.
pub proof fn lemma_pending_token_is_free(
    tokens: Seq<TokenView>,
    id: Seq<char>,
    token_guild: Seq<char>,
    token_creator: Seq<char>,
    created_at: int,
    creator_id: Seq<char>,
    guild_id: Seq<char>,
    days: int,
    now: int,
)
    ensures
        redeemed_count(
            created(tokens, id, token_guild, token_creator, created_at),
            creator_id,
            guild_id,
            days,
            now,
        ) == redeemed_count(tokens, creator_id, guild_id, days, now),
{
    let after = created(tokens, id, token_guild, token_creator, created_at);
    assert(after.drop_last() =~= tokens);
}

/// Giving a token its external code keeps the store valid and changes that
/// token alone.
pub proof fn lemma_set_code_at(tokens: Seq<TokenView>, id: Seq<char>, code: Seq<char>, i: int)
    requires
        valid_tokens(tokens),
        0 <= i < tokens.len(),
        tokens[i].id == id,
    ensures
        valid_tokens(set_code(tokens, id, code)),
        set_code(tokens, id, code).len() == tokens.len(),
        forall|k: int|
            0 <= k < tokens.len() ==> (#[trigger] set_code(tokens, id, code)[k]) == if k == i
                && tokens[i].external_code is None {
                tokens[i].materialized(code)
            } else {
                tokens[k]
            },
{
    let after = set_code(tokens, id, code);
    assert forall|k: int| 0 <= k < tokens.len() implies (#[trigger] after[k]) == if k == i
        && tokens[i].external_code is None {
        tokens[i].materialized(code)
    } else {
        tokens[k]
    } by {
        if tokens[k].id == id {
            assert(k == i);
        }
    }
    assert forall|a: int, b: int|
        0 <= a < after.len() && 0 <= b < after.len() && a != b implies after[a].id
        != after[b].id by {
        assert(after[a].id == tokens[a].id);
        assert(after[b].id == tokens[b].id);
    }
    assert forall|k: int| 0 <= k < after.len() implies (#[trigger] after[k]).wf() by {
        assert(tokens[k].wf());
    }
}

/// Materializing is idempotent. Once a visit of a token's link ended with a
/// redirect, every later visit is answered at once with the same URL: it
/// asks the platform for nothing, whatever the platform would have minted,
/// and it leaves the store as it is.
pub proof fn lemma_materialize_idempotent(
    tokens: Seq<TokenView>,
    config: Config,
    id: Seq<char>,
    minted: Option<Seq<char>>,
    minted_later: Option<Seq<char>>,
)
    requires
        valid_tokens(tokens),
        materialize(tokens, config, id, minted).1 is Redirect,
    ensures
        valid_tokens(materialize(tokens, config, id, minted).0),
        on_visit(materialize(tokens, config, id, minted).0, config, id) == materialize(
            tokens,
            config,
            id,
            minted,
        ).1,
        materialize(materialize(tokens, config, id, minted).0, config, id, minted_later)
            == materialize(tokens, config, id, minted),
{
    let p = |t: TokenView| t.id == id && t.used_at is None;
    lemma_first_index(tokens, p);
    if on_visit(tokens, config, id) is CreateInvite {
        let i = first_index(tokens, p)->0;
        let code = minted->0;
        let after = set_code(tokens, id, code);
        lemma_set_code_at(tokens, id, code, i);
        lemma_unused_record_at(after, id, i);
    }
}

/// A redeemed token cannot be materialized: a visit of its link, and the
/// arrival of a code minted for it, are both answered with `NotFound`, and
/// the store stays as it is.
pub proof fn lemma_redeemed_token_not_found(
    tokens: Seq<TokenView>,
    config: Config,
    id: Seq<char>,
    i: int,
    event: RedirectEvent,
)
    requires
        valid_tokens(tokens),
        0 <= i < tokens.len(),
        tokens[i].id == id,
        tokens[i].state() == TokenState::Redeemed,
        !(event is InviteFailed),
    ensures
        redirect_action(tokens, config, id, event) == ActionView::Reject(
            MaterializeError::NotFound,
        ),
        redirect_tokens(tokens, id, event) == tokens,
{
    lemma_unused_record_at(tokens, id, i);
}

/// Once a claim on a token succeeded, its link leads nowhere.
pub proof fn lemma_claimed_token_not_found(
    tokens: Seq<TokenView>,
    config: Config,
    id: Seq<char>,
    user: Seq<char>,
    now: int,
    minted: Option<Seq<char>>,
)
    requires
        valid_tokens(tokens),
        claimable(tokens, id),
    ensures
        materialize(mark_used(tokens, id, user, now), config, id, minted) == (
            mark_used(tokens, id, user, now),
            ActionView::Reject(MaterializeError::NotFound),
        ),
{
    lemma_claim_exactly_once(tokens, id, user, now, user, now);
    let after = mark_used(tokens, id, user, now);
    let p = |t: TokenView| t.id == id && t.used_at is None;
    lemma_first_index(after, p);
}

/// An arrival that no listed code matches is not attributed and leaves the
/// store as it is.
pub proof fn lemma_unmatched_arrival_changes_nothing(
    tokens: Seq<TokenView>,
    guild_id: Seq<char>,
    member_id: Seq<char>,
    invites: Seq<ActiveInviteView>,
    now: int,
)
    requires
        forall|k: int| 0 <= k < invites.len() ==> !is_match(tokens, guild_id, #[trigger] invites[k]),
    ensures
        attribution(tokens, guild_id, invites) is None,
        after_arrival(tokens, guild_id, member_id, invites, now) == tokens,
{
    assert forall|j: int| !is_preferred(tokens, guild_id, invites, j) by {
        if 0 <= j < invites.len() {
            assert(!is_match(tokens, guild_id, invites[j]));
        }
    }
}

/// Among the first `n` listed codes, if any matches, one is preferred.
proof fn lemma_preferred_exists(
    tokens: Seq<TokenView>,
    guild_id: Seq<char>,
    invites: Seq<ActiveInviteView>,
    n: int,
)
    requires
        0 <= n <= invites.len(),
        exists|k: int| 0 <= k < n && is_match(tokens, guild_id, #[trigger] invites[k]),
    ensures
        exists|j: int| is_preferred(tokens, guild_id, invites.take(n), j),
    decreases n,
{
    let last = n - 1;
    let now = invites.take(n);
    let before = invites.take(last);
    assert forall|k: int| 0 <= k < last implies now[k] == before[k] by {}
    if exists|k: int| 0 <= k < last && is_match(tokens, guild_id, #[trigger] invites[k]) {
        lemma_preferred_exists(tokens, guild_id, invites, last);
        let b = choose|j: int| is_preferred(tokens, guild_id, before, j);
        if is_match(tokens, guild_id, invites[last]) && before[b].created_at
            < invites[last].created_at {
            assert forall|k: int|
                0 <= k < now.len() && is_match(tokens, guild_id, #[trigger] now[k]) implies {
                ||| now[k].created_at < now[last].created_at
                ||| (now[k].created_at == now[last].created_at && last <= k)
            } by {
                if k < last {
                    assert(is_match(tokens, guild_id, before[k]));
                }
            }
            assert(is_preferred(tokens, guild_id, now, last));
        } else {
            assert forall|k: int|
                0 <= k < now.len() && is_match(tokens, guild_id, #[trigger] now[k]) implies {
                ||| now[k].created_at < now[b].created_at
                ||| (now[k].created_at == now[b].created_at && b <= k)
            } by {
                if k < last {
                    assert(is_match(tokens, guild_id, before[k]));
                }
            }
            assert(is_preferred(tokens, guild_id, now, b));
        }
    } else {
        let k0 = choose|k: int| 0 <= k < n && is_match(tokens, guild_id, #[trigger] invites[k]);
        assert(k0 == last);
        assert forall|k: int|
            0 <= k < now.len() && is_match(tokens, guild_id, #[trigger] now[k]) implies {
            ||| now[k].created_at < now[last].created_at
            ||| (now[k].created_at == now[last].created_at && last <= k)
        } by {
            if k < last {
                assert(now[k] == invites[k]);
            }
        }
        assert(is_preferred(tokens, guild_id, now, last));
    }
}

/// An arrival that some listed code matches is attributed: to an unused
/// token of the guild, which ends up redeemed by the arriving member, while
/// every other token stays as it was.
pub proof fn lemma_matched_arrival_is_attributed(
    tokens: Seq<TokenView>,
    guild_id: Seq<char>,
    member_id: Seq<char>,
    invites: Seq<ActiveInviteView>,
    now: int,
)
    requires
        valid_tokens(tokens),
        exists|k: int| 0 <= k < invites.len() && is_match(tokens, guild_id, #[trigger] invites[k]),
    ensures
        attribution(tokens, guild_id, invites) is Some,
        claimable(tokens, attribution(tokens, guild_id, invites)->0.invite_id),
        after_arrival(tokens, guild_id, member_id, invites, now) == mark_used(
            tokens,
            attribution(tokens, guild_id, invites)->0.invite_id,
            member_id,
            now,
        ),
        !claimable(
            after_arrival(tokens, guild_id, member_id, invites, now),
            attribution(tokens, guild_id, invites)->0.invite_id,
        ),
{
    lemma_preferred_exists(tokens, guild_id, invites, invites.len() as int);
    assert(invites.take(invites.len() as int) =~= invites);
    let j = choose|j: int| is_preferred(tokens, guild_id, invites, j);
    crate::reconciler::lemma_code_owner_claimable(tokens, guild_id, invites[j].code);
    let id = code_owner(tokens, guild_id, invites[j].code)->0;
    lemma_claim_exactly_once(tokens, id, member_id, now, member_id, now);
}

/// The place of a state in the lifecycle.
pub open spec fn state_rank(state: TokenState) -> int {
    match state {
        TokenState::Pending => 0,
        TokenState::Materialized => 1,
        TokenState::Redeemed => 2,
    }
}

/// Whether `after` is a later stage of the token `before`: the same token,
/// with whatever was set before still set to the same value, and a state
/// that is the same or further on.
pub open spec fn evolves(before: TokenView, after: TokenView) -> bool {
    &&& after.id == before.id
    &&& after.guild_id == before.guild_id
    &&& after.creator_id == before.creator_id
    &&& after.created_at == before.created_at
    &&& before.external_code is Some ==> after.external_code == before.external_code
    &&& before.used_at is Some ==> after.used_at == before.used_at && after.used_by
        == before.used_by
    &&& state_rank(after.state()) >= state_rank(before.state())
}

/// Whether `after` is a later stage of the store `before`: every token is
/// still there, at its place, at a later stage of itself.
pub open spec fn store_evolves(before: Seq<TokenView>, after: Seq<TokenView>) -> bool {
    &&& before.len() <= after.len()
    &&& forall|i: int| 0 <= i < before.len() ==> evolves(#[trigger] before[i], after[i])
}

/// The three writes of the store never take a token back: creating a token,
/// giving a token its code and claiming a token each leave every token at
/// the same or a later stage. An external code, once set, is never replaced;
/// a redemption, once recorded, is never changed.
pub proof fn lemma_writes_never_regress(
    tokens: Seq<TokenView>,
    id: Seq<char>,
    guild_id: Seq<char>,
    creator_id: Seq<char>,
    code: Seq<char>,
    user: Seq<char>,
    now: int,
)
    ensures
        store_evolves(tokens, created(tokens, id, guild_id, creator_id, now)),
        store_evolves(tokens, set_code(tokens, id, code)),
        store_evolves(tokens, mark_used(tokens, id, user, now)),
{
    let a = created(tokens, id, guild_id, creator_id, now);
    assert forall|i: int| 0 <= i < tokens.len() implies evolves(#[trigger] tokens[i], a[i]) by {}
    let b = set_code(tokens, id, code);
    assert forall|i: int| 0 <= i < tokens.len() implies evolves(#[trigger] tokens[i], b[i]) by {}
    let c = mark_used(tokens, id, user, now);
    assert forall|i: int| 0 <= i < tokens.len() implies evolves(#[trigger] tokens[i], c[i]) by {}
}

/// Whatever the engine does, it never takes a token back: issuing, a step of
/// a visit of a redirect link, and an arrival each leave every token at the
/// same or a later stage.
pub proof fn lemma_engine_never_regresses(
    tokens: Seq<TokenView>,
    config: Config,
    id: Seq<char>,
    guild_id: Seq<char>,
    member_id: Seq<char>,
    limit: InviteLimit,
    event: RedirectEvent,
    invites: Seq<ActiveInviteView>,
    request: InvitesRequest,
    now: int,
)
    ensures
        store_evolves(tokens, after_issue(tokens, id, guild_id, member_id, limit, now)),
        store_evolves(tokens, after_invites(tokens, config, request, id, now)),
        store_evolves(tokens, redirect_tokens(tokens, id, event)),
        store_evolves(tokens, after_arrival(tokens, guild_id, member_id, invites, now)),
{
    lemma_writes_never_regress(tokens, id, guild_id, member_id, id, member_id, now);
    lemma_writes_never_regress(
        tokens,
        id,
        request.guild_id@,
        request.author_id@,
        id,
        member_id,
        now,
    );
    assert(store_evolves(tokens, tokens));
    match event {
        RedirectEvent::InviteCreated(code) => {
            lemma_writes_never_regress(tokens, id, guild_id, member_id, code@, member_id, now);
        },
        _ => {},
    }
    match attribution(tokens, guild_id, invites) {
        Some(a) => {
            lemma_writes_never_regress(
                tokens,
                a.invite_id,
                guild_id,
                member_id,
                id,
                member_id,
                now,
            );
        },
        None => {},
    }
}

/// The writes of the store keep it valid: ids stay unique and a redeemer
/// stays recorded exactly where a time of redemption is.
pub proof fn lemma_writes_keep_validity(
    tokens: Seq<TokenView>,
    id: Seq<char>,
    guild_id: Seq<char>,
    creator_id: Seq<char>,
    code: Seq<char>,
    user: Seq<char>,
    now: int,
)
    requires
        valid_tokens(tokens),
    ensures
        creation_error(tokens, id) is None ==> valid_tokens(
            created(tokens, id, guild_id, creator_id, now),
        ),
        valid_tokens(set_code(tokens, id, code)),
        valid_tokens(mark_used(tokens, id, user, now)),
{
    let by_id = |t: TokenView| t.id == id;
    lemma_first_index(tokens, by_id);
    let a = created(tokens, id, guild_id, creator_id, now);
    if creation_error(tokens, id) is None {
        assert forall|x: int, y: int|
            0 <= x < a.len() && 0 <= y < a.len() && x != y implies a[x].id != a[y].id by {
            if x == a.len() - 1 {
                assert(!by_id(tokens[y]));
            } else if y == a.len() - 1 {
                assert(!by_id(tokens[x]));
            }
        }
        assert forall|k: int| 0 <= k < a.len() implies (#[trigger] a[k]).wf() by {
            if k < tokens.len() {
                assert(tokens[k].wf());
            }
        }
    }
    let b = set_code(tokens, id, code);
    assert forall|x: int, y: int|
        0 <= x < b.len() && 0 <= y < b.len() && x != y implies b[x].id != b[y].id by {
        assert(b[x].id == tokens[x].id && b[y].id == tokens[y].id);
    }
    assert forall|k: int| 0 <= k < b.len() implies (#[trigger] b[k]).wf() by {
        assert(tokens[k].wf());
    }
    let c = mark_used(tokens, id, user, now);
    assert forall|x: int, y: int|
        0 <= x < c.len() && 0 <= y < c.len() && x != y implies c[x].id != c[y].id by {
        assert(c[x].id == tokens[x].id && c[y].id == tokens[y].id);
    }
    assert forall|k: int| 0 <= k < c.len() implies (#[trigger] c[k]).wf() by {
        assert(tokens[k].wf());
    }
}

} // verus!
