//! The membership reconciler: when a member arrives, it decides which
//! outstanding token brought them in and records the redemption exactly
//! once.
//!
//! The platform's list of active invite codes is read outside this crate and
//! handed in as plain values. It is a snapshot that may lag behind the
//! store; the store alone decides whether a token can still be claimed.

use vstd::prelude::*;
use crate::config::Config;
use crate::materializer::{channel_of, invite_channel, INVITE_MAX_USES};
use crate::search::{first_index, lemma_first_index};
use crate::store::{
    answers_code, claimable, code_owner, find_invite_by_code, mark_used, record_invite_use,
    InviteStore, TokenView,
};

verus! {

/// One entry of the platform's list of active invite codes.
#[derive(Debug, Clone)]
pub struct ActiveInvite {
    pub code: String,
    /// Number of uses the code was minted for.
    pub max_uses: u8,
    /// Number of times the code has been used.
    pub uses: u64,
    /// When the code was minted, in seconds since the Unix epoch.
    pub created_at: i64,
}

/// Mathematical model of an `ActiveInvite`.
pub ghost struct ActiveInviteView {
    pub code: Seq<char>,
    pub max_uses: int,
    pub uses: int,
    pub created_at: int,
}

impl View for ActiveInvite {
    type V = ActiveInviteView;

    open spec fn view(&self) -> ActiveInviteView {
        ActiveInviteView {
            code: self.code@,
            max_uses: self.max_uses as int,
            uses: self.uses as int,
            created_at: self.created_at as int,
        }
    }
}

/// The views of a list of active invites.
pub open spec fn invite_views(invites: Seq<ActiveInvite>) -> Seq<ActiveInviteView> {
    invites.map_values(|inv: ActiveInvite| inv@)
}

/// The outcome of an attributed arrival.
#[derive(Debug, Clone)]
pub struct Attribution {
    /// The token that was redeemed.
    pub invite_id: String,
    /// Its external code, which should now be revoked.
    pub code: String,
}

/// Mathematical model of an `Attribution`.
pub ghost struct AttributionView {
    pub invite_id: Seq<char>,
    pub code: Seq<char>,
}

impl View for Attribution {
    type V = AttributionView;

    open spec fn view(&self) -> AttributionView {
        AttributionView { invite_id: self.invite_id@, code: self.code@ }
    }
}

/// The view of an optional attribution.
pub open spec fn opt_attribution(a: Option<Attribution>) -> Option<AttributionView> {
    match a {
        Some(x) => Some(x@),
        None => None,
    }
}

/// The heuristic that tells a managed code that was just consumed: minted
/// for two uses, used once.
pub open spec fn is_candidate(invite: ActiveInviteView) -> bool {
    invite.max_uses == INVITE_MAX_USES && invite.uses == 1
}

/// Whether the invite is a candidate whose code resolves to an unused token
/// of the guild.
pub open spec fn is_match(tokens: Seq<TokenView>, guild_id: Seq<char>, invite: ActiveInviteView) -> bool {
    is_candidate(invite) && code_owner(tokens, guild_id, invite.code) is Some
}

/// Whether `invites[j]` is the match to attribute the arrival to: the most
/// recently minted of all matches, and the first listed of those minted at
/// the same time.
pub open spec fn is_preferred(
    tokens: Seq<TokenView>,
    guild_id: Seq<char>,
    invites: Seq<ActiveInviteView>,
    j: int,
) -> bool {
    &&& 0 <= j < invites.len()
    &&& is_match(tokens, guild_id, invites[j])
    &&& forall|k: int|
        0 <= k < invites.len() && is_match(tokens, guild_id, #[trigger] invites[k]) ==> {
            ||| invites[k].created_at < invites[j].created_at
            ||| (invites[k].created_at == invites[j].created_at && j <= k)
        }
}

/// The attribution of an arrival in `guild_id`, given the platform's list:
/// the token behind the preferred match, if there is any match.
pub open spec fn attribution(
    tokens: Seq<TokenView>,
    guild_id: Seq<char>,
    invites: Seq<ActiveInviteView>,
) -> Option<AttributionView> {
    if exists|j: int| is_preferred(tokens, guild_id, invites, j) {
        let j = choose|j: int| is_preferred(tokens, guild_id, invites, j);
        Some(
            AttributionView {
                invite_id: code_owner(tokens, guild_id, invites[j].code)->0,
                code: invites[j].code,
            },
        )
    } else {
        None
    }
}

/// The tokens after the arrival of `member_id` at time `now`: the attributed
/// token is redeemed by the member; without an attribution nothing changes.
pub open spec fn after_arrival(
    tokens: Seq<TokenView>,
    guild_id: Seq<char>,
    member_id: Seq<char>,
    invites: Seq<ActiveInviteView>,
    now: int,
) -> Seq<TokenView> {
    match attribution(tokens, guild_id, invites) {
        Some(a) => mark_used(tokens, a.invite_id, member_id, now),
        None => tokens,
    }
}

/// At most one entry of the list is the preferred match.
pub proof fn lemma_preferred_unique(
    tokens: Seq<TokenView>,
    guild_id: Seq<char>,
    invites: Seq<ActiveInviteView>,
    i: int,
    j: int,
)
    requires
        is_preferred(tokens, guild_id, invites, i),
        is_preferred(tokens, guild_id, invites, j),
    ensures
        i == j,
{
}

/// The token that an external code resolves to is unused, so a claim on it
/// succeeds.
pub proof fn lemma_code_owner_claimable(tokens: Seq<TokenView>, guild_id: Seq<char>, code: Seq<char>)
    requires
        code_owner(tokens, guild_id, code) is Some,
    ensures
        claimable(tokens, code_owner(tokens, guild_id, code)->0),
{
    let p = |t: TokenView| answers_code(t, guild_id, code);
    lemma_first_index(tokens, p);
    let i = first_index(tokens, p)->0;
    let id = tokens[i].id;
    let q = |t: TokenView| t.id == id && t.used_at is None;
    assert(q(tokens[i]));
    lemma_first_index(tokens, q);
}

/// The channel whose invites to list when a member arrives in `guild_id`:
/// the invite channel of the guild, if the guild is configured and the
/// channel is a channel number.
pub open spec fn listing_channel(config: Config, guild_id: Seq<char>) -> Option<u64> {
    match config.guild(guild_id) {
        Some(guild) => invite_channel(guild),
        None => None,
    }
}

/// The channel whose active invites decide the attribution of an arrival in
/// `guild_id`. `None` means that the arrival is not attributed.
pub fn arrival_channel(config: &Config, guild_id: &str) -> (channel: Option<u64>)
    ensures
        channel == listing_channel(*config, guild_id@),
{
    match config.find_guild(guild_id) {
        Some(guild) => channel_of(guild),
        None => None,
    }
}

/// Attributes the arrival of `member_id` in `guild_id`, given the platform's
/// list of active invites.
///
/// Of the listed codes that were minted for two uses and show one, and that
/// resolve to an unused token of the guild, the most recently minted one
/// wins; its token is marked as used by the member. The store is borrowed
/// exclusively, so the claim cannot be lost between lookup and record. When
/// no code matches, the arrival stays unattributed and the store is left
/// untouched.
pub fn handle_guild_member_add(
    store: &mut InviteStore,
    guild_id: &str,
    member_id: &str,
    invites: &Vec<ActiveInvite>,
    now: i64,
) -> (outcome: Option<Attribution>)
    ensures
        opt_attribution(outcome) == attribution(old(store)@, guild_id@, invite_views(invites@)),
        final(store)@ == after_arrival(
            old(store)@,
            guild_id@,
            member_id@,
            invite_views(invites@),
            now as int,
        ),
{
    let ghost views = invite_views(invites@);
    let mut best: Option<(usize, String)> = None;
    let mut i: usize = 0;
    while i < invites.len()
        invariant
            i <= invites.len(),
            *store == *old(store),
            views == invite_views(invites@),
            match best {
                Some((b, id)) => {
                    &&& is_preferred(store@, guild_id@, views.take(i as int), b as int)
                    &&& code_owner(store@, guild_id@, views[b as int].code) == Some(id@)
                },
                None => forall|k: int|
                    0 <= k < i ==> !is_match(store@, guild_id@, #[trigger] views[k]),
            },
        decreases invites.len() - i,
    {
        let invite = &invites[i];
        let ghost before = views.take(i as int);
        let ghost after = views.take(i + 1);
        assert(views[i as int] == invite@);
        let mut found: Option<String> = None;
        if invite.max_uses == INVITE_MAX_USES && invite.uses == 1 {
            found = find_invite_by_code(store, guild_id, invite.code.as_str());
        }
        assert(found is Some == is_match(store@, guild_id@, views[i as int]));
        let newer = match (&best, &found) {
            (Some((b, _)), Some(_)) => invites[*b].created_at < invite.created_at,
            (None, Some(_)) => true,
            _ => false,
        };
        proof {
            assert forall|k: int| 0 <= k < i implies after[k] == before[k] by {}
            assert(after[i as int] == views[i as int]);
            if newer {
                assert forall|k: int|
                    0 <= k < after.len() && is_match(
                        store@,
                        guild_id@,
                        #[trigger] after[k],
                    ) implies {
                    ||| after[k].created_at < after[i as int].created_at
                    ||| (after[k].created_at == after[i as int].created_at && i <= k)
                } by {
                    if k < i {
                        assert(is_match(store@, guild_id@, before[k]));
                        assert(views[k] == before[k]);
                    }
                }
                assert(is_preferred(store@, guild_id@, after, i as int));
            } else if let Some((b, _)) = best {
                assert(views[b as int] == before[b as int]);
                assert forall|k: int|
                    0 <= k < after.len() && is_match(
                        store@,
                        guild_id@,
                        #[trigger] after[k],
                    ) implies {
                    ||| after[k].created_at < after[b as int].created_at
                    ||| (after[k].created_at == after[b as int].created_at && b <= k)
                } by {
                    if k < i {
                        assert(is_match(store@, guild_id@, before[k]));
                    }
                }
                assert(is_preferred(store@, guild_id@, after, b as int));
            }
        }
        if newer {
            if let Some(id) = found {
                best = Some((i, id));
            }
        }
        i += 1;
    }
    assert(views.take(i as int) =~= views);
    match best {
        Some((b, id)) => {
            proof {
                let c = choose|c: int| is_preferred(store@, guild_id@, views, c);
                lemma_preferred_unique(store@, guild_id@, views, b as int, c);
                lemma_code_owner_claimable(store@, guild_id@, views[b as int].code);
            }
            let claimed = record_invite_use(store, id.as_str(), member_id, now);
            assert(claimed);
            Some(Attribution { invite_id: id, code: invites[b].code.clone() })
        },
        None => {
            assert forall|c: int| !is_preferred(store@, guild_id@, views, c) by {
                if 0 <= c < views.len() {
                    assert(!is_match(store@, guild_id@, views[c]));
                }
            }
            None
        },
    }
}

} // verus!
