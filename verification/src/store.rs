//! The invite record store: every referral token ever issued, in the order
//! of issue, with its lifecycle state.
//!
//! The store is modelled by the sequence of its tokens' views. Each
//! operation is one atomic step on that sequence and is specified by a spec
//! function of this module, so that laws relating several operations can be
//! stated over the same functions.

use vstd::prelude::*;
use crate::search::{
    count_where, first_index, lemma_count_where_bound, lemma_count_where_step,
    lemma_first_index_absent, lemma_first_index_found,
};
use crate::text::{opt_text, str_eq};

verus! {

/// Seconds in one day.
pub const SECONDS_PER_DAY: i64 = 86400;

/// Largest number of tokens a store holds. The bound keeps every count, and
/// every difference between a quota and a count, within an `i64`.
pub const MAX_TOKENS: u64 = 0x4000_0000_0000_0000;

/// One referral token.
#[derive(Debug, Clone)]
pub struct InviteToken {
    /// Opaque unique identifier, shared in the redirect URL.
    pub id: String,
    /// The community the token belongs to.
    pub guild_id: String,
    /// The member who requested the token.
    pub creator_id: String,
    /// Time of creation, in seconds since the Unix epoch.
    pub created_at: i64,
    /// One-time invite code on the external platform, once materialized.
    pub external_code: Option<String>,
    /// Time of redemption, in seconds since the Unix epoch.
    pub used_at: Option<i64>,
    /// The arriving member who redeemed the token.
    pub used_by: Option<String>,
}

/// Mathematical model of an `InviteToken`.
pub ghost struct TokenView {
    pub id: Seq<char>,
    pub guild_id: Seq<char>,
    pub creator_id: Seq<char>,
    pub created_at: int,
    pub external_code: Option<Seq<char>>,
    pub used_at: Option<int>,
    pub used_by: Option<Seq<char>>,
}

/// Lifecycle state of a token, derived from its optional fields.
#[derive(Debug, Clone, Copy, PartialEq, Eq, Structural)]
pub enum TokenState {
    /// No external code yet, not redeemed.
    Pending,
    /// An external code exists, not redeemed.
    Materialized,
    /// Redeemed by an arriving member; terminal.
    Redeemed,
}

impl View for InviteToken {
    type V = TokenView;

    open spec fn view(&self) -> TokenView {
        TokenView {
            id: self.id@,
            guild_id: self.guild_id@,
            creator_id: self.creator_id@,
            created_at: self.created_at as int,
            external_code: opt_text(self.external_code),
            used_at: match self.used_at {
                Some(t) => Some(t as int),
                None => None,
            },
            used_by: opt_text(self.used_by),
        }
    }
}

impl TokenView {
    /// The redeemer is recorded exactly when the time of redemption is.
    pub open spec fn wf(self) -> bool {
        self.used_by is Some <==> self.used_at is Some
    }

    /// The lifecycle state.
    pub open spec fn state(self) -> TokenState {
        if self.used_at is Some {
            TokenState::Redeemed
        } else if self.external_code is Some {
            TokenState::Materialized
        } else {
            TokenState::Pending
        }
    }

    /// This token after `user` redeemed it at time `now`.
    pub open spec fn redeemed(self, user: Seq<char>, now: int) -> TokenView {
        TokenView { used_at: Some(now), used_by: Some(user), ..self }
    }

    /// This token after it was given the external code `code`.
    pub open spec fn materialized(self, code: Seq<char>) -> TokenView {
        TokenView { external_code: Some(code), ..self }
    }
}

impl InviteToken {
    /// The lifecycle state of the token.
    pub fn state(&self) -> (state: TokenState)
        ensures
            state == self@.state(),
    {
        if self.used_at.is_some() {
            TokenState::Redeemed
        } else if self.external_code.is_some() {
            TokenState::Materialized
        } else {
            TokenState::Pending
        }
    }
}

/// A freshly created token: pending, never used.
pub open spec fn pending_token(
    id: Seq<char>,
    guild_id: Seq<char>,
    creator_id: Seq<char>,
    now: int,
) -> TokenView {
    TokenView {
        id,
        guild_id,
        creator_id,
        created_at: now,
        external_code: None,
        used_at: None,
        used_by: None,
    }
}

/// No two tokens share an id.
pub open spec fn distinct_ids(tokens: Seq<TokenView>) -> bool {
    forall|i: int, j: int|
        0 <= i < tokens.len() && 0 <= j < tokens.len() && i != j ==> tokens[i].id != tokens[j].id
}

/// The invariant of the store's contents: ids are unique and every token is
/// well formed.
pub open spec fn valid_tokens(tokens: Seq<TokenView>) -> bool {
    &&& distinct_ids(tokens)
    &&& forall|i: int| 0 <= i < tokens.len() ==> (#[trigger] tokens[i]).wf()
}

/// Whether some token has the id `id`.
pub open spec fn has_id(tokens: Seq<TokenView>, id: Seq<char>) -> bool {
    first_index(tokens, |t: TokenView| t.id == id) is Some
}

/// The tokens after a token is created, where that is possible.
pub open spec fn created(
    tokens: Seq<TokenView>,
    id: Seq<char>,
    guild_id: Seq<char>,
    creator_id: Seq<char>,
    now: int,
) -> Seq<TokenView> {
    tokens.push(pending_token(id, guild_id, creator_id, now))
}

/// The error, if any, with which creating a token with the id `id` fails.
pub open spec fn creation_error(tokens: Seq<TokenView>, id: Seq<char>) -> Option<StorageError> {
    if has_id(tokens, id) {
        Some(StorageError::DuplicateId)
    } else if tokens.len() >= MAX_TOKENS {
        Some(StorageError::Full)
    } else {
        None
    }
}

/// Why the store refused a write.
#[derive(Debug, Clone, Copy, PartialEq, Eq, Structural)]
pub enum StorageError {
    /// A token with the same id exists already.
    DuplicateId,
    /// The store holds `MAX_TOKENS` tokens.
    Full,
    /// A token names a redeemer without a time of redemption, or the other
    /// way round.
    Inconsistent,
}

/// The durable record of all tokens.
#[derive(Debug)]
pub struct InviteStore {
    tokens: Vec<InviteToken>,
}

impl View for InviteStore {
    type V = Seq<TokenView>;

    closed spec fn view(&self) -> Seq<TokenView> {
        token_views(self.tokens@)
    }
}

impl InviteStore {
    /// The store's invariant. It holds of every store at all times.
    #[verifier::type_invariant]
    pub open spec fn wf(&self) -> bool {
        &&& valid_tokens(self@)
        &&& self@.len() <= MAX_TOKENS
    }

    /// A store without tokens.
    pub fn new() -> (store: InviteStore)
        ensures
            store@ == Seq::<TokenView>::empty(),
    {
        let tokens: Vec<InviteToken> = Vec::new();
        assert(token_views(tokens@) =~= Seq::<TokenView>::empty());
        InviteStore { tokens }
    }

    /// Number of tokens in the store.
    pub fn len(&self) -> (n: usize)
        ensures
            n == self@.len(),
    {
        self.tokens.len()
    }

    /// The token at position `i`, in the order of issue; `None` beyond the
    /// last token.
    pub fn token(&self, i: usize) -> (token: Option<&InviteToken>)
        ensures
            match token {
                Some(t) => i < self@.len() && t@ == self@[i as int],
                None => i >= self@.len(),
            },
    {
        if i < self.tokens.len() {
            Some(&self.tokens[i])
        } else {
            None
        }
    }

    /// The token at a position within the store.
    pub(crate) fn token_at(&self, i: usize) -> (token: &InviteToken)
        requires
            i < self@.len(),
        ensures
            token@ == self@[i as int],
    {
        &self.tokens[i]
    }
}

/// Inserts a new pending token. Fails, leaving the store as it was, when the
/// id is taken or the store is full.
pub fn create_invite(
    store: &mut InviteStore,
    invite_id: &str,
    guild_id: &str,
    creator_id: &str,
    now: i64,
) -> (result: Result<(), StorageError>)
    ensures
        match result {
            Ok(()) => {
                &&& creation_error(old(store)@, invite_id@) is None
                &&& final(store)@ == created(
                    old(store)@,
                    invite_id@,
                    guild_id@,
                    creator_id@,
                    now as int,
                )
            },
            Err(e) => {
                &&& creation_error(old(store)@, invite_id@) == Some(e)
                &&& final(store)@ == old(store)@
            },
        },
{
    let ghost p = |t: TokenView| t.id == invite_id@;
    let mut i: usize = 0;
    proof {
        use_type_invariant(&*store);
    }
    while i < store.tokens.len()
        invariant
            i <= store.tokens.len(),
            *store == *old(store),
            store.wf(),
            p == |t: TokenView| t.id == invite_id@,
            forall|k: int| 0 <= k < i ==> !p(#[trigger] store@[k]),
        decreases store.tokens.len() - i,
    {
        if str_eq(store.tokens[i].id.as_str(), invite_id) {
            proof {
                assert(p(store@[i as int]));
                lemma_first_index_found(store@, p, i as int);
            }
            return Err(StorageError::DuplicateId);
        }
        assert(!p(store@[i as int]));
        i += 1;
    }
    proof {
        lemma_first_index_absent(store@, p);
    }
    if store.tokens.len() as u64 >= MAX_TOKENS {
        return Err(StorageError::Full);
    }
    let token = InviteToken {
        id: invite_id.to_owned(),
        guild_id: guild_id.to_owned(),
        creator_id: creator_id.to_owned(),
        created_at: now,
        external_code: None,
        used_at: None,
        used_by: None,
    };
    let mut tokens: Vec<InviteToken> = Vec::new();
    std::mem::swap(&mut store.tokens, &mut tokens);
    tokens.push(token);
    proof {
        let after = token_views(tokens@);
        assert(after =~= created(old(store)@, invite_id@, guild_id@, creator_id@, now as int));
        assert forall|a: int, b: int|
            0 <= a < after.len() && 0 <= b < after.len() && a != b implies after[a].id
            != after[b].id by {
            if a == after.len() - 1 {
                assert(!p(old(store)@[b]));
            } else if b == after.len() - 1 {
                assert(!p(old(store)@[a]));
            }
        }
    }
    store.tokens = tokens;
    Ok(())
}

/// Whether a token with the id `id` exists and is still unused.
pub open spec fn claimable(tokens: Seq<TokenView>, id: Seq<char>) -> bool {
    first_index(tokens, |t: TokenView| t.id == id && t.used_at is None) is Some
}

/// The tokens after `user` claimed the token `id` at time `now`: that token
/// is redeemed if it was unused, and nothing else changes.
pub open spec fn mark_used(
    tokens: Seq<TokenView>,
    id: Seq<char>,
    user: Seq<char>,
    now: int,
) -> Seq<TokenView> {
    tokens.map_values(
        |t: TokenView|
            if t.id == id && t.used_at is None {
                t.redeemed(user, now)
            } else {
                t
            },
    )
}

/// Index of the token with the given id.
fn position(store: &InviteStore, invite_id: &str) -> (found: Option<usize>)
    ensures
        match found {
            Some(i) => i < store@.len() && store@[i as int].id == invite_id@,
            None => forall|k: int| 0 <= k < store@.len() ==> store@[k].id != invite_id@,
        },
{
    let mut i: usize = 0;
    while i < store.tokens.len()
        invariant
            i <= store.tokens.len(),
            forall|k: int| 0 <= k < i ==> store@[k].id != invite_id@,
        decreases store.tokens.len() - i,
    {
        if str_eq(store.tokens[i].id.as_str(), invite_id) {
            return Some(i);
        }
        i += 1;
    }
    None
}

/// Marks the token as used by `user_id` at time `now`, if it exists and was
/// not used before. This is the exactly-once guard: of any number of claims
/// on one token, the first succeeds and the others change nothing.
pub fn record_invite_use(store: &mut InviteStore, invite_id: &str, user_id: &str, now: i64) -> (claimed:
    bool)
    ensures
        claimed == claimable(old(store)@, invite_id@),
        final(store)@ == mark_used(old(store)@, invite_id@, user_id@, now as int),
{
    let ghost p = |t: TokenView| t.id == invite_id@ && t.used_at is None;
    proof {
        use_type_invariant(&*store);
    }
    match position(store, invite_id) {
        Some(i) => {
            if store.tokens[i].used_at.is_none() {
                let mut tokens: Vec<InviteToken> = Vec::new();
                std::mem::swap(&mut store.tokens, &mut tokens);
                tokens[i].used_at = Some(now);
                tokens[i].used_by = Some(user_id.to_owned());
                proof {
                    let after = token_views(tokens@);
                    assert(p(old(store)@[i as int]));
                    assert forall|k: int| 0 <= k < i implies !p(#[trigger] old(store)@[k]) by {}
                    lemma_first_index_found(old(store)@, p, i as int);
                    assert(after =~= mark_used(old(store)@, invite_id@, user_id@, now as int));
                    assert forall|a: int, b: int|
                        0 <= a < after.len() && 0 <= b < after.len() && a != b implies after[a].id
                        != after[b].id by {
                        assert(after[a].id == old(store)@[a].id);
                        assert(after[b].id == old(store)@[b].id);
                    }
                    assert forall|k: int| 0 <= k < after.len() implies (#[trigger] after[k]).wf() by {
                        assert(old(store)@[k].wf());
                    }
                }
                store.tokens = tokens;
                true
            } else {
                proof {
                    assert forall|k: int| 0 <= k < old(store)@.len() implies !p(
                        #[trigger] old(store)@[k],
                    ) by {}
                    lemma_first_index_absent(old(store)@, p);
                    assert(store@ =~= mark_used(
                        old(store)@,
                        invite_id@,
                        user_id@,
                        now as int,
                    ));
                }
                false
            }
        },
        None => {
            proof {
                lemma_first_index_absent(old(store)@, p);
                assert(store@ =~= mark_used(old(store)@, invite_id@, user_id@, now as int));
            }
            false
        },
    }
}

/// What a redirect needs to know of an unused token.
#[derive(Debug, Clone)]
pub struct InviteRecord {
    pub guild_id: String,
    pub creator_id: String,
    /// The external invite code, if one was minted already.
    pub code: Option<String>,
}

/// Mathematical model of an `InviteRecord`.
pub ghost struct RecordView {
    pub guild_id: Seq<char>,
    pub creator_id: Seq<char>,
    pub code: Option<Seq<char>>,
}

impl View for InviteRecord {
    type V = RecordView;

    open spec fn view(&self) -> RecordView {
        RecordView {
            guild_id: self.guild_id@,
            creator_id: self.creator_id@,
            code: opt_text(self.code),
        }
    }
}

/// The record of the token `id`, if it exists and is unused.
pub open spec fn unused_record(tokens: Seq<TokenView>, id: Seq<char>) -> Option<RecordView> {
    match first_index(tokens, |t: TokenView| t.id == id && t.used_at is None) {
        Some(i) => Some(
            RecordView {
                guild_id: tokens[i].guild_id,
                creator_id: tokens[i].creator_id,
                code: tokens[i].external_code,
            },
        ),
        None => None,
    }
}

/// A copy of an optional string.
fn copy_opt(s: &Option<String>) -> (out: Option<String>)
    ensures
        opt_text(out) == opt_text(*s),
{
    match s {
        Some(t) => Some(t.clone()),
        None => None,
    }
}

/// Returns the token only if it has not been used. A token that was
/// materialized before comes back with its external code.
pub fn get_unused_invite(store: &InviteStore, invite_id: &str) -> (record: Option<InviteRecord>)
    ensures
        match record {
            Some(r) => unused_record(store@, invite_id@) == Some(r@),
            None => unused_record(store@, invite_id@) is None,
        },
{
    let ghost p = |t: TokenView| t.id == invite_id@ && t.used_at is None;
    proof {
        use_type_invariant(store);
    }
    match position(store, invite_id) {
        Some(i) => {
            let token = &store.tokens[i];
            if token.used_at.is_none() {
                proof {
                    assert(p(store@[i as int]));
                    assert forall|k: int| 0 <= k < i implies !p(#[trigger] store@[k]) by {}
                    lemma_first_index_found(store@, p, i as int);
                }
                Some(
                    InviteRecord {
                        guild_id: token.guild_id.clone(),
                        creator_id: token.creator_id.clone(),
                        code: copy_opt(&token.external_code),
                    },
                )
            } else {
                proof {
                    assert forall|k: int| 0 <= k < store@.len() implies !p(#[trigger] store@[k]) by {}
                    lemma_first_index_absent(store@, p);
                }
                None
            }
        },
        None => {
            proof {
                lemma_first_index_absent(store@, p);
            }
            None
        },
    }
}

/// Whether the token `id` exists and has no external code yet.
pub open spec fn accepts_code(tokens: Seq<TokenView>, id: Seq<char>) -> bool {
    first_index(tokens, |t: TokenView| t.id == id && t.external_code is None) is Some
}

/// The tokens after the external code `code` was offered to the token `id`:
/// the token takes it if it had none, and nothing else changes.
pub open spec fn set_code(tokens: Seq<TokenView>, id: Seq<char>, code: Seq<char>) -> Seq<
    TokenView,
> {
    tokens.map_values(
        |t: TokenView|
            if t.id == id && t.external_code is None {
                t.materialized(code)
            } else {
                t
            },
    )
}

/// Sets the external code of a token once. The first code a token receives
/// is authoritative: a later call for the same token changes nothing and
/// returns `false`.
pub fn update_invite_code(store: &mut InviteStore, invite_id: &str, discord_code: &str) -> (written:
    bool)
    ensures
        written == accepts_code(old(store)@, invite_id@),
        final(store)@ == set_code(old(store)@, invite_id@, discord_code@),
{
    let ghost p = |t: TokenView| t.id == invite_id@ && t.external_code is None;
    proof {
        use_type_invariant(&*store);
    }
    match position(store, invite_id) {
        Some(i) => {
            if store.tokens[i].external_code.is_none() {
                let mut tokens: Vec<InviteToken> = Vec::new();
                std::mem::swap(&mut store.tokens, &mut tokens);
                tokens[i].external_code = Some(discord_code.to_owned());
                proof {
                    let after = token_views(tokens@);
                    assert(p(old(store)@[i as int]));
                    assert forall|k: int| 0 <= k < i implies !p(#[trigger] old(store)@[k]) by {}
                    lemma_first_index_found(old(store)@, p, i as int);
                    assert(after =~= set_code(old(store)@, invite_id@, discord_code@));
                    assert forall|a: int, b: int|
                        0 <= a < after.len() && 0 <= b < after.len() && a != b implies after[a].id
                        != after[b].id by {
                        assert(after[a].id == old(store)@[a].id);
                        assert(after[b].id == old(store)@[b].id);
                    }
                    assert forall|k: int| 0 <= k < after.len() implies (#[trigger] after[k]).wf() by {
                        assert(old(store)@[k].wf());
                    }
                }
                store.tokens = tokens;
                true
            } else {
                proof {
                    assert forall|k: int| 0 <= k < old(store)@.len() implies !p(
                        #[trigger] old(store)@[k],
                    ) by {}
                    lemma_first_index_absent(old(store)@, p);
                    assert(store@ =~= set_code(old(store)@, invite_id@, discord_code@));
                }
                false
            }
        },
        None => {
            proof {
                lemma_first_index_absent(old(store)@, p);
                assert(store@ =~= set_code(old(store)@, invite_id@, discord_code@));
            }
            false
        },
    }
}

/// Whether the token is the unused one of `guild_id` that the external code
/// `code` was minted for.
pub open spec fn answers_code(t: TokenView, guild_id: Seq<char>, code: Seq<char>) -> bool {
    &&& t.external_code == Some(code)
    &&& t.guild_id == guild_id
    &&& t.used_at is None
}

/// The id of the first unused token of `guild_id` that carries the external
/// code `code`.
pub open spec fn code_owner(tokens: Seq<TokenView>, guild_id: Seq<char>, code: Seq<char>) -> Option<
    Seq<char>,
> {
    match first_index(tokens, |t: TokenView| answers_code(t, guild_id, code)) {
        Some(i) => Some(tokens[i].id),
        None => None,
    }
}

/// Maps an external code back to the unused token of the guild that it was
/// minted for.
pub fn find_invite_by_code(store: &InviteStore, guild_id: &str, discord_code: &str) -> (found: Option<
    String,
>)
    ensures
        opt_text(found) == code_owner(store@, guild_id@, discord_code@),
{
    let ghost p = |t: TokenView| answers_code(t, guild_id@, discord_code@);
    let mut i: usize = 0;
    while i < store.tokens.len()
        invariant
            i <= store.tokens.len(),
            p == |t: TokenView| answers_code(t, guild_id@, discord_code@),
            forall|k: int| 0 <= k < i ==> !p(#[trigger] store@[k]),
        decreases store.tokens.len() - i,
    {
        let token = &store.tokens[i];
        let carries = match &token.external_code {
            Some(c) => str_eq(c.as_str(), discord_code),
            None => false,
        };
        if carries && token.used_at.is_none() && str_eq(token.guild_id.as_str(), guild_id) {
            proof {
                assert(p(store@[i as int]));
                lemma_first_index_found(store@, p, i as int);
            }
            return Some(token.id.clone());
        }
        assert(!p(store@[i as int]));
        i += 1;
    }
    proof {
        lemma_first_index_absent(store@, p);
    }
    None
}

/// Whether a token created at `created_at` lies within the trailing `days`
/// days of `now`. No token lies within a window of negative length.
pub open spec fn in_window(created_at: int, days: int, now: int) -> bool {
    days >= 0 && created_at > now - days * SECONDS_PER_DAY
}

/// Whether the token counts against the quota of `creator_id` in
/// `guild_id`: it is theirs, it was redeemed, and it was created within the
/// window.
pub open spec fn counts_toward(
    t: TokenView,
    creator_id: Seq<char>,
    guild_id: Seq<char>,
    days: int,
    now: int,
) -> bool {
    &&& t.creator_id == creator_id
    &&& t.guild_id == guild_id
    &&& t.used_at is Some
    &&& in_window(t.created_at, days, now)
}

/// Number of redeemed tokens of `creator_id` in `guild_id` that were created
/// within the trailing `days` days of `now`.
pub open spec fn redeemed_count(
    tokens: Seq<TokenView>,
    creator_id: Seq<char>,
    guild_id: Seq<char>,
    days: int,
    now: int,
) -> nat {
    count_where(tokens, |t: TokenView| counts_toward(t, creator_id, guild_id, days, now))
}

/// Whether `created_at` lies within the trailing `days` days of `now`.
pub fn within_window(created_at: i64, days: i32, now: i64) -> (inside: bool)
    ensures
        inside == in_window(created_at as int, days as int, now as int),
{
    if days < 0 {
        return false;
    }
    let span: i128 = (days as i128) * 86400;
    (created_at as i128) > (now as i128) - span
}

/// Counts the redeemed tokens of a creator within the trailing `days` days.
/// Tokens that nobody redeemed never count.
pub fn count_used_invites(
    store: &InviteStore,
    creator_id: &str,
    guild_id: &str,
    days: i32,
    now: i64,
) -> (count: i64)
    ensures
        count == redeemed_count(store@, creator_id@, guild_id@, days as int, now as int),
        0 <= count <= MAX_TOKENS,
{
    let ghost p = |t: TokenView| counts_toward(t, creator_id@, guild_id@, days as int, now as int);
    let mut count: i64 = 0;
    let mut i: usize = 0;
    proof {
        use_type_invariant(store);
    }
    while i < store.tokens.len()
        invariant
            i <= store.tokens.len(),
            store.wf(),
            p == |t: TokenView| counts_toward(t, creator_id@, guild_id@, days as int, now as int),
            count == count_where(store@.take(i as int), p),
        decreases store.tokens.len() - i,
    {
        let token = &store.tokens[i];
        proof {
            lemma_count_where_step(store@, p, i as int);
            lemma_count_where_bound(store@.take(i as int), p);
        }
        if token.used_at.is_some() && within_window(token.created_at, days, now) && str_eq(
            token.creator_id.as_str(),
            creator_id,
        ) && str_eq(token.guild_id.as_str(), guild_id) {
            count += 1;
        }
        i += 1;
    }
    assert(store@.take(i as int) =~= store@);
    proof {
        lemma_count_where_bound(store@, p);
    }
    count
}

/// Who invited a member, when, and through which external code.
#[derive(Debug, Clone)]
pub struct InviteInfo {
    pub creator_id: String,
    /// Time of redemption, in seconds since the Unix epoch.
    pub used_at: i64,
    pub discord_invite_code: Option<String>,
}

/// Mathematical model of an `InviteInfo`.
pub ghost struct InfoView {
    pub creator_id: Seq<char>,
    pub used_at: int,
    pub discord_invite_code: Option<Seq<char>>,
}

impl View for InviteInfo {
    type V = InfoView;

    open spec fn view(&self) -> InfoView {
        InfoView {
            creator_id: self.creator_id@,
            used_at: self.used_at as int,
            discord_invite_code: opt_text(self.discord_invite_code),
        }
    }
}

/// Whether `user` redeemed the token.
pub open spec fn redeemed_by(t: TokenView, user: Seq<char>) -> bool {
    t.used_by == Some(user) && t.used_at is Some
}

/// Whether the token at index `i` is the one `user` redeemed last. Of
/// several redeemed at the same time, the earliest issued is the last.
pub open spec fn is_latest_use(tokens: Seq<TokenView>, user: Seq<char>, i: int) -> bool {
    &&& 0 <= i < tokens.len()
    &&& redeemed_by(tokens[i], user)
    &&& forall|k: int|
        0 <= k < tokens.len() && redeemed_by(#[trigger] tokens[k], user) ==> {
            ||| tokens[k].used_at->0 < tokens[i].used_at->0
            ||| (tokens[k].used_at->0 == tokens[i].used_at->0 && i <= k)
        }
}

/// The attribution of `user`: the token they redeemed last, if they redeemed
/// any.
pub open spec fn history_for(tokens: Seq<TokenView>, user: Seq<char>) -> Option<InfoView> {
    if exists|i: int| is_latest_use(tokens, user, i) {
        let i = choose|i: int| is_latest_use(tokens, user, i);
        Some(
            InfoView {
                creator_id: tokens[i].creator_id,
                used_at: tokens[i].used_at->0,
                discord_invite_code: tokens[i].external_code,
            },
        )
    } else {
        None
    }
}

/// At most one token is the one a member redeemed last.
pub proof fn lemma_latest_use_unique(tokens: Seq<TokenView>, user: Seq<char>, i: int, j: int)
    requires
        is_latest_use(tokens, user, i),
        is_latest_use(tokens, user, j),
    ensures
        i == j,
{
}

/// Looks up who invited `user_id`: the token that this member redeemed most
/// recently.
pub fn get_user_invite_info(store: &InviteStore, user_id: &str) -> (info: Option<InviteInfo>)
    ensures
        match info {
            Some(f) => history_for(store@, user_id@) == Some(f@),
            None => history_for(store@, user_id@) is None,
        },
{
    let mut best: Option<usize> = None;
    let mut i: usize = 0;
    proof {
        use_type_invariant(store);
    }
    while i < store.tokens.len()
        invariant
            i <= store.tokens.len(),
            store.wf(),
            match best {
                Some(b) => is_latest_use(store@.take(i as int), user_id@, b as int),
                None => forall|k: int| 0 <= k < i ==> !redeemed_by(#[trigger] store@[k], user_id@),
            },
        decreases store.tokens.len() - i,
    {
        let token = &store.tokens[i];
        let ghost before = store@.take(i as int);
        let ghost after = store@.take(i + 1);
        let by_user = match &token.used_by {
            Some(u) => str_eq(u.as_str(), user_id),
            None => false,
        };
        assert(store@[i as int].wf());
        assert(by_user == redeemed_by(store@[i as int], user_id@));
        let mut replace = false;
        if by_user {
            match (best, token.used_at) {
                (Some(b), Some(at)) => {
                    let prior = &store.tokens[b];
                    assert(redeemed_by(before[b as int], user_id@));
                    replace = match prior.used_at {
                        Some(p) => p < at,
                        None => false,
                    };
                },
                _ => {
                    replace = true;
                },
            }
        }
        proof {
            assert forall|k: int| 0 <= k < i implies after[k] == before[k] by {}
            assert(after[i as int] == store@[i as int]);
            if replace {
                assert forall|k: int|
                    0 <= k < after.len() && redeemed_by(#[trigger] after[k], user_id@) implies {
                    ||| after[k].used_at->0 < after[i as int].used_at->0
                    ||| (after[k].used_at->0 == after[i as int].used_at->0 && i <= k)
                } by {
                    if k < i {
                        assert(redeemed_by(before[k], user_id@));
                    }
                }
                assert(is_latest_use(after, user_id@, i as int));
            } else if let Some(b) = best {
                assert forall|k: int|
                    0 <= k < after.len() && redeemed_by(#[trigger] after[k], user_id@) implies {
                    ||| after[k].used_at->0 < after[b as int].used_at->0
                    ||| (after[k].used_at->0 == after[b as int].used_at->0 && b <= k)
                } by {
                    if k < i {
                        assert(redeemed_by(before[k], user_id@));
                    }
                }
                assert(is_latest_use(after, user_id@, b as int));
            }
        }
        if replace {
            best = Some(i);
        }
        i += 1;
    }
    assert(store@.take(i as int) =~= store@);
    match best {
        Some(b) => {
            let token = &store.tokens[b];
            proof {
                let c = choose|c: int| is_latest_use(store@, user_id@, c);
                lemma_latest_use_unique(store@, user_id@, b as int, c);
            }
            match token.used_at {
                Some(at) => Some(
                    InviteInfo {
                        creator_id: token.creator_id.clone(),
                        used_at: at,
                        discord_invite_code: copy_opt(&token.external_code),
                    },
                ),
                None => None,
            }
        },
        None => {
            assert forall|c: int| !is_latest_use(store@, user_id@, c) by {
                if 0 <= c < store@.len() {
                    assert(!redeemed_by(store@[c], user_id@));
                }
            }
            None
        },
    }
}

/// The views of a list of tokens.
pub open spec fn token_views(tokens: Seq<InviteToken>) -> Seq<TokenView> {
    tokens.map_values(|t: InviteToken| t@)
}

/// Why the token at index `i` cannot be part of a store together with the
/// tokens before it, if it cannot.
pub open spec fn offence(tokens: Seq<TokenView>, i: int) -> Option<StorageError> {
    if !tokens[i].wf() {
        Some(StorageError::Inconsistent)
    } else if exists|j: int| 0 <= j < i && tokens[j].id == tokens[i].id {
        Some(StorageError::DuplicateId)
    } else {
        None
    }
}

/// Why a list of tokens is not the content of a store, if it is not: too
/// many tokens, or else the offence of the first token that has one.
pub open spec fn restore_error(tokens: Seq<TokenView>) -> Option<StorageError> {
    if tokens.len() > MAX_TOKENS {
        Some(StorageError::Full)
    } else if exists|i: int| 0 <= i < tokens.len() && offence(tokens, i) is Some {
        let first = choose|i: int|
            0 <= i < tokens.len() && offence(tokens, i) is Some && forall|k: int|
                0 <= k < i ==> offence(tokens, k) is None;
        offence(tokens, first)
    } else {
        None
    }
}

impl InviteStore {
    /// Rebuilds a store from its tokens, in the order of issue, as they were
    /// read from durable storage. Fails when the tokens are not the content
    /// of a store.
    pub fn restore(tokens: Vec<InviteToken>) -> (restored: Result<InviteStore, StorageError>)
        ensures
            match restored {
                Ok(store) => {
                    &&& restore_error(token_views(tokens@)) is None
                    &&& store@ == token_views(tokens@)
                },
                Err(e) => restore_error(token_views(tokens@)) == Some(e),
            },
    {
        let ghost views = token_views(tokens@);
        if tokens.len() as u64 > MAX_TOKENS {
            return Err(StorageError::Full);
        }
        let mut i: usize = 0;
        while i < tokens.len()
            invariant
                i <= tokens.len(),
                views == token_views(tokens@),
                views.len() <= MAX_TOKENS,
                forall|k: int| 0 <= k < i ==> offence(views, k) is None,
            decreases tokens.len() - i,
        {
            let token = &tokens[i];
            assert(views[i as int] == token@);
            let mut found: Option<StorageError> = None;
            if token.used_at.is_some() != token.used_by.is_some() {
                found = Some(StorageError::Inconsistent);
            } else {
                let mut j: usize = 0;
                while j < i
                    invariant
                        j <= i,
                        i < tokens.len(),
                        views == token_views(tokens@),
                        found is None || found == Some(StorageError::DuplicateId),
                        found is None ==> forall|k: int|
                            0 <= k < j ==> views[k].id != views[i as int].id,
                        found is Some ==> exists|k: int|
                            0 <= k < i && views[k].id == views[i as int].id,
                    decreases i - j,
                {
                    if str_eq(tokens[j].id.as_str(), tokens[i].id.as_str()) {
                        assert(views[j as int].id == views[i as int].id);
                        found = Some(StorageError::DuplicateId);
                    }
                    j += 1;
                }
            }
            assert(found == offence(views, i as int));
            if let Some(e) = found {
                proof {
                    let first = choose|f: int|
                        0 <= f < views.len() && offence(views, f) is Some && forall|k: int|
                            0 <= k < f ==> offence(views, k) is None;
                    assert(first == i);
                }
                return Err(e);
            }
            i += 1;
        }
        proof {
            assert forall|a: int, b: int|
                0 <= a < views.len() && 0 <= b < views.len() && a != b implies views[a].id
                != views[b].id by {
                if a < b {
                    assert(offence(views, b) is None);
                } else {
                    assert(offence(views, a) is None);
                }
            }
            assert forall|k: int| 0 <= k < views.len() implies (#[trigger] views[k]).wf() by {
                assert(offence(views, k) is None);
            }
        }
        Ok(InviteStore { tokens })
    }
}

} // verus!
