//! Issuing tokens: the rate limiter's verdict, then a new pending token
//! under a fresh random id.

use vstd::prelude::*;
use crate::config::InviteLimit;
use crate::limiter::{check, decision, RateDecision};
use crate::store::{
    create_invite, created, creation_error, redeemed_count, InviteStore, StorageError, TokenView,
};

verus! {

/// Why no token was issued.
#[derive(Debug, Clone, Copy, PartialEq, Eq, Structural)]
pub enum IssueError {
    /// The member's quota is used up.
    Denied { used: i64, remaining: i64 },
    /// The store refused the new token.
    Storage(StorageError),
}

/// Whether `c` is a decimal digit or one of the letters `a` to `f`.
pub open spec fn is_lower_hex(c: char) -> bool {
    ('0' <= c && c <= '9') || ('a' <= c && c <= 'f')
}

/// Whether `s` has the shape of a hyphenated identifier: 36 characters,
/// hyphens at the positions 8, 13, 18 and 23, lower-case hexadecimal digits
/// elsewhere.
pub open spec fn is_hyphenated_id(s: Seq<char>) -> bool {
    &&& s.len() == 36
    &&& forall|i: int|
        0 <= i < 36 ==> if i == 8 || i == 13 || i == 18 || i == 23 {
            #[trigger] s[i] == '-'
        } else {
            is_lower_hex(s[i])
        }
}

/// Draws a fresh token id.
///
/// Trusted: calls `uuid::Uuid::new_v4` and formats the result with its
/// `Display` impl. The contract claims only the shape of the text, which is
/// the same for every identifier: the hyphenated lower-case form. Which
/// identifier is drawn is random, and nothing is claimed of it.
#[verifier::external_body]
pub(crate) fn fresh_invite_id() -> (id: String)
    ensures
        is_hyphenated_id(id@),
{
    uuid::Uuid::new_v4().to_string()
}

/// The outcome of issuing a token under the id `id`: denied when the quota
/// is used up, else whatever the store says to the new token.
pub open spec fn issue_outcome(
    tokens: Seq<TokenView>,
    id: Seq<char>,
    guild_id: Seq<char>,
    creator_id: Seq<char>,
    limit: InviteLimit,
    now: int,
) -> Result<(), IssueError> {
    match decision(
        redeemed_count(tokens, creator_id, guild_id, limit.days as int, now) as int,
        limit.count as int,
    ) {
        RateDecision::Deny { used, remaining } => Err(IssueError::Denied { used, remaining }),
        RateDecision::Allow => match creation_error(tokens, id) {
            Some(e) => Err(IssueError::Storage(e)),
            None => Ok(()),
        },
    }
}

/// The tokens after issuing under the id `id`: one more pending token when
/// the issue succeeds, and no change when it does not.
pub open spec fn after_issue(
    tokens: Seq<TokenView>,
    id: Seq<char>,
    guild_id: Seq<char>,
    creator_id: Seq<char>,
    limit: InviteLimit,
    now: int,
) -> Seq<TokenView> {
    if issue_outcome(tokens, id, guild_id, creator_id, limit, now) is Ok {
        created(tokens, id, guild_id, creator_id, now)
    } else {
        tokens
    }
}

/// Issues a token under the given id, if the rate limiter allows it.
pub fn issue_token_with_id(
    store: &mut InviteStore,
    invite_id: &str,
    guild_id: &str,
    creator_id: &str,
    role_limit: &InviteLimit,
    now: i64,
) -> (outcome: Result<(), IssueError>)
    ensures
        outcome == issue_outcome(
            old(store)@,
            invite_id@,
            guild_id@,
            creator_id@,
            *role_limit,
            now as int,
        ),
        final(store)@ == after_issue(
            old(store)@,
            invite_id@,
            guild_id@,
            creator_id@,
            *role_limit,
            now as int,
        ),
{
    match check(store, creator_id, guild_id, role_limit, now) {
        RateDecision::Deny { used, remaining } => Err(IssueError::Denied { used, remaining }),
        RateDecision::Allow => match create_invite(store, invite_id, guild_id, creator_id, now) {
            Ok(()) => Ok(()),
            Err(e) => Err(IssueError::Storage(e)),
        },
    }
}

/// Issues a token under a fresh random id and returns that id.
///
/// The id is drawn at random, so the contract speaks of the id that was
/// drawn: with it, the call does what `issue_token_with_id` does.
pub fn issue_token(
    store: &mut InviteStore,
    guild_id: &str,
    creator_id: &str,
    role_limit: &InviteLimit,
    now: i64,
) -> (outcome: Result<String, IssueError>)
    ensures
        exists|id: Seq<char>|
            {
                &&& is_hyphenated_id(id)
                &&& final(store)@ == #[trigger] after_issue(
                    old(store)@,
                    id,
                    guild_id@,
                    creator_id@,
                    *role_limit,
                    now as int,
                )
                &&& match outcome {
                    Ok(issued) => issued@ == id && issue_outcome(
                        old(store)@,
                        id,
                        guild_id@,
                        creator_id@,
                        *role_limit,
                        now as int,
                    ) is Ok,
                    Err(e) => issue_outcome(
                        old(store)@,
                        id,
                        guild_id@,
                        creator_id@,
                        *role_limit,
                        now as int,
                    ) == Err::<(), IssueError>(e),
                }
            },
        decision(
            redeemed_count(old(store)@, creator_id@, guild_id@, role_limit.days as int, now as int) as int,
            role_limit.count as int,
        ) matches RateDecision::Deny { used, remaining } ==> outcome == Err::<String, IssueError>(
            IssueError::Denied { used, remaining },
        ) && final(store)@ == old(store)@,
{
    let id = fresh_invite_id();
    match issue_token_with_id(store, id.as_str(), guild_id, creator_id, role_limit, now) {
        Ok(()) => {
            assert(store@ == after_issue(
                old(store)@,
                id@,
                guild_id@,
                creator_id@,
                *role_limit,
                now as int,
            ));
            Ok(id)
        },
        Err(e) => {
            assert(store@ == after_issue(
                old(store)@,
                id@,
                guild_id@,
                creator_id@,
                *role_limit,
                now as int,
            ));
            Err(e)
        },
    }
}

} // verus!
