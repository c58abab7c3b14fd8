//! The command that issues an invite link.

use vstd::prelude::*;
use crate::commands::{command_error_embed, command_error_reply};
use crate::config::{AllowedGuild, AllowedRole, Config, InviteLimit};
use crate::dates::whole_units;
use crate::issuer::{fresh_invite_id, is_hyphenated_id};
use crate::limiter::{allowance, is_most_permissive, lemma_most_permissive_decides, most_permissive};
use crate::reply::{
    create_limit_params, create_not_long_enough_params, error_embed, error_reply, limit_params,
    limit_reached_embed, limit_reached_reply, not_long_enough_embed, not_long_enough_params,
    not_long_enough_reply, success_embed, success_params, success_reply, Reply, ReplyView,
};
use crate::search::{first_index, lemma_first_index_absent, lemma_first_index_found};
use crate::store::{
    count_used_invites, create_invite, created, creation_error, redeemed_count, InviteStore,
    StorageError, TokenView,
};
use crate::text::{joined, opt_text, str_eq, text_views};
use crate::translate::Translations;

verus! {

/// What the front-end knows of the member who asks for an invite link.
#[derive(Debug, Clone)]
pub struct InvitesRequest {
    pub guild_id: String,
    pub guild_name: String,
    pub guild_icon_url: Option<String>,
    /// The member who asks.
    pub author_id: String,
    /// When the member joined the guild, in seconds since the Unix epoch.
    pub joined_at: Option<i64>,
    /// The roles the member holds.
    pub role_ids: Vec<String>,
}

/// How a request for an invite link ended.
#[derive(Debug, Clone, Copy, PartialEq, Eq, Structural)]
pub enum InvitesOutcome {
    /// The guild is not configured.
    ServerNotAllowed,
    /// The front-end does not know when the member joined.
    JoinDateNotFound,
    /// The member joined too recently: `days` are required, `remaining`
    /// have passed.
    NotLongEnough { days: i64, remaining: i64 },
    /// None of the member's roles may invite.
    MissingPermissions,
    /// The quota of the member's role, the one at index `role` of the
    /// guild's allowed roles, is used up.
    LimitReached { role: usize, used: i64 },
    /// A token was issued under the role at index `role`.
    Issued { role: usize, used: i64 },
    /// The store refused the new token.
    Failed(StorageError),
}

/// Time, in seconds, a member must have spent in `guild` before they may
/// invite: the guild's own setting, or else the default.
pub open spec fn min_member_age(config: Config, guild: AllowedGuild) -> u32 {
    match guild.min_member_age {
        Some(age) => age,
        None => config.bot.default_min_member_age,
    }
}

/// Index of the first allowed role with the id `role_id`.
pub open spec fn role_index(allowed: Seq<AllowedRole>, role_id: Seq<char>) -> Option<int> {
    first_index(allowed, |r: AllowedRole| r.id@ == role_id)
}

/// The allowed roles that a member holds: for each of the member's roles, in
/// their order, the index of the allowed role with that id, where there is
/// one.
pub open spec fn qualifying_roles(allowed: Seq<AllowedRole>, role_ids: Seq<Seq<char>>) -> Seq<int>
    decreases role_ids.len(),
{
    if role_ids.len() == 0 {
        Seq::<int>::empty()
    } else {
        let before = qualifying_roles(allowed, role_ids.drop_last());
        match role_index(allowed, role_ids.last()) {
            Some(i) => before.push(i),
            None => before,
        }
    }
}

/// The limits of the allowed roles at the given indices.
pub open spec fn limits_of(allowed: Seq<AllowedRole>, indices: Seq<int>) -> Seq<InviteLimit> {
    indices.map_values(|i: int| allowed[i].invite_limit)
}

/// Whether `role` is the role under which the member's request is judged:
/// of the allowed roles the member holds, the one whose limit leaves the
/// member the most.
pub open spec fn is_judging_role(
    tokens: Seq<TokenView>,
    guild: AllowedGuild,
    request: InvitesRequest,
    now: int,
    role: int,
) -> bool {
    let roles = qualifying_roles(guild.allowed_roles@, text_views(request.role_ids@));
    exists|j: int|
        #![trigger roles[j]]
        is_most_permissive(
            tokens,
            request.author_id@,
            request.guild_id@,
            limits_of(guild.allowed_roles@, roles),
            now,
            j,
        ) && roles[j] == role
}

/// How a request for an invite link ends, if the token would get the id
/// `invite_id`.
pub open spec fn invites_outcome(
    tokens: Seq<TokenView>,
    config: Config,
    request: InvitesRequest,
    invite_id: Seq<char>,
    now: int,
) -> InvitesOutcome {
    match config.guild(request.guild_id@) {
        None => InvitesOutcome::ServerNotAllowed,
        Some(guild) => match request.joined_at {
            None => InvitesOutcome::JoinDateNotFound,
            Some(joined) => {
                let required = min_member_age(config, guild) as int;
                let spent = now - joined;
                let roles = qualifying_roles(guild.allowed_roles@, text_views(request.role_ids@));
                if spent < required {
                    InvitesOutcome::NotLongEnough {
                        days: (required / 86400) as i64,
                        remaining: whole_units(spent, 86400) as i64,
                    }
                } else if roles.len() == 0 {
                    InvitesOutcome::MissingPermissions
                } else {
                    let role = choose|role: int| is_judging_role(tokens, guild, request, now, role);
                    let limit = guild.allowed_roles@[role].invite_limit;
                    let used = redeemed_count(
                        tokens,
                        request.author_id@,
                        request.guild_id@,
                        limit.days as int,
                        now,
                    );
                    if used >= limit.count {
                        InvitesOutcome::LimitReached { role: role as usize, used: used as i64 }
                    } else {
                        match creation_error(tokens, invite_id) {
                            Some(e) => InvitesOutcome::Failed(e),
                            None => InvitesOutcome::Issued { role: role as usize, used: used as i64 },
                        }
                    }
                }
            },
        },
    }
}

/// The tokens after a request for an invite link: one more pending token
/// when one was issued, and no change otherwise.
pub open spec fn after_invites(
    tokens: Seq<TokenView>,
    config: Config,
    request: InvitesRequest,
    invite_id: Seq<char>,
    now: int,
) -> Seq<TokenView> {
    if invites_outcome(tokens, config, request, invite_id, now) is Issued {
        created(tokens, invite_id, request.guild_id@, request.author_id@, now)
    } else {
        tokens
    }
}

/// Time a member must have spent in a guild before they may invite.
pub fn min_member_age_of(config: &Config, guild: &AllowedGuild) -> (age: u32)
    ensures
        age == min_member_age(*config, *guild),
{
    match guild.min_member_age {
        Some(age) => age,
        None => config.bot.default_min_member_age,
    }
}

/// Looks up an allowed role by its id.
pub fn find_role(guild: &AllowedGuild, role_id: &str) -> (found: Option<usize>)
    ensures
        match found {
            Some(i) => role_index(guild.allowed_roles@, role_id@) == Some(i as int) && i
                < guild.allowed_roles@.len(),
            None => role_index(guild.allowed_roles@, role_id@) is None,
        },
{
    let ghost p = |r: AllowedRole| r.id@ == role_id@;
    let mut i: usize = 0;
    while i < guild.allowed_roles.len()
        invariant
            i <= guild.allowed_roles.len(),
            p == |r: AllowedRole| r.id@ == role_id@,
            forall|k: int| 0 <= k < i ==> !p(#[trigger] guild.allowed_roles@[k]),
        decreases guild.allowed_roles.len() - i,
    {
        if str_eq(guild.allowed_roles[i].id.as_str(), role_id) {
            proof {
                lemma_first_index_found(guild.allowed_roles@, p, i as int);
            }
            return Some(i);
        }
        i += 1;
    }
    proof {
        lemma_first_index_absent(guild.allowed_roles@, p);
    }
    None
}

/// The allowed roles that a member holds, as indices into the guild's
/// allowed roles.
pub fn roles_of(guild: &AllowedGuild, role_ids: &Vec<String>) -> (roles: Vec<usize>)
    ensures
        roles@.map_values(|i: usize| i as int) == qualifying_roles(
            guild.allowed_roles@,
            text_views(role_ids@),
        ),
        forall|k: int| 0 <= k < roles@.len() ==> (#[trigger] roles@[k]) < guild.allowed_roles@.len(),
{
    let ghost ids = text_views(role_ids@);
    let mut roles: Vec<usize> = Vec::new();
    let mut i: usize = 0;
    assert(ids.take(0) =~= Seq::<Seq<char>>::empty());
    assert(roles@.map_values(|i: usize| i as int) =~= Seq::<int>::empty());
    while i < role_ids.len()
        invariant
            i <= role_ids.len(),
            ids == text_views(role_ids@),
            roles@.map_values(|i: usize| i as int) == qualifying_roles(
                guild.allowed_roles@,
                ids.take(i as int),
            ),
            forall|k: int|
                0 <= k < roles@.len() ==> (#[trigger] roles@[k]) < guild.allowed_roles@.len(),
        decreases role_ids.len() - i,
    {
        let ghost before = roles@.map_values(|i: usize| i as int);
        assert(ids.take(i + 1).drop_last() =~= ids.take(i as int));
        assert(ids.take(i + 1).last() == role_ids@[i as int]@);
        if let Some(role) = find_role(guild, role_ids[i].as_str()) {
            roles.push(role);
            assert(roles@.map_values(|i: usize| i as int) =~= before.push(role as int));
        }
        i += 1;
    }
    assert(ids.take(i as int) =~= ids);
    roles
}

/// At most one role is the one a request is judged under.
pub proof fn lemma_judging_role_unique(
    tokens: Seq<TokenView>,
    guild: AllowedGuild,
    request: InvitesRequest,
    now: int,
    a: int,
    b: int,
)
    requires
        is_judging_role(tokens, guild, request, now, a),
        is_judging_role(tokens, guild, request, now, b),
    ensures
        a == b,
{
    let roles = qualifying_roles(guild.allowed_roles@, text_views(request.role_ids@));
    let limits = limits_of(guild.allowed_roles@, roles);
    let i = choose|j: int|
        #![trigger roles[j]]
        is_most_permissive(tokens, request.author_id@, request.guild_id@, limits, now, j)
            && roles[j] == a;
    let j = choose|j: int|
        #![trigger roles[j]]
        is_most_permissive(tokens, request.author_id@, request.guild_id@, limits, now, j)
            && roles[j] == b;
    let left_i = allowance(
        tokens,
        request.author_id@,
        request.guild_id@,
        limits[i],
        now,
    );
    let left_j = allowance(
        tokens,
        request.author_id@,
        request.guild_id@,
        limits[j],
        now,
    );
    assert(left_i <= left_j && left_j <= left_i);
    assert(i == j);
}

/// A member who holds an allowed role is judged under one of them.
pub proof fn lemma_judging_role_exists(
    tokens: Seq<TokenView>,
    guild: AllowedGuild,
    request: InvitesRequest,
    now: int,
)
    requires
        qualifying_roles(guild.allowed_roles@, text_views(request.role_ids@)).len() > 0,
    ensures
        exists|role: int| is_judging_role(tokens, guild, request, now, role),
{
    let roles = qualifying_roles(guild.allowed_roles@, text_views(request.role_ids@));
    let limits = limits_of(guild.allowed_roles@, roles);
    lemma_most_permissive_decides(
        tokens,
        request.author_id@,
        request.guild_id@,
        limits,
        now,
    );
    let j = choose|j: int|
        is_most_permissive(tokens, request.author_id@, request.guild_id@, limits, now, j);
    assert(roles[j] == roles[j]);
    assert(is_judging_role(tokens, guild, request, now, roles[j]));
}

/// Decides a request for an invite link and, where it is granted, issues the
/// token under the id `invite_id`.
///
/// The checks come in this order: the guild must be configured; the member's
/// join date must be known and lie far enough back; the member must hold an
/// allowed role; and the quota of the role that leaves the member the most
/// must not be used up.
pub fn decide_invites(
    store: &mut InviteStore,
    config: &Config,
    request: &InvitesRequest,
    invite_id: &str,
    now: i64,
) -> (outcome: InvitesOutcome)
    ensures
        outcome == invites_outcome(old(store)@, *config, *request, invite_id@, now as int),
        final(store)@ == after_invites(old(store)@, *config, *request, invite_id@, now as int),
        (outcome is LimitReached || outcome is Issued) ==> config.guild(request.guild_id@) is Some,
        outcome matches InvitesOutcome::LimitReached { role, .. } ==> role < config.guild(
            request.guild_id@,
        )->0.allowed_roles@.len(),
        outcome matches InvitesOutcome::Issued { role, .. } ==> role < config.guild(
            request.guild_id@,
        )->0.allowed_roles@.len(),
{
    let guild = match config.find_guild(request.guild_id.as_str()) {
        Some(guild) => guild,
        None => {
            return InvitesOutcome::ServerNotAllowed;
        },
    };
    let joined = match request.joined_at {
        Some(joined) => joined,
        None => {
            return InvitesOutcome::JoinDateNotFound;
        },
    };
    let required = min_member_age_of(config, guild);
    let spent: i128 = now as i128 - joined as i128;
    if spent < required as i128 {
        return InvitesOutcome::NotLongEnough {
            days: (required / 86400) as i64,
            remaining: (spent / 86400) as i64,
        };
    }
    let roles = roles_of(guild, &request.role_ids);
    if roles.len() == 0 {
        return InvitesOutcome::MissingPermissions;
    }
    let ghost indices = roles@.map_values(|i: usize| i as int);
    let mut limits: Vec<InviteLimit> = Vec::new();
    let mut k: usize = 0;
    while k < roles.len()
        invariant
            k <= roles.len(),
            indices == roles@.map_values(|i: usize| i as int),
            forall|x: int|
                0 <= x < roles@.len() ==> (#[trigger] roles@[x]) < guild.allowed_roles@.len(),
            limits@ == limits_of(guild.allowed_roles@, indices.take(k as int)),
        decreases roles.len() - k,
    {
        limits.push(guild.allowed_roles[roles[k]].invite_limit);
        assert(limits@ =~= limits_of(guild.allowed_roles@, indices.take(k + 1)));
        k += 1;
    }
    assert(indices.take(k as int) =~= indices);
    let best = most_permissive(
        store,
        request.author_id.as_str(),
        request.guild_id.as_str(),
        &limits,
        now,
    );
    let role = match best {
        Some(j) => roles[j],
        None => {
            return InvitesOutcome::MissingPermissions;
        },
    };
    proof {
        let j = best->0 as int;
        assert(indices[j] == role);
        assert(is_judging_role(store@, *guild, *request, now as int, role as int));
        let chosen = choose|r: int| is_judging_role(store@, *guild, *request, now as int, r);
        lemma_judging_role_unique(store@, *guild, *request, now as int, role as int, chosen);
    }
    let limit = &guild.allowed_roles[role].invite_limit;
    let used = count_used_invites(
        store,
        request.author_id.as_str(),
        request.guild_id.as_str(),
        limit.days,
        now,
    );
    if used >= limit.count as i64 {
        return InvitesOutcome::LimitReached { role, used };
    }
    match create_invite(
        store,
        invite_id,
        request.guild_id.as_str(),
        request.author_id.as_str(),
        now,
    ) {
        Ok(()) => InvitesOutcome::Issued { role, used },
        Err(e) => InvitesOutcome::Failed(e),
    }
}

/// The link that a member hands on: the service's external URL, then
/// `/invite/` and the token's id.
pub open spec fn invite_link(config: Config, invite_id: Seq<char>) -> Seq<char> {
    config.server.external_url@ + "/invite/"@ + invite_id
}

/// The reply to a request for an invite link that ended with `outcome`.
pub open spec fn invites_reply(
    translations: Translations,
    config: Config,
    request: InvitesRequest,
    invite_id: Seq<char>,
    outcome: InvitesOutcome,
) -> ReplyView {
    let locale = config.guild_locale(request.guild_id@);
    match outcome {
        InvitesOutcome::ServerNotAllowed => error_reply(
            translations,
            locale,
            "commands.invites.errors.server_not_allowed"@,
        ),
        InvitesOutcome::JoinDateNotFound => error_reply(
            translations,
            locale,
            "commands.invites.errors.join_date_not_found"@,
        ),
        InvitesOutcome::NotLongEnough { days, remaining } => not_long_enough_reply(
            translations,
            locale,
            not_long_enough_params(days as int, remaining as int),
        ),
        InvitesOutcome::MissingPermissions => error_reply(
            translations,
            locale,
            "commands.invites.errors.missing_permissions"@,
        ),
        InvitesOutcome::LimitReached { role, used } => {
            let limit = config.guild(request.guild_id@)->0.allowed_roles@[role as int].invite_limit;
            limit_reached_reply(
                translations,
                locale,
                limit_params(limit.count as int, limit.days as int, used as int),
            )
        },
        InvitesOutcome::Issued { role, used } => {
            let limit = config.guild(request.guild_id@)->0.allowed_roles@[role as int].invite_limit;
            success_reply(
                translations,
                locale,
                success_params(
                    request.guild_name@,
                    limit.count as int,
                    limit.days as int,
                    used as int,
                ),
                invite_link(config, invite_id),
                opt_text(request.guild_icon_url),
            )
        },
        InvitesOutcome::Failed(_) => command_error_reply(translations, locale),
    }
}

/// Builds the reply to a request for an invite link.
fn render_invites(
    translations: &Translations,
    config: &Config,
    request: &InvitesRequest,
    invite_id: &str,
    outcome: InvitesOutcome,
) -> (reply: Reply)
    requires
        (outcome is LimitReached || outcome is Issued) ==> config.guild(request.guild_id@) is Some,
        outcome matches InvitesOutcome::LimitReached { role, .. } ==> role < config.guild(
            request.guild_id@,
        )->0.allowed_roles@.len(),
        outcome matches InvitesOutcome::Issued { role, .. } ==> role < config.guild(
            request.guild_id@,
        )->0.allowed_roles@.len(),
    ensures
        reply@ == invites_reply(*translations, *config, *request, invite_id@, outcome),
{
    let locale = config.get_guild_locale(request.guild_id.as_str());
    match outcome {
        InvitesOutcome::ServerNotAllowed => error_embed(
            translations,
            locale,
            "commands.invites.errors.server_not_allowed",
        ),
        InvitesOutcome::JoinDateNotFound => error_embed(
            translations,
            locale,
            "commands.invites.errors.join_date_not_found",
        ),
        InvitesOutcome::NotLongEnough { days, remaining } => {
            let params = create_not_long_enough_params(days, remaining);
            not_long_enough_embed(translations, locale, &params)
        },
        InvitesOutcome::MissingPermissions => error_embed(
            translations,
            locale,
            "commands.invites.errors.missing_permissions",
        ),
        InvitesOutcome::LimitReached { role, used } => {
            match config.find_guild(request.guild_id.as_str()) {
                Some(guild) => {
                    let params = create_limit_params(&guild.allowed_roles[role], used);
                    limit_reached_embed(translations, locale, &params)
                },
                None => command_error_embed(translations, locale),
            }
        },
        InvitesOutcome::Issued { role, used } => {
            match config.find_guild(request.guild_id.as_str()) {
                Some(guild) => {
                    let mut link = joined(config.server.external_url.as_str(), "/invite/");
                    link.append(invite_id);
                    success_embed(
                        translations,
                        locale,
                        request.guild_name.as_str(),
                        &guild.allowed_roles[role],
                        used,
                        link.as_str(),
                        &request.guild_icon_url,
                    )
                },
                None => command_error_embed(translations, locale),
            }
        },
        InvitesOutcome::Failed(_) => command_error_embed(translations, locale),
    }
}

/// How a request for an invite link ended, and what to tell the member.
#[derive(Debug, Clone)]
pub struct InvitesResult {
    /// The id drawn for the token; a token exists under it only when the
    /// outcome is `Issued`.
    pub invite_id: String,
    pub outcome: InvitesOutcome,
    pub reply: Reply,
}

/// Handles a request for an invite link under the given token id: decides
/// it, issues the token where it is granted, and builds the reply.
pub fn invites_with_id(
    store: &mut InviteStore,
    config: &Config,
    translations: &Translations,
    request: &InvitesRequest,
    invite_id: &str,
    now: i64,
) -> (result: InvitesResult)
    ensures
        result.invite_id@ == invite_id@,
        result.outcome == invites_outcome(old(store)@, *config, *request, invite_id@, now as int),
        final(store)@ == after_invites(old(store)@, *config, *request, invite_id@, now as int),
        result.reply@ == invites_reply(
            *translations,
            *config,
            *request,
            invite_id@,
            result.outcome,
        ),
{
    let outcome = decide_invites(store, config, request, invite_id, now);
    let reply = render_invites(translations, config, request, invite_id, outcome);
    InvitesResult { invite_id: invite_id.to_owned(), outcome, reply }
}

/// Handles a request for an invite link: draws a fresh token id, decides the
/// request, issues the token where it is granted, and builds the reply.
///
/// The id is drawn at random, so the contract speaks of the id that was
/// drawn, which the result carries: with it, the call does what
/// `invites_with_id` does.
pub fn invites(
    store: &mut InviteStore,
    config: &Config,
    translations: &Translations,
    request: &InvitesRequest,
    now: i64,
) -> (result: InvitesResult)
    ensures
        is_hyphenated_id(result.invite_id@),
        result.outcome == invites_outcome(
            old(store)@,
            *config,
            *request,
            result.invite_id@,
            now as int,
        ),
        final(store)@ == after_invites(
            old(store)@,
            *config,
            *request,
            result.invite_id@,
            now as int,
        ),
        result.reply@ == invites_reply(
            *translations,
            *config,
            *request,
            result.invite_id@,
            result.outcome,
        ),
{
    let invite_id = fresh_invite_id();
    invites_with_id(store, config, translations, request, invite_id.as_str(), now)
}

} // verus!
