//! What the chat front-end shows: replies made of one embed, with every
//! text taken from the translation catalogues.

use vstd::prelude::*;
use crate::config::AllowedRole;
use crate::text::{decimal, decimal_text, joined, opt_text};
use crate::translate::{param_views, Params, Translations};

verus! {

/// Colour of an embed that reports a failure.
pub const COLOR_ERROR: u32 = 0xFF3333;

/// Colour of an embed that reports a success.
pub const COLOR_INFO: u32 = 0x4CACEE;

/// A rich message.
#[derive(Debug, Clone)]
pub struct Embed {
    pub title: String,
    pub description: String,
    pub color: u32,
    /// URL of the image shown beside the text.
    pub thumbnail: Option<String>,
    pub footer: Option<String>,
}

/// A reply to a command: one embed, visible to everybody or to the caller
/// alone.
#[derive(Debug, Clone)]
pub struct Reply {
    pub embed: Embed,
    /// Whether only the caller sees the reply.
    pub ephemeral: bool,
}

/// Mathematical model of an `Embed`.
pub ghost struct EmbedView {
    pub title: Seq<char>,
    pub description: Seq<char>,
    pub color: u32,
    pub thumbnail: Option<Seq<char>>,
    pub footer: Option<Seq<char>>,
}

/// Mathematical model of a `Reply`.
pub ghost struct ReplyView {
    pub embed: EmbedView,
    pub ephemeral: bool,
}

impl View for Embed {
    type V = EmbedView;

    open spec fn view(&self) -> EmbedView {
        EmbedView {
            title: self.title@,
            description: self.description@,
            color: self.color,
            thumbnail: opt_text(self.thumbnail),
            footer: opt_text(self.footer),
        }
    }
}

impl View for Reply {
    type V = ReplyView;

    open spec fn view(&self) -> ReplyView {
        ReplyView { embed: self.embed@, ephemeral: self.ephemeral }
    }
}

/// One parameter, as a list entry.
pub open spec fn param(name: Seq<char>, value: Seq<char>) -> (Seq<char>, Seq<char>) {
    (name, value)
}

/// The parameters of the message that the quota is used up: the quota, its
/// window, the number of redeemed invites, and what is left.
pub open spec fn limit_params(count: int, days: int, used: int) -> Seq<(Seq<char>, Seq<char>)> {
    seq![
        param("count"@, decimal(count)),
        param("days"@, decimal(days)),
        param("used"@, decimal(used)),
        param("remaining"@, decimal(count - used)),
    ]
}

/// The parameters of the message that a member has not been in the guild
/// for long enough: the days required and the days spent.
pub open spec fn not_long_enough_params(days: int, remaining: int) -> Seq<(Seq<char>, Seq<char>)> {
    seq![param("days"@, decimal(days)), param("remaining"@, decimal(remaining))]
}

/// The parameters of the message that an invite was issued: the guild, then
/// those of `limit_params`.
pub open spec fn success_params(guild_name: Seq<char>, count: int, days: int, used: int) -> Seq<
    (Seq<char>, Seq<char>),
> {
    seq![param("guild"@, guild_name)] + limit_params(count, days, used)
}

/// One named value.
pub(crate) fn named(name: &str, value: String) -> (entry: (String, String))
    ensures
        entry.0@ == name@,
        entry.1@ == value@,
{
    (name.to_owned(), value)
}

/// The parameters that tell a member that their quota is used up.
pub fn create_limit_params(role_with_limit: &AllowedRole, used_invites: i64) -> (params: Params)
    ensures
        param_views(params@) == limit_params(
            role_with_limit.invite_limit.count as int,
            role_with_limit.invite_limit.days as int,
            used_invites as int,
        ),
{
    let limit = &role_with_limit.invite_limit;
    let mut params: Params = Vec::new();
    params.push(named("count", decimal_text(limit.count as i128)));
    params.push(named("days", decimal_text(limit.days as i128)));
    params.push(named("used", decimal_text(used_invites as i128)));
    params.push(named("remaining", decimal_text(limit.count as i128 - used_invites as i128)));
    assert(param_views(params@) =~= limit_params(
        limit.count as int,
        limit.days as int,
        used_invites as int,
    ));
    params
}

/// The parameters that tell a member that they have not been in the guild
/// for long enough.
pub fn create_not_long_enough_params(days: i64, remaining: i64) -> (params: Params)
    ensures
        param_views(params@) == not_long_enough_params(days as int, remaining as int),
{
    let mut params: Params = Vec::new();
    params.push(named("days", decimal_text(days as i128)));
    params.push(named("remaining", decimal_text(remaining as i128)));
    assert(param_views(params@) =~= not_long_enough_params(days as int, remaining as int));
    params
}

/// The parameters that tell a member that their invite was issued.
pub fn create_success_params(role_with_limit: &AllowedRole, used_invites: i64, guild_name: &str) -> (params:
    Params)
    ensures
        param_views(params@) == success_params(
            guild_name@,
            role_with_limit.invite_limit.count as int,
            role_with_limit.invite_limit.days as int,
            used_invites as int,
        ),
{
    let limit = &role_with_limit.invite_limit;
    let mut params: Params = Vec::new();
    params.push(named("guild", guild_name.to_owned()));
    params.push(named("count", decimal_text(limit.count as i128)));
    params.push(named("days", decimal_text(limit.days as i128)));
    params.push(named("used", decimal_text(used_invites as i128)));
    params.push(named("remaining", decimal_text(limit.count as i128 - used_invites as i128)));
    assert(param_views(params@) =~= success_params(
        guild_name@,
        limit.count as int,
        limit.days as int,
        used_invites as int,
    ));
    params
}

/// The text under `key`, without parameters.
pub open spec fn plain(translations: Translations, locale: Seq<char>, key: Seq<char>) -> Seq<char> {
    translations.text_for(locale, key, None)
}

/// The text under `key`, with `params` filled in.
pub open spec fn filled(
    translations: Translations,
    locale: Seq<char>,
    key: Seq<char>,
    params: Seq<(Seq<char>, Seq<char>)>,
) -> Seq<char> {
    translations.text_for(locale, key, Some(params))
}

/// The reply that reports the failure described under `error_key`: its
/// title, description and footer are the texts under that key.
pub open spec fn error_reply(translations: Translations, locale: Seq<char>, error_key: Seq<char>) -> ReplyView {
    ReplyView {
        embed: EmbedView {
            title: plain(translations, locale, error_key + ".title"@),
            description: plain(translations, locale, error_key + ".description"@),
            color: COLOR_ERROR,
            thumbnail: None,
            footer: Some(plain(translations, locale, error_key + ".footer"@)),
        },
        ephemeral: true,
    }
}

/// Builds the reply that reports a failure.
pub fn error_embed(translations: &Translations, locale: &str, error_key: &str) -> (reply: Reply)
    ensures
        reply@ == error_reply(*translations, locale@, error_key@),
{
    let title_key = joined(error_key, ".title");
    let description_key = joined(error_key, ".description");
    let footer_key = joined(error_key, ".footer");
    Reply {
        embed: Embed {
            title: translations.text(locale, title_key.as_str(), None),
            description: translations.text(locale, description_key.as_str(), None),
            color: COLOR_ERROR,
            thumbnail: None,
            footer: Some(translations.text(locale, footer_key.as_str(), None)),
        },
        ephemeral: true,
    }
}

/// The reply that tells a member that their quota is used up.
pub open spec fn limit_reached_reply(
    translations: Translations,
    locale: Seq<char>,
    params: Seq<(Seq<char>, Seq<char>)>,
) -> ReplyView {
    ReplyView {
        embed: EmbedView {
            title: plain(translations, locale, "commands.invites.errors.limit_reached.title"@),
            description: filled(
                translations,
                locale,
                "commands.invites.errors.limit_reached.description"@,
                params,
            ) + "\n\n**"@ + plain(
                translations,
                locale,
                "commands.invites.errors.limit_reached.status"@,
            ) + "**:\n• "@ + filled(
                translations,
                locale,
                "commands.invites.errors.limit_reached.used"@,
                params,
            ) + "\n• "@ + filled(
                translations,
                locale,
                "commands.invites.errors.limit_reached.remaining"@,
                params,
            ),
            color: COLOR_ERROR,
            thumbnail: None,
            footer: Some(
                plain(translations, locale, "commands.invites.errors.limit_reached.footer"@),
            ),
        },
        ephemeral: true,
    }
}

/// Builds the reply that tells a member that their quota is used up.
pub fn limit_reached_embed(translations: &Translations, locale: &str, params: &Params) -> (reply: Reply)
    ensures
        reply@ == limit_reached_reply(*translations, locale@, param_views(params@)),
{
    let mut description = translations.text(
        locale,
        "commands.invites.errors.limit_reached.description",
        Some(params),
    );
    description.append("\n\n**");
    description.append(
        translations.text(locale, "commands.invites.errors.limit_reached.status", None).as_str(),
    );
    description.append("**:\n• ");
    description.append(
        translations.text(
            locale,
            "commands.invites.errors.limit_reached.used",
            Some(params),
        ).as_str(),
    );
    description.append("\n• ");
    description.append(
        translations.text(
            locale,
            "commands.invites.errors.limit_reached.remaining",
            Some(params),
        ).as_str(),
    );
    Reply {
        embed: Embed {
            title: translations.text(locale, "commands.invites.errors.limit_reached.title", None),
            description,
            color: COLOR_ERROR,
            thumbnail: None,
            footer: Some(
                translations.text(locale, "commands.invites.errors.limit_reached.footer", None),
            ),
        },
        ephemeral: true,
    }
}

/// The reply that tells a member that they have not been in the guild for
/// long enough.
pub open spec fn not_long_enough_reply(
    translations: Translations,
    locale: Seq<char>,
    params: Seq<(Seq<char>, Seq<char>)>,
) -> ReplyView {
    ReplyView {
        embed: EmbedView {
            title: plain(translations, locale, "commands.invites.errors.not_long_enough.title"@),
            description: filled(
                translations,
                locale,
                "commands.invites.errors.not_long_enough.description"@,
                params,
            ),
            color: COLOR_ERROR,
            thumbnail: None,
            footer: Some(
                filled(
                    translations,
                    locale,
                    "commands.invites.errors.not_long_enough.footer"@,
                    params,
                ),
            ),
        },
        ephemeral: true,
    }
}

/// Builds the reply that tells a member that they have not been in the
/// guild for long enough.
pub fn not_long_enough_embed(translations: &Translations, locale: &str, params: &Params) -> (reply:
    Reply)
    ensures
        reply@ == not_long_enough_reply(*translations, locale@, param_views(params@)),
{
    Reply {
        embed: Embed {
            title: translations.text(locale, "commands.invites.errors.not_long_enough.title", None),
            description: translations.text(
                locale,
                "commands.invites.errors.not_long_enough.description",
                Some(params),
            ),
            color: COLOR_ERROR,
            thumbnail: None,
            footer: Some(
                translations.text(
                    locale,
                    "commands.invites.errors.not_long_enough.footer",
                    Some(params),
                ),
            ),
        },
        ephemeral: true,
    }
}

/// The text of an optional string, empty when there is none.
pub open spec fn text_or_empty(s: Option<Seq<char>>) -> Seq<char> {
    match s {
        Some(t) => t,
        None => Seq::<char>::empty(),
    }
}

/// The reply that hands a member their invite link.
pub open spec fn success_reply(
    translations: Translations,
    locale: Seq<char>,
    params: Seq<(Seq<char>, Seq<char>)>,
    invite_url: Seq<char>,
    guild_icon_url: Option<Seq<char>>,
) -> ReplyView {
    ReplyView {
        embed: EmbedView {
            title: plain(translations, locale, "commands.invites.success.title"@),
            description: filled(
                translations,
                locale,
                "commands.invites.success.description"@,
                params,
            ) + "\n\n"@ + invite_url + "\n\n**"@ + plain(
                translations,
                locale,
                "commands.invites.success.limits"@,
            ) + "**:\n• "@ + filled(
                translations,
                locale,
                "commands.invites.success.invites_per_days"@,
                params,
            ) + "\n• "@ + filled(
                translations,
                locale,
                "commands.invites.success.used_remaining"@,
                params,
            ),
            color: COLOR_INFO,
            thumbnail: Some(text_or_empty(guild_icon_url)),
            footer: Some(plain(translations, locale, "commands.invites.success.footer"@)),
        },
        ephemeral: true,
    }
}

/// A copy of the string inside, or the empty string.
pub(crate) fn unwrap_or_empty(s: &Option<String>) -> (out: String)
    ensures
        out@ == text_or_empty(opt_text(*s)),
{
    match s {
        Some(t) => t.clone(),
        None => String::new(),
    }
}

/// Builds the reply that hands a member their invite link.
pub fn success_embed(
    translations: &Translations,
    locale: &str,
    guild_name: &str,
    role_with_limit: &AllowedRole,
    used_invites: i64,
    bot_invite_url: &str,
    guild_icon_url: &Option<String>,
) -> (reply: Reply)
    ensures
        reply@ == success_reply(
            *translations,
            locale@,
            success_params(
                guild_name@,
                role_with_limit.invite_limit.count as int,
                role_with_limit.invite_limit.days as int,
                used_invites as int,
            ),
            bot_invite_url@,
            opt_text(*guild_icon_url),
        ),
{
    let params = create_success_params(role_with_limit, used_invites, guild_name);
    let mut description = translations.text(
        locale,
        "commands.invites.success.description",
        Some(&params),
    );
    description.append("\n\n");
    description.append(bot_invite_url);
    description.append("\n\n**");
    description.append(translations.text(locale, "commands.invites.success.limits", None).as_str());
    description.append("**:\n• ");
    description.append(
        translations.text(
            locale,
            "commands.invites.success.invites_per_days",
            Some(&params),
        ).as_str(),
    );
    description.append("\n• ");
    description.append(
        translations.text(
            locale,
            "commands.invites.success.used_remaining",
            Some(&params),
        ).as_str(),
    );
    Reply {
        embed: Embed {
            title: translations.text(locale, "commands.invites.success.title", None),
            description,
            color: COLOR_INFO,
            thumbnail: Some(unwrap_or_empty(guild_icon_url)),
            footer: Some(translations.text(locale, "commands.invites.success.footer", None)),
        },
        ephemeral: true,
    }
}

} // verus!
