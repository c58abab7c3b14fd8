//! The command that tells who invited a member.

use vstd::prelude::*;
use crate::config::Config;
use crate::dates::{date_text, shown_date, time_ago, time_ago_text};
use crate::reply::{
    error_embed, error_reply, filled, named, param, plain, text_or_empty, unwrap_or_empty, Embed,
    EmbedView, Reply, ReplyView, COLOR_ERROR, COLOR_INFO,
};
use crate::store::{get_user_invite_info, history_for, InfoView, InviteInfo, InviteStore, TokenView};
use crate::text::{decimal, decimal_text, joined, opt_text, parse_id, parsed_id};
use crate::translate::{param_views, Params, Translations};

verus! {

/// What the store knows of who invited a member.
#[derive(Debug, Clone)]
pub enum InviterLookup {
    /// The member redeemed no token.
    NoRecord,
    /// The creator of the token is not a platform id.
    InvalidUser,
    /// The member was invited by `creator`.
    Found { creator: u64, info: InviteInfo },
}

/// Mathematical model of an `InviterLookup`.
pub ghost enum LookupView {
    NoRecord,
    InvalidUser,
    Found { creator: u64, info: InfoView },
}

impl View for InviterLookup {
    type V = LookupView;

    open spec fn view(&self) -> LookupView {
        match self {
            InviterLookup::NoRecord => LookupView::NoRecord,
            InviterLookup::InvalidUser => LookupView::InvalidUser,
            InviterLookup::Found { creator, info } => LookupView::Found {
                creator: *creator,
                info: info@,
            },
        }
    }
}

/// What the store knows of who invited `user_id`.
pub open spec fn inviter_of(tokens: Seq<TokenView>, user_id: Seq<char>) -> LookupView {
    match history_for(tokens, user_id) {
        None => LookupView::NoRecord,
        Some(info) => match parsed_id(info.creator_id) {
            Some(creator) => LookupView::Found { creator, info },
            None => LookupView::InvalidUser,
        },
    }
}

/// Looks up who invited a member.
pub fn inviter_lookup(store: &InviteStore, user_id: &str) -> (lookup: InviterLookup)
    ensures
        lookup@ == inviter_of(store@, user_id@),
{
    match get_user_invite_info(store, user_id) {
        None => InviterLookup::NoRecord,
        Some(info) => match parse_id(info.creator_id.as_str()) {
            Some(creator) => InviterLookup::Found { creator, info },
            None => InviterLookup::InvalidUser,
        },
    }
}

/// How a member is mentioned in a message.
pub open spec fn mention(id: Seq<char>) -> Seq<char> {
    "<@"@ + id + ">"@
}

/// The reply that tells who invited `user_id`.
pub open spec fn inviter_reply(
    translations: Translations,
    locale: Seq<char>,
    user_id: Seq<char>,
    user_avatar_url: Option<Seq<char>>,
    lookup: LookupView,
    now: int,
) -> ReplyView {
    match lookup {
        LookupView::NoRecord => ReplyView {
            embed: EmbedView {
                title: plain(translations, locale, "commands.inviter.errors.no_record.title"@),
                description: filled(
                    translations,
                    locale,
                    "commands.inviter.errors.no_record.description"@,
                    seq![param("user"@, mention(user_id))],
                ),
                color: COLOR_ERROR,
                thumbnail: None,
                footer: Some(
                    plain(translations, locale, "commands.inviter.errors.no_record.footer"@),
                ),
            },
            ephemeral: true,
        },
        LookupView::InvalidUser => error_reply(
            translations,
            locale,
            "commands.inviter.errors.invalid_user"@,
        ),
        LookupView::Found { creator, info } => ReplyView {
            embed: EmbedView {
                title: plain(translations, locale, "commands.inviter.success.title"@),
                description: "**"@ + plain(translations, locale, "commands.inviter.success.user"@)
                    + "**: "@ + mention(user_id) + "\n**"@ + plain(
                    translations,
                    locale,
                    "commands.inviter.success.invited_by"@,
                ) + "**: "@ + mention(decimal(creator as int)) + "\n**"@ + plain(
                    translations,
                    locale,
                    "commands.inviter.success.date"@,
                ) + "**: "@ + shown_date(info.used_at) + " ("@ + time_ago(now, info.used_at)
                    + ")\n**"@ + plain(
                    translations,
                    locale,
                    "commands.inviter.success.invite_code"@,
                ) + "**: "@ + text_or_empty(info.discord_invite_code),
                color: COLOR_INFO,
                thumbnail: Some(text_or_empty(user_avatar_url)),
                footer: Some(plain(translations, locale, "commands.inviter.success.footer"@)),
            },
            ephemeral: false,
        },
    }
}

/// Writes a mention of a member.
fn mention_text(id: &str) -> (text: String)
    ensures
        text@ == mention(id@),
{
    let mut text = joined("<@", id);
    text.append(">");
    text
}

/// Tells who invited a member, in the locale of the guild.
pub fn inviter(
    translations: &Translations,
    config: &Config,
    guild_id: &str,
    user_id: &str,
    user_avatar_url: &Option<String>,
    lookup: &InviterLookup,
    now: i64,
) -> (reply: Reply)
    ensures
        reply@ == inviter_reply(
            *translations,
            config.guild_locale(guild_id@),
            user_id@,
            opt_text(*user_avatar_url),
            lookup@,
            now as int,
        ),
{
    let locale = config.get_guild_locale(guild_id);
    match lookup {
        InviterLookup::NoRecord => {
            let mut params: Params = Vec::new();
            params.push(named("user", mention_text(user_id)));
            assert(param_views(params@) =~= seq![param("user"@, mention(user_id@))]);
            Reply {
                embed: Embed {
                    title: translations.text(
                        locale,
                        "commands.inviter.errors.no_record.title",
                        None,
                    ),
                    description: translations.text(
                        locale,
                        "commands.inviter.errors.no_record.description",
                        Some(&params),
                    ),
                    color: COLOR_ERROR,
                    thumbnail: None,
                    footer: Some(
                        translations.text(locale, "commands.inviter.errors.no_record.footer", None),
                    ),
                },
                ephemeral: true,
            }
        },
        InviterLookup::InvalidUser => error_embed(
            translations,
            locale,
            "commands.inviter.errors.invalid_user",
        ),
        InviterLookup::Found { creator, info } => {
            let creator_text = decimal_text(*creator as i128);
            let mut description = joined(
                "**",
                translations.text(locale, "commands.inviter.success.user", None).as_str(),
            );
            description.append("**: ");
            description.append(mention_text(user_id).as_str());
            description.append("\n**");
            description.append(
                translations.text(locale, "commands.inviter.success.invited_by", None).as_str(),
            );
            description.append("**: ");
            description.append(mention_text(creator_text.as_str()).as_str());
            description.append("\n**");
            description.append(
                translations.text(locale, "commands.inviter.success.date", None).as_str(),
            );
            description.append("**: ");
            description.append(date_text(info.used_at).as_str());
            description.append(" (");
            description.append(time_ago_text(now, info.used_at).as_str());
            description.append(")\n**");
            description.append(
                translations.text(locale, "commands.inviter.success.invite_code", None).as_str(),
            );
            description.append("**: ");
            description.append(unwrap_or_empty(&info.discord_invite_code).as_str());
            Reply {
                embed: Embed {
                    title: translations.text(locale, "commands.inviter.success.title", None),
                    description,
                    color: COLOR_INFO,
                    thumbnail: Some(unwrap_or_empty(user_avatar_url)),
                    footer: Some(
                        translations.text(locale, "commands.inviter.success.footer", None),
                    ),
                },
                ephemeral: false,
            }
        },
    }
}

} // verus!
