//! The command that tells whether the service is alive.

use vstd::prelude::*;
use crate::config::Config;
use crate::reply::{plain, Embed, EmbedView, Reply, ReplyView, COLOR_INFO};
use crate::translate::Translations;

verus! {

/// The reply to a ping.
pub open spec fn ping_reply(translations: Translations, locale: Seq<char>) -> ReplyView {
    ReplyView {
        embed: EmbedView {
            title: plain(translations, locale, "commands.ping.response.title"@),
            description: plain(translations, locale, "commands.ping.response.description"@),
            color: COLOR_INFO,
            thumbnail: None,
            footer: None,
        },
        ephemeral: false,
    }
}

/// Answers a ping in the locale of the guild.
pub fn ping(translations: &Translations, config: &Config, guild_id: &str) -> (reply: Reply)
    ensures
        reply@ == ping_reply(*translations, config.guild_locale(guild_id@)),
{
    let locale = config.get_guild_locale(guild_id);
    Reply {
        embed: Embed {
            title: translations.text(locale, "commands.ping.response.title", None),
            description: translations.text(locale, "commands.ping.response.description", None),
            color: COLOR_INFO,
            thumbnail: None,
            footer: None,
        },
        ephemeral: false,
    }
}

} // verus!
