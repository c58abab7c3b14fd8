//! The command that shows the leaderboard of a guild.

use vstd::prelude::*;
use crate::config::Config;
use crate::leaderboard::{
    entry_views, get_invite_leaderboard, is_leaderboard, EntryView, InviteLeaderboardEntry,
};
use crate::reply::{
    filled, named, param, plain, text_or_empty, unwrap_or_empty, Embed, EmbedView, Reply,
    ReplyView, COLOR_ERROR, COLOR_INFO,
};
use crate::store::InviteStore;
use crate::text::{decimal, decimal_text, joined, opt_text};
use crate::translate::{param_views, Params, Translations};

verus! {

/// Number of lines on the leaderboard.
pub const LEADERBOARD_SIZE: usize = 5;

/// Number of days the leaderboard looks back over when none is given.
pub const DEFAULT_LEADERBOARD_DAYS: i32 = 30;

/// The line of the leaderboard for the entry of rank `rank`.
pub open spec fn board_line(rank: int, entry: EntryView) -> Seq<char> {
    "**#"@ + decimal(rank) + " →** <@"@ + entry.creator_id + "> ["@ + decimal(entry.invite_count)
        + " invites]\n\n"@
}

/// The lines of the leaderboard, first rank first.
pub open spec fn board_text(entries: Seq<EntryView>) -> Seq<char>
    decreases entries.len(),
{
    if entries.len() == 0 {
        Seq::<char>::empty()
    } else {
        board_text(entries.drop_last()) + board_line(entries.len() as int, entries.last())
    }
}

/// The reply that shows the leaderboard `entries` of the last `days` days.
pub open spec fn leaderboard_reply(
    translations: Translations,
    locale: Seq<char>,
    guild_name: Seq<char>,
    guild_icon_url: Option<Seq<char>>,
    days: int,
    entries: Seq<EntryView>,
) -> ReplyView {
    if entries.len() == 0 {
        ReplyView {
            embed: EmbedView {
                title: plain(
                    translations,
                    locale,
                    "commands.invites_leaderboard.errors.no_invites.title"@,
                ),
                description: filled(
                    translations,
                    locale,
                    "commands.invites_leaderboard.errors.no_invites.description"@,
                    seq![param("days"@, decimal(days))],
                ),
                color: COLOR_ERROR,
                thumbnail: None,
                footer: Some(
                    plain(
                        translations,
                        locale,
                        "commands.invites_leaderboard.errors.no_invites.footer"@,
                    ),
                ),
            },
            ephemeral: true,
        }
    } else {
        ReplyView {
            embed: EmbedView {
                title: filled(
                    translations,
                    locale,
                    "commands.invites_leaderboard.success.title"@,
                    seq![param("guild"@, guild_name)],
                ),
                description: board_text(entries),
                color: COLOR_INFO,
                thumbnail: Some(text_or_empty(guild_icon_url)),
                footer: Some(
                    plain(translations, locale, "commands.invites_leaderboard.success.footer"@),
                ),
            },
            ephemeral: false,
        }
    }
}

/// Builds the reply that shows a leaderboard.
pub fn leaderboard_embed(
    translations: &Translations,
    locale: &str,
    guild_name: &str,
    guild_icon_url: &Option<String>,
    days: i32,
    entries: &Vec<InviteLeaderboardEntry>,
) -> (reply: Reply)
    ensures
        reply@ == leaderboard_reply(
            *translations,
            locale@,
            guild_name@,
            opt_text(*guild_icon_url),
            days as int,
            entry_views(entries@),
        ),
{
    let ghost views = entry_views(entries@);
    if entries.len() == 0 {
        let mut params: Params = Vec::new();
        params.push(named("days", decimal_text(days as i128)));
        assert(param_views(params@) =~= seq![param("days"@, decimal(days as int))]);
        return Reply {
            embed: Embed {
                title: translations.text(
                    locale,
                    "commands.invites_leaderboard.errors.no_invites.title",
                    None,
                ),
                description: translations.text(
                    locale,
                    "commands.invites_leaderboard.errors.no_invites.description",
                    Some(&params),
                ),
                color: COLOR_ERROR,
                thumbnail: None,
                footer: Some(
                    translations.text(
                        locale,
                        "commands.invites_leaderboard.errors.no_invites.footer",
                        None,
                    ),
                ),
            },
            ephemeral: true,
        };
    }
    let mut description = String::new();
    let mut i: usize = 0;
    assert(views.take(0) =~= Seq::<EntryView>::empty());
    while i < entries.len()
        invariant
            i <= entries.len(),
            views == entry_views(entries@),
            description@ == board_text(views.take(i as int)),
        decreases entries.len() - i,
    {
        let entry = &entries[i];
        let ghost before = description@;
        proof {
            assert(views.take(i + 1).drop_last() =~= views.take(i as int));
            assert(views.take(i + 1).last() == entry@);
        }
        let mut line = joined("**#", decimal_text(i as i128 + 1).as_str());
        line.append(" →** <@");
        line.append(entry.creator_id.as_str());
        line.append("> [");
        line.append(decimal_text(entry.invite_count as i128).as_str());
        line.append(" invites]\n\n");
        assert(line@ == board_line(i + 1, entry@));
        description.append(line.as_str());
        i += 1;
    }
    assert(views.take(i as int) =~= views);
    let mut params: Params = Vec::new();
    params.push(named("guild", guild_name.to_owned()));
    assert(param_views(params@) =~= seq![param("guild"@, guild_name@)]);
    Reply {
        embed: Embed {
            title: translations.text(
                locale,
                "commands.invites_leaderboard.success.title",
                Some(&params),
            ),
            description,
            color: COLOR_INFO,
            thumbnail: Some(unwrap_or_empty(guild_icon_url)),
            footer: Some(
                translations.text(locale, "commands.invites_leaderboard.success.footer", None),
            ),
        },
        ephemeral: false,
    }
}

/// The number of days the leaderboard looks back over.
pub open spec fn leaderboard_days(days: Option<i32>) -> i32 {
    match days {
        Some(d) => d,
        None => DEFAULT_LEADERBOARD_DAYS,
    }
}

/// Shows the leaderboard of a guild over the last `days` days, thirty when
/// none is given, in the locale of the guild.
pub fn invites_leaderboard(
    store: &InviteStore,
    translations: &Translations,
    config: &Config,
    guild_id: &str,
    guild_name: &str,
    guild_icon_url: &Option<String>,
    days: Option<i32>,
    now: i64,
) -> (reply: Reply)
    ensures
        exists|board: Seq<EntryView>|
            {
                &&& #[trigger] is_leaderboard(
                    store@,
                    guild_id@,
                    leaderboard_days(days) as int,
                    now as int,
                    LEADERBOARD_SIZE as nat,
                    board,
                )
                &&& reply@ == leaderboard_reply(
                    *translations,
                    config.guild_locale(guild_id@),
                    guild_name@,
                    opt_text(*guild_icon_url),
                    leaderboard_days(days) as int,
                    board,
                )
            },
{
    let locale = config.get_guild_locale(guild_id);
    let window = match days {
        Some(d) => d,
        None => DEFAULT_LEADERBOARD_DAYS,
    };
    assert(window == leaderboard_days(days));
    let entries = get_invite_leaderboard(store, guild_id, window, LEADERBOARD_SIZE, now);
    let reply = leaderboard_embed(
        translations,
        locale,
        guild_name,
        guild_icon_url,
        window,
        &entries,
    );
    assert(is_leaderboard(
        store@,
        guild_id@,
        leaderboard_days(days) as int,
        now as int,
        LEADERBOARD_SIZE as nat,
        entry_views(entries@),
    ));
    reply
}

} // verus!
