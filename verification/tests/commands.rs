use invite_attribution::commands::command_error_embed;
use invite_attribution::commands::inviter::{inviter, inviter_lookup, InviterLookup};
use invite_attribution::commands::invites::{
    decide_invites, find_role, invites, invites_with_id, min_member_age_of, roles_of,
    InvitesOutcome, InvitesRequest,
};
use invite_attribution::commands::invites_leaderboard::{invites_leaderboard, leaderboard_embed};
use invite_attribution::commands::ping::ping;
use invite_attribution::config::{
    AllowedGuild, AllowedRole, BotConfig, Config, DatabaseConfig, GuildConfig, I18nConfig,
    InviteLimit, ServerConfig,
};
use invite_attribution::leaderboard::InviteLeaderboardEntry;
use invite_attribution::reply::{
    create_limit_params, create_not_long_enough_params, create_success_params, error_embed,
    limit_reached_embed, not_long_enough_embed, success_embed, COLOR_ERROR, COLOR_INFO,
};
use invite_attribution::store::{
    create_invite, record_invite_use, update_invite_code, InviteStore, StorageError, TokenState,
};
use invite_attribution::test_helpers::TestContext;
use invite_attribution::translate::{Params, Translations};

const NOW: i64 = 1_700_000_000;
const DAY: i64 = 86_400;
const GUILD: &str = "123";

fn role(id: &str, count: i32, days: i32) -> AllowedRole {
    AllowedRole {
        id: id.to_string(),
        invite_limit: InviteLimit { count, days },
    }
}

fn test_config() -> Config {
    Config {
        bot: BotConfig {
            token: "test_token".to_string(),
            default_invite_max_age: 300,
            default_min_member_age: 60 * 86_400,
        },
        database: DatabaseConfig {
            path: "test.db".to_string(),
        },
        server: ServerConfig {
            external_url: "http://localhost:8080".to_string(),
            bind: "127.0.0.1:8080".to_string(),
        },
        i18n: I18nConfig {
            default_locale: "en".to_string(),
            available_locales: vec!["en".to_string(), "zh-TW".to_string()],
        },
        guilds: GuildConfig {
            allowed: vec![
                AllowedGuild {
                    id: GUILD.to_string(),
                    name: "Test Guild".to_string(),
                    invite_channel: "456".to_string(),
                    max_age: None,
                    min_member_age: Some(10 * 86_400),
                    locale: None,
                    allowed_roles: vec![role("small", 1, 7), role("big", 3, 30), role("same", 3, 30)],
                },
                AllowedGuild {
                    id: "tw".to_string(),
                    name: "台灣".to_string(),
                    invite_channel: "456".to_string(),
                    max_age: None,
                    min_member_age: None,
                    locale: Some("zh-TW".to_string()),
                    allowed_roles: vec![],
                },
            ],
        },
    }
}

fn request(joined_at: Option<i64>, roles: &[&str]) -> InvitesRequest {
    InvitesRequest {
        guild_id: GUILD.to_string(),
        guild_name: "Test Guild".to_string(),
        guild_icon_url: Some("https://cdn.example/icon.png".to_string()),
        author_id: "author".to_string(),
        joined_at,
        role_ids: roles.iter().map(|r| r.to_string()).collect(),
    }
}

fn pairs(params: &Params) -> Vec<(&str, &str)> {
    params.iter().map(|(k, v)| (k.as_str(), v.as_str())).collect()
}

#[test]
fn test_context_creation() {
    let test_ctx = TestContext::new();
    assert_eq!(test_ctx.db.len(), 0);
    assert_eq!(test_ctx.config.i18n.default_locale, "en");
    assert_eq!(test_ctx.config.i18n.available_locales, vec!["en"]);
    assert_eq!(test_ctx.config.bot.token, "test_token");
    assert_eq!(test_ctx.config.bot.default_invite_max_age, 300);
    assert_eq!(test_ctx.config.bot.default_min_member_age, 5184000);
    assert_eq!(test_ctx.config.server.external_url, "http://localhost:8080");
    assert_eq!(test_ctx.config.server.bind, "127.0.0.1:8080");
    assert!(test_ctx.config.guilds.allowed.is_empty());
}

#[test]
fn limit_params_name_quota_window_use_and_rest() {
    let params = create_limit_params(&role("r", 5, 7), 2);
    assert_eq!(
        pairs(&params),
        vec![("count", "5"), ("days", "7"), ("used", "2"), ("remaining", "3")]
    );
    let over = create_limit_params(&role("r", 1, 30), 4);
    assert_eq!(
        pairs(&over),
        vec![("count", "1"), ("days", "30"), ("used", "4"), ("remaining", "-3")]
    );
    let extreme = create_limit_params(&role("r", i32::MIN, i32::MAX), i64::MAX);
    assert_eq!(
        pairs(&extreme),
        vec![
            ("count", "-2147483648"),
            ("days", "2147483647"),
            ("used", "9223372036854775807"),
            ("remaining", "-9223372039002259455")
        ]
    );
}

#[test]
fn not_long_enough_params_name_days_and_rest() {
    assert_eq!(
        pairs(&create_not_long_enough_params(60, 12)),
        vec![("days", "60"), ("remaining", "12")]
    );
    assert_eq!(
        pairs(&create_not_long_enough_params(0, -3)),
        vec![("days", "0"), ("remaining", "-3")]
    );
}

#[test]
fn success_params_start_with_the_guild() {
    assert_eq!(
        pairs(&create_success_params(&role("r", 5, 7), 2, "Test Guild")),
        vec![
            ("guild", "Test Guild"),
            ("count", "5"),
            ("days", "7"),
            ("used", "2"),
            ("remaining", "3")
        ]
    );
}

#[test]
fn error_embeds_take_their_texts_from_the_key() {
    let translations = Translations::load();
    let reply = error_embed(
        &translations,
        "en",
        "commands.invites.errors.missing_permissions",
    );
    assert_eq!(reply.embed.title, "Missing permissions");
    assert_eq!(
        reply.embed.description,
        "None of your roles may create invite links."
    );
    assert_eq!(
        reply.embed.footer.as_deref(),
        Some("Ask a moderator which roles can invite.")
    );
    assert_eq!(reply.embed.color, COLOR_ERROR);
    assert_eq!(reply.embed.color, 0xFF3333);
    assert_eq!(reply.embed.thumbnail, None);
    assert!(reply.ephemeral);
    // An unknown key shows as itself.
    let unknown = error_embed(&translations, "en", "no.such");
    assert_eq!(unknown.embed.title, "no.such.title");
    assert_eq!(unknown.embed.description, "no.such.description");
    assert_eq!(unknown.embed.footer.as_deref(), Some("no.such.footer"));
    let failed = command_error_embed(&translations, "en");
    assert_eq!(failed.embed.title, "Something went wrong");
    assert!(failed.ephemeral);
}

#[test]
fn the_limit_reached_embed_lists_use_and_rest() {
    let translations = Translations::load();
    let params = create_limit_params(&role("r", 5, 7), 5);
    let reply = limit_reached_embed(&translations, "en", &params);
    assert_eq!(reply.embed.title, "Invite limit reached");
    assert_eq!(
        reply.embed.description,
        "You may invite 5 members every 7 days.\n\n**Current status**:\n• Used: 5\n• Remaining: 0"
    );
    assert_eq!(
        reply.embed.footer.as_deref(),
        Some("Only invites that were used count towards the limit.")
    );
    assert_eq!(reply.embed.color, COLOR_ERROR);
    assert!(reply.ephemeral);
}

#[test]
fn the_not_long_enough_embed_fills_description_and_footer() {
    let translations = Translations::load();
    let params = create_not_long_enough_params(60, 12);
    let reply = not_long_enough_embed(&translations, "en", &params);
    assert_eq!(reply.embed.title, "Not a member for long enough");
    assert_eq!(
        reply.embed.description,
        "You must be a member for 60 days before you can invite. You have been here for 12 days."
    );
    assert_eq!(reply.embed.footer.as_deref(), Some("Required membership: 60 days"));
    assert!(reply.ephemeral);
}

#[test]
fn the_success_embed_shows_the_link_and_the_limits() {
    let translations = Translations::load();
    let reply = success_embed(
        &translations,
        "en",
        "Test Guild",
        &role("r", 5, 7),
        2,
        "http://localhost:8080/invite/abc",
        &None,
    );
    assert_eq!(reply.embed.title, "Invite link created");
    assert_eq!(
        reply.embed.description,
        "Here is your invite link to Test Guild. It can be used once.\n\n\
         http://localhost:8080/invite/abc\n\n\
         **Your limits**:\n• 5 invites every 7 days\n• Used: 2, remaining: 3"
    );
    assert_eq!(reply.embed.color, COLOR_INFO);
    assert_eq!(reply.embed.color, 0x4CACEE);
    assert_eq!(reply.embed.thumbnail.as_deref(), Some(""));
    assert!(reply.ephemeral);
}

#[test]
fn ping_answers_in_the_locale_of_the_guild() {
    let translations = Translations::load();
    let config = test_config();
    let reply = ping(&translations, &config, GUILD);
    assert_eq!(reply.embed.title, "Pong!");
    assert_eq!(reply.embed.description, "The bot is up and running.");
    assert_eq!(reply.embed.color, COLOR_INFO);
    assert_eq!(reply.embed.footer, None);
    assert!(!reply.ephemeral);
    let reply = ping(&translations, &config, "tw");
    assert_eq!(reply.embed.title, "Pong！");
    assert_eq!(reply.embed.description, "機器人運作正常。");
}

#[test]
fn roles_are_looked_up_in_the_order_the_member_holds_them() {
    let config = test_config();
    let guild = &config.guilds.allowed[0];
    assert_eq!(find_role(guild, "big"), Some(1));
    assert_eq!(find_role(guild, "none"), None);
    let held: Vec<String> = ["same", "stranger", "small", "same"]
        .iter()
        .map(|r| r.to_string())
        .collect();
    assert_eq!(roles_of(guild, &held), vec![2, 0, 2]);
    assert_eq!(roles_of(guild, &Vec::new()), Vec::<usize>::new());
    assert_eq!(min_member_age_of(&config, guild), 10 * 86_400);
    assert_eq!(min_member_age_of(&config, &config.guilds.allowed[1]), 60 * 86_400);
}

#[test]
fn invites_checks_guild_join_date_roles_and_quota_in_turn() {
    let config = test_config();
    let mut store = InviteStore::new();
    let long_ago = Some(NOW - 100 * DAY);

    let mut stranger = request(long_ago, &["big"]);
    stranger.guild_id = "unknown".to_string();
    assert_eq!(
        decide_invites(&mut store, &config, &stranger, "id", NOW),
        InvitesOutcome::ServerNotAllowed
    );
    assert_eq!(
        decide_invites(&mut store, &config, &request(None, &["big"]), "id", NOW),
        InvitesOutcome::JoinDateNotFound
    );
    // Ten days are required; nine days and a bit have passed.
    assert_eq!(
        decide_invites(
            &mut store,
            &config,
            &request(Some(NOW - 10 * DAY + 1), &["big"]),
            "id",
            NOW
        ),
        InvitesOutcome::NotLongEnough {
            days: 10,
            remaining: 9
        }
    );
    assert_eq!(
        decide_invites(&mut store, &config, &request(Some(NOW + 3 * DAY), &[]), "id", NOW),
        InvitesOutcome::NotLongEnough {
            days: 10,
            remaining: -3
        }
    );
    assert_eq!(
        decide_invites(&mut store, &config, &request(long_ago, &["other"]), "id", NOW),
        InvitesOutcome::MissingPermissions
    );
    assert_eq!(
        decide_invites(&mut store, &config, &request(long_ago, &[]), "id", NOW),
        InvitesOutcome::MissingPermissions
    );
    assert_eq!(store.len(), 0);

    // Exactly ten days are enough.
    assert_eq!(
        decide_invites(
            &mut store,
            &config,
            &request(Some(NOW - 10 * DAY), &["small"]),
            "t1",
            NOW
        ),
        InvitesOutcome::Issued { role: 0, used: 0 }
    );
    assert_eq!(store.len(), 1);
    assert_eq!(store.token(0).unwrap().id, "t1");
    assert_eq!(store.token(0).unwrap().guild_id, GUILD);
    assert_eq!(store.token(0).unwrap().creator_id, "author");
    assert_eq!(store.token(0).unwrap().created_at, NOW);
    assert_eq!(store.token(0).unwrap().state(), TokenState::Pending);

    assert_eq!(
        decide_invites(&mut store, &config, &request(long_ago, &["small"]), "t1", NOW),
        InvitesOutcome::Failed(StorageError::DuplicateId)
    );

    assert!(record_invite_use(&mut store, "t1", "member", NOW));
    assert_eq!(
        decide_invites(&mut store, &config, &request(long_ago, &["small"]), "t2", NOW),
        InvitesOutcome::LimitReached { role: 0, used: 1 }
    );
    assert_eq!(store.len(), 1);
    // The member's most permissive role decides; of two alike, the first held.
    assert_eq!(
        decide_invites(
            &mut store,
            &config,
            &request(long_ago, &["small", "same", "big"]),
            "t2",
            NOW
        ),
        InvitesOutcome::Issued { role: 2, used: 1 }
    );
    assert_eq!(store.len(), 2);
}

#[test]
fn invites_replies_with_the_link_to_the_new_token() {
    let config = test_config();
    let translations = Translations::load();
    let mut store = InviteStore::new();
    let result = invites_with_id(
        &mut store,
        &config,
        &translations,
        &request(Some(NOW - 100 * DAY), &["big"]),
        "abc",
        NOW,
    );
    assert_eq!(result.invite_id, "abc");
    assert_eq!(result.outcome, InvitesOutcome::Issued { role: 1, used: 0 });
    assert_eq!(result.reply.embed.title, "Invite link created");
    assert_eq!(
        result.reply.embed.description,
        "Here is your invite link to Test Guild. It can be used once.\n\n\
         http://localhost:8080/invite/abc\n\n\
         **Your limits**:\n• 3 invites every 30 days\n• Used: 0, remaining: 3"
    );
    assert_eq!(
        result.reply.embed.thumbnail.as_deref(),
        Some("https://cdn.example/icon.png")
    );
    assert!(result.reply.ephemeral);

    let denied = invites_with_id(
        &mut store,
        &config,
        &translations,
        &request(Some(NOW - DAY), &["big"]),
        "def",
        NOW,
    );
    assert_eq!(
        denied.outcome,
        InvitesOutcome::NotLongEnough {
            days: 10,
            remaining: 1
        }
    );
    assert_eq!(denied.reply.embed.title, "Not a member for long enough");
    assert_eq!(denied.reply.embed.footer.as_deref(), Some("Required membership: 10 days"));

    let taken = invites_with_id(
        &mut store,
        &config,
        &translations,
        &request(Some(NOW - 100 * DAY), &["big"]),
        "abc",
        NOW,
    );
    assert_eq!(taken.outcome, InvitesOutcome::Failed(StorageError::DuplicateId));
    assert_eq!(taken.reply.embed.title, "Something went wrong");
    assert_eq!(store.len(), 1);
}

#[test]
fn invites_draws_the_id_of_the_token_it_issues() {
    let config = test_config();
    let translations = Translations::load();
    let mut store = InviteStore::new();
    let result = invites(
        &mut store,
        &config,
        &translations,
        &request(Some(NOW - 100 * DAY), &["small"]),
        NOW,
    );
    assert_eq!(result.outcome, InvitesOutcome::Issued { role: 0, used: 0 });
    assert_eq!(result.invite_id.len(), 36);
    assert_eq!(store.len(), 1);
    assert_eq!(store.token(0).unwrap().id, result.invite_id);
    assert!(result.reply.embed.description.contains(&format!(
        "http://localhost:8080/invite/{}",
        result.invite_id
    )));
}

#[test]
fn inviter_tells_who_invited_a_member() {
    let config = test_config();
    let translations = Translations::load();
    let mut store = InviteStore::new();
    create_invite(&mut store, "t1", GUILD, "987654321", NOW - 5 * DAY).unwrap();
    create_invite(&mut store, "t2", GUILD, "not-a-number", NOW - 5 * DAY).unwrap();
    create_invite(&mut store, "t3", GUILD, "0", NOW - 5 * DAY).unwrap();
    update_invite_code(&mut store, "t1", "abc123");
    assert!(record_invite_use(&mut store, "t1", "111", 1_700_000_000 - 3 * DAY));
    assert!(record_invite_use(&mut store, "t2", "222", NOW));
    assert!(record_invite_use(&mut store, "t3", "333", NOW));

    let found = inviter_lookup(&store, "111");
    match &found {
        InviterLookup::Found { creator, info } => {
            assert_eq!(*creator, 987654321);
            assert_eq!(info.creator_id, "987654321");
            assert_eq!(info.used_at, NOW - 3 * DAY);
            assert_eq!(info.discord_invite_code.as_deref(), Some("abc123"));
        }
        other => panic!("expected a record, got {:?}", other),
    }
    let avatar = Some("https://cdn.example/avatar.png".to_string());
    let reply = inviter(&translations, &config, GUILD, "111", &avatar, &found, NOW);
    assert_eq!(reply.embed.title, "Invite record");
    assert_eq!(
        reply.embed.description,
        "**User**: <@111>\n**Invited by**: <@987654321>\n\
         **Date**: 2023-11-11 22:13:20 (3 days ago)\n**Invite code**: abc123"
    );
    assert_eq!(reply.embed.color, COLOR_INFO);
    assert_eq!(
        reply.embed.thumbnail.as_deref(),
        Some("https://cdn.example/avatar.png")
    );
    assert_eq!(
        reply.embed.footer.as_deref(),
        Some("Invite records are kept per member.")
    );
    assert!(!reply.ephemeral);

    let invalid = inviter_lookup(&store, "222");
    assert!(matches!(invalid, InviterLookup::InvalidUser));
    assert!(matches!(inviter_lookup(&store, "333"), InviterLookup::InvalidUser));
    let reply = inviter(&translations, &config, GUILD, "222", &None, &invalid, NOW);
    assert_eq!(reply.embed.title, "Unknown inviter");
    assert!(reply.ephemeral);

    let missing = inviter_lookup(&store, "444");
    assert!(matches!(missing, InviterLookup::NoRecord));
    let reply = inviter(&translations, &config, GUILD, "444", &None, &missing, NOW);
    assert_eq!(reply.embed.title, "No invite record");
    assert_eq!(
        reply.embed.description,
        "There is no record of who invited <@444>."
    );
    assert_eq!(reply.embed.color, COLOR_ERROR);
    assert!(reply.ephemeral);
}

#[test]
fn the_leaderboard_is_shown_rank_by_rank() {
    let translations = Translations::load();
    let entries = vec![
        InviteLeaderboardEntry {
            creator_id: "42".to_string(),
            invite_count: 7,
        },
        InviteLeaderboardEntry {
            creator_id: "17".to_string(),
            invite_count: 1,
        },
    ];
    let reply = leaderboard_embed(&translations, "en", "Test Guild", &None, 30, &entries);
    assert_eq!(reply.embed.title, "Invite leaderboard of Test Guild");
    assert_eq!(
        reply.embed.description,
        "**#1 →** <@42> [7 invites]\n\n**#2 →** <@17> [1 invites]\n\n"
    );
    assert_eq!(reply.embed.color, COLOR_INFO);
    assert_eq!(reply.embed.thumbnail.as_deref(), Some(""));
    assert!(!reply.ephemeral);

    let empty = leaderboard_embed(&translations, "en", "Test Guild", &None, 14, &Vec::new());
    assert_eq!(empty.embed.title, "No invites yet");
    assert_eq!(empty.embed.description, "Nobody was invited in the last 14 days.");
    assert_eq!(empty.embed.color, COLOR_ERROR);
    assert!(empty.ephemeral);
}

#[test]
fn the_leaderboard_command_looks_back_thirty_days_by_default() {
    let config = test_config();
    let translations = Translations::load();
    let mut store = InviteStore::new();
    for (n, creator, age) in [(0, "a", 1), (1, "b", 29), (2, "b", 20), (3, "c", 31)] {
        let id = format!("t{}", n);
        create_invite(&mut store, &id, GUILD, creator, NOW - age * DAY).unwrap();
        assert!(record_invite_use(&mut store, &id, "member", NOW));
    }
    let reply = invites_leaderboard(
        &store,
        &translations,
        &config,
        GUILD,
        "Test Guild",
        &None,
        None,
        NOW,
    );
    assert_eq!(
        reply.embed.description,
        "**#1 →** <@b> [2 invites]\n\n**#2 →** <@a> [1 invites]\n\n"
    );
    let week = invites_leaderboard(
        &store,
        &translations,
        &config,
        GUILD,
        "Test Guild",
        &None,
        Some(7),
        NOW,
    );
    assert_eq!(week.embed.description, "**#1 →** <@a> [1 invites]\n\n");
    let none = invites_leaderboard(
        &store,
        &translations,
        &config,
        "tw",
        "台灣",
        &None,
        Some(7),
        NOW,
    );
    assert_eq!(none.embed.title, "尚無邀請");
    assert_eq!(none.embed.description, "過去 7 天內沒有人被邀請。");
}
