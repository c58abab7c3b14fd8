use invite_attribution::config::{
    AllowedGuild, AllowedRole, BotConfig, Config, DatabaseConfig, GuildConfig, I18nConfig,
    InviteLimit, ServerConfig,
};
use invite_attribution::issuer::{issue_token, issue_token_with_id, IssueError};
use invite_attribution::leaderboard::{get_invite_leaderboard, ranks_ahead, InviteLeaderboardEntry};
use invite_attribution::limiter::{check, most_permissive, RateDecision};
use invite_attribution::materializer::{
    channel_of, handle_invite, invite_url, max_age_of, InviteRequest, MaterializeError,
    RedirectAction, RedirectEvent,
};
use invite_attribution::reconciler::{arrival_channel, handle_guild_member_add, ActiveInvite};
use invite_attribution::store::{
    create_invite, get_unused_invite, record_invite_use, update_invite_code, InviteStore,
    StorageError, TokenState,
};

const NOW: i64 = 1_700_000_000;
const DAY: i64 = 86_400;
const GUILD: &str = "123456789";

fn guild(id: &str, channel: &str, max_age: Option<u32>) -> AllowedGuild {
    AllowedGuild {
        id: id.to_string(),
        name: "Test Guild".to_string(),
        invite_channel: channel.to_string(),
        max_age,
        min_member_age: None,
        locale: None,
        allowed_roles: vec![AllowedRole {
            id: "789".to_string(),
            invite_limit: InviteLimit { count: 1, days: 7 },
        }],
    }
}

fn config_with(guilds: Vec<AllowedGuild>) -> Config {
    Config {
        bot: BotConfig {
            token: "test_token".to_string(),
            default_invite_max_age: 300,
            default_min_member_age: 5184000,
        },
        database: DatabaseConfig {
            path: "test.db".to_string(),
        },
        server: ServerConfig {
            external_url: "http://localhost:8080".to_string(),
            bind: "127.0.0.1:8080".to_string(),
        },
        i18n: I18nConfig {
            default_locale: "en".to_string(),
            available_locales: vec!["en".to_string()],
        },
        guilds: GuildConfig { allowed: guilds },
    }
}

fn active(code: &str, max_uses: u8, uses: u64, created_at: i64) -> ActiveInvite {
    ActiveInvite {
        code: code.to_string(),
        max_uses,
        uses,
        created_at,
    }
}

fn redirect_url(action: RedirectAction) -> String {
    match action {
        RedirectAction::Redirect(url) => url,
        other => panic!("expected a redirect, got {:?}", other),
    }
}

fn rejection(action: RedirectAction) -> MaterializeError {
    match action {
        RedirectAction::Reject(error) => error,
        other => panic!("expected a rejection, got {:?}", other),
    }
}

#[test]
fn scenario_quota_counts_redemptions_not_issues() {
    let limit = InviteLimit { count: 1, days: 7 };
    let mut store = InviteStore::new();

    // The first issue succeeds, and the token is pending.
    assert_eq!(
        issue_token_with_id(&mut store, "T1", GUILD, "C", &limit, NOW),
        Ok(())
    );
    assert_eq!(store.token(0).unwrap().state(), TokenState::Pending);

    // A second issue before any redemption succeeds too.
    assert_eq!(
        issue_token_with_id(&mut store, "T2", GUILD, "C", &limit, NOW + 1),
        Ok(())
    );
    assert_eq!(store.len(), 2);

    // T1 is materialized, and a member joins through its code.
    assert!(update_invite_code(&mut store, "T1", "code-1"));
    let listed = vec![active("code-1", 2, 1, NOW + 2)];
    let outcome = handle_guild_member_add(&mut store, GUILD, "member", &listed, NOW + 3).unwrap();
    assert_eq!(outcome.invite_id, "T1");
    assert_eq!(outcome.code, "code-1");
    assert_eq!(store.token(0).unwrap().state(), TokenState::Redeemed);
    assert_eq!(store.token(0).unwrap().used_by.as_deref(), Some("member"));
    assert_eq!(store.token(0).unwrap().used_at, Some(NOW + 3));

    // The third issue is denied.
    assert_eq!(
        issue_token_with_id(&mut store, "T3", GUILD, "C", &limit, NOW + 4),
        Err(IssueError::Denied {
            used: 1,
            remaining: 0
        })
    );
    assert_eq!(store.len(), 2);
}

#[test]
fn scenario_two_arrivals_on_one_code() {
    let mut store = InviteStore::new();
    create_invite(&mut store, "T2", GUILD, "C", NOW).unwrap();
    update_invite_code(&mut store, "T2", "shared");
    // Both arrivals saw the same listing.
    let listed = vec![active("shared", 2, 1, NOW)];

    let first = handle_guild_member_add(&mut store, GUILD, "anna", &listed, NOW + 1);
    let second = handle_guild_member_add(&mut store, GUILD, "bert", &listed, NOW + 1);

    assert_eq!(first.unwrap().invite_id, "T2");
    assert!(second.is_none());
    assert_eq!(store.token(0).unwrap().used_by.as_deref(), Some("anna"));
    assert_eq!(store.token(0).unwrap().used_at, Some(NOW + 1));
}

#[test]
fn scenario_leaderboard_breaks_ties_by_creator_id() {
    let mut store = InviteStore::new();
    // B's tokens come first in the store, A's id comes first in the order.
    for (n, creator) in ["B", "B", "B", "A", "A", "A"].iter().enumerate() {
        let id = format!("t{}", n);
        create_invite(&mut store, &id, GUILD, creator, NOW - DAY).unwrap();
        assert!(record_invite_use(&mut store, &id, "member", NOW));
    }
    let board = get_invite_leaderboard(&store, GUILD, 30, 5, NOW);
    assert_eq!(board.len(), 2);
    assert_eq!(board[0].creator_id, "A");
    assert_eq!(board[0].invite_count, 3);
    assert_eq!(board[1].creator_id, "B");
    assert_eq!(board[1].invite_count, 3);
}

#[test]
fn leaderboard_ranks_by_count_then_id_and_cuts_at_the_limit() {
    let mut store = InviteStore::new();
    let redeemed = [
        ("zed", 2),
        ("amy", 1),
        ("bob", 4),
        ("10", 2),
        ("9", 2),
        ("eve", 1),
    ];
    let mut n = 0;
    for (creator, count) in redeemed {
        for _ in 0..count {
            let id = format!("t{}", n);
            n += 1;
            create_invite(&mut store, &id, GUILD, creator, NOW - DAY).unwrap();
            assert!(record_invite_use(&mut store, &id, "member", NOW));
        }
    }
    // Tokens that do not count: pending, too old, another guild.
    create_invite(&mut store, "p", GUILD, "amy", NOW - DAY).unwrap();
    create_invite(&mut store, "o", GUILD, "amy", NOW - 31 * DAY).unwrap();
    record_invite_use(&mut store, "o", "member", NOW);
    create_invite(&mut store, "e", "elsewhere", "amy", NOW - DAY).unwrap();
    record_invite_use(&mut store, "e", "member", NOW);

    let pairs = |board: Vec<InviteLeaderboardEntry>| -> Vec<(String, i64)> {
        board
            .into_iter()
            .map(|e| (e.creator_id, e.invite_count))
            .collect()
    };
    let expected: Vec<(String, i64)> = [
        ("bob", 4),
        ("10", 2),
        ("9", 2),
        ("zed", 2),
        ("amy", 1),
        ("eve", 1),
    ]
    .iter()
    .map(|(c, n)| (c.to_string(), *n))
    .collect();

    assert_eq!(pairs(get_invite_leaderboard(&store, GUILD, 30, 10, NOW)), expected);
    assert_eq!(pairs(get_invite_leaderboard(&store, GUILD, 30, 6, NOW)), expected);
    assert_eq!(
        pairs(get_invite_leaderboard(&store, GUILD, 30, 5, NOW)),
        expected[..5].to_vec()
    );
    assert_eq!(
        pairs(get_invite_leaderboard(&store, GUILD, 30, 1, NOW)),
        expected[..1].to_vec()
    );
    assert!(get_invite_leaderboard(&store, GUILD, 30, 0, NOW).is_empty());
    // A negative number of days looks back over none.
    assert!(get_invite_leaderboard(&store, GUILD, -5, 5, NOW).is_empty());
    assert!(get_invite_leaderboard(&store, GUILD, 0, 5, NOW).is_empty());
    assert!(get_invite_leaderboard(&store, "nowhere", 30, 5, NOW).is_empty());
}

#[test]
fn ranking_puts_more_first_and_the_smaller_id_first() {
    let entry = |creator: &str, count: i64| InviteLeaderboardEntry {
        creator_id: creator.to_string(),
        invite_count: count,
    };
    assert!(ranks_ahead(&entry("b", 3), &entry("a", 2)));
    assert!(!ranks_ahead(&entry("a", 2), &entry("b", 3)));
    assert!(ranks_ahead(&entry("a", 2), &entry("b", 2)));
    assert!(!ranks_ahead(&entry("b", 2), &entry("a", 2)));
    assert!(!ranks_ahead(&entry("a", 2), &entry("a", 2)));
    // Ids are compared as texts, not as numbers.
    assert!(ranks_ahead(&entry("10", 1), &entry("9", 1)));
    assert!(ranks_ahead(&entry("a", 1), &entry("ab", 1)));
    assert!(ranks_ahead(&entry("", 1), &entry("a", 1)));
}

#[test]
fn check_denies_exactly_when_the_quota_is_reached() {
    let mut store = InviteStore::new();
    let limit = InviteLimit { count: 2, days: 7 };
    assert_eq!(check(&store, "C", GUILD, &limit, NOW), RateDecision::Allow);
    for (n, id) in ["a", "b", "c"].iter().enumerate() {
        create_invite(&mut store, id, GUILD, "C", NOW).unwrap();
        // Pending tokens never count.
        let before = check(&store, "C", GUILD, &limit, NOW);
        assert!(record_invite_use(&mut store, id, "member", NOW));
        let used = n as i64 + 1;
        let after = check(&store, "C", GUILD, &limit, NOW);
        if n == 0 {
            assert_eq!(before, RateDecision::Allow);
            assert_eq!(after, RateDecision::Allow);
        } else {
            assert_eq!(
                after,
                RateDecision::Deny {
                    used,
                    remaining: 2 - used
                }
            );
        }
    }
    assert_eq!(
        check(&store, "C", GUILD, &limit, NOW),
        RateDecision::Deny {
            used: 3,
            remaining: -1
        }
    );
    // A quota of nothing denies at once, a negative one too.
    let empty = InviteStore::new();
    assert_eq!(
        check(&empty, "C", GUILD, &InviteLimit { count: 0, days: 7 }, NOW),
        RateDecision::Deny {
            used: 0,
            remaining: 0
        }
    );
    assert_eq!(
        check(&empty, "C", GUILD, &InviteLimit { count: -2, days: 7 }, NOW),
        RateDecision::Deny {
            used: 0,
            remaining: -2
        }
    );
    // Redemptions outside the window free the quota again.
    assert_eq!(check(&store, "C", GUILD, &limit, NOW + 8 * DAY), RateDecision::Allow);
}

#[test]
fn the_most_permissive_limit_is_the_one_that_leaves_the_most() {
    let mut store = InviteStore::new();
    create_invite(&mut store, "old", GUILD, "C", NOW - 20 * DAY).unwrap();
    create_invite(&mut store, "new", GUILD, "C", NOW - DAY).unwrap();
    record_invite_use(&mut store, "old", "m1", NOW);
    record_invite_use(&mut store, "new", "m2", NOW);
    let limits = vec![
        InviteLimit { count: 2, days: 30 }, // leaves 0
        InviteLimit { count: 2, days: 7 },  // leaves 1
        InviteLimit { count: 3, days: 30 }, // leaves 1
        InviteLimit { count: 1, days: 1 },  // leaves 1
    ];
    assert_eq!(most_permissive(&store, "C", GUILD, &limits, NOW), Some(1));
    assert_eq!(most_permissive(&store, "C", GUILD, &limits[..1].to_vec(), NOW), Some(0));
    assert_eq!(most_permissive(&store, "C", GUILD, &Vec::new(), NOW), None);
    // For a member without redemptions the largest quota wins.
    assert_eq!(most_permissive(&store, "D", GUILD, &limits, NOW), Some(2));
}

#[test]
fn issue_token_draws_a_fresh_hyphenated_id() {
    let mut store = InviteStore::new();
    let limit = InviteLimit { count: 5, days: 7 };
    let first = issue_token(&mut store, GUILD, "C", &limit, NOW).unwrap();
    let second = issue_token(&mut store, GUILD, "C", &limit, NOW).unwrap();
    assert_ne!(first, second);
    for id in [&first, &second] {
        assert_eq!(id.len(), 36);
        for (i, c) in id.chars().enumerate() {
            if [8, 13, 18, 23].contains(&i) {
                assert_eq!(c, '-');
            } else {
                assert!(c.is_ascii_digit() || ('a'..='f').contains(&c));
            }
        }
    }
    assert_eq!(store.len(), 2);
    assert_eq!(store.token(0).unwrap().id, first);
    assert_eq!(store.token(1).unwrap().id, second);
    assert_eq!(store.token(1).unwrap().guild_id, GUILD);
    assert_eq!(store.token(1).unwrap().creator_id, "C");
    assert_eq!(store.token(1).unwrap().created_at, NOW);
    assert_eq!(store.token(1).unwrap().state(), TokenState::Pending);

    let none = InviteLimit { count: 0, days: 7 };
    assert_eq!(
        issue_token(&mut store, GUILD, "C", &none, NOW),
        Err(IssueError::Denied {
            used: 0,
            remaining: 0
        })
    );
    assert_eq!(store.len(), 2);
}

#[test]
fn issue_with_a_taken_id_reports_the_store_error() {
    let mut store = InviteStore::new();
    let limit = InviteLimit { count: 5, days: 7 };
    assert_eq!(issue_token_with_id(&mut store, "T", GUILD, "C", &limit, NOW), Ok(()));
    assert_eq!(
        issue_token_with_id(&mut store, "T", GUILD, "D", &limit, NOW),
        Err(IssueError::Storage(StorageError::DuplicateId))
    );
    assert_eq!(store.len(), 1);
}

#[test]
fn materialize_asks_for_a_code_once_and_then_repeats_it() {
    let config = config_with(vec![guild(GUILD, "456", Some(7200))]);
    let mut store = InviteStore::new();
    create_invite(&mut store, "T", GUILD, "C", NOW).unwrap();

    // The first visit asks for a two-use code with the guild's lifetime.
    match handle_invite(&mut store, &config, "T", &RedirectEvent::Visit) {
        RedirectAction::CreateInvite(request) => assert_eq!(
            request,
            InviteRequest {
                channel_id: 456,
                max_age: 7200,
                max_uses: 2,
                temporary: false
            }
        ),
        other => panic!("expected a request for a code, got {:?}", other),
    }
    assert_eq!(store.token(0).unwrap().state(), TokenState::Pending);

    let created = RedirectEvent::InviteCreated("abc123".to_string());
    let first = redirect_url(handle_invite(&mut store, &config, "T", &created));
    assert_eq!(first, "https://discord.gg/abc123");
    assert_eq!(store.token(0).unwrap().external_code.as_deref(), Some("abc123"));

    // Later visits are answered at once with the same URL.
    let second = redirect_url(handle_invite(&mut store, &config, "T", &RedirectEvent::Visit));
    assert_eq!(second, first);
    // A code minted by a visit that lost the race is not taken.
    let late = RedirectEvent::InviteCreated("zzz999".to_string());
    let third = redirect_url(handle_invite(&mut store, &config, "T", &late));
    assert_eq!(third, first);
    assert_eq!(store.token(0).unwrap().external_code.as_deref(), Some("abc123"));
    assert_eq!(store.len(), 1);
}

#[test]
fn materialize_uses_the_default_lifetime_without_an_override() {
    let config = config_with(vec![guild(GUILD, "+456", None)]);
    let mut store = InviteStore::new();
    create_invite(&mut store, "T", GUILD, "C", NOW).unwrap();
    match handle_invite(&mut store, &config, "T", &RedirectEvent::Visit) {
        RedirectAction::CreateInvite(request) => {
            assert_eq!(request.channel_id, 456);
            assert_eq!(request.max_age, 300);
            assert_eq!(request.max_uses, 2);
            assert!(!request.temporary);
        }
        other => panic!("expected a request for a code, got {:?}", other),
    }
    assert_eq!(max_age_of(&config, &config.guilds.allowed[0]), 300);
}

#[test]
fn materialize_rejects_what_it_cannot_serve() {
    let config = config_with(vec![
        guild("bad-channel", "general", None),
        guild("zero-channel", "0", None),
    ]);
    let mut store = InviteStore::new();
    create_invite(&mut store, "used", GUILD, "C", NOW).unwrap();
    create_invite(&mut store, "stray", "unconfigured", "C", NOW).unwrap();
    create_invite(&mut store, "bad", "bad-channel", "C", NOW).unwrap();
    create_invite(&mut store, "zero", "zero-channel", "C", NOW).unwrap();
    update_invite_code(&mut store, "used", "abc");
    assert!(record_invite_use(&mut store, "used", "member", NOW));

    let visit = RedirectEvent::Visit;
    let created = RedirectEvent::InviteCreated("new".to_string());
    // A redeemed token is gone, whatever it held.
    assert_eq!(
        rejection(handle_invite(&mut store, &config, "used", &visit)),
        MaterializeError::NotFound
    );
    assert_eq!(
        rejection(handle_invite(&mut store, &config, "used", &created)),
        MaterializeError::NotFound
    );
    assert_eq!(store.token(0).unwrap().external_code.as_deref(), Some("abc"));
    assert_eq!(
        rejection(handle_invite(&mut store, &config, "unknown", &visit)),
        MaterializeError::NotFound
    );
    assert_eq!(
        rejection(handle_invite(&mut store, &config, "stray", &visit)),
        MaterializeError::ServerNotFound
    );
    assert_eq!(
        rejection(handle_invite(&mut store, &config, "bad", &visit)),
        MaterializeError::InvalidChannel
    );
    assert_eq!(
        rejection(handle_invite(&mut store, &config, "zero", &visit)),
        MaterializeError::InvalidChannel
    );
    // A failure of the platform changes nothing and may be retried.
    assert_eq!(
        rejection(handle_invite(&mut store, &config, "bad", &RedirectEvent::InviteFailed)),
        MaterializeError::ExternalUnavailable
    );
    assert_eq!(store.token(2).unwrap().state(), TokenState::Pending);
    assert!(get_unused_invite(&store, "bad").is_some());
}

#[test]
fn channels_are_nonzero_decimal_numbers() {
    let channel = |text: &str| channel_of(&guild(GUILD, text, None));
    assert_eq!(channel("456"), Some(456));
    assert_eq!(channel("+456"), Some(456));
    assert_eq!(channel("000456"), Some(456));
    assert_eq!(channel("18446744073709551615"), Some(u64::MAX));
    assert_eq!(channel("18446744073709551616"), None);
    assert_eq!(channel("0"), None);
    assert_eq!(channel("+0"), None);
    assert_eq!(channel(""), None);
    assert_eq!(channel("+"), None);
    assert_eq!(channel("-456"), None);
    assert_eq!(channel("45 6"), None);
    assert_eq!(channel("456a"), None);
    assert_eq!(channel("４５６"), None);
}

#[test]
fn invite_urls_lead_to_the_platform() {
    assert_eq!(invite_url("abc"), "https://discord.gg/abc");
    assert_eq!(invite_url(""), "https://discord.gg/");
}

#[test]
fn an_arrival_without_a_match_changes_nothing() {
    let mut store = InviteStore::new();
    create_invite(&mut store, "T1", GUILD, "C", NOW).unwrap();
    create_invite(&mut store, "T2", "elsewhere", "C", NOW).unwrap();
    create_invite(&mut store, "T3", GUILD, "C", NOW).unwrap();
    update_invite_code(&mut store, "T1", "one");
    update_invite_code(&mut store, "T2", "two");
    let listed = vec![
        active("one", 2, 0, NOW),     // not used yet
        active("one", 2, 2, NOW),     // used up
        active("one", 1, 1, NOW),     // not minted for two uses
        active("one", 0, 1, NOW),     // a permanent invite
        active("two", 2, 1, NOW),     // belongs to another guild
        active("organic", 2, 1, NOW), // not ours
    ];
    assert!(handle_guild_member_add(&mut store, GUILD, "member", &listed, NOW).is_none());
    assert!(handle_guild_member_add(&mut store, GUILD, "member", &Vec::new(), NOW).is_none());
    for i in 0..3 {
        assert_eq!(store.token(i).unwrap().used_at, None);
        assert_eq!(store.token(i).unwrap().used_by, None);
    }
    assert_eq!(store.len(), 3);
}

#[test]
fn an_arrival_prefers_the_most_recently_minted_match() {
    let mut store = InviteStore::new();
    for (id, code) in [("T1", "one"), ("T2", "two"), ("T3", "three"), ("T4", "four")] {
        create_invite(&mut store, id, GUILD, "C", NOW).unwrap();
        update_invite_code(&mut store, id, code);
    }
    let listed = vec![
        active("one", 2, 1, NOW + 10),
        active("organic", 2, 1, NOW + 99),
        active("two", 2, 1, NOW + 30),
        active("three", 2, 1, NOW + 30),
        active("four", 2, 0, NOW + 50),
    ];
    // "two" and "three" are the newest matches; the first listed wins.
    let first = handle_guild_member_add(&mut store, GUILD, "m1", &listed, NOW + 60).unwrap();
    assert_eq!(first.invite_id, "T2");
    assert_eq!(first.code, "two");
    // With the same stale listing the next arrival gets the next match.
    let second = handle_guild_member_add(&mut store, GUILD, "m2", &listed, NOW + 61).unwrap();
    assert_eq!(second.invite_id, "T3");
    let third = handle_guild_member_add(&mut store, GUILD, "m3", &listed, NOW + 62).unwrap();
    assert_eq!(third.invite_id, "T1");
    assert!(handle_guild_member_add(&mut store, GUILD, "m4", &listed, NOW + 63).is_none());
    assert_eq!(store.token(0).unwrap().used_by.as_deref(), Some("m3"));
    assert_eq!(store.token(1).unwrap().used_by.as_deref(), Some("m1"));
    assert_eq!(store.token(2).unwrap().used_by.as_deref(), Some("m2"));
    assert_eq!(store.token(3).unwrap().used_by, None);
}

#[test]
fn arrivals_are_listed_in_the_invite_channel_of_a_configured_guild() {
    let config = config_with(vec![guild(GUILD, "456", None), guild("broken", "x", None)]);
    assert_eq!(arrival_channel(&config, GUILD), Some(456));
    assert_eq!(arrival_channel(&config, "broken"), None);
    assert_eq!(arrival_channel(&config, "unknown"), None);
}
