use invite_attribution::leaderboard::get_invite_leaderboard;
use invite_attribution::store::{
    count_used_invites, create_invite, find_invite_by_code, get_unused_invite,
    get_user_invite_info, record_invite_use, update_invite_code, within_window, InviteStore,
    InviteToken, StorageError, TokenState,
};

const NOW: i64 = 1_700_000_000;
const DAY: i64 = 86_400;

#[test]
fn test_create_and_get_invite() {
    let mut store = InviteStore::new();
    let invite_id = "2f1e9ffe-6a0a-4d63-9c3c-1d2a4a9f0b11";
    let guild_id = "123456789";
    let creator_id = "987654321";

    // Test create invite
    create_invite(&mut store, invite_id, guild_id, creator_id, NOW).unwrap();

    // Test get unused invite
    let invite = get_unused_invite(&store, invite_id).unwrap();
    assert_eq!(invite.guild_id, guild_id);
    assert_eq!(invite.creator_id, creator_id);
    assert!(invite.code.is_none());
}

#[test]
fn test_invite_leaderboard() {
    let mut store = InviteStore::new();
    let guild_id = "123456789";
    let creator_id = "987654321";
    let user_id = "111222333";

    // Create multiple invites
    for n in 0..3 {
        let invite_id = format!("invite-{}", n);
        create_invite(&mut store, &invite_id, guild_id, creator_id, NOW).unwrap();
        assert!(record_invite_use(&mut store, &invite_id, user_id, NOW));
    }

    // Test leaderboard
    let entries = get_invite_leaderboard(&store, guild_id, 30, 5, NOW);
    assert_eq!(entries.len(), 1);
    assert_eq!(entries[0].creator_id, creator_id);
    assert_eq!(entries[0].invite_count, 3);
}

#[test]
fn test_mark_invite_used() {
    let mut store = InviteStore::new();
    let invite_id = "0b0d6c56-58a3-4f0e-8a44-7d5a0c1e2f33";
    let guild_id = "123456789";
    let creator_id = "987654321";
    let user_id = "111222333";

    // Create invite
    create_invite(&mut store, invite_id, guild_id, creator_id, NOW).unwrap();

    // Mark as used
    assert!(record_invite_use(&mut store, invite_id, user_id, NOW + 100));

    // Verify invite is marked as used
    let invite = get_unused_invite(&store, invite_id);
    assert!(invite.is_none());
}

#[test]
fn a_new_store_is_empty() {
    let store = InviteStore::new();
    assert_eq!(store.len(), 0);
    assert!(get_unused_invite(&store, "anything").is_none());
    assert!(find_invite_by_code(&store, "g", "code").is_none());
    assert!(get_user_invite_info(&store, "u").is_none());
    assert_eq!(count_used_invites(&store, "c", "g", 7, NOW), 0);
    assert!(get_invite_leaderboard(&store, "g", 30, 5, NOW).is_empty());
}

#[test]
fn create_rejects_a_taken_id_and_changes_nothing() {
    let mut store = InviteStore::new();
    assert_eq!(create_invite(&mut store, "t1", "g", "alice", NOW), Ok(()));
    assert_eq!(
        create_invite(&mut store, "t1", "other", "bob", NOW + 1),
        Err(StorageError::DuplicateId)
    );
    assert_eq!(store.len(), 1);
    let kept = store.token(0).unwrap();
    assert_eq!(kept.id, "t1");
    assert_eq!(kept.guild_id, "g");
    assert_eq!(kept.creator_id, "alice");
    assert_eq!(kept.created_at, NOW);
    assert_eq!(kept.external_code, None);
    assert_eq!(kept.used_at, None);
    assert_eq!(kept.used_by, None);
    assert_eq!(kept.state(), TokenState::Pending);
}

#[test]
fn tokens_keep_the_order_of_issue() {
    let mut store = InviteStore::new();
    for id in ["c", "a", "b"] {
        create_invite(&mut store, id, "g", "alice", NOW).unwrap();
    }
    assert_eq!(store.len(), 3);
    assert_eq!(store.token(0).unwrap().id, "c");
    assert_eq!(store.token(1).unwrap().id, "a");
    assert_eq!(store.token(2).unwrap().id, "b");
}

#[test]
fn the_first_external_code_is_authoritative() {
    let mut store = InviteStore::new();
    create_invite(&mut store, "t1", "g", "alice", NOW).unwrap();
    assert!(update_invite_code(&mut store, "t1", "first"));
    assert_eq!(store.token(0).unwrap().state(), TokenState::Materialized);
    assert!(!update_invite_code(&mut store, "t1", "second"));
    assert_eq!(store.token(0).unwrap().external_code.as_deref(), Some("first"));
    assert_eq!(
        get_unused_invite(&store, "t1").unwrap().code.as_deref(),
        Some("first")
    );
    // An unknown token takes no code.
    assert!(!update_invite_code(&mut store, "t2", "third"));
    assert_eq!(store.len(), 1);
}

#[test]
fn a_redemption_records_who_and_when() {
    let mut store = InviteStore::new();
    create_invite(&mut store, "t1", "g", "alice", NOW).unwrap();
    create_invite(&mut store, "t2", "g", "alice", NOW).unwrap();
    assert!(record_invite_use(&mut store, "t2", "bob", NOW + 5));
    let used = store.token(1).unwrap();
    assert_eq!(used.used_at, Some(NOW + 5));
    assert_eq!(used.used_by.as_deref(), Some("bob"));
    assert_eq!(used.state(), TokenState::Redeemed);
    // The other token is untouched.
    let other = store.token(0).unwrap();
    assert_eq!(other.used_at, None);
    assert_eq!(other.used_by, None);
    assert_eq!(other.state(), TokenState::Pending);
    // An unknown token cannot be claimed.
    assert!(!record_invite_use(&mut store, "t3", "bob", NOW + 6));
}

#[test]
fn of_two_claims_on_one_token_only_the_first_succeeds() {
    let mut store = InviteStore::new();
    create_invite(&mut store, "t1", "g", "alice", NOW).unwrap();
    assert!(record_invite_use(&mut store, "t1", "bob", NOW + 1));
    assert!(!record_invite_use(&mut store, "t1", "carol", NOW + 2));
    let token = store.token(0).unwrap();
    assert_eq!(token.used_by.as_deref(), Some("bob"));
    assert_eq!(token.used_at, Some(NOW + 1));

    // The other order: carol first.
    let mut store = InviteStore::new();
    create_invite(&mut store, "t1", "g", "alice", NOW).unwrap();
    assert!(record_invite_use(&mut store, "t1", "carol", NOW + 2));
    assert!(!record_invite_use(&mut store, "t1", "bob", NOW + 1));
    let token = store.token(0).unwrap();
    assert_eq!(token.used_by.as_deref(), Some("carol"));
    assert_eq!(token.used_at, Some(NOW + 2));
}

#[test]
fn a_code_resolves_only_within_its_guild_and_while_unused() {
    let mut store = InviteStore::new();
    create_invite(&mut store, "t1", "g1", "alice", NOW).unwrap();
    create_invite(&mut store, "t2", "g2", "alice", NOW).unwrap();
    update_invite_code(&mut store, "t1", "abc");
    update_invite_code(&mut store, "t2", "xyz");
    assert_eq!(find_invite_by_code(&store, "g1", "abc").as_deref(), Some("t1"));
    assert_eq!(find_invite_by_code(&store, "g2", "xyz").as_deref(), Some("t2"));
    assert_eq!(find_invite_by_code(&store, "g2", "abc"), None);
    assert_eq!(find_invite_by_code(&store, "g1", "ab"), None);
    assert!(record_invite_use(&mut store, "t1", "bob", NOW));
    assert_eq!(find_invite_by_code(&store, "g1", "abc"), None);
}

#[test]
fn of_two_tokens_with_one_code_the_first_issued_is_found() {
    let mut store = InviteStore::new();
    create_invite(&mut store, "t1", "g", "alice", NOW).unwrap();
    create_invite(&mut store, "t2", "g", "alice", NOW).unwrap();
    update_invite_code(&mut store, "t2", "abc");
    update_invite_code(&mut store, "t1", "abc");
    assert_eq!(find_invite_by_code(&store, "g", "abc").as_deref(), Some("t1"));
    assert!(record_invite_use(&mut store, "t1", "bob", NOW));
    assert_eq!(find_invite_by_code(&store, "g", "abc").as_deref(), Some("t2"));
}

#[test]
fn the_window_is_open_at_its_start() {
    // A token created exactly `days` days ago lies outside the window.
    assert!(!within_window(NOW - 7 * DAY, 7, NOW));
    assert!(within_window(NOW - 7 * DAY + 1, 7, NOW));
    assert!(within_window(NOW, 7, NOW));
    assert!(within_window(NOW + 10, 7, NOW));
    // A window of no days holds only what is created after now.
    assert!(!within_window(NOW, 0, NOW));
    assert!(within_window(NOW + 1, 0, NOW));
    // A window of negative length holds nothing.
    assert!(!within_window(NOW, -1, NOW));
    assert!(!within_window(NOW + 10 * DAY, -1, NOW));
    // The extremes do not overflow.
    assert!(within_window(i64::MAX, i32::MAX, i64::MIN));
    assert!(!within_window(i64::MIN, i32::MAX, i64::MAX));
    assert!(!within_window(i64::MIN, i32::MIN, i64::MIN));
}

#[test]
fn only_redeemed_tokens_within_the_window_are_counted() {
    let mut store = InviteStore::new();
    create_invite(&mut store, "old", "g", "alice", NOW - 8 * DAY).unwrap();
    create_invite(&mut store, "edge", "g", "alice", NOW - 7 * DAY).unwrap();
    create_invite(&mut store, "in", "g", "alice", NOW - 7 * DAY + 1).unwrap();
    create_invite(&mut store, "pending", "g", "alice", NOW - DAY).unwrap();
    create_invite(&mut store, "elsewhere", "h", "alice", NOW - DAY).unwrap();
    create_invite(&mut store, "bobs", "g", "bob", NOW - DAY).unwrap();
    create_invite(&mut store, "recent", "g", "alice", NOW - 1).unwrap();
    for id in ["old", "edge", "in", "elsewhere", "bobs", "recent"] {
        assert!(record_invite_use(&mut store, id, "member", NOW));
    }
    assert_eq!(count_used_invites(&store, "alice", "g", 7, NOW), 2);
    assert_eq!(count_used_invites(&store, "alice", "g", 8, NOW), 3);
    assert_eq!(count_used_invites(&store, "alice", "g", 9, NOW), 4);
    assert_eq!(count_used_invites(&store, "alice", "g", 0, NOW), 0);
    assert_eq!(count_used_invites(&store, "alice", "g", -3, NOW), 0);
    assert_eq!(count_used_invites(&store, "alice", "h", 7, NOW), 1);
    assert_eq!(count_used_invites(&store, "bob", "g", 7, NOW), 1);
    assert_eq!(count_used_invites(&store, "carol", "g", 7, NOW), 0);
}

#[test]
fn history_is_the_latest_redemption_of_the_member() {
    let mut store = InviteStore::new();
    create_invite(&mut store, "t1", "g", "alice", NOW).unwrap();
    create_invite(&mut store, "t2", "g", "bob", NOW).unwrap();
    create_invite(&mut store, "t3", "g", "carol", NOW).unwrap();
    create_invite(&mut store, "t4", "g", "dave", NOW).unwrap();
    update_invite_code(&mut store, "t2", "code2");
    assert!(get_user_invite_info(&store, "member").is_none());
    assert!(record_invite_use(&mut store, "t1", "member", NOW + 10));
    assert!(record_invite_use(&mut store, "t2", "member", NOW + 30));
    assert!(record_invite_use(&mut store, "t3", "member", NOW + 30));
    assert!(record_invite_use(&mut store, "t4", "somebody", NOW + 99));
    // t2 and t3 were redeemed at the same time: the earlier issued wins.
    let info = get_user_invite_info(&store, "member").unwrap();
    assert_eq!(info.creator_id, "bob");
    assert_eq!(info.used_at, NOW + 30);
    assert_eq!(info.discord_invite_code.as_deref(), Some("code2"));
    let info = get_user_invite_info(&store, "somebody").unwrap();
    assert_eq!(info.creator_id, "dave");
    assert_eq!(info.used_at, NOW + 99);
    assert_eq!(info.discord_invite_code, None);
    assert!(get_user_invite_info(&store, "nobody").is_none());
}

fn row(id: &str, used_at: Option<i64>, used_by: Option<&str>) -> InviteToken {
    InviteToken {
        id: id.to_string(),
        guild_id: "g".to_string(),
        creator_id: "alice".to_string(),
        created_at: NOW,
        external_code: Some(format!("code-{}", id)),
        used_at,
        used_by: used_by.map(|u| u.to_string()),
    }
}

#[test]
fn a_store_is_restored_from_its_tokens() {
    let store = InviteStore::restore(vec![
        row("t1", None, None),
        row("t2", Some(NOW + 1), Some("bob")),
    ])
    .unwrap();
    assert_eq!(store.len(), 2);
    assert_eq!(store.token(0).unwrap().id, "t1");
    assert_eq!(store.token(0).unwrap().state(), TokenState::Materialized);
    assert_eq!(store.token(1).unwrap().id, "t2");
    assert_eq!(store.token(1).unwrap().used_by.as_deref(), Some("bob"));
    assert!(store.token(2).is_none());
    assert!(store.token(usize::MAX).is_none());
    assert_eq!(find_invite_by_code(&store, "g", "code-t1").as_deref(), Some("t1"));
    assert_eq!(find_invite_by_code(&store, "g", "code-t2"), None);
    assert_eq!(InviteStore::restore(Vec::new()).unwrap().len(), 0);
}

#[test]
fn restoring_reports_the_first_offending_token() {
    let error = |rows: Vec<InviteToken>| InviteStore::restore(rows).unwrap_err();
    assert_eq!(
        error(vec![row("t1", None, None), row("t1", None, None)]),
        StorageError::DuplicateId
    );
    assert_eq!(
        error(vec![row("t1", Some(NOW), None)]),
        StorageError::Inconsistent
    );
    assert_eq!(
        error(vec![row("t1", None, Some("bob"))]),
        StorageError::Inconsistent
    );
    assert_eq!(
        error(vec![
            row("t1", None, None),
            row("t2", None, Some("bob")),
            row("t1", None, None)
        ]),
        StorageError::Inconsistent
    );
    assert_eq!(
        error(vec![
            row("t1", None, None),
            row("t1", None, None),
            row("t3", None, Some("bob"))
        ]),
        StorageError::DuplicateId
    );
    // A token that offends twice is reported as inconsistent.
    assert_eq!(
        error(vec![row("t1", None, None), row("t1", Some(NOW), None)]),
        StorageError::Inconsistent
    );
}
