//! The translation catalogues that ship with the crate, one YAML document
//! per locale.

use vstd::prelude::*;
use crate::text::{joined, str_eq};

verus! {

/// The locales a catalogue exists for.
pub const AVAILABLE_LOCALES: [&'static str; 2] = ["en", "zh-TW"];

/// The English catalogue.
pub const EN_YAML: &'static str = "bot:
  logged_in: 'Logged in as {name}'
server:
  running: 'Server running at http://{addr}'
errors:
  setup: 'Failed to set up the bot: {error}'
  unknown: 'Unexpected error: {error}'
  command:
    title: 'Something went wrong'
    description: 'The command could not be completed. Please try again later.'
    footer: 'If this keeps happening, tell a moderator.'
  server:
    invalid_address: 'The bind address of the server is not valid'
    bind_failed: 'Could not bind the server address'
    start_failed: 'Could not start the server'
http:
  errors:
    internal: 'Internal error: {error}'
    invalid_invite: 'This invite link is not valid or was used already'
    server_not_found: 'The server of this invite is not configured'
    invalid_channel: 'The invite channel of the server is not valid'
    create_failed: 'Could not create the invite: {error}'
    update_failed: 'Could not save the invite: {error}'
commands:
  ping:
    name: 'ping'
    description: 'Check if the bot is alive'
    response:
      title: 'Pong!'
      description: 'The bot is up and running.'
  invites:
    name: 'invites'
    description: 'Create an invite link'
    errors:
      server_not_allowed:
        title: 'Server not allowed'
        description: 'This server is not set up for invite links.'
        footer: 'Ask an administrator to configure the server.'
      join_date_not_found:
        title: 'Join date not found'
        description: 'Your join date could not be determined.'
        footer: 'Please try again later.'
      missing_permissions:
        title: 'Missing permissions'
        description: 'None of your roles may create invite links.'
        footer: 'Ask a moderator which roles can invite.'
      not_long_enough:
        title: 'Not a member for long enough'
        description: 'You must be a member for {days} days before you can invite. You have been here for {remaining} days.'
        footer: 'Required membership: {days} days'
      limit_reached:
        title: 'Invite limit reached'
        description: 'You may invite {count} members every {days} days.'
        status: 'Current status'
        used: 'Used: {used}'
        remaining: 'Remaining: {remaining}'
        footer: 'Only invites that were used count towards the limit.'
    success:
      title: 'Invite link created'
      description: 'Here is your invite link to {guild}. It can be used once.'
      limits: 'Your limits'
      invites_per_days: '{count} invites every {days} days'
      used_remaining: 'Used: {used}, remaining: {remaining}'
      footer: 'The link stops working once somebody has joined with it.'
  inviter:
    name: 'inviter'
    description: 'View who invited a user'
    errors:
      no_record:
        title: 'No invite record'
        description: 'There is no record of who invited {user}.'
        footer: 'Members who joined without an invite link have no record.'
      invalid_user:
        title: 'Unknown inviter'
        description: 'The member who created the invite could not be identified.'
        footer: 'The record may be damaged.'
    success:
      title: 'Invite record'
      user: 'User'
      invited_by: 'Invited by'
      date: 'Date'
      invite_code: 'Invite code'
      footer: 'Invite records are kept per member.'
  invites_leaderboard:
    name: 'invites_leaderboard'
    description: 'View the invite leaderboard'
    errors:
      no_invites:
        title: 'No invites yet'
        description: 'Nobody was invited in the last {days} days.'
        footer: 'Create an invite link to get started.'
    success:
      title: 'Invite leaderboard of {guild}'
      footer: 'Only invites that were used are counted.'
";

/// The Traditional Chinese catalogue.
pub const ZH_TW_YAML: &'static str = "bot:
  logged_in: '已登入為 {name}'
server:
  running: '伺服器執行於 http://{addr}'
errors:
  setup: '機器人設定失敗：{error}'
  unknown: '發生未預期的錯誤：{error}'
  command:
    title: '發生錯誤'
    description: '無法完成指令，請稍後再試。'
    footer: '若問題持續發生，請通知管理員。'
  server:
    invalid_address: '伺服器綁定位址無效'
    bind_failed: '無法綁定伺服器位址'
    start_failed: '無法啟動伺服器'
http:
  errors:
    internal: '內部錯誤：{error}'
    invalid_invite: '此邀請連結無效或已被使用'
    server_not_found: '此邀請所屬的伺服器尚未設定'
    invalid_channel: '伺服器的邀請頻道無效'
    create_failed: '無法建立邀請：{error}'
    update_failed: '無法儲存邀請：{error}'
commands:
  ping:
    name: 'ping'
    description: '檢查機器人是否在線'
    response:
      title: 'Pong！'
      description: '機器人運作正常。'
  invites:
    name: 'invites'
    description: '建立邀請連結'
    errors:
      server_not_allowed:
        title: '伺服器未被允許'
        description: '此伺服器尚未設定邀請連結功能。'
        footer: '請管理員設定此伺服器。'
      join_date_not_found:
        title: '找不到加入日期'
        description: '無法確認您的加入日期。'
        footer: '請稍後再試。'
      missing_permissions:
        title: '權限不足'
        description: '您的身分組都不能建立邀請連結。'
        footer: '請向管理員詢問可邀請的身分組。'
      not_long_enough:
        title: '加入時間不足'
        description: '您必須加入滿 {days} 天才能邀請他人。您目前已加入 {remaining} 天。'
        footer: '所需加入時間：{days} 天'
      limit_reached:
        title: '已達邀請上限'
        description: '您每 {days} 天可以邀請 {count} 位成員。'
        status: '目前狀態'
        used: '已使用：{used}'
        remaining: '剩餘：{remaining}'
        footer: '只有已被使用的邀請才會計入上限。'
    success:
      title: '邀請連結已建立'
      description: '這是您前往 {guild} 的邀請連結，僅能使用一次。'
      limits: '您的限制'
      invites_per_days: '每 {days} 天 {count} 次邀請'
      used_remaining: '已使用：{used}，剩餘：{remaining}'
      footer: '有人透過此連結加入後，連結即失效。'
  inviter:
    name: 'inviter'
    description: '查看使用者的邀請人'
    errors:
      no_record:
        title: '沒有邀請紀錄'
        description: '沒有 {user} 的邀請紀錄。'
        footer: '未透過邀請連結加入的成員沒有紀錄。'
      invalid_user:
        title: '邀請人不明'
        description: '無法辨識建立邀請的成員。'
        footer: '紀錄可能已損毀。'
    success:
      title: '邀請紀錄'
      user: '使用者'
      invited_by: '邀請人'
      date: '日期'
      invite_code: '邀請碼'
      footer: '邀請紀錄依成員保存。'
  invites_leaderboard:
    name: 'invites_leaderboard'
    description: '查看邀請排行榜'
    errors:
      no_invites:
        title: '尚無邀請'
        description: '過去 {days} 天內沒有人被邀請。'
        footer: '建立邀請連結即可開始。'
    success:
      title: '{guild} 的邀請排行榜'
      footer: '只計算已被使用的邀請。'
";

/// The catalogue files, by file name.
pub struct I18nAssets;

impl I18nAssets {
    /// The content of the catalogue file `name`.
    pub open spec fn file(name: Seq<char>) -> Option<Seq<char>> {
        if name == "en.yaml"@ {
            Some(EN_YAML@)
        } else if name == "zh-TW.yaml"@ {
            Some(ZH_TW_YAML@)
        } else {
            None
        }
    }

    /// Looks up a catalogue file by its name.
    pub fn get(file_path: &str) -> (content: Option<&'static str>)
        ensures
            match content {
                Some(text) => Self::file(file_path@) == Some(text@),
                None => Self::file(file_path@) is None,
            },
    {
        if str_eq(file_path, "en.yaml") {
            Some(EN_YAML)
        } else if str_eq(file_path, "zh-TW.yaml") {
            Some(ZH_TW_YAML)
        } else {
            None
        }
    }
}

/// The catalogue of `locale`: the content of the file named after it.
pub open spec fn yaml_of(locale: Seq<char>) -> Option<Seq<char>> {
    I18nAssets::file(locale + ".yaml"@)
}

/// The catalogue of a locale, as YAML text.
pub fn get_yaml(locale: &str) -> (yaml: Option<String>)
    ensures
        match yaml {
            Some(text) => yaml_of(locale@) == Some(text@),
            None => yaml_of(locale@) is None,
        },
{
    let name = joined(locale, ".yaml");
    match I18nAssets::get(name.as_str()) {
        Some(text) => Some(text.to_owned()),
        None => None,
    }
}

/// Whether a catalogue ships for `locale`.
pub open spec fn is_available(locale: Seq<char>) -> bool {
    exists|i: int| 0 <= i < AVAILABLE_LOCALES@.len() && (#[trigger] AVAILABLE_LOCALES@[i])@ == locale
}

/// Tells whether a catalogue ships for a locale.
pub fn is_available_locale(locale: &str) -> (available: bool)
    ensures
        available == is_available(locale@),
{
    let mut i: usize = 0;
    while i < AVAILABLE_LOCALES.len()
        invariant
            i <= AVAILABLE_LOCALES@.len(),
            forall|k: int| 0 <= k < i ==> (#[trigger] AVAILABLE_LOCALES@[k])@ != locale@,
        decreases AVAILABLE_LOCALES@.len() - i,
    {
        if str_eq(AVAILABLE_LOCALES[i], locale) {
            return true;
        }
        i += 1;
    }
    false
}

} // verus!
