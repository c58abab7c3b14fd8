//! The materializer: on the first visit of a redirect link it turns a
//! pending token into a redeemable one-time invite code, and on every later
//! visit it hands out that same code.
//!
//! Minting the code is the platform's work and happens outside this crate.
//! `handle_invite` therefore takes the visit in steps: it is told what
//! happened (`RedirectEvent`) and answers with what to do next
//! (`RedirectAction`).

use vstd::prelude::*;
use crate::config::{AllowedGuild, Config};
use crate::store::{
    get_unused_invite, set_code, unused_record, update_invite_code, InviteStore, TokenView,
};
use crate::text::{joined, parse_id, parsed_id};

verus! {

/// Number of uses a minted code is good for: one probe and the member's own
/// join.
pub const INVITE_MAX_USES: u8 = 2;

/// Why a redirect link could not be followed.
#[derive(Debug, Clone, Copy, PartialEq, Eq, Structural)]
pub enum MaterializeError {
    /// No such token, or it was redeemed already.
    NotFound,
    /// The token's guild is not configured.
    ServerNotFound,
    /// The guild's invite channel is not a channel number.
    InvalidChannel,
    /// The platform did not mint a code; the visit may be repeated.
    ExternalUnavailable,
}

/// The one-time invite to ask the platform for.
#[derive(Debug, Clone, Copy, PartialEq, Eq, Structural)]
pub struct InviteRequest {
    /// Channel to mint the code in; never zero.
    pub channel_id: u64,
    /// Lifetime of the code, in seconds.
    pub max_age: u32,
    /// Number of uses the code is good for.
    pub max_uses: u8,
    /// Whether membership through the code is temporary.
    pub temporary: bool,
}

/// What happened on a visit of a redirect link.
#[derive(Debug, Clone)]
pub enum RedirectEvent {
    /// A browser arrived.
    Visit,
    /// The platform minted the code that was asked for.
    InviteCreated(String),
    /// The platform failed, or did not answer in time.
    InviteFailed,
}

/// What to do next on a visit of a redirect link.
#[derive(Debug, Clone)]
pub enum RedirectAction {
    /// Send the browser to this URL.
    Redirect(String),
    /// Ask the platform for a code, then report `InviteCreated` or
    /// `InviteFailed`.
    CreateInvite(InviteRequest),
    /// Turn the browser away.
    Reject(MaterializeError),
}

/// Mathematical model of a `RedirectAction`.
pub ghost enum ActionView {
    Redirect(Seq<char>),
    CreateInvite(InviteRequest),
    Reject(MaterializeError),
}

impl View for RedirectAction {
    type V = ActionView;

    open spec fn view(&self) -> ActionView {
        match self {
            RedirectAction::Redirect(url) => ActionView::Redirect(url@),
            RedirectAction::CreateInvite(request) => ActionView::CreateInvite(*request),
            RedirectAction::Reject(error) => ActionView::Reject(*error),
        }
    }
}

/// The URL that redeems the external code `code`.
pub open spec fn external_url(code: Seq<char>) -> Seq<char> {
    "https://discord.gg/"@ + code
}

/// The number of the guild's invite channel, if the configured text is a
/// channel number. Zero is no channel.
pub open spec fn invite_channel(guild: AllowedGuild) -> Option<u64> {
    parsed_id(guild.invite_channel@)
}

/// Lifetime of the codes minted for `guild`: its own setting, or else the
/// default.
pub open spec fn invite_max_age(config: Config, guild: AllowedGuild) -> u32 {
    match guild.max_age {
        Some(age) => age,
        None => config.bot.default_invite_max_age,
    }
}

/// The answer to a browser's arrival at the link of token `id`.
pub open spec fn on_visit(tokens: Seq<TokenView>, config: Config, id: Seq<char>) -> ActionView {
    match unused_record(tokens, id) {
        None => ActionView::Reject(MaterializeError::NotFound),
        Some(record) => match record.code {
            Some(code) => ActionView::Redirect(external_url(code)),
            None => match config.guild(record.guild_id) {
                None => ActionView::Reject(MaterializeError::ServerNotFound),
                Some(guild) => match invite_channel(guild) {
                    None => ActionView::Reject(MaterializeError::InvalidChannel),
                    Some(channel_id) => ActionView::CreateInvite(
                        InviteRequest {
                            channel_id,
                            max_age: invite_max_age(config, guild),
                            max_uses: INVITE_MAX_USES,
                            temporary: false,
                        },
                    ),
                },
            },
        },
    }
}

/// The answer to the news that the platform minted `code` for token `id`.
/// The first code a token received stays authoritative.
pub open spec fn on_created(tokens: Seq<TokenView>, id: Seq<char>, code: Seq<char>) -> ActionView {
    match unused_record(tokens, id) {
        None => ActionView::Reject(MaterializeError::NotFound),
        Some(record) => match record.code {
            Some(first) => ActionView::Redirect(external_url(first)),
            None => ActionView::Redirect(external_url(code)),
        },
    }
}

/// The tokens after the platform minted `code` for token `id`: the token
/// takes the code if it is unused and had none; nothing else changes.
pub open spec fn after_created(tokens: Seq<TokenView>, id: Seq<char>, code: Seq<char>) -> Seq<
    TokenView,
> {
    match unused_record(tokens, id) {
        Some(record) => if record.code is None {
            set_code(tokens, id, code)
        } else {
            tokens
        },
        None => tokens,
    }
}

/// The action that answers `event` on the link of token `id`.
pub open spec fn redirect_action(
    tokens: Seq<TokenView>,
    config: Config,
    id: Seq<char>,
    event: RedirectEvent,
) -> ActionView {
    match event {
        RedirectEvent::Visit => on_visit(tokens, config, id),
        RedirectEvent::InviteCreated(code) => on_created(tokens, id, code@),
        RedirectEvent::InviteFailed => ActionView::Reject(MaterializeError::ExternalUnavailable),
    }
}

/// The tokens after `event` on the link of token `id`.
pub open spec fn redirect_tokens(tokens: Seq<TokenView>, id: Seq<char>, event: RedirectEvent) -> Seq<
    TokenView,
> {
    match event {
        RedirectEvent::InviteCreated(code) => after_created(tokens, id, code@),
        _ => tokens,
    }
}

/// A whole visit of the link of token `id`, where the platform, if it is
/// asked for a code, answers with `minted` (`None`: it fails). The result is
/// the tokens after the visit and the final answer to the browser.
pub open spec fn materialize(
    tokens: Seq<TokenView>,
    config: Config,
    id: Seq<char>,
    minted: Option<Seq<char>>,
) -> (Seq<TokenView>, ActionView) {
    match on_visit(tokens, config, id) {
        ActionView::CreateInvite(_) => match minted {
            Some(code) => (after_created(tokens, id, code), on_created(tokens, id, code)),
            None => (tokens, ActionView::Reject(MaterializeError::ExternalUnavailable)),
        },
        answer => (tokens, answer),
    }
}

/// The URL that redeems an external code.
pub fn invite_url(code: &str) -> (url: String)
    ensures
        url@ == external_url(code@),
{
    joined("https://discord.gg/", code)
}

/// Reads the number of the guild's invite channel.
pub fn channel_of(guild: &AllowedGuild) -> (channel: Option<u64>)
    ensures
        channel == invite_channel(*guild),
{
    parse_id(guild.invite_channel.as_str())
}

/// Lifetime of the codes minted for a guild.
pub fn max_age_of(config: &Config, guild: &AllowedGuild) -> (age: u32)
    ensures
        age == invite_max_age(*config, *guild),
{
    match guild.max_age {
        Some(age) => age,
        None => config.bot.default_invite_max_age,
    }
}

/// Takes one step of a visit of the redirect link of token `invite_id`.
///
/// On `Visit` the store is only read: a token that has its code is
/// redirected at once, a pending one asks for a code to be minted, and a
/// redeemed or unknown one is turned away. On `InviteCreated` the code is
/// stored unless the token received one in the meantime, and the browser is
/// sent to the code the token holds.
pub fn handle_invite(
    store: &mut InviteStore,
    config: &Config,
    invite_id: &str,
    event: &RedirectEvent,
) -> (action: RedirectAction)
    ensures
        action@ == redirect_action(old(store)@, *config, invite_id@, *event),
        final(store)@ == redirect_tokens(old(store)@, invite_id@, *event),
{
    match event {
        RedirectEvent::Visit => {
            let record = match get_unused_invite(store, invite_id) {
                Some(record) => record,
                None => {
                    return RedirectAction::Reject(MaterializeError::NotFound);
                },
            };
            if let Some(code) = &record.code {
                return RedirectAction::Redirect(invite_url(code.as_str()));
            }
            let guild = match config.find_guild(record.guild_id.as_str()) {
                Some(guild) => guild,
                None => {
                    return RedirectAction::Reject(MaterializeError::ServerNotFound);
                },
            };
            match channel_of(guild) {
                Some(channel_id) => RedirectAction::CreateInvite(
                    InviteRequest {
                        channel_id,
                        max_age: max_age_of(config, guild),
                        max_uses: INVITE_MAX_USES,
                        temporary: false,
                    },
                ),
                None => RedirectAction::Reject(MaterializeError::InvalidChannel),
            }
        },
        RedirectEvent::InviteCreated(code) => {
            let record = match get_unused_invite(store, invite_id) {
                Some(record) => record,
                None => {
                    return RedirectAction::Reject(MaterializeError::NotFound);
                },
            };
            match &record.code {
                Some(first) => RedirectAction::Redirect(invite_url(first.as_str())),
                None => {
                    update_invite_code(store, invite_id, code.as_str());
                    RedirectAction::Redirect(invite_url(code.as_str()))
                },
            }
        },
        RedirectEvent::InviteFailed => RedirectAction::Reject(MaterializeError::ExternalUnavailable),
    }
}

} // verus!
