//! The chat commands: what each decides, and the reply it gives.
//!
//! Receiving a command and sending the reply is the front-end's work. The
//! functions here take what the front-end knows of the caller as plain
//! values and return the reply to send.

use vstd::prelude::*;
use crate::reply::{error_embed, error_reply, Reply, ReplyView};
use crate::translate::Translations;

pub mod inviter;
pub mod invites;
pub mod invites_leaderboard;
pub mod ping;

verus! {

/// The reply that reports that a command failed.
pub open spec fn command_error_reply(translations: Translations, locale: Seq<char>) -> ReplyView {
    error_reply(translations, locale, "errors.command"@)
}

/// Builds the reply that reports that a command failed.
pub fn command_error_embed(translations: &Translations, locale: &str) -> (reply: Reply)
    ensures
        reply@ == command_error_reply(*translations, locale@),
{
    error_embed(translations, locale, "errors.command")
}

} // verus!
