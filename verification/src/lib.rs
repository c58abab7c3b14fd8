//! Invite attribution: single-use referral links that attribute each new
//! member of a guild to the member who invited them, under a quota of
//! redeemed invites per role and time window.
//!
//! The engine is four components around one store:
//!
//! - [`store`] keeps every referral token with its lifecycle state, and
//!   [`leaderboard`] reads the ranking of inviters off it;
//! - [`limiter`] decides whether a member may issue another token, and
//!   [`issuer`] issues it;
//! - [`materializer`] turns a pending token into a one-time invite code on
//!   the first visit of its link;
//! - [`reconciler`] attributes an arriving member to the token that brought
//!   them in, exactly once.
//!
//! [`laws`] proves what holds across these components. [`commands`],
//! [`reply`], [`http`] and [`translate`] build what the chat and HTTP
//! front-ends show; [`config`], [`i18n`] and [`migrations`] hold what the
//! service is configured and shipped with.
//!
//! Nothing here talks to the platform, the network or a database. Whatever
//! comes from outside is handed in as plain values, the time of day
//! included, and whatever is to be done outside is handed back as a value
//! that says so. The one thing drawn here is the random id of a new token.

pub mod commands;
pub mod config;
pub mod dates;
pub mod http;
pub mod i18n;
pub mod issuer;
pub mod laws;
pub mod leaderboard;
pub mod limiter;
pub mod materializer;
pub mod migrations;
pub mod reconciler;
pub mod reply;
pub mod search;
pub mod store;
pub mod test_helpers;
pub mod text;
pub mod translate;
