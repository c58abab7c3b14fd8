//! A ready-made store and configuration for trying the engine out.

use vstd::prelude::*;
use crate::config::{
    BotConfig, Config, DatabaseConfig, GuildConfig, I18nConfig, ServerConfig,
};
use crate::store::{InviteStore, TokenView};

verus! {

/// An empty store with a configuration that serves no guild yet.
pub struct TestContext {
    pub db: InviteStore,
    pub config: Config,
}

impl TestContext {
    /// A fresh context: no tokens, no guilds, English as the only locale,
    /// invites that live five minutes, and sixty days of membership before a
    /// member may invite.
    pub fn new() -> (context: TestContext)
        ensures
            context.db@ == Seq::<TokenView>::empty(),
            context.config.guilds.allowed@.len() == 0,
            context.config.bot.token@ == "test_token"@,
            context.config.bot.default_invite_max_age == 300,
            context.config.bot.default_min_member_age == 5184000,
            context.config.database.path@ == "sqlite::memory:"@,
            context.config.server.external_url@ == "http://localhost:8080"@,
            context.config.server.bind@ == "127.0.0.1:8080"@,
            context.config.i18n.default_locale@ == "en"@,
            context.config.i18n.available_locales@.len() == 1,
            context.config.i18n.available_locales@[0]@ == "en"@,
    {
        let mut available_locales: Vec<String> = Vec::new();
        available_locales.push("en".to_owned());
        let config = Config {
            bot: BotConfig {
                token: "test_token".to_owned(),
                default_invite_max_age: 300,
                default_min_member_age: 5184000,
            },
            database: DatabaseConfig { path: "sqlite::memory:".to_owned() },
            server: ServerConfig {
                external_url: "http://localhost:8080".to_owned(),
                bind: "127.0.0.1:8080".to_owned(),
            },
            i18n: I18nConfig { default_locale: "en".to_owned(), available_locales },
            guilds: GuildConfig { allowed: Vec::new() },
        };
        TestContext { db: InviteStore::new(), config }
    }
}

} // verus!
