//! Configuration consumed by the attribution engine: which guilds are
//! served, through which channel their invites are minted, and the quota
//! each role grants.

use vstd::prelude::*;
use crate::i18n::{is_available, is_available_locale};
use crate::search::{first_index, lemma_first_index_absent, lemma_first_index_found};
use crate::text::{joined, str_eq};

verus! {

/// Settings of the whole service.
#[derive(Debug, Clone)]
pub struct Config {
    pub bot: BotConfig,
    pub database: DatabaseConfig,
    pub server: ServerConfig,
    pub guilds: GuildConfig,
    pub i18n: I18nConfig,
}

/// Locale used when a guild names none, and the locales that may be
/// configured.
#[derive(Debug, Clone)]
pub struct I18nConfig {
    pub default_locale: String,
    pub available_locales: Vec<String>,
}

/// Platform credentials and the defaults that apply to every guild.
#[derive(Debug, Clone)]
pub struct BotConfig {
    pub token: String,
    /// Lifetime, in seconds, of a minted invite code.
    pub default_invite_max_age: u32,
    /// Time, in seconds, a member must have spent in a guild before they may
    /// issue invites.
    pub default_min_member_age: u32,
}

/// Where the invite records are kept.
#[derive(Debug, Clone)]
pub struct DatabaseConfig {
    pub path: String,
}

/// Address the redirect endpoint listens on and the URL it is reached by.
#[derive(Debug, Clone)]
pub struct ServerConfig {
    pub external_url: String,
    pub bind: String,
}

/// The guilds the service works for.
#[derive(Debug, Clone)]
pub struct GuildConfig {
    pub allowed: Vec<AllowedGuild>,
}

/// One served guild.
#[derive(Debug, Clone)]
pub struct AllowedGuild {
    pub id: String,
    pub name: String,
    /// Channel in which invite codes are minted, as a decimal number.
    pub invite_channel: String,
    /// Overrides `BotConfig::default_invite_max_age` when present.
    pub max_age: Option<u32>,
    /// Overrides `BotConfig::default_min_member_age` when present.
    pub min_member_age: Option<u32>,
    pub locale: Option<String>,
    pub allowed_roles: Vec<AllowedRole>,
}

/// A role whose holders may issue invites.
#[derive(Debug, Clone)]
pub struct AllowedRole {
    pub id: String,
    pub invite_limit: InviteLimit,
}

/// At most `count` redeemed invites within the trailing `days` days.
#[derive(Debug, Clone, Copy)]
pub struct InviteLimit {
    pub count: i32,
    pub days: i32,
}

impl Config {
    /// The first configured guild with the given id.
    pub open spec fn guild(&self, guild_id: Seq<char>) -> Option<AllowedGuild> {
        match first_index(self.guilds.allowed@, |g: AllowedGuild| g.id@ == guild_id) {
            Some(i) => Some(self.guilds.allowed@[i]),
            None => None,
        }
    }

    /// The locale of the guild: its own where it is configured and names
    /// one, the default otherwise.
    pub open spec fn guild_locale(&self, guild_id: Seq<char>) -> Seq<char> {
        match self.guild(guild_id) {
            Some(g) => match g.locale {
                Some(l) => l@,
                None => self.i18n.default_locale@,
            },
            None => self.i18n.default_locale@,
        }
    }

    /// Looks up the configuration of a guild by its id.
    pub fn find_guild(&self, guild_id: &str) -> (found: Option<&AllowedGuild>)
        ensures
            match found {
                Some(g) => self.guild(guild_id@) == Some(*g),
                None => self.guild(guild_id@) is None,
            },
    {
        let ghost p = |g: AllowedGuild| g.id@ == guild_id@;
        let mut i: usize = 0;
        while i < self.guilds.allowed.len()
            invariant
                i <= self.guilds.allowed.len(),
                p == |g: AllowedGuild| g.id@ == guild_id@,
                forall|k: int| 0 <= k < i ==> !p(#[trigger] self.guilds.allowed@[k]),
            decreases self.guilds.allowed.len() - i,
        {
            if str_eq(self.guilds.allowed[i].id.as_str(), guild_id) {
                proof {
                    lemma_first_index_found(self.guilds.allowed@, p, i as int);
                }
                return Some(&self.guilds.allowed[i]);
            }
            i += 1;
        }
        proof {
            lemma_first_index_absent(self.guilds.allowed@, p);
        }
        None
    }

    /// The locale in which to address a guild.
    pub fn get_guild_locale(&self, guild_id: &str) -> (locale: &str)
        ensures
            locale@ == self.guild_locale(guild_id@),
    {
        match self.find_guild(guild_id) {
            Some(g) => match &g.locale {
                Some(l) => l.as_str(),
                None => self.i18n.default_locale.as_str(),
            },
            None => self.i18n.default_locale.as_str(),
        }
    }
}

impl Config {
    /// The first configured locale for which no catalogue ships.
    pub open spec fn unsupported_locale(&self) -> Option<Seq<char>> {
        match first_index(self.i18n.available_locales@, |l: String| !is_available(l@)) {
            Some(i) => Some(self.i18n.available_locales@[i]@),
            None => None,
        }
    }

    /// Checks that a catalogue ships for every configured locale. The error
    /// names the first locale for which none does.
    pub fn validate(&self) -> (checked: Result<(), String>)
        ensures
            match checked {
                Ok(()) => self.unsupported_locale() is None,
                Err(message) => self.unsupported_locale() is Some && message@
                    == "Unsupported locale: "@ + self.unsupported_locale()->0,
            },
    {
        let ghost p = |l: String| !is_available(l@);
        let mut i: usize = 0;
        while i < self.i18n.available_locales.len()
            invariant
                i <= self.i18n.available_locales.len(),
                p == |l: String| !is_available(l@),
                forall|k: int| 0 <= k < i ==> !p(#[trigger] self.i18n.available_locales@[k]),
            decreases self.i18n.available_locales.len() - i,
        {
            let locale = self.i18n.available_locales[i].as_str();
            if !is_available_locale(locale) {
                proof {
                    lemma_first_index_found(self.i18n.available_locales@, p, i as int);
                }
                return Err(joined("Unsupported locale: ", locale));
            }
            i += 1;
        }
        proof {
            lemma_first_index_absent(self.i18n.available_locales@, p);
        }
        Ok(())
    }
}

} // verus!
