//! The schema of the durable table that backs the store, as SQL scripts to
//! run in the order of their names.

use vstd::prelude::*;
use crate::text::str_eq;

verus! {

/// Name of the script that creates the table of invites and its indexes.
pub const CREATE_TABLES: &'static str = "20240101000000_create_tables.sql";

/// The script that creates the table of invites and its indexes.
pub const CREATE_TABLES_SQL: &'static str = "CREATE TABLE IF NOT EXISTS invites (
    id TEXT PRIMARY KEY NOT NULL,
    guild_id TEXT NOT NULL,
    creator_id TEXT NOT NULL,
    created_at INTEGER NOT NULL,
    discord_invite_code TEXT,
    used_at INTEGER,
    used_by TEXT
);
CREATE INDEX IF NOT EXISTS idx_invites_creator ON invites (guild_id, creator_id, created_at);
CREATE INDEX IF NOT EXISTS idx_invites_code ON invites (discord_invite_code);
CREATE INDEX IF NOT EXISTS idx_invites_used_by ON invites (used_by);
";

/// The migration scripts, by file name.
pub struct Migrations;

impl Migrations {
    /// The content of the script `name`.
    pub open spec fn file(name: Seq<char>) -> Option<Seq<char>> {
        if name == CREATE_TABLES@ {
            Some(CREATE_TABLES_SQL@)
        } else {
            None
        }
    }

    /// Looks up a script by its name.
    pub fn get(file_path: &str) -> (content: Option<&'static str>)
        ensures
            match content {
                Some(text) => Self::file(file_path@) == Some(text@),
                None => Self::file(file_path@) is None,
            },
    {
        if str_eq(file_path, CREATE_TABLES) {
            Some(CREATE_TABLES_SQL)
        } else {
            None
        }
    }
}

/// The SQL of the migration script `name`.
pub fn get_migration(name: &str) -> (sql: Option<String>)
    ensures
        match sql {
            Some(text) => Migrations::file(name@) == Some(text@),
            None => Migrations::file(name@) is None,
        },
{
    match Migrations::get(name) {
        Some(text) => Some(text.to_owned()),
        None => None,
    }
}

/// The names of all migration scripts, in the order to run them.
pub fn get_migrations() -> (names: Vec<String>)
    ensures
        names@.len() == 1,
        names@[0]@ == CREATE_TABLES@,
        forall|i: int| 0 <= i < names@.len() ==> Migrations::file(#[trigger] names@[i]@) is Some,
{
    let mut names: Vec<String> = Vec::new();
    names.push(CREATE_TABLES.to_owned());
    names
}

} // verus!
