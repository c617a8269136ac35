//! Process configuration, read from the environment.

use vstd::prelude::*;
use vstd::string::StringExecFns;

verus! {

/// Relies on dotenv's `var`: it loads the dotenv file once, then looks the
/// name up in the process environment. The value depends on the
/// environment, so nothing is assumed of it.
#[verifier::external_body]
fn env_lookup(var_name: &str) -> (r: Option<String>) {
    dotenv::var(var_name).ok()
}

/// The value a lookup produced, or — when nothing was set — a fixed note in
/// its place.
pub fn env_value_or_note(looked_up: Option<String>) -> (r: String)
    ensures
        match looked_up {
            Some(v) => r == v,
            None => r@ == "{} is not set"@,
        },
{
    match looked_up {
        Some(v) => v,
        None => String::from_str("{} is not set"),
    }
}

fn get_env_var(var_name: &str) -> String {
    env_value_or_note(env_lookup(var_name))
}

/// What a running instance needs to know at start: where its store lives
/// and how to authenticate to the chat service.
#[derive(Debug, Clone)]
pub struct Config {
    pub database_url: String,
    pub discord_token: String,
}

impl Config {
    /// Read both values from the environment; a missing one is filled with
    /// a fixed note rather than failing.
    pub fn init() -> Config {
        Config {
            database_url: get_env_var("DATABASE_URL"),
            discord_token: get_env_var("DISCORD_TOKEN"),
        }
    }
}

} // verus!
