//! The commands the program accepts, as plain values.

use vstd::prelude::*;

verus! {

/// Fetch a listening history from Last.fm.
pub struct Fetch {
    /// The Last.fm user; the configured default where absent.
    pub username: Option<String>,
    /// The first page to fetch.
    pub page: Option<i32>,
    /// The number of entries per page.
    pub limit: Option<i32>,
    /// Only entries played after this Unix timestamp.
    pub from: Option<i64>,
    /// Only entries played before this Unix timestamp.
    pub to: Option<i64>,
    /// Start a new file rather than add to the saved history.
    pub new_file: bool,
    /// Fetch everything since the start of the current local day.
    pub current_day: bool,
    /// The storage format to use instead of the configured one.
    pub file_format: Option<String>,
}

/// Compute statistics over a saved history.
pub struct Stats {
    pub username: Option<String>,
}

/// Delete the configuration file.
pub struct Delete {}

/// Print the configuration.
pub struct Print {
    /// Include the API key.
    pub full_config: bool,
}

/// Change the configuration interactively.
pub struct Update {}

pub enum ConfigSubCommand {
    Delete(Delete),
    Print(Print),
    Update(Update),
}

/// Work with the configuration file.
pub struct Config {
    pub subcmd: ConfigSubCommand,
}

pub enum SubCommand {
    Config(Config),
    Fetch(Fetch),
    Stats(Stats),
}

pub struct Opts {
    pub subcmd: SubCommand,
}

} // verus!
