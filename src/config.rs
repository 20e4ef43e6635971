//! The program's configuration: the API key, the default user and the storage format.

use crate::files::path_exists;
use vstd::prelude::*;

verus! {

/// Where a saved history is kept.
#[derive(Clone, Copy, Debug, PartialEq, Eq, Structural)]
pub enum StorageFormat {
    Csv,
    Json,
    Sqlite,
}

/// The file extension a storage format uses.
pub open spec fn extension_of(format: StorageFormat) -> Seq<char> {
    match format {
        StorageFormat::Csv => "csv"@,
        StorageFormat::Json => "json"@,
        StorageFormat::Sqlite => "db"@,
    }
}

impl StorageFormat {
    /// The format a name stands for: its extension, or `sqlite` for the database.
    pub fn from_name(name: &str) -> (r: Option<StorageFormat>)
        ensures
            r == (if name@ == "csv"@ {
                Some(StorageFormat::Csv)
            } else if name@ == "json"@ {
                Some(StorageFormat::Json)
            } else if name@ == "db"@ || name@ == "sqlite"@ {
                Some(StorageFormat::Sqlite)
            } else {
                None
            }),
    {
        let n = String::from_str(name);
        if n == String::from_str("csv") {
            Some(StorageFormat::Csv)
        } else if n == String::from_str("json") {
            Some(StorageFormat::Json)
        } else if n == String::from_str("db") || n == String::from_str("sqlite") {
            Some(StorageFormat::Sqlite)
        } else {
            None
        }
    }

    /// The format picked from the setup menu: `1` for CSV, `2` for JSON, `3`
    /// for the database.
    pub fn from_choice(choice: &str) -> (r: Option<StorageFormat>)
        ensures
            r == (if choice@ == "1"@ {
                Some(StorageFormat::Csv)
            } else if choice@ == "2"@ {
                Some(StorageFormat::Json)
            } else if choice@ == "3"@ {
                Some(StorageFormat::Sqlite)
            } else {
                None
            }),
    {
        let c = String::from_str(choice);
        if c == String::from_str("1") {
            Some(StorageFormat::Csv)
        } else if c == String::from_str("2") {
            Some(StorageFormat::Json)
        } else if c == String::from_str("3") {
            Some(StorageFormat::Sqlite)
        } else {
            None
        }
    }

    pub fn extension(&self) -> (r: &'static str)
        ensures
            r@ == extension_of(*self),
    {
        match self {
            StorageFormat::Csv => "csv",
            StorageFormat::Json => "json",
            StorageFormat::Sqlite => "db",
        }
    }
}

pub struct Config {
    pub api_key: String,
    pub default_username: String,
    pub storage_format: StorageFormat,
}

impl Config {
    pub fn new(api_key: String, default_username: String, storage_format: StorageFormat) -> (r:
        Config)
        ensures
            r.api_key == api_key,
            r.default_username == default_username,
            r.storage_format == storage_format,
    {
        Config { api_key, default_username, storage_format }
    }

    /// The user a command is about: the one it names, or the default.
    pub fn resolve_username(&self, username: Option<String>) -> (r: String)
        ensures
            r@ == match username {
                Some(u) => u@,
                None => self.default_username@,
            },
    {
        match username {
            Some(u) => u,
            None => self.default_username.clone(),
        }
    }
}

/// The configuration file inside the user's configuration directory.
pub open spec fn config_path_in(dir: Seq<char>) -> Seq<char> {
    dir + "/rustfm_scraper/config.json"@
}

pub fn build_config_path(dir: &str) -> (r: String)
    ensures
        r@ == config_path_in(dir@),
{
    let mut path = String::from_str(dir);
    path.append("/rustfm_scraper/config.json");
    path
}

/// Relies on `dirs::config_dir`: the user's configuration directory, where the
/// platform has one, as text.
#[verifier::external_body]
fn config_dir() -> (r: Option<String>) {
    dirs::config_dir().map(|p| p.to_string_lossy().into_owned())
}

/// The path of the configuration file, where the platform has a configuration directory.
pub fn config_path() -> (r: Option<String>)
    ensures
        r is Some ==> exists|dir: Seq<char>| #[trigger] config_path_in(dir) == r->0@,
{
    match config_dir() {
        Some(dir) => Some(build_config_path(dir.as_str())),
        None => None,
    }
}

/// Whether the configuration file exists.
pub fn check_if_config_exists() -> (r: bool) {
    match config_path() {
        Some(path) => path_exists(path.as_str()),
        None => false,
    }
}

} // verus!
