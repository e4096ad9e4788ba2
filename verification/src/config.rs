//! The settings of a worker, and where its output lies.

use crate::numbers::{parse_number, parsed_number};
use crate::text::str_eq;
use vstd::prelude::*;
use vstd::string::StringExecFns;

verus! {

/// The settings of a worker.
#[derive(Debug, Clone)]
pub struct Config {
    /// Where the database is.
    pub mongo_uri: String,
    /// The name of the database.
    pub database_name: String,
    /// The directory under which all output lies.
    pub data_dir: String,
    /// The identifier of this worker, new for each process.
    pub worker_id: String,
    /// The seconds between two heartbeats.
    pub heartbeat_interval_secs: u64,
    /// The number of downloads that may run at once.
    pub max_concurrent_downloads: usize,
    /// The seconds after which a request is given up.
    pub http_timeout_secs: u64,
    /// The days after which a cache entry is stale.
    pub cache_ttl_days: u64,
}

/// The name of the tenant that stands for the system-wide default build.
pub open spec fn default_tenant() -> Seq<char> {
    "__default__"@
}

/// The text setting `value`, or `fallback` where it is not set.
pub open spec fn text_or(value: Option<String>, fallback: Seq<char>) -> Seq<char> {
    match value {
        Some(v) => v@,
        None => fallback,
    }
}

/// The number that the setting `value` writes, or `fallback` where it is not
/// set or writes none.
pub open spec fn number_or(value: Option<String>, fallback: u64) -> u64 {
    match value {
        Some(v) => match parsed_number(v@) {
            Some(n) => n,
            None => fallback,
        },
        None => fallback,
    }
}

/// The directory of the default build under `data_dir`.
pub open spec fn default_dir_of(data_dir: Seq<char>) -> Seq<char> {
    data_dir + "/default"@
}

/// The directory of the tenant `username` under `data_dir`.
pub open spec fn user_dir_of(data_dir: Seq<char>, username: Seq<char>) -> Seq<char> {
    data_dir + "/users/"@ + username
}

/// The directory of the output files of the tenant `username` under
/// `data_dir`; the default build has a place of its own.
pub open spec fn output_dir_of(data_dir: Seq<char>, username: Seq<char>) -> Seq<char> {
    if username == default_tenant() {
        default_dir_of(data_dir) + "/output"@
    } else {
        user_dir_of(data_dir, username) + "/output"@
    }
}

fn text_setting(value: Option<String>, fallback: &str) -> (r: String)
    ensures
        r@ == text_or(value, fallback@),
{
    match value {
        Some(v) => v,
        None => fallback.to_string(),
    }
}

fn number_setting(value: Option<String>, fallback: u64) -> (r: u64)
    ensures
        r == number_or(value, fallback),
{
    match value {
        Some(v) => match parse_number(v.as_str()) {
            Some(n) => n,
            None => fallback,
        },
        None => fallback,
    }
}

impl Config {
    /// The settings that the environment gives. Each argument but the worker
    /// id is the value of one variable, if it is set. A text that is not set
    /// has a default; so has a number that is not set or does not parse, or,
    /// for the number of downloads, does not fit the machine.
    pub fn from_values(
        mongo_uri: Option<String>,
        database_name: Option<String>,
        data_dir: Option<String>,
        worker_id: String,
        heartbeat_interval_secs: Option<String>,
        max_concurrent_downloads: Option<String>,
        http_timeout_secs: Option<String>,
        cache_ttl_days: Option<String>,
    ) -> (c: Config)
        ensures
            c.mongo_uri@ == text_or(mongo_uri, "mongodb://localhost:27017"@),
            c.database_name@ == text_or(database_name, "blocklist"@),
            c.data_dir@ == text_or(data_dir, "./data"@),
            c.worker_id == worker_id,
            c.heartbeat_interval_secs == number_or(heartbeat_interval_secs, 10),
            c.max_concurrent_downloads == if number_or(max_concurrent_downloads, 10)
                <= usize::MAX {
                number_or(max_concurrent_downloads, 10) as usize
            } else {
                10usize
            },
            c.http_timeout_secs == number_or(http_timeout_secs, 60),
            c.cache_ttl_days == number_or(cache_ttl_days, 7),
    {
        let downloads = number_setting(max_concurrent_downloads, 10);
        Config {
            mongo_uri: text_setting(mongo_uri, "mongodb://localhost:27017"),
            database_name: text_setting(database_name, "blocklist"),
            data_dir: text_setting(data_dir, "./data"),
            worker_id,
            heartbeat_interval_secs: number_setting(heartbeat_interval_secs, 10),
            max_concurrent_downloads: if downloads <= usize::MAX as u64 {
                downloads as usize
            } else {
                10
            },
            http_timeout_secs: number_setting(http_timeout_secs, 60),
            cache_ttl_days: number_setting(cache_ttl_days, 7),
        }
    }

    /// The directory of the default build.
    pub fn default_dir(&self) -> (dir: String)
        ensures
            dir@ == default_dir_of(self.data_dir@),
    {
        self.data_dir.clone().concat("/default")
    }

    /// The directory of the tenant `username`.
    pub fn user_dir(&self, username: &str) -> (dir: String)
        ensures
            dir@ == user_dir_of(self.data_dir@, username@),
    {
        self.data_dir.clone().concat("/users/").concat(username)
    }

    /// The directory of the output files of the tenant `username`.
    pub fn output_dir(&self, username: &str) -> (dir: String)
        ensures
            dir@ == output_dir_of(self.data_dir@, username@),
    {
        if str_eq(username, "__default__") {
            self.default_dir().concat("/output")
        } else {
            self.user_dir(username).concat("/output")
        }
    }
}

} // verus!
