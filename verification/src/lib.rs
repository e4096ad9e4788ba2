//! The core of a worker that builds domain blocklists: the line grammar of
//! blocklist sources, the whitelist language, the configuration language and
//! its fingerprints, and the rules by which jobs, cache entries and progress
//! records change.

pub mod clock;
pub mod config;
pub mod db;
pub mod domains;
pub mod downloader;
pub mod extractor;
pub mod fingerprints;
pub mod hashing;
pub mod numbers;
pub mod output;
pub mod pipeline;
pub mod processor;
pub mod regexes;
pub mod reports;
pub mod round_trips;
pub mod run;
pub mod stages;
pub mod text;
pub mod urls;
pub mod whitelist;
pub mod worker;
