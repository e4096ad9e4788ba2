//! The documents that the worker shares with others through the database, and
//! the rules by which they change.

pub mod cache;
pub mod job;
pub mod progress;
pub mod user;
pub mod user_config;
