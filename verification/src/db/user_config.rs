//! The configuration of a tenant: the text that lists its blocklist
//! sources, and the text of its whitelist.

use crate::db::user::UserStore;
use crate::text::str_eq;
use vstd::prelude::*;
use vstd::string::StringExecFns;

verus! {

/// The configuration of a tenant.
#[derive(Debug, Clone)]
pub struct UserConfig {
    /// The blocklist sources, in the configuration language.
    pub blocklists: Option<String>,
    /// The whitelist, in the whitelist language.
    pub whitelist: Option<String>,
}

/// The hand of a worker on the configurations.
pub struct UserConfigRepository {}

/// The configuration of the tenant `username`, or why there is none: the
/// default build has its configuration in a record of its own; a tenant
/// has it in its record.
pub open spec fn config_of(store: UserStore, username: Seq<char>) -> Result<UserConfig, Seq<char>> {
    if username == "__default__"@ {
        match store.default_config {
            Some(c) => Ok(c),
            None => Err("Default config not found in system_config collection"@),
        }
    } else {
        match crate::db::user::first_user(store.users@, username) {
            Some(i) => match store.users@[i].config {
                Some(c) => Ok(c),
                None => Err("No config found for user: "@ + username),
            },
            None => Err("User not found: "@ + username),
        }
    }
}

/// The blocklist configuration of the tenant `username`, or why there is none.
pub open spec fn blocklists_of(store: UserStore, username: Seq<char>) -> Result<
    Seq<char>,
    Seq<char>,
> {
    match config_of(store, username) {
        Ok(c) => match c.blocklists {
            Some(b) => Ok(b@),
            None => Err("No blocklist config found for: "@ + username),
        },
        Err(e) => Err(e),
    }
}

/// The whitelist of the tenant `username`, empty where it has none, or why
/// the configuration cannot be had.
pub open spec fn whitelist_of(store: UserStore, username: Seq<char>) -> Result<
    Seq<char>,
    Seq<char>,
> {
    match config_of(store, username) {
        Ok(c) => match c.whitelist {
            Some(w) => Ok(w@),
            None => Ok(Seq::empty()),
        },
        Err(e) => Err(e),
    }
}

fn with_name(message: &str, username: &str) -> (r: String)
    ensures
        r@ == message@ + username@,
{
    let mut r = message.to_string();
    r.append(username);
    r
}

impl UserConfigRepository {
    /// The hand of a worker on the configurations.
    pub fn new() -> UserConfigRepository {
        UserConfigRepository {  }
    }

    /// The configuration of the tenant `username`: see `config_of`.
    pub fn get_config<'a>(&self, store: &'a UserStore, username: &str) -> (r: Result<
        &'a UserConfig,
        String,
    >)
        ensures
            match r {
                Ok(c) => config_of(*store, username@) == Ok::<UserConfig, Seq<char>>(*c),
                Err(e) => config_of(*store, username@) == Err::<UserConfig, Seq<char>>(e@),
            },
    {
        if str_eq(username, "__default__") {
            match &store.default_config {
                Some(c) => Ok(c),
                None => Err("Default config not found in system_config collection".to_string()),
            }
        } else {
            match store.find(username) {
                Some(i) => match &store.users[i].config {
                    Some(c) => Ok(c),
                    None => Err(with_name("No config found for user: ", username)),
                },
                None => Err(with_name("User not found: ", username)),
            }
        }
    }

    /// The blocklist configuration of the tenant `username`: see
    /// `blocklists_of`.
    pub fn get_blocklists(&self, store: &UserStore, username: &str) -> (r: Result<String, String>)
        ensures
            match r {
                Ok(b) => blocklists_of(*store, username@) == Ok::<Seq<char>, Seq<char>>(b@),
                Err(e) => blocklists_of(*store, username@) == Err::<Seq<char>, Seq<char>>(e@),
            },
    {
        match self.get_config(store, username) {
            Ok(c) => match &c.blocklists {
                Some(b) => Ok(b.clone()),
                None => Err(with_name("No blocklist config found for: ", username)),
            },
            Err(e) => Err(e),
        }
    }

    /// The whitelist of the tenant `username`: see `whitelist_of`.
    pub fn get_whitelist(&self, store: &UserStore, username: &str) -> (r: Result<String, String>)
        ensures
            match r {
                Ok(w) => whitelist_of(*store, username@) == Ok::<Seq<char>, Seq<char>>(w@),
                Err(e) => whitelist_of(*store, username@) == Err::<Seq<char>, Seq<char>>(e@),
            },
    {
        match self.get_config(store, username) {
            Ok(c) => match &c.whitelist {
                Some(w) => Ok(w.clone()),
                None => Ok(String::new()),
            },
            Err(e) => Err(e),
        }
    }
}

} // verus!
