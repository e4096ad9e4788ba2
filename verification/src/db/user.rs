//! The records of the tenants: what each has configured, and what its last
//! build gave. The system-wide default build has a record of its own.

use crate::db::user_config::UserConfig;
use crate::text::{str_eq, strings};
use vstd::prelude::*;

verus! {

/// What is known of one output list of a tenant.
#[derive(Debug, Clone)]
pub struct ListMetadata {
    pub name: String,
    pub is_public: bool,
    pub formats: Vec<String>,
    pub domain_count: u64,
    /// Milliseconds since the Unix epoch.
    pub last_updated: i64,
}

/// The mathematical value of a `ListMetadata`.
pub struct ListView {
    pub name: Seq<char>,
    pub is_public: bool,
    pub formats: Seq<Seq<char>>,
    pub domain_count: u64,
    pub last_updated: i64,
}

impl View for ListMetadata {
    type V = ListView;

    open spec fn view(&self) -> ListView {
        ListView {
            name: self.name@,
            is_public: self.is_public,
            formats: strings(self.formats@),
            domain_count: self.domain_count,
            last_updated: self.last_updated,
        }
    }
}

/// What the last build of a tenant gave.
#[derive(Debug, Clone)]
pub struct UserStats {
    pub total_domains: Option<u64>,
    pub total_output_size_bytes: Option<u64>,
    pub last_build_at: Option<i64>,
    /// The hash of the configuration as it was written.
    pub config_hash: Option<String>,
    /// The hash of the configuration in its canonical form.
    pub config_fingerprint: Option<String>,
}

/// A tenant whose configuration has a given fingerprint.
#[derive(Debug, Clone)]
pub struct MatchedUser {
    pub username: String,
    pub lists: Vec<ListMetadata>,
    pub total_domains: u64,
    pub total_output_size: u64,
}

/// The record of a tenant.
#[derive(Debug, Clone)]
pub struct UserRecord {
    pub username: String,
    pub is_enabled: bool,
    pub config: Option<UserConfig>,
    pub lists: Option<Vec<ListMetadata>>,
    pub stats: Option<UserStats>,
    pub updated_at: Option<i64>,
}

/// What the last default build gave.
#[derive(Debug, Clone)]
pub struct DefaultBuild {
    pub config_fingerprint: Option<String>,
    pub total_domains: Option<u64>,
    pub total_output_size_bytes: Option<u64>,
    pub last_build_at: Option<i64>,
}

/// The records of all tenants, in the order in which the database keeps
/// them, and those of the default build.
pub struct UserStore {
    pub users: Vec<UserRecord>,
    pub default_build: Option<DefaultBuild>,
    pub default_config: Option<UserConfig>,
}

/// The hand of a worker on the records of the tenants.
pub struct UserRepository {}

/// What a build gave, to be written to the record of its tenant.
pub struct BuildOutcome {
    pub lists: Vec<ListMetadata>,
    pub total_domains: u64,
    pub total_output_size: u64,
    pub config_hash: String,
    pub config_fingerprint: String,
}

/// The values of a list of list metadata.
pub open spec fn list_views(ls: Seq<ListMetadata>) -> Seq<ListView> {
    ls.map_values(|l: ListMetadata| l@)
}

/// The index of the first tenant with the name `username`.
pub open spec fn first_user(users: Seq<UserRecord>, username: Seq<char>) -> Option<int>
    decreases users.len(),
{
    if users.len() == 0 {
        None
    } else {
        match first_user(users.drop_last(), username) {
            Some(i) => Some(i),
            None => if users.last().username@ == username {
                Some(users.len() - 1)
            } else {
                None
            },
        }
    }
}

impl UserRecord {
    /// The time of the last build.
    pub open spec fn built_at(&self) -> Option<i64> {
        match self.stats {
            Some(s) => s.last_build_at,
            None => None,
        }
    }

    /// Whether the output of this tenant may be copied for a configuration
    /// with the fingerprint `fingerprint` of the tenant `exclude`: it is
    /// another tenant, it is enabled, its last build had this fingerprint
    /// and left at least one list.
    pub open spec fn offers(&self, fingerprint: Seq<char>, exclude: Seq<char>) -> bool {
        &&& self.username@ != exclude
        &&& self.is_enabled
        &&& self.lists matches Some(l) && l@.len() > 0
        &&& self.stats matches Some(s) && s.last_build_at is Some && (
        s.config_fingerprint matches Some(f) && f@ == fingerprint)
    }

    /// The record after the build `outcome` was written at `now`.
    pub open spec fn is_built(&self, before: UserRecord, outcome: BuildOutcome, now: i64) -> bool {
        &&& self.username == before.username
        &&& self.is_enabled == before.is_enabled
        &&& self.config == before.config
        &&& self.lists == Some(outcome.lists)
        &&& self.updated_at == Some(now)
        &&& self.stats matches Some(s) && s.total_domains == Some(outcome.total_domains)
            && s.total_output_size_bytes == Some(outcome.total_output_size) && s.last_build_at
            == Some(now) && s.config_hash == Some(outcome.config_hash) && s.config_fingerprint
            == Some(outcome.config_fingerprint)
    }
}

impl DefaultBuild {
    /// Whether the default build has the fingerprint `fingerprint`.
    pub open spec fn offers(&self, fingerprint: Seq<char>) -> bool {
        self.config_fingerprint matches Some(f) && f@ == fingerprint
    }
}

/// The index of the tenant whose output is copied: of the tenants that
/// offer theirs the one that was built last, and of several such the first.
pub open spec fn latest_offer(users: Seq<UserRecord>, fingerprint: Seq<char>, exclude: Seq<char>) -> Option<
    int,
>
    decreases users.len(),
{
    if users.len() == 0 {
        None
    } else {
        let front = latest_offer(users.drop_last(), fingerprint, exclude);
        if !users.last().offers(fingerprint, exclude) {
            front
        } else {
            match front {
                Some(b) => if users.last().built_at().unwrap() > users[b].built_at().unwrap() {
                    Some(users.len() - 1)
                } else {
                    Some(b)
                },
                None => Some(users.len() - 1),
            }
        }
    }
}

/// Whether the default build is what is copied: the tenant that asks is
/// not the default build, and the default build has the fingerprint.
pub open spec fn default_offers(
    default_build: Option<DefaultBuild>,
    fingerprint: Seq<char>,
    exclude: Seq<char>,
) -> bool {
    exclude != "__default__"@ && (default_build matches Some(b) && b.offers(fingerprint))
}

pub proof fn lemma_first_user(users: Seq<UserRecord>, username: Seq<char>)
    ensures
        match first_user(users, username) {
            Some(i) => {
                &&& 0 <= i < users.len()
                &&& users[i].username@ == username
                &&& forall|j: int| 0 <= j < i ==> (#[trigger] users[j]).username@ != username
            },
            None => forall|j: int|
                0 <= j < users.len() ==> (#[trigger] users[j]).username@ != username,
        },
    decreases users.len(),
{
    if users.len() > 0 {
        let front = users.drop_last();
        lemma_first_user(front, username);
        assert forall|j: int| 0 <= j < front.len() implies users[j] == front[j] by {}
    }
}

/// The tenant whose output is copied offers it, and no tenant that offers
/// was built later.
pub proof fn lemma_latest_offer(users: Seq<UserRecord>, fingerprint: Seq<char>, exclude: Seq<char>)
    ensures
        match latest_offer(users, fingerprint, exclude) {
            Some(i) => {
                &&& 0 <= i < users.len()
                &&& users[i].offers(fingerprint, exclude)
                &&& forall|j: int|
                    0 <= j < users.len() && (#[trigger] users[j]).offers(fingerprint, exclude)
                        ==> users[j].built_at().unwrap() <= users[i].built_at().unwrap()
            },
            None => forall|j: int|
                0 <= j < users.len() ==> !(#[trigger] users[j]).offers(fingerprint, exclude),
        },
    decreases users.len(),
{
    if users.len() > 0 {
        let front = users.drop_last();
        lemma_latest_offer(front, fingerprint, exclude);
        assert forall|j: int| 0 <= j < front.len() implies users[j] == front[j] by {}
        match latest_offer(users, fingerprint, exclude) {
            Some(i) => {
                assert forall|j: int|
                    0 <= j < users.len() && (#[trigger] users[j]).offers(
                        fingerprint,
                        exclude,
                    ) implies users[j].built_at().unwrap() <= users[i].built_at().unwrap() by {
                    if j < front.len() {
                        assert(front[j].offers(fingerprint, exclude));
                    }
                }
            },
            None => {
                assert forall|j: int| 0 <= j < users.len() implies !(#[trigger] users[j]).offers(
                    fingerprint,
                    exclude,
                ) by {
                    if j < front.len() {
                        assert(!front[j].offers(fingerprint, exclude));
                    }
                }
            },
        }
    }
}

/// A copy of `text`.
pub fn copy_string(text: &String) -> (r: String)
    ensures
        r@ == text@,
{
    text.clone()
}

/// A copy of `texts`.
pub fn copy_strings(texts: &Vec<String>) -> (r: Vec<String>)
    ensures
        strings(r@) == strings(texts@),
{
    let mut r: Vec<String> = Vec::new();
    let mut i: usize = 0;
    while i < texts.len()
        invariant
            i <= texts.len(),
            strings(r@) == strings(texts@).take(i as int),
        decreases texts.len() - i,
    {
        let ghost before = strings(r@);
        r.push(texts[i].clone());
        assert(strings(r@) =~= before.push(texts@[i as int]@));
        assert(strings(texts@).take(i + 1) =~= strings(texts@).take(i as int).push(
            texts@[i as int]@,
        ));
        i += 1;
    }
    assert(strings(texts@).take(texts.len() as int) =~= strings(texts@));
    r
}

impl ListMetadata {
    /// A copy of the metadata.
    pub fn duplicate(&self) -> (r: ListMetadata)
        ensures
            r@ == self@,
    {
        ListMetadata {
            name: self.name.clone(),
            is_public: self.is_public,
            formats: copy_strings(&self.formats),
            domain_count: self.domain_count,
            last_updated: self.last_updated,
        }
    }
}

/// A copy of `lists`.
pub fn copy_lists(lists: &Vec<ListMetadata>) -> (r: Vec<ListMetadata>)
    ensures
        list_views(r@) == list_views(lists@),
{
    let mut r: Vec<ListMetadata> = Vec::new();
    let mut i: usize = 0;
    while i < lists.len()
        invariant
            i <= lists.len(),
            list_views(r@) == list_views(lists@).take(i as int),
        decreases lists.len() - i,
    {
        let ghost before = list_views(r@);
        r.push(lists[i].duplicate());
        assert(list_views(r@) =~= before.push(lists@[i as int]@));
        assert(list_views(lists@).take(i + 1) =~= list_views(lists@).take(i as int).push(
            lists@[i as int]@,
        ));
        i += 1;
    }
    assert(list_views(lists@).take(lists.len() as int) =~= list_views(lists@));
    r
}

impl UserStore {
    /// No tenant, and no default build.
    pub fn new() -> (s: UserStore)
        ensures
            s.users@.len() == 0,
            s.default_build is None,
            s.default_config is None,
    {
        UserStore { users: Vec::new(), default_build: None, default_config: None }
    }

    /// The index of the first tenant with the name `username`.
    pub fn find(&self, username: &str) -> (r: Option<usize>)
        ensures
            match r {
                Some(i) => first_user(self.users@, username@) == Some(i as int) && i
                    < self.users.len(),
                None => first_user(self.users@, username@) is None,
            },
    {
        let mut i: usize = 0;
        while i < self.users.len()
            invariant
                i <= self.users.len(),
                forall|j: int| 0 <= j < i ==> (#[trigger] self.users@[j]).username@ != username@,
            decreases self.users.len() - i,
        {
            if str_eq(self.users[i].username.as_str(), username) {
                proof {
                    lemma_first_user(self.users@, username@);
                }
                return Some(i);
            }
            i += 1;
        }
        proof {
            lemma_first_user(self.users@, username@);
        }
        None
    }
}

impl UserRepository {
    /// The hand of a worker on the records of the tenants.
    pub fn new() -> UserRepository {
        UserRepository {  }
    }

    /// Writes what a build gave to the record of its tenant, at `now`: the
    /// lists, the totals, both hashes of the configuration and the time of
    /// the build change together. For the default build its own record is
    /// written, which keeps the fingerprint and the totals. A tenant that
    /// has no record gets none.
    pub fn update_after_build(
        &self,
        store: &mut UserStore,
        username: &str,
        outcome: BuildOutcome,
        now: i64,
    )
        ensures
            final(store).default_config == old(store).default_config,
            username@ == "__default__"@ ==> {
                &&& final(store).users == old(store).users
                &&& final(store).default_build matches Some(b) && b.config_fingerprint == Some(
                    outcome.config_fingerprint,
                ) && b.total_domains == Some(outcome.total_domains) && b.total_output_size_bytes
                    == Some(outcome.total_output_size) && b.last_build_at == Some(now)
            },
            username@ != "__default__"@ ==> {
                &&& final(store).default_build == old(store).default_build
                &&& final(store).users@.len() == old(store).users@.len()
                &&& match first_user(old(store).users@, username@) {
                    Some(i) => final(store).users@[i].is_built(old(store).users@[i], outcome, now)
                        && forall|j: int|
                        0 <= j < old(store).users@.len() && j != i ==> final(store).users@[j]
                            == old(store).users@[j],
                    None => final(store).users@ == old(store).users@,
                }
            },
    {
        if str_eq(username, "__default__") {
            store.default_build = Some(
                DefaultBuild {
                    config_fingerprint: Some(outcome.config_fingerprint),
                    total_domains: Some(outcome.total_domains),
                    total_output_size_bytes: Some(outcome.total_output_size),
                    last_build_at: Some(now),
                },
            );
            return ;
        }
        match store.find(username) {
            Some(i) => {
                store.users[i].lists = Some(outcome.lists);
                store.users[i].stats = Some(
                    UserStats {
                        total_domains: Some(outcome.total_domains),
                        total_output_size_bytes: Some(outcome.total_output_size),
                        last_build_at: Some(now),
                        config_hash: Some(outcome.config_hash),
                        config_fingerprint: Some(outcome.config_fingerprint),
                    },
                );
                store.users[i].updated_at = Some(now);
            },
            None => {
                assert(store.users@ =~= old(store).users@);
            },
        }
    }

    /// The lists that the record of a tenant names; none for the default
    /// build, and none for a tenant without record or lists.
    pub fn get_existing_lists(&self, store: &UserStore, username: &str) -> (lists: Vec<
        ListMetadata,
    >)
        ensures
            list_views(lists@) == if username@ == "__default__"@ {
                Seq::<ListView>::empty()
            } else {
                match first_user(store.users@, username@) {
                    Some(i) => match store.users@[i].lists {
                        Some(l) => list_views(l@),
                        None => Seq::<ListView>::empty(),
                    },
                    None => Seq::<ListView>::empty(),
                }
            },
    {
        let none: Vec<ListMetadata> = Vec::new();
        assert(list_views(none@) =~= Seq::<ListView>::empty());
        if str_eq(username, "__default__") {
            return none;
        }
        match store.find(username) {
            Some(i) => match &store.users[i].lists {
                Some(l) => copy_lists(l),
                None => none,
            },
            None => none,
        }
    }

    /// The hash of the configuration that the last build of a tenant had,
    /// as it was written. The default build has none: it is always built.
    pub fn get_config_hash(&self, store: &UserStore, username: &str) -> (hash: Option<String>)
        ensures
            match hash {
                Some(h) => username@ != "__default__"@ && (first_user(
                    store.users@,
                    username@,
                ) matches Some(i) && (store.users@[i].stats matches Some(s) && (
                s.config_hash matches Some(c) && c@ == h@))),
                None => username@ == "__default__"@ || match first_user(store.users@, username@) {
                    Some(i) => match store.users@[i].stats {
                        Some(s) => s.config_hash is None,
                        None => true,
                    },
                    None => true,
                },
            },
    {
        if str_eq(username, "__default__") {
            return None;
        }
        match store.find(username) {
            Some(i) => match &store.users[i].stats {
                Some(s) => match &s.config_hash {
                    Some(c) => Some(c.clone()),
                    None => None,
                },
                None => None,
            },
            None => None,
        }
    }

    /// The tenant whose output can be copied for a configuration with the
    /// fingerprint `fingerprint`, asked by the tenant `exclude_username`.
    /// The default build comes first, where it has the fingerprint and
    /// it is not the default build that asks; then the tenant that offers
    /// its output and was built last.
    pub fn find_user_by_fingerprint(
        &self,
        store: &UserStore,
        fingerprint: &str,
        exclude_username: &str,
    ) -> (found: Option<MatchedUser>)
        ensures
            default_offers(store.default_build, fingerprint@, exclude_username@) ==> {
                &&& found matches Some(m)
                &&& m.username@ == "__default__"@
                &&& m.lists@.len() == 0
                &&& m.total_domains == match store.default_build.unwrap().total_domains {
                    Some(n) => n,
                    None => 0,
                }
                &&& m.total_output_size == match store.default_build.unwrap().total_output_size_bytes {
                    Some(n) => n,
                    None => 0,
                }
            },
            !default_offers(store.default_build, fingerprint@, exclude_username@) ==> match latest_offer(
                store.users@,
                fingerprint@,
                exclude_username@,
            ) {
                Some(i) => {
                    &&& found matches Some(m)
                    &&& m.username@ == store.users@[i].username@
                    &&& list_views(m.lists@) == list_views(store.users@[i].lists.unwrap()@)
                    &&& m.total_domains == match store.users@[i].stats.unwrap().total_domains {
                        Some(n) => n,
                        None => 0,
                    }
                    &&& m.total_output_size == match store.users@[i].stats.unwrap().total_output_size_bytes {
                        Some(n) => n,
                        None => 0,
                    }
                },
                None => found is None,
            },
    {
        if !str_eq(exclude_username, "__default__") {
            match &store.default_build {
                Some(b) => match &b.config_fingerprint {
                    Some(f) => {
                        if str_eq(f.as_str(), fingerprint) {
                            return Some(
                                MatchedUser {
                                    username: "__default__".to_string(),
                                    lists: Vec::new(),
                                    total_domains: match b.total_domains {
                                        Some(n) => n,
                                        None => 0,
                                    },
                                    total_output_size: match b.total_output_size_bytes {
                                        Some(n) => n,
                                        None => 0,
                                    },
                                },
                            );
                        }
                    },
                    None => {},
                },
                None => {},
            }
        }
        let users = &store.users;
        let mut best: Option<usize> = None;
        let mut i: usize = 0;
        proof {
            assert(users@.take(0) =~= Seq::<UserRecord>::empty());
        }
        while i < users.len()
            invariant
                i <= users.len(),
                match best {
                    Some(b) => latest_offer(users@.take(i as int), fingerprint@, exclude_username@)
                        == Some(b as int) && b < i,
                    None => latest_offer(users@.take(i as int), fingerprint@, exclude_username@)
                        is None,
                },
            decreases users.len() - i,
        {
            proof {
                let p = users@.take(i + 1);
                assert(p.drop_last() =~= users@.take(i as int));
                assert(p.last() == users@[i as int]);
                lemma_latest_offer(users@.take(i as int), fingerprint@, exclude_username@);
            }
            let user = &users[i];
            let built = Self::offered_build(user, fingerprint, exclude_username);
            match built {
                Some(t) => {
                    match best {
                        Some(b) => {
                            assert(users@.take(i + 1)[b as int] == users@[b as int]);
                            assert(users@.take(i as int)[b as int] == users@[b as int]);
                            let other = Self::build_time(&users[b]);
                            if t > other {
                                best = Some(i);
                            }
                        },
                        None => {
                            best = Some(i);
                        },
                    }
                },
                None => {},
            }
            i += 1;
        }
        proof {
            assert(users@.take(users.len() as int) =~= users@);
            lemma_latest_offer(users@, fingerprint@, exclude_username@);
        }
        match best {
            Some(b) => {
                let user = &users[b];
                let lists = match &user.lists {
                    Some(l) => copy_lists(l),
                    None => Vec::new(),
                };
                let (total_domains, total_output_size) = match &user.stats {
                    Some(s) => (
                        match s.total_domains {
                            Some(n) => n,
                            None => 0,
                        },
                        match s.total_output_size_bytes {
                            Some(n) => n,
                            None => 0,
                        },
                    ),
                    None => (0, 0),
                };
                Some(
                    MatchedUser {
                        username: user.username.clone(),
                        lists,
                        total_domains,
                        total_output_size,
                    },
                )
            },
            None => None,
        }
    }

    /// The time of the last build of `user`, where it offers its output.
    fn offered_build(user: &UserRecord, fingerprint: &str, exclude: &str) -> (r: Option<i64>)
        ensures
            match r {
                Some(t) => user.offers(fingerprint@, exclude@) && user.built_at() == Some(t),
                None => !user.offers(fingerprint@, exclude@),
            },
    {
        if str_eq(user.username.as_str(), exclude) || !user.is_enabled {
            return None;
        }
        match &user.lists {
            Some(l) => {
                if l.len() == 0 {
                    return None;
                }
            },
            None => {
                return None;
            },
        }
        match &user.stats {
            Some(s) => match &s.config_fingerprint {
                Some(f) => if str_eq(f.as_str(), fingerprint) {
                    s.last_build_at
                } else {
                    None
                },
                None => None,
            },
            None => None,
        }
    }

    /// The time of the last build of `user`, or the earliest time where
    /// it has none.
    fn build_time(user: &UserRecord) -> (t: i64)
        ensures
            user.built_at() matches Some(b) ==> t == b,
    {
        match &user.stats {
            Some(s) => match s.last_build_at {
                Some(t) => t,
                None => i64::MIN,
            },
            None => i64::MIN,
        }
    }
}

} // verus!
