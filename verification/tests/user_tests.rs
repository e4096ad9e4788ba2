use blocklist_worker::db::user::{
    BuildOutcome, DefaultBuild, ListMetadata, UserRecord, UserRepository, UserStats, UserStore,
};
use blocklist_worker::db::user_config::{UserConfig, UserConfigRepository};

fn list(name: &str, count: u64) -> ListMetadata {
    ListMetadata {
        name: name.to_string(),
        is_public: false,
        formats: vec!["hosts".to_string()],
        domain_count: count,
        last_updated: 1,
    }
}

fn user(name: &str, fingerprint: Option<&str>, built_at: Option<i64>, lists: usize) -> UserRecord {
    UserRecord {
        username: name.to_string(),
        is_enabled: true,
        config: Some(UserConfig { blocklists: Some(format!("https://{}/x", name)), whitelist: None }),
        lists: Some((0..lists).map(|i| list(&format!("l{}", i), 5)).collect()),
        stats: Some(UserStats {
            total_domains: Some(50),
            total_output_size_bytes: Some(500),
            last_build_at: built_at,
            config_hash: Some(format!("hash-{}", name)),
            config_fingerprint: fingerprint.map(|f| f.to_string()),
        }),
        updated_at: None,
    }
}

fn outcome() -> BuildOutcome {
    BuildOutcome {
        lists: vec![list("ads", 7)],
        total_domains: 7,
        total_output_size: 70,
        config_hash: "h".to_string(),
        config_fingerprint: "f".to_string(),
    }
}

#[test]
fn the_most_recent_build_with_the_fingerprint_is_found() {
    let repo = UserRepository::new();
    let mut store = UserStore::new();
    store.users.push(user("alice", Some("fp"), Some(10), 1));
    store.users.push(user("bob", Some("fp"), Some(30), 2));
    store.users.push(user("carol", Some("fp"), Some(30), 1));
    store.users.push(user("dave", Some("other"), Some(99), 1));
    store.users.push(user("erin", Some("fp"), Some(99), 0));
    store.users.push(user("frank", Some("fp"), None, 1));
    let mut off = user("grace", Some("fp"), Some(99), 1);
    off.is_enabled = false;
    store.users.push(off);
    let mut bare = user("heidi", None, None, 1);
    bare.stats = None;
    store.users.push(bare);

    let found = repo.find_user_by_fingerprint(&store, "fp", "zed").unwrap();
    assert_eq!(found.username, "bob");
    assert_eq!(found.lists.len(), 2);
    assert_eq!(found.lists[0].name, "l0");
    assert_eq!((found.total_domains, found.total_output_size), (50, 500));
    let found = repo.find_user_by_fingerprint(&store, "fp", "bob").unwrap();
    assert_eq!(found.username, "carol");
    assert!(repo.find_user_by_fingerprint(&store, "nobody", "zed").is_none());
    assert!(repo.find_user_by_fingerprint(&UserStore::new(), "fp", "zed").is_none());
}

#[test]
fn the_default_build_comes_first() {
    let repo = UserRepository::new();
    let mut store = UserStore::new();
    store.users.push(user("alice", Some("fp"), Some(10), 1));
    store.default_build = Some(DefaultBuild {
        config_fingerprint: Some("fp".to_string()),
        total_domains: Some(9),
        total_output_size_bytes: None,
        last_build_at: Some(1),
    });
    let found = repo.find_user_by_fingerprint(&store, "fp", "bob").unwrap();
    assert_eq!(found.username, "__default__");
    assert!(found.lists.is_empty());
    assert_eq!((found.total_domains, found.total_output_size), (9, 0));
    let found = repo.find_user_by_fingerprint(&store, "fp", "__default__").unwrap();
    assert_eq!(found.username, "alice");
    let found = repo.find_user_by_fingerprint(&store, "other", "bob");
    assert!(found.is_none());
}

#[test]
fn a_build_is_written_to_the_record_of_its_tenant() {
    let repo = UserRepository::new();
    let mut store = UserStore::new();
    store.users.push(user("alice", None, None, 0));
    store.users.push(user("bob", None, None, 0));
    repo.update_after_build(&mut store, "bob", outcome(), 77);
    repo.update_after_build(&mut store, "nobody", outcome(), 78);
    assert_eq!(store.users.len(), 2);
    assert_eq!(store.users[0].updated_at, None);
    let bob = &store.users[1];
    assert_eq!(bob.updated_at, Some(77));
    assert_eq!(bob.lists.as_ref().map(|l| (l.len(), l[0].name.clone(), l[0].domain_count)), Some((1, "ads".to_string(), 7)));
    let stats = bob.stats.as_ref().unwrap();
    assert_eq!((stats.total_domains, stats.total_output_size_bytes, stats.last_build_at), (Some(7), Some(70), Some(77)));
    assert_eq!((stats.config_hash.as_deref(), stats.config_fingerprint.as_deref()), (Some("h"), Some("f")));
    assert!(store.default_build.is_none());

    repo.update_after_build(&mut store, "__default__", outcome(), 79);
    let d = store.default_build.as_ref().unwrap();
    assert_eq!((d.config_fingerprint.as_deref(), d.total_domains, d.total_output_size_bytes, d.last_build_at), (Some("f"), Some(7), Some(70), Some(79)));
    assert_eq!(store.users[1].updated_at, Some(77));
}

#[test]
fn the_record_tells_of_the_last_build() {
    let repo = UserRepository::new();
    let mut store = UserStore::new();
    store.users.push(user("alice", Some("fp"), Some(10), 2));
    assert_eq!(repo.get_config_hash(&store, "alice"), Some("hash-alice".to_string()));
    assert_eq!(repo.get_config_hash(&store, "bob"), None);
    assert_eq!(repo.get_config_hash(&store, "__default__"), None);
    assert_eq!(repo.get_existing_lists(&store, "alice").len(), 2);
    assert!(repo.get_existing_lists(&store, "bob").is_empty());
    assert!(repo.get_existing_lists(&store, "__default__").is_empty());
    store.users[0].stats = None;
    store.users[0].lists = None;
    assert_eq!(repo.get_config_hash(&store, "alice"), None);
    assert!(repo.get_existing_lists(&store, "alice").is_empty());
    assert_eq!(store.find("alice"), Some(0));
    assert_eq!(store.find("bob"), None);
}

#[test]
fn the_configuration_of_a_tenant_is_found_or_an_error_says_why() {
    let repo = UserConfigRepository::new();
    let mut store = UserStore::new();
    store.users.push(user("alice", None, None, 0));
    let mut bare = user("bob", None, None, 0);
    bare.config = None;
    store.users.push(bare);
    let mut empty = user("carol", None, None, 0);
    empty.config = Some(UserConfig { blocklists: None, whitelist: Some("a.com".to_string()) });
    store.users.push(empty);

    assert_eq!(repo.get_blocklists(&store, "alice"), Ok("https://alice/x".to_string()));
    assert_eq!(repo.get_whitelist(&store, "alice"), Ok(String::new()));
    assert_eq!(repo.get_blocklists(&store, "bob"), Err("No config found for user: bob".to_string()));
    assert_eq!(repo.get_whitelist(&store, "bob"), Err("No config found for user: bob".to_string()));
    assert_eq!(repo.get_blocklists(&store, "carol"), Err("No blocklist config found for: carol".to_string()));
    assert_eq!(repo.get_whitelist(&store, "carol"), Ok("a.com".to_string()));
    assert_eq!(repo.get_blocklists(&store, "zed"), Err("User not found: zed".to_string()));
    assert_eq!(
        repo.get_blocklists(&store, "__default__"),
        Err("Default config not found in system_config collection".to_string())
    );
    assert!(repo.get_config(&store, "zed").is_err());
    store.default_config = Some(UserConfig { blocklists: Some("https://d/x".to_string()), whitelist: None });
    assert_eq!(repo.get_blocklists(&store, "__default__"), Ok("https://d/x".to_string()));
    assert_eq!(repo.get_config(&store, "__default__").map(|c| c.whitelist.clone()), Ok(None));
}
