use blocklist_worker::whitelist::WhitelistManager;

#[test]
fn test_exact_pattern() {
    let manager = WhitelistManager::from_content("example.com");
    assert!(manager.is_whitelisted("example.com"));
    assert!(!manager.is_whitelisted("sub.example.com"));
    assert!(!manager.is_whitelisted("example.org"));
}

#[test]
fn test_subdomain_pattern() {
    let manager = WhitelistManager::from_content("@@example.com");
    assert!(manager.is_whitelisted("example.com"));
    assert!(manager.is_whitelisted("sub.example.com"));
    assert!(manager.is_whitelisted("a.b.c.example.com"));
    assert!(!manager.is_whitelisted("example.org"));
}

#[test]
fn test_wildcard_pattern() {
    let manager = WhitelistManager::from_content("*.example.com");
    assert!(manager.is_whitelisted("sub.example.com"));
    assert!(!manager.is_whitelisted("example.com"));
}

#[test]
fn test_regex_pattern() {
    let manager = WhitelistManager::from_content("/google\\.(com|co\\.uk)/");
    assert!(manager.is_whitelisted("google.com"));
    assert!(manager.is_whitelisted("google.co.uk"));
    assert!(!manager.is_whitelisted("google.de"));
}

#[test]
fn whitelist_test_comments() {
    let manager = WhitelistManager::from_content("# full line comment\nexample.com # inline comment\ntest.com\n\n  ");
    assert!(manager.is_whitelisted("example.com"));
    assert!(manager.is_whitelisted("test.com"));
    assert_eq!(manager.patterns().len(), 2);
}

#[test]
fn test_mixed_patterns() {
    let content = "example.com\n@@google.com\n*.ads.com\n/tracker\\d+\\.com/";
    let manager = WhitelistManager::from_content(content);

    assert!(manager.is_whitelisted("example.com"));
    assert!(manager.is_whitelisted("google.com"));
    assert!(manager.is_whitelisted("www.google.com"));
    assert!(manager.is_whitelisted("foo.ads.com"));
    assert!(manager.is_whitelisted("tracker1.com"));
    assert!(manager.is_whitelisted("tracker99.com"));

    assert!(!manager.is_whitelisted("other.com"));
}
