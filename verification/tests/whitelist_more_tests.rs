use blocklist_worker::domains::DomainSet;
use blocklist_worker::whitelist::{PatternInfo, PatternType, WhitelistManager};

fn set(domains: &[&str]) -> DomainSet {
    DomainSet::from_vec(domains.iter().map(|d| d.to_string()).collect())
}

#[test]
fn patterns_are_classified_by_their_text() {
    let manager = WhitelistManager::from_content("a.com\n@@b.com\n*.c.com\n/d\\.com/\n//\n/\n@@\n");
    let kinds: Vec<(String, PatternType)> = manager
        .patterns()
        .iter()
        .map(|p| (p.original.clone(), p.pattern_type))
        .collect();
    assert_eq!(
        kinds,
        vec![
            ("a.com".to_string(), PatternType::Exact),
            ("@@b.com".to_string(), PatternType::Subdomain),
            ("*.c.com".to_string(), PatternType::Wildcard),
            ("/d\\.com/".to_string(), PatternType::Regex),
            ("//".to_string(), PatternType::Exact),
            ("/".to_string(), PatternType::Exact),
            ("@@".to_string(), PatternType::Subdomain),
        ]
    );
    assert_eq!(PatternType::Exact.to_string(), "exact");
    assert_eq!(PatternType::Wildcard.to_string(), "wildcard");
    assert_eq!(PatternType::Regex.to_string(), "regex");
    assert_eq!(PatternType::Subdomain.to_string(), "subdomain");
}

#[test]
fn an_empty_whitelist_covers_nothing() {
    assert!(!WhitelistManager::new().is_whitelisted("example.com"));
    assert!(!WhitelistManager::from_content("").is_whitelisted("example.com"));
    assert!(!WhitelistManager::from_content("# only a comment\n\n").is_whitelisted(""));
    assert!(WhitelistManager::new().patterns().is_empty());
}

#[test]
fn patterns_are_matched_in_lower_case() {
    let manager = WhitelistManager::from_content("Example.COM\n@@Google.Com");
    assert!(manager.is_whitelisted("example.com"));
    assert!(!manager.is_whitelisted("Example.COM"));
    assert!(manager.is_whitelisted("www.google.com"));
    assert!(!manager.is_whitelisted("notgoogle.com"));
}

#[test]
fn a_wildcard_is_escaped_and_anchored() {
    let manager = WhitelistManager::from_content("*.example.com\nads*.net");
    assert!(manager.is_whitelisted("a.example.com"));
    assert!(manager.is_whitelisted("a.b.example.com"));
    assert!(!manager.is_whitelisted("aXexample.com"));
    assert!(!manager.is_whitelisted("a.example.com.evil.org"));
    assert!(manager.is_whitelisted("ads.net"));
    assert!(manager.is_whitelisted("ads123.cdn.net"));
    assert!(!manager.is_whitelisted("bads.net"));
}

#[test]
fn a_regex_is_not_anchored() {
    let manager = WhitelistManager::from_content("/track/");
    assert!(manager.is_whitelisted("tracker.com"));
    assert!(manager.is_whitelisted("my.track.er"));
    assert!(!manager.is_whitelisted("trakker.com"));
}

#[test]
fn an_invalid_regex_switches_the_set_off() {
    let manager = WhitelistManager::from_content("/(unclosed/\n*.ads.com\nexample.com");
    assert_eq!(manager.patterns().len(), 3);
    assert!(manager.is_whitelisted("example.com"));
    assert!(!manager.is_whitelisted("x.ads.com"));
    let wildcard = PatternInfo { original: "*.ads.com".to_string(), pattern_type: PatternType::Wildcard };
    assert!(manager.matches_pattern("x.ads.com", &wildcard));
    let broken = PatternInfo { original: "/(unclosed/".to_string(), pattern_type: PatternType::Regex };
    assert!(!manager.matches_pattern("unclosed", &broken));
}

#[test]
fn single_patterns_match_as_the_whitelist_does() {
    let manager = WhitelistManager::new();
    let exact = PatternInfo { original: "A.com".to_string(), pattern_type: PatternType::Exact };
    assert!(manager.matches_pattern("a.com", &exact));
    assert!(!manager.matches_pattern("b.a.com", &exact));
    let sub = PatternInfo { original: "@@@@a.com".to_string(), pattern_type: PatternType::Subdomain };
    assert!(manager.matches_pattern("a.com", &sub));
    assert!(manager.matches_pattern("b.a.com", &sub));
    assert!(!manager.matches_pattern("ba.com", &sub));
    let regex = PatternInfo { original: "/^a\\d$/".to_string(), pattern_type: PatternType::Regex };
    assert!(manager.matches_pattern("a1", &regex));
    assert!(!manager.matches_pattern("a12", &regex));
    let short = PatternInfo { original: "/".to_string(), pattern_type: PatternType::Regex };
    assert!(manager.matches_pattern("anything", &short));
}

#[test]
fn filtering_parts_the_domains() {
    let manager = WhitelistManager::from_content("keep.org\n@@google.com\n*.cdn.net");
    let input = ["a.com", "keep.org", "www.google.com", "b.com", "x.cdn.net", "google.com", "cdn.net"];
    let (kept, removed, report) = manager.filter_domains(set(&input));
    assert_eq!(kept.items(), &vec!["a.com".to_string(), "b.com".to_string(), "cdn.net".to_string()]);
    assert_eq!(removed, 4);
    assert_eq!(kept.len() as u64 + removed, input.len() as u64);
    for d in input {
        assert_eq!(kept.contains(d), !manager.is_whitelisted(d));
    }
    let rows: Vec<(String, String, u64)> = report
        .iter()
        .map(|m| (m.pattern.clone(), m.pattern_type.clone(), m.match_count))
        .collect();
    assert_eq!(
        rows,
        vec![
            ("@@google.com".to_string(), "subdomain".to_string(), 2),
            ("keep.org".to_string(), "exact".to_string(), 1),
            ("*.cdn.net".to_string(), "wildcard".to_string(), 1),
        ]
    );
    assert!(report.iter().all(|m| m.samples.is_empty()));
}

#[test]
fn filtering_without_patterns_keeps_everything() {
    let manager = WhitelistManager::new();
    let (kept, removed, report) = manager.filter_domains(set(&["a.com", "b.com"]));
    assert_eq!(kept.len(), 2);
    assert_eq!(removed, 0);
    assert!(report.is_empty());
    let kept = manager.without_whitelisted(&set(&["a.com"]));
    assert_eq!(kept.items(), &vec!["a.com".to_string()]);
}

#[test]
fn the_report_lists_a_pattern_once_and_at_most_twenty() {
    let mut content = String::from("a0.com\na0.com\n");
    let mut domains: Vec<String> = vec!["a0.com".to_string()];
    for i in 1..25 {
        content.push_str(&format!("a{}.com\n", i));
        domains.push(format!("a{}.com", i));
    }
    content.push_str("/^a\\d+\\.com$/\nunused.com\n");
    let manager = WhitelistManager::from_content(&content);
    let (kept, removed, report) = manager.filter_domains(DomainSet::from_vec(domains));
    assert!(kept.is_empty());
    assert_eq!(removed, 25);
    assert_eq!(report.len(), 20);
    assert_eq!(report[0].pattern, "/^a\\d+\\.com$/");
    assert_eq!(report[0].match_count, 25);
    for (i, row) in report.iter().enumerate().skip(1) {
        assert_eq!(row.pattern, format!("a{}.com", i - 1));
        assert_eq!(row.match_count, 1);
    }
}

#[test]
fn a_whitelist_survives_rewriting() {
    let content = "  Example.com  # first\n\n# comment\n@@google.com\n*.ads.com #x\n/tr\\d+/\n";
    let first = WhitelistManager::from_content(content);
    let written = first.patterns_as_strings().join("\n");
    assert_eq!(written, "Example.com\n@@google.com\n*.ads.com\n/tr\\d+/");
    let second = WhitelistManager::from_content(&written);
    assert_eq!(second.patterns_as_strings(), first.patterns_as_strings());
    for domain in ["example.com", "www.google.com", "x.ads.com", "tr9.io", "other.com", ""] {
        assert_eq!(first.is_whitelisted(domain), second.is_whitelisted(domain));
    }
}

#[test]
fn the_progress_of_the_stage_counts_what_was_removed() {
    let manager = WhitelistManager::new();
    let p = manager.create_progress(10, 7, Vec::new());
    assert_eq!((p.domains_before, p.domains_after, p.total_removed, p.processing), (10, 7, 3, false));
    let p = manager.create_progress(3, 5, Vec::new());
    assert_eq!(p.total_removed, 0);
}
