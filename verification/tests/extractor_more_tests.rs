use blocklist_worker::extractor::{DetectedFormat, DomainExtractor, FormatBreakdown};

fn domain_of(line: &str) -> Option<(String, DetectedFormat)> {
    DomainExtractor::new().extract_domain(line).map(|(r, f)| (r.domain, f))
}

#[test]
fn adblock_skip_modifier_scenario() {
    let extractor = DomainExtractor::new();
    let results = extractor.extract_from_content("||facebook.com^$third-party\n||evil.com^\n");
    let domains: Vec<String> = results.into_iter().map(|r| r.domain).collect();
    assert_eq!(domains, vec!["evil.com"]);
}

#[test]
fn domains_are_emitted_in_lower_case() {
    assert_eq!(domain_of("0.0.0.0 Ads.Example.COM"), Some(("ads.example.com".to_string(), DetectedFormat::Hosts)));
    assert_eq!(domain_of("||EVIL.com^"), Some(("evil.com".to_string(), DetectedFormat::Adblock)));
    assert_eq!(domain_of("Plain.Example.Org"), Some(("plain.example.org".to_string(), DetectedFormat::Plain)));
}

#[test]
fn lines_are_trimmed_first() {
    assert_eq!(domain_of("  \t0.0.0.0   ads.example.com  \r"), Some(("ads.example.com".to_string(), DetectedFormat::Hosts)));
    assert_eq!(domain_of("   "), None);
    assert_eq!(domain_of(""), None);
    assert_eq!(domain_of("   # comment"), None);
}

#[test]
fn a_hosts_entry_may_go_on_after_its_domain() {
    assert_eq!(domain_of("0.0.0.0 ads.example.com tracker.example.com"), Some(("ads.example.com".to_string(), DetectedFormat::Hosts)));
    assert_eq!(domain_of("127.0.0.1\tads.example.com/path"), Some(("ads.example.com".to_string(), DetectedFormat::Hosts)));
    assert_eq!(domain_of("0.0.0.0 a.b.-c"), Some(("a.b".to_string(), DetectedFormat::Hosts)));
    assert_eq!(domain_of("0.0.0.0ads.example.com"), Some(("0.0.0.0ads.example.com".to_string(), DetectedFormat::Plain)));
    assert_eq!(domain_of("0.0.0.0 localhost"), None);
    assert_eq!(domain_of("0.0.0.0 -ads.example.com"), None);
    assert_eq!(domain_of("192.168.0.1 ads.example.com"), None);
}

#[test]
fn an_address_alone_is_a_plain_domain() {
    assert_eq!(domain_of("0.0.0.0"), Some(("0.0.0.0".to_string(), DetectedFormat::Plain)));
    assert_eq!(domain_of("0.0.0.0.example.com"), Some(("0.0.0.0.example.com".to_string(), DetectedFormat::Plain)));
}

#[test]
fn an_adblock_rule_must_end_after_its_domain() {
    assert_eq!(domain_of("||ads.example.com"), Some(("ads.example.com".to_string(), DetectedFormat::Adblock)));
    assert_eq!(domain_of("||ads.example.com^"), Some(("ads.example.com".to_string(), DetectedFormat::Adblock)));
    assert_eq!(domain_of("||ads.example.com^$"), None);
    assert_eq!(domain_of("||ads.example.com^^"), None);
    assert_eq!(domain_of("||ads.example.com/path"), None);
    assert_eq!(domain_of("||ads.example.com.^"), None);
    assert_eq!(domain_of("||ads^"), None);
    assert_eq!(domain_of("|ads.example.com^"), None);
    assert_eq!(domain_of("||ads.example.com^$image\nmore"), None);
    assert_eq!(domain_of("||ads.example.com$image"), Some(("ads.example.com".to_string(), DetectedFormat::Adblock)));
}

#[test]
fn skipped_modifiers_are_found_anywhere_and_in_any_case() {
    assert_eq!(domain_of("||a.example.com^$THIRD-PARTY"), None);
    assert_eq!(domain_of("||a.example.com^$image,Redirect=noop"), None);
    assert_eq!(domain_of("||a.example.com^$domain=csp.example.org"), None);
    assert_eq!(domain_of("||a.example.com^$important,coo\u{212a}ie"), None);
    assert_eq!(domain_of("||a.example.com^$c\u{17f}p"), None);
    assert!(domain_of("||a.example.com^$image,script").is_some());
    assert!(domain_of("||a.example.com^$third_party").is_some());
}

#[test]
fn a_plain_domain_is_the_whole_line() {
    assert_eq!(domain_of("example.com"), Some(("example.com".to_string(), DetectedFormat::Plain)));
    assert_eq!(domain_of("a-b.c-d.e"), Some(("a-b.c-d.e".to_string(), DetectedFormat::Plain)));
    assert_eq!(domain_of("example.com extra"), None);
    assert_eq!(domain_of("example"), None);
    assert_eq!(domain_of("example."), None);
    assert_eq!(domain_of(".example.com"), None);
    assert_eq!(domain_of("exa_mple.com"), None);
    assert_eq!(domain_of("exämple.com"), None);
    assert_eq!(domain_of("example..com"), None);
    assert_eq!(domain_of("example.-com"), None);
}

#[test]
fn cosmetic_filters_are_skipped_wherever_the_mark_stands() {
    assert_eq!(domain_of("0.0.0.0 ads.example.com ## note"), None);
    assert_eq!(domain_of("||ads.example.com^$important#@#x"), None);
    assert!(domain_of("0.0.0.0 ads.example.com # note").is_some());
}

#[test]
fn content_yields_one_result_per_matching_line_in_order() {
    let extractor = DomainExtractor::new();
    let content = "# list\r\n0.0.0.0 b.example.com\r\n\r\n! note\r\nbad line\r\n||a.example.com^\r\nc.example.com";
    let output = extractor.extract_from_content_with_breakdown(content);
    let domains: Vec<&str> = output.results.iter().map(|r| r.domain.as_str()).collect();
    assert_eq!(domains, vec!["b.example.com", "a.example.com", "c.example.com"]);
    assert_eq!(output.results[1].raw_adblock_rule.as_deref(), Some("||a.example.com^"));
    assert_eq!(output.format_breakdown, FormatBreakdown { hosts: 1, plain: 1, adblock: 1 });
    assert_eq!(extractor.extract_from_content(content).len(), 3);
    assert!(extractor.extract_from_content("").is_empty());
    let repeated = extractor.extract_from_content("a.example.com\na.example.com\n");
    assert_eq!(repeated.len(), 2);
}

#[test]
fn the_breakdown_names_what_was_seen() {
    let none = FormatBreakdown::default();
    assert_eq!(none, FormatBreakdown { hosts: 0, plain: 0, adblock: 0 });
    assert!(none.detected_formats().is_empty());
    assert_eq!(none.primary_format(), None);
    let some = FormatBreakdown { hosts: 0, plain: 3, adblock: 1 };
    assert_eq!(some.detected_formats(), vec!["plain", "adblock"]);
    assert_eq!(some.primary_format(), Some("plain"));
    let tie = FormatBreakdown { hosts: 2, plain: 2, adblock: 2 };
    assert_eq!(tie.detected_formats(), vec!["hosts", "plain", "adblock"]);
    assert_eq!(tie.primary_format(), Some("hosts"));
    let tie = FormatBreakdown { hosts: 1, plain: 2, adblock: 2 };
    assert_eq!(tie.primary_format(), Some("adblock"));
}
