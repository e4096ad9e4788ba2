use blocklist_worker::extractor::{DetectedFormat, DomainExtractor, ExtractionResult, FormatBreakdown};

#[test]
fn test_hosts_format() {
    let extractor = DomainExtractor::new();

    let result = extractor.extract_domain("0.0.0.0 ads.example.com");
    assert_eq!(
        result,
        Some((
            ExtractionResult {
                domain: "ads.example.com".to_string(),
                raw_adblock_rule: None,
            },
            DetectedFormat::Hosts
        ))
    );

    let result = extractor.extract_domain("127.0.0.1 tracker.example.com");
    assert_eq!(
        result,
        Some((
            ExtractionResult {
                domain: "tracker.example.com".to_string(),
                raw_adblock_rule: None,
            },
            DetectedFormat::Hosts
        ))
    );
}

#[test]
fn test_adblock_format() {
    let extractor = DomainExtractor::new();

    let result = extractor.extract_domain("||ads.example.com^");
    assert_eq!(
        result,
        Some((
            ExtractionResult {
                domain: "ads.example.com".to_string(),
                raw_adblock_rule: Some("||ads.example.com^".to_string()),
            },
            DetectedFormat::Adblock
        ))
    );

    let result = extractor.extract_domain("||tracker.example.com^$important");
    assert_eq!(
        result,
        Some((
            ExtractionResult {
                domain: "tracker.example.com".to_string(),
                raw_adblock_rule: Some("||tracker.example.com^$important".to_string()),
            },
            DetectedFormat::Adblock
        ))
    );
}

#[test]
fn test_third_party_skipped() {
    let extractor = DomainExtractor::new();

    assert_eq!(extractor.extract_domain("||facebook.com^$third-party"), None);
    assert_eq!(
        extractor.extract_domain("||tracker.com^$third-party,image"),
        None
    );
    assert_eq!(
        extractor.extract_domain("||example.com^$image,third-party"),
        None
    );
}

#[test]
fn test_badfilter_exception() {
    let extractor = DomainExtractor::new();

    assert_eq!(extractor.extract_domain("||facebook.com^$badfilter"), None);
    assert_eq!(extractor.extract_domain("||amazon.co.uk^$badfilter"), None);
    assert_eq!(
        extractor.extract_domain("||example.com^$third-party,badfilter"),
        None
    );
}

#[test]
fn test_css_selectors_skipped() {
    let extractor = DomainExtractor::new();

    assert_eq!(extractor.extract_domain("facebook.com##.ad-banner"), None);
    assert_eq!(extractor.extract_domain("example.com#@#.sponsored"), None);
    assert_eq!(extractor.extract_domain("site.com#?#.ad-container"), None);
    assert_eq!(extractor.extract_domain("page.com#$#.tracking"), None);
    assert_eq!(
        extractor.extract_domain("domain.com#+js(abort-on-property-read)"),
        None
    );
}

#[test]
fn test_non_blocking_modifiers() {
    let extractor = DomainExtractor::new();

    assert_eq!(
        extractor.extract_domain("||example.com^$removeparam=utm"),
        None
    );
    assert_eq!(
        extractor.extract_domain("||example.com^$redirect=nooptext"),
        None
    );
    assert_eq!(
        extractor.extract_domain("||example.com^$csp=script-src 'none'"),
        None
    );
    assert_eq!(
        extractor.extract_domain("||example.com^$replace=/bad/good/"),
        None
    );
    assert_eq!(extractor.extract_domain("||example.com^$cookie"), None);
}

#[test]
fn test_plain_format() {
    let extractor = DomainExtractor::new();

    let result = extractor.extract_domain("ads.example.com");
    assert_eq!(
        result,
        Some((
            ExtractionResult {
                domain: "ads.example.com".to_string(),
                raw_adblock_rule: None,
            },
            DetectedFormat::Plain
        ))
    );
}

#[test]
fn extractor_test_comments() {
    let extractor = DomainExtractor::new();

    assert_eq!(extractor.extract_domain("# This is a comment"), None);
    assert_eq!(extractor.extract_domain("! Adblock comment"), None);
}

#[test]
fn test_valid_modifiers_preserved() {
    let extractor = DomainExtractor::new();

    let result = extractor.extract_domain("||ads.example.com^$important");
    assert!(result.is_some());
    let (extraction, format) = result.unwrap();
    assert_eq!(
        extraction.raw_adblock_rule,
        Some("||ads.example.com^$important".to_string())
    );
    assert_eq!(format, DetectedFormat::Adblock);

    let result = extractor.extract_domain("||malware.com^$all");
    assert!(result.is_some());
    let (extraction, format) = result.unwrap();
    assert_eq!(
        extraction.raw_adblock_rule,
        Some("||malware.com^$all".to_string())
    );
    assert_eq!(format, DetectedFormat::Adblock);
}

#[test]
fn test_format_breakdown() {
    let extractor = DomainExtractor::new();

    let content = "0.0.0.0 host1.com\n\
                   0.0.0.0 host2.com\n\
                   ||adblock1.com^\n\
                   ||adblock2.com^$important\n\
                   ||adblock3.com^\n\
                   plain1.com\n\
                   plain2.com";

    let output = extractor.extract_from_content_with_breakdown(content);

    assert_eq!(output.results.len(), 7);
    assert_eq!(output.format_breakdown.hosts, 2);
    assert_eq!(output.format_breakdown.adblock, 3);
    assert_eq!(output.format_breakdown.plain, 2);

    let formats = output.format_breakdown.detected_formats();
    assert!(formats.contains(&"hosts".to_string()));
    assert!(formats.contains(&"adblock".to_string()));
    assert!(formats.contains(&"plain".to_string()));
}

#[test]
fn test_format_breakdown_primary() {
    let mut breakdown = FormatBreakdown {
        hosts: 100,
        plain: 50,
        adblock: 25,
    };
    assert_eq!(breakdown.primary_format(), Some("hosts"));

    breakdown.adblock = 200;
    assert_eq!(breakdown.primary_format(), Some("adblock"));

    breakdown.plain = 300;
    assert_eq!(breakdown.primary_format(), Some("plain"));
}
