use blocklist_worker::domains::DomainSet;
use blocklist_worker::extractor::DomainExtractor;
use blocklist_worker::text::{
    contains, ends_with, find_char, matches_at, slice_of, split_lines, starts_with, string_of,
    to_chars, trim_chars,
};

fn chars(s: &str) -> Vec<char> {
    s.chars().collect()
}

fn text(v: &Vec<char>) -> String {
    v.iter().collect()
}

#[test]
fn characters_and_strings_convert() {
    assert_eq!(to_chars("héllo"), chars("héllo"));
    assert_eq!(string_of(&chars("abcdef"), 1, 4), "bcd");
    assert_eq!(slice_of(&chars("abcdef"), 2, 2), chars(""));
}

#[test]
fn trimming_removes_unicode_whitespace() {
    assert_eq!(text(&trim_chars(&chars("  a b \t\r\n"))), "a b");
    assert_eq!(text(&trim_chars(&chars("\u{a0}\u{2003}x\u{3000}"))), "x");
    assert_eq!(text(&trim_chars(&chars(" \t "))), "");
    assert_eq!(text(&trim_chars(&chars(""))), "");
    for s in ["  a  ", "\u{85}b\u{1680}", "\u{200b}c", "d\u{feff}"] {
        assert_eq!(text(&trim_chars(&chars(s))), s.trim());
    }
}

#[test]
fn lines_are_split_at_line_feeds() {
    let lines: Vec<String> = split_lines("a\nb\r\n\nc").iter().map(text).collect();
    assert_eq!(lines, vec!["a", "b\r", "", "c"]);
    let lines: Vec<String> = split_lines("a\n").iter().map(text).collect();
    assert_eq!(lines, vec!["a"]);
    assert!(split_lines("").is_empty());
    let lines: Vec<String> = split_lines("\n\n").iter().map(text).collect();
    assert_eq!(lines, vec!["", ""]);
}

#[test]
fn substrings_are_found() {
    let v = chars("hello world");
    assert!(matches_at(&v, 6, &chars("world")));
    assert!(!matches_at(&v, 7, &chars("world")));
    assert!(!matches_at(&v, 20, &chars("")));
    assert!(contains(&v, &chars("lo w")));
    assert!(contains(&v, &chars("")));
    assert!(!contains(&v, &chars("worlds")));
    assert!(starts_with(&v, &chars("hell")));
    assert!(!starts_with(&v, &chars("ello")));
    assert!(ends_with(&v, &chars("world")));
    assert!(!ends_with(&v, &chars("hello world!")));
    assert_eq!(find_char(&v, 'o'), 4);
    assert_eq!(find_char(&v, 'z'), v.len());
}

#[test]
fn a_domain_set_holds_each_domain_once() {
    let mut set = DomainSet::new();
    assert!(set.is_empty());
    assert!(set.insert("b.com".to_string()));
    assert!(set.insert("a.com".to_string()));
    assert!(!set.insert("b.com".to_string()));
    assert_eq!(set.len(), 2);
    assert!(set.contains("a.com"));
    assert!(!set.contains("c.com"));
    assert_eq!(set.items(), &vec!["b.com".to_string(), "a.com".to_string()]);

    let mut other = DomainSet::from_vec(vec!["c.com".to_string(), "a.com".to_string(), "c.com".to_string()]);
    assert_eq!(other.len(), 2);
    other.extend_from(&set);
    assert_eq!(other.into_vec(), vec!["c.com", "a.com", "b.com"]);
}

#[test]
fn sorted_domains_are_a_permutation_in_ascending_order() {
    let input = vec!["z.org", "a.com", "m.net", "a.co", "b.com", "9.io", "a.com.au"];
    let set = DomainSet::from_vec(input.iter().map(|s| s.to_string()).collect());
    let sorted = DomainExtractor::sort_domains(set);
    assert_eq!(sorted, vec!["9.io", "a.co", "a.com", "a.com.au", "b.com", "m.net", "z.org"]);
    let mut expected: Vec<String> = input.iter().map(|s| s.to_string()).collect();
    expected.sort();
    assert_eq!(sorted, expected);
    assert!(DomainExtractor::sort_domains(DomainSet::new()).is_empty());
}
