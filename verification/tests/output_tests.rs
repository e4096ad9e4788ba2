use blocklist_worker::output::{list_name, OutputFormat};

#[test]
fn every_list_is_written_in_three_formats() {
    assert_eq!(OutputFormat::all(), vec![OutputFormat::Hosts, OutputFormat::Plain, OutputFormat::Adblock]);
    let names: Vec<String> = OutputFormat::all().iter().map(|f| f.file_name("all_domains")).collect();
    assert_eq!(names, vec!["all_domains_hosts.txt.gz", "all_domains_plain.txt.gz", "all_domains_adblock.txt.gz"]);
    assert_eq!(OutputFormat::Hosts.name(), "hosts");
    assert_eq!(OutputFormat::Plain.name(), "plain");
    assert_eq!(OutputFormat::Adblock.name(), "adblock");
}

#[test]
fn a_line_names_one_domain() {
    assert_eq!(OutputFormat::Hosts.line("ads.example.com"), "0.0.0.0 ads.example.com\n");
    assert_eq!(OutputFormat::Plain.line("ads.example.com"), "ads.example.com\n");
    assert_eq!(OutputFormat::Adblock.line("ads.example.com"), "||ads.example.com^\n");
}

#[test]
fn a_file_holds_the_domains_in_their_order() {
    let domains = vec!["a.example.com".to_string(), "b.example.com".to_string()];
    assert_eq!(OutputFormat::Hosts.render(&domains), "0.0.0.0 a.example.com\n0.0.0.0 b.example.com\n");
    assert_eq!(OutputFormat::Plain.render(&domains), "a.example.com\nb.example.com\n");
    assert_eq!(OutputFormat::Adblock.render(&domains), "||a.example.com^\n||b.example.com^\n");
    assert_eq!(OutputFormat::Plain.render(&Vec::new()), "");
    for format in OutputFormat::all() {
        assert_eq!(format.render(&domains).lines().count(), 2);
    }
}

#[test]
fn sources_without_category_make_a_list_of_their_own() {
    assert_eq!(list_name(&Some("ads".to_string())), "ads");
    assert_eq!(list_name(&None), "uncategorized");
}
