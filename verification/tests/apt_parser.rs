use kunger::apt_parser::{parse_dpkg_query, parse_manual_packages, parse_upgradable};

// `dpkg-query` output in the provider's format: fields separated by U+001F,
// records by U+001E. Four records, one of them removed (config files only).
const BASIC_FIXTURE: &str = "git\u{1f}install ok installed\u{1f}1:2.34.1-1ubuntu1.10\u{1f}amd64\u{1f}vcs\u{1f}optional\u{1f}27648\u{1f}Alex Someone <alex@example.com>\u{1f}https://git-scm.com/\u{1f}fast, scalable, distributed revision control system\u{1f}libc6 (>= 2.34), libcurl3-gnutls (>= 7.56.1) | libcurl4, libpcre2-8-0 (>= 10.34)\u{1e}\n\
libssl3\u{1f}install ok installed\u{1f}3.0.2-0ubuntu1.15\u{1f}amd64\u{1f}libs\u{1f}optional\u{1f}5824\u{1f}Ubuntu Developers <ubuntu-devel-discuss@lists.ubuntu.com>\u{1f}\u{1f}Secure Sockets Layer toolkit - shared libraries\u{1f}\u{1e}\n\
curl\u{1f}install ok installed\u{1f}7.81.0-1ubuntu1.16\u{1f}amd64\u{1f}web\u{1f}optional\u{1f}453\u{1f}Ubuntu Developers <ubuntu-devel-discuss@lists.ubuntu.com>\u{1f}https://curl.se\u{1f}command line tool for transferring data with URL syntax\u{1f}libc6 (>= 2.34), libcurl4 (= 7.81.0-1ubuntu1.16)\u{1e}\n\
old-removed-pkg\u{1f}deinstall ok config-files\u{1f}1.0-1\u{1f}amd64\u{1f}misc\u{1f}optional\u{1f}12\u{1f}Someone <someone@example.com>\u{1f}\u{1f}a package that was removed\u{1f}\u{1e}\n";

// A record with too few fields, one with an empty package name, one with a
// non-numeric size, then a well-formed one.
const MALFORMED_FIXTURE: &str = "brokenpkg\u{1f}install ok installed\u{1f}1.0\u{1e}\n\
\u{1f}install ok installed\u{1f}1.0\u{1f}amd64\u{1f}misc\u{1f}optional\u{1f}10\u{1f}\u{1f}\u{1f}no name\u{1f}\u{1e}\n\
weird-size-pkg\u{1f}install ok installed\u{1f}2.0\u{1f}amd64\u{1f}misc\u{1f}optional\u{1f}lots\u{1f}\u{1f}\u{1f}odd size\u{1f}\u{1e}\n\
curl\u{1f}install ok installed\u{1f}7.81.0-1ubuntu1.16\u{1f}amd64\u{1f}web\u{1f}optional\u{1f}453\u{1f}\u{1f}https://curl.se\u{1f}command line tool for transferring data with URL syntax\u{1f}libc6 (>= 2.34)\u{1e}\n";

const MANUAL_FIXTURE: &str = "git\nfirefox\ncurl\n";

const UPGRADABLE_FIXTURE: &str = "Listing... Done\n\
firefox/jammy-updates 129.0+build2-0ubuntu0.22.04.1 amd64 [upgradable from: 128.0+build2-0ubuntu0.22.04.1]\n\
git/jammy-updates 1:2.34.1-1ubuntu1.11 amd64 [upgradable from: 1:2.34.1-1ubuntu1.10]\n";

const UPGRADABLE_MALFORMED_FIXTURE: &str = "Listing... Done\n\
firefox/jammy-updates 129.0+build2-0ubuntu0.22.04.1 amd64 [upgradable from: 128.0+build2-0ubuntu0.22.04.1]\n\
this-is-not-a-valid-line\n";

#[test]
fn parses_well_formed_records_and_filters_non_installed_status() {
    let mut warnings = Vec::new();
    let records = parse_dpkg_query(BASIC_FIXTURE, &mut warnings);
    assert!(warnings.is_empty());
    assert_eq!(records.len(), 3);
    assert!(records.iter().all(|r| r.package != "old-removed-pkg"));
}

#[test]
fn parser_parses_full_field_set_for_a_record() {
    let mut warnings = Vec::new();
    let records = parse_dpkg_query(BASIC_FIXTURE, &mut warnings);
    let git = records.iter().find(|r| r.package == "git").expect("git record present");
    assert_eq!(git.version, "1:2.34.1-1ubuntu1.10");
    assert_eq!(git.architecture, "amd64");
    assert_eq!(git.section.as_deref(), Some("vcs"));
    assert_eq!(git.priority.as_deref(), Some("optional"));
    assert_eq!(git.installed_size_kb, Some(27648));
    assert_eq!(git.maintainer.as_deref(), Some("Alex Someone <alex@example.com>"));
    assert_eq!(git.homepage.as_deref(), Some("https://git-scm.com/"));
    assert_eq!(git.summary.as_deref(), Some("fast, scalable, distributed revision control system"));
}

#[test]
fn parses_alternative_dependencies_by_taking_the_first_alternative() {
    let mut warnings = Vec::new();
    let records = parse_dpkg_query(BASIC_FIXTURE, &mut warnings);
    let git = records.iter().find(|r| r.package == "git").expect("git record present");
    assert_eq!(git.dependencies, vec!["libc6", "libcurl3-gnutls", "libpcre2-8-0"]);
}

#[test]
fn empty_optional_fields_become_none() {
    let mut warnings = Vec::new();
    let records = parse_dpkg_query(BASIC_FIXTURE, &mut warnings);
    let libssl3 = records.iter().find(|r| r.package == "libssl3").expect("libssl3 record present");
    assert_eq!(libssl3.homepage, None);
    assert!(libssl3.dependencies.is_empty());
}

#[test]
fn a_record_with_the_wrong_field_count_is_skipped_with_a_warning() {
    let mut warnings = Vec::new();
    let records = parse_dpkg_query(MALFORMED_FIXTURE, &mut warnings);
    assert!(!records.iter().any(|r| r.package == "brokenpkg"));
    assert!(warnings.iter().any(|w| w.contains("expected 11 fields")));
}

#[test]
fn a_record_with_an_empty_package_name_is_skipped_with_a_warning() {
    let mut warnings = Vec::new();
    let _records = parse_dpkg_query(MALFORMED_FIXTURE, &mut warnings);
    assert!(warnings.iter().any(|w| w.contains("empty package name")));
}

#[test]
fn a_non_numeric_installed_size_is_left_blank_with_a_warning_but_the_record_still_parses() {
    let mut warnings = Vec::new();
    let records = parse_dpkg_query(MALFORMED_FIXTURE, &mut warnings);
    let weird = records
        .iter()
        .find(|r| r.package == "weird-size-pkg")
        .expect("weird-size-pkg should still be parsed despite the bad size field");
    assert_eq!(weird.installed_size_kb, None);
    assert!(warnings.iter().any(|w| w.contains("non-numeric Installed-Size")));
}

#[test]
fn parser_parsing_continues_after_malformed_records_and_recovers_valid_ones() {
    let mut warnings = Vec::new();
    let records = parse_dpkg_query(MALFORMED_FIXTURE, &mut warnings);
    assert!(records.iter().any(|r| r.package == "curl"));
}

#[test]
fn parser_empty_output_yields_no_records_and_no_warnings() {
    let mut warnings = Vec::new();
    let records = parse_dpkg_query("", &mut warnings);
    assert!(records.is_empty());
    assert!(warnings.is_empty());
}

#[test]
fn parses_manual_package_list() {
    let manual = parse_manual_packages(MANUAL_FIXTURE);
    assert_eq!(manual.len(), 3);
    assert!(manual.contains("git"));
    assert!(manual.contains("firefox"));
    assert!(manual.contains("curl"));
    assert!(!manual.contains("libssl3"));
}

#[test]
fn empty_manual_output_yields_an_empty_set() {
    assert!(parse_manual_packages("").is_empty());
    assert!(parse_manual_packages("\n\n  \n").is_empty());
}

#[test]
fn parses_upgradable_packages() {
    let mut warnings = Vec::new();
    let upgradable = parse_upgradable(UPGRADABLE_FIXTURE, &mut warnings);
    assert!(warnings.is_empty());
    assert_eq!(upgradable.get("firefox").map(String::as_str), Some("129.0+build2-0ubuntu0.22.04.1"));
    assert_eq!(upgradable.get("git").map(String::as_str), Some("1:2.34.1-1ubuntu1.11"));
}

#[test]
fn unparseable_upgradable_lines_are_skipped_with_a_warning_not_a_failure() {
    let mut warnings = Vec::new();
    let upgradable = parse_upgradable(UPGRADABLE_MALFORMED_FIXTURE, &mut warnings);
    assert_eq!(upgradable.get("firefox").map(String::as_str), Some("129.0+build2-0ubuntu0.22.04.1"));
    assert!(warnings.iter().any(|w| w.contains("this-is-not-a-valid-line")));
}

#[test]
fn upgradable_output_with_only_the_listing_header_is_empty_and_has_no_warnings() {
    let mut warnings = Vec::new();
    let upgradable = parse_upgradable("Listing... Done\n", &mut warnings);
    assert!(upgradable.is_empty());
    assert!(warnings.is_empty());
}
