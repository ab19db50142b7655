use kunger::flatpak_parser::{parse_flatpak_list, parse_human_size};

// `flatpak list --columns=application,name,version,branch,arch,origin,size`
// output: tab-separated columns, one installation per line.
const APPS_USER_FIXTURE: &str = "org.mozilla.firefox\tFirefox\t129.0\tstable\tx86_64\tflathub\t312.5 MB\n\
org.gnome.Calculator\tCalculator\t46.1\tstable\tx86_64\tflathub\t5.2 MB\n";
const RUNTIMES_USER_FIXTURE: &str = "org.freedesktop.Platform\tFreedesktop Platform\t23.08.20\t23.08\tx86_64\tflathub\t480.1 MB\n\
org.freedesktop.Platform.GL.default\tMesa\t-\t23.08\tx86_64\tflathub\t412.0 MB\n";
const MALFORMED_FIXTURE: &str = "org.example.Broken\tBroken\t1.0\n\
\tNo Id\t1.0\tstable\tx86_64\tflathub\t1.0 MB\n\
org.example.BadSize\tBad Size\t1.0\tstable\tx86_64\tflathub\tenormous\n\
org.example.Good\tGood\t2.0\tstable\tx86_64\tflathub\t10.0 MB\n";
const EMPTY_FIXTURE: &str = "";

#[test]
fn parses_well_formed_app_records() {
    let mut warnings = Vec::new();
    let records = parse_flatpak_list(APPS_USER_FIXTURE, &mut warnings);
    assert!(warnings.is_empty());
    assert_eq!(records.len(), 2);
    let firefox = records.iter().find(|r| r.application == "org.mozilla.firefox").expect("firefox present");
    assert_eq!(firefox.name.as_deref(), Some("Firefox"));
    assert_eq!(firefox.version.as_deref(), Some("129.0"));
    assert_eq!(firefox.branch.as_deref(), Some("stable"));
    assert_eq!(firefox.arch.as_deref(), Some("x86_64"));
    assert_eq!(firefox.origin.as_deref(), Some("flathub"));
    assert_eq!(firefox.installed_size_bytes, Some(312_500_000));
}

#[test]
fn dash_placeholder_version_becomes_none() {
    let mut warnings = Vec::new();
    let records = parse_flatpak_list(RUNTIMES_USER_FIXTURE, &mut warnings);
    let mesa = records
        .iter()
        .find(|r| r.application == "org.freedesktop.Platform.GL.default")
        .expect("mesa extension-like runtime present");
    assert_eq!(mesa.version, None);
}

#[test]
fn line_with_wrong_field_count_is_skipped_with_a_warning() {
    let mut warnings = Vec::new();
    let records = parse_flatpak_list(MALFORMED_FIXTURE, &mut warnings);
    assert!(!records.iter().any(|r| r.application == "org.example.Broken"));
    assert!(warnings.iter().any(|w| w.contains("expected 7 fields")));
}

#[test]
fn line_with_empty_application_id_is_skipped_with_a_warning() {
    let mut warnings = Vec::new();
    let _records = parse_flatpak_list(MALFORMED_FIXTURE, &mut warnings);
    assert!(warnings.iter().any(|w| w.contains("empty application id")));
}

#[test]
fn unparseable_size_is_left_blank_with_a_warning_but_record_still_parses() {
    let mut warnings = Vec::new();
    let records = parse_flatpak_list(MALFORMED_FIXTURE, &mut warnings);
    let bad_size = records
        .iter()
        .find(|r| r.application == "org.example.BadSize")
        .expect("record should still be parsed despite the bad size field");
    assert_eq!(bad_size.installed_size_bytes, None);
    assert!(warnings.iter().any(|w| w.contains("could not parse installed size")));
}

#[test]
fn parsing_continues_after_malformed_lines_and_recovers_valid_ones() {
    let mut warnings = Vec::new();
    let records = parse_flatpak_list(MALFORMED_FIXTURE, &mut warnings);
    assert!(records.iter().any(|r| r.application == "org.example.Good"));
}

#[test]
fn empty_output_yields_no_records_and_no_warnings() {
    let mut warnings = Vec::new();
    let records = parse_flatpak_list(EMPTY_FIXTURE, &mut warnings);
    assert!(records.is_empty());
    assert!(warnings.is_empty());
}

#[test]
fn parse_human_size_handles_decimal_si_units() {
    assert_eq!(parse_human_size("312.5 MB"), Some(312_500_000));
    assert_eq!(parse_human_size("1 GB"), Some(1_000_000_000));
    assert_eq!(parse_human_size("500 kB"), Some(500_000));
    assert_eq!(parse_human_size("128 bytes"), Some(128));
}

#[test]
fn parse_human_size_handles_binary_units_defensively() {
    assert_eq!(parse_human_size("1 KiB"), Some(1024));
    assert_eq!(parse_human_size("1 MiB"), Some(1024 * 1024));
}

#[test]
fn parse_human_size_rejects_unrecognized_units_and_negative_numbers() {
    assert_eq!(parse_human_size("notasize"), None);
    assert_eq!(parse_human_size("12 furlongs"), None);
    assert_eq!(parse_human_size("-5 MB"), None);
}

#[test]
fn parse_human_size_rounds_half_up_and_saturates() {
    assert_eq!(parse_human_size("1.5 B"), Some(2));
    assert_eq!(parse_human_size("0.4 B"), Some(0));
    assert_eq!(parse_human_size("99999999999999999999 TB"), Some(u64::MAX));
    assert_eq!(parse_human_size("2.25 GiB"), Some(2_415_919_104));
}
