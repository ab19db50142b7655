use kunger::desktop_parser::parse_desktop_entry;

const FIREFOX: &str = "[Desktop Entry]\nVersion=1.0\nName=Firefox\nName[de]=Firefox Webbrowser\nGenericName=Web Browser\nComment=Browse the World Wide Web\nExec=/usr/bin/firefox %u\nIcon=firefox\nTerminal=false\nType=Application\nCategories=Network;WebBrowser;\nStartupWMClass=firefox\n\n[Desktop Action new-window]\nName=Open a New Window\nExec=/usr/bin/firefox --new-window %u\n";
const SETTINGS: &str = "[Desktop Entry]\nName=Settings\nExec=gnome-control-center\nIcon=org.gnome.Settings\nType=Application\nCategories=Settings;GNOME;X-GNOME-Settings-Panel;\n";
const HIDDEN_APP: &str = "[Desktop Entry]\nType=Application\nName=Hidden Helper\nExec=/usr/bin/hidden-helper\nHidden=true\nNoDisplay=true\n";
const LINK_ENTRY: &str = "[Desktop Entry]\nType=Link\nName=Project Website\nURL=https://example.com/\n";
const MALFORMED: &str = "This is not a desktop entry at all.\nName=Nothing\n";
const NO_NAME: &str = "[Desktop Entry]\nType=Application\nExec=/usr/bin/nameless\n";
const ESCAPED_EXEC: &str = "[Desktop Entry]\nType=Application\nName=Escaped\nExec=/usr/bin/app --flag=\"value with spaces\" --path=/tmp/some\\ dir %f\n";
const LOCALIZED: &str = "[Desktop Entry]\nType=Application\nName[fr]=Pare-feu\nName=Firewall\nName[de]=Firewall-Einstellungen\nComment[fr]=Configurer le pare-feu\nComment=Configure the firewall\nExec=/usr/bin/firewall-config\n";

#[test]
fn parses_a_well_formed_application_entry() {
    let mut warnings = Vec::new();
    let entry = parse_desktop_entry(FIREFOX, "firefox.desktop", &mut warnings).expect("should parse");
    assert!(warnings.is_empty());
    assert_eq!(entry.name, "Firefox");
    assert_eq!(entry.generic_name.as_deref(), Some("Web Browser"));
    assert_eq!(entry.comment.as_deref(), Some("Browse the World Wide Web"));
    assert_eq!(entry.exec_line.as_deref(), Some("/usr/bin/firefox %u"));
    assert_eq!(entry.icon.as_deref(), Some("firefox"));
    assert_eq!(entry.categories, vec!["Network", "WebBrowser"]);
    assert_eq!(entry.startup_wm_class.as_deref(), Some("firefox"));
    assert!(!entry.terminal);
    assert!(!entry.hidden);
    assert!(!entry.no_display);
}

#[test]
fn parses_settings_categories() {
    let mut warnings = Vec::new();
    let entry = parse_desktop_entry(SETTINGS, "settings.desktop", &mut warnings).expect("should parse");
    assert_eq!(entry.categories, vec!["Settings", "GNOME", "X-GNOME-Settings-Panel"]);
}

#[test]
fn hidden_and_no_display_flags_are_captured_not_used_to_drop_the_entry() {
    let mut warnings = Vec::new();
    let entry = parse_desktop_entry(HIDDEN_APP, "hidden-app.desktop", &mut warnings).expect("should still parse");
    assert!(entry.hidden);
    assert!(entry.no_display);
}

#[test]
fn link_type_entries_are_skipped_without_a_warning() {
    let mut warnings = Vec::new();
    let entry = parse_desktop_entry(LINK_ENTRY, "link-entry.desktop", &mut warnings);
    assert_eq!(entry, None);
    assert!(warnings.is_empty(), "Type=Link is valid, not malformed -- no warning expected");
}

#[test]
fn file_with_no_desktop_entry_section_is_skipped_with_a_warning() {
    let mut warnings = Vec::new();
    let entry = parse_desktop_entry(MALFORMED, "malformed.desktop", &mut warnings);
    assert_eq!(entry, None);
    assert!(warnings.iter().any(|w| w.contains("no [Desktop Entry] section")));
}

#[test]
fn missing_name_is_skipped_with_a_warning() {
    let mut warnings = Vec::new();
    let entry = parse_desktop_entry(NO_NAME, "no-name.desktop", &mut warnings);
    assert_eq!(entry, None);
    assert!(warnings.iter().any(|w| w.contains("missing or empty Name")));
}

#[test]
fn exec_field_is_stored_verbatim_including_quotes_and_backslash_escapes() {
    let mut warnings = Vec::new();
    let entry = parse_desktop_entry(ESCAPED_EXEC, "escaped-exec.desktop", &mut warnings).expect("should parse");
    assert_eq!(
        entry.exec_line.as_deref(),
        Some(r#"/usr/bin/app --flag="value with spaces" --path=/tmp/some\ dir %f"#)
    );
}

#[test]
fn localized_name_keys_are_ignored_in_favor_of_the_base_name() {
    let mut warnings = Vec::new();
    let entry = parse_desktop_entry(LOCALIZED, "localized.desktop", &mut warnings).expect("should parse");
    assert_eq!(entry.name, "Firewall");
    assert_eq!(entry.comment.as_deref(), Some("Configure the firewall"));
}

#[test]
fn empty_content_is_skipped_with_a_warning_not_a_panic() {
    let mut warnings = Vec::new();
    let entry = parse_desktop_entry("", "empty.desktop", &mut warnings);
    assert_eq!(entry, None);
    assert!(!warnings.is_empty());
}

#[test]
fn malformed_lines_inside_the_section_are_warned_about_but_do_not_abort_parsing() {
    let content = "[Desktop Entry]\nType=Application\nName=Recovers\nthis line has no equals sign\nExec=/usr/bin/recovers\n";
    let mut warnings = Vec::new();
    let entry = parse_desktop_entry(content, "recovers.desktop", &mut warnings).expect("should still parse");
    assert_eq!(entry.name, "Recovers");
    assert_eq!(entry.exec_line.as_deref(), Some("/usr/bin/recovers"));
    assert!(warnings.iter().any(|w| w.contains("malformed line")));
}
