use kunger::domain::{ClassificationConfidence, InstallationScope, PackageManager, SoftwareCategory, StringMap};
use kunger::fonts_parser::{parse_fc_list, FontFileRecord};
use kunger::providers::fonts::{build_items, classify_scope, select_in_scope, slugify};

// `fc-list` output in the provider's format: fields separated by U+001F,
// records by U+001E.
const BASIC_FIXTURE: &str = "/usr/share/fonts/truetype/noto/NotoSans-Regular.ttf\u{1f}Noto Sans\u{1f}Regular\u{1f}Noto Sans Regular\u{1f}TrueType\u{1f}en|fr|de\u{1e}\n\
/usr/share/fonts/truetype/noto/NotoSans-Bold.ttf\u{1f}Noto Sans\u{1f}Bold\u{1f}Noto Sans Bold\u{1f}TrueType\u{1f}en|fr|de\u{1e}\n\
/usr/share/fonts/truetype/noto/NotoSans-Italic.ttf\u{1f}Noto Sans\u{1f}Italic\u{1f}Noto Sans Italic\u{1f}TrueType\u{1f}en|fr|de\u{1e}\n\
/usr/share/fonts/truetype/noto/NotoSans-BoldItalic.ttf\u{1f}Noto Sans\u{1f}Bold Italic\u{1f}Noto Sans Bold Italic\u{1f}TrueType\u{1f}en|fr|de\u{1e}\n\
/usr/share/fonts/truetype/dejavu/DejaVuSans.ttf\u{1f}DejaVu Sans\u{1f}Book\u{1f}DejaVu Sans\u{1f}TrueType\u{1f}en\u{1e}\n\
/home/user/.local/share/fonts/MyCustomFont.otf\u{1f}My Custom Font\u{1f}Regular\u{1f}My Custom Font\u{1f}CFF\u{1f}en\u{1e}\n\
/var/lib/flatpak/app/org.example.App/files/share/fonts/App.ttf\u{1f}App Font\u{1f}Regular\u{1f}App Font\u{1f}TrueType\u{1f}en\u{1e}\n";

const MALFORMED_FIXTURE: &str = "/usr/share/fonts/broken.ttf\u{1f}Broken Font\u{1f}Regular\u{1e}\n\
\u{1f}No File Font\u{1f}Regular\u{1f}No File Font\u{1f}TrueType\u{1f}en\u{1e}\n\
/usr/share/fonts/nofamily.ttf\u{1f}\u{1f}Regular\u{1f}\u{1f}TrueType\u{1f}en\u{1e}\n\
/usr/share/fonts/good.ttf\u{1f}Good Font\u{1f}Regular\u{1f}Good Font\u{1f}TrueType\u{1f}en\u{1e}\n";

const EMPTY_FIXTURE: &str = "";

#[test]
fn parses_all_well_formed_records() {
    let mut warnings = Vec::new();
    let records = parse_fc_list(BASIC_FIXTURE, &mut warnings);
    assert!(warnings.is_empty());
    assert_eq!(records.len(), 7);
}

#[test]
fn parses_full_field_set_for_a_record() {
    let mut warnings = Vec::new();
    let records = parse_fc_list(BASIC_FIXTURE, &mut warnings);
    let bold = records
        .iter()
        .find(|r| r.file == "/usr/share/fonts/truetype/noto/NotoSans-Bold.ttf")
        .expect("bold record present");
    assert_eq!(bold.family, "Noto Sans");
    assert_eq!(bold.style.as_deref(), Some("Bold"));
    assert_eq!(bold.fullname.as_deref(), Some("Noto Sans Bold"));
    assert_eq!(bold.font_format.as_deref(), Some("TrueType"));
    assert_eq!(bold.language_coverage.as_deref(), Some("en|fr|de"));
}

#[test]
fn multiple_files_share_the_same_family() {
    let mut warnings = Vec::new();
    let records = parse_fc_list(BASIC_FIXTURE, &mut warnings);
    let noto_sans_count = records.iter().filter(|r| r.family == "Noto Sans").count();
    assert_eq!(noto_sans_count, 4);
}

#[test]
fn record_with_wrong_field_count_is_skipped_with_a_warning() {
    let mut warnings = Vec::new();
    let records = parse_fc_list(MALFORMED_FIXTURE, &mut warnings);
    assert!(!records.iter().any(|r| r.family == "Broken Font"));
    assert!(warnings.iter().any(|w| w.contains("expected 6 fields")));
}

#[test]
fn record_with_empty_file_path_is_skipped_with_a_warning() {
    let mut warnings = Vec::new();
    let _records = parse_fc_list(MALFORMED_FIXTURE, &mut warnings);
    assert!(warnings.iter().any(|w| w.contains("empty file path")));
}

#[test]
fn record_with_empty_family_is_skipped_with_a_warning() {
    let mut warnings = Vec::new();
    let _records = parse_fc_list(MALFORMED_FIXTURE, &mut warnings);
    assert!(warnings.iter().any(|w| w.contains("empty family")));
}

#[test]
fn parsing_continues_after_malformed_records_and_recovers_valid_ones() {
    let mut warnings = Vec::new();
    let records = parse_fc_list(MALFORMED_FIXTURE, &mut warnings);
    assert!(records.iter().any(|r| r.family == "Good Font"));
}

#[test]
fn fonts_parser_empty_output_yields_no_records_and_no_warnings() {
    let mut warnings = Vec::new();
    let records = parse_fc_list(EMPTY_FIXTURE, &mut warnings);
    assert!(records.is_empty());
    assert!(warnings.is_empty());
}

#[test]
fn classify_scope_recognizes_system_directories() {
    let user_dirs = vec!["/home/user/.local/share/fonts".to_string()];
    assert_eq!(classify_scope("/usr/share/fonts/truetype/foo/Foo.ttf", &user_dirs), Some(InstallationScope::System));
    assert_eq!(classify_scope("/usr/local/share/fonts/Foo.ttf", &user_dirs), Some(InstallationScope::System));
}

#[test]
fn classify_scope_recognizes_user_directories() {
    let user_dirs = vec!["/home/user/.local/share/fonts".to_string(), "/home/user/.fonts".to_string()];
    assert_eq!(classify_scope("/home/user/.local/share/fonts/Foo.ttf", &user_dirs), Some(InstallationScope::User));
    assert_eq!(classify_scope("/home/user/.fonts/Foo.ttf", &user_dirs), Some(InstallationScope::User));
}

#[test]
fn classify_scope_excludes_paths_outside_known_directories() {
    let user_dirs = vec!["/home/user/.local/share/fonts".to_string()];
    assert_eq!(classify_scope("/var/lib/flatpak/app/org.example.App/files/share/fonts/App.ttf", &user_dirs), None);
}

fn record(file: &str, family: &str, style: &str) -> FontFileRecord {
    FontFileRecord {
        file: file.to_string(),
        family: family.to_string(),
        style: Some(style.to_string()),
        fullname: None,
        font_format: Some("TrueType".to_string()),
        language_coverage: Some("en".to_string()),
    }
}

#[test]
fn build_items_groups_multiple_files_into_one_family_item() {
    let records = vec![
        (record("/usr/share/fonts/NotoSans-Regular.ttf", "Noto Sans", "Regular"), InstallationScope::System),
        (record("/usr/share/fonts/NotoSans-Bold.ttf", "Noto Sans", "Bold"), InstallationScope::System),
    ];
    let items = build_items(&records, &StringMap::new());
    assert_eq!(items.len(), 1);
    assert_eq!(items[0].display_name, "Noto Sans");
    assert_eq!(items[0].install_paths.len(), 2);
    assert_eq!(items[0].metadata.get("file_count").map(String::as_str), Some("2"));
    assert_eq!(items[0].metadata.get("styles").map(String::as_str), Some("Bold;Regular"));
}

#[test]
fn build_items_keeps_same_family_in_different_scopes_as_separate_items() {
    let records = vec![
        (record("/usr/share/fonts/NotoSans-Regular.ttf", "Noto Sans", "Regular"), InstallationScope::System),
        (record("/home/user/.local/share/fonts/NotoSans-Regular.ttf", "Noto Sans", "Regular"), InstallationScope::User),
    ];
    let items = build_items(&records, &StringMap::new());
    assert_eq!(items.len(), 2);
    assert_ne!(items[0].id, items[1].id);
    assert!(items.iter().any(|i| i.scope == InstallationScope::System));
    assert!(items.iter().any(|i| i.scope == InstallationScope::User));
}

#[test]
fn build_items_uses_owning_package_id_when_every_file_shares_one_owner() {
    let records = vec![
        (record("/usr/share/fonts/NotoSans-Regular.ttf", "Noto Sans", "Regular"), InstallationScope::System),
        (record("/usr/share/fonts/NotoSans-Bold.ttf", "Noto Sans", "Bold"), InstallationScope::System),
    ];
    let mut owners = StringMap::new();
    owners.insert("/usr/share/fonts/NotoSans-Regular.ttf".to_string(), "fonts-noto-core".to_string());
    owners.insert("/usr/share/fonts/NotoSans-Bold.ttf".to_string(), "fonts-noto-core".to_string());
    let items = build_items(&records, &owners);
    assert_eq!(items.len(), 1);
    assert_eq!(items[0].id, "apt:fonts-noto-core");
    assert_eq!(items[0].package_manager, PackageManager::Apt);
    assert_eq!(items[0].category, SoftwareCategory::Unclassified);
}

#[test]
fn build_items_falls_back_to_manual_when_files_have_different_owners() {
    let records = vec![
        (record("/usr/share/fonts/NotoSans-Regular.ttf", "Noto Sans", "Regular"), InstallationScope::System),
        (record("/usr/share/fonts/NotoSans-Bold.ttf", "Noto Sans", "Bold"), InstallationScope::System),
    ];
    let mut owners = StringMap::new();
    owners.insert("/usr/share/fonts/NotoSans-Regular.ttf".to_string(), "fonts-noto-core".to_string());
    owners.insert("/usr/share/fonts/NotoSans-Bold.ttf".to_string(), "fonts-noto-extra".to_string());
    let items = build_items(&records, &owners);
    assert_eq!(items.len(), 1);
    assert_eq!(items[0].package_manager, PackageManager::Manual);
    assert_eq!(items[0].category, SoftwareCategory::Font);
}

#[test]
fn build_items_unowned_font_is_classified_as_font_with_certain_confidence() {
    let records = vec![(record("/home/user/.fonts/MyFont.ttf", "My Font", "Regular"), InstallationScope::User)];
    let items = build_items(&records, &StringMap::new());
    assert_eq!(items[0].category, SoftwareCategory::Font);
    assert_eq!(items[0].classification_confidence, ClassificationConfidence::Certain);
    assert_eq!(items[0].id, "font:user:my-font");
}

#[test]
fn slugify_lowers_ascii_and_dashes_everything_else() {
    assert_eq!(slugify("Noto Sans CJK JP"), "noto-sans-cjk-jp");
    assert_eq!(slugify("Ünïcode 9"), "-n-code-9");
}

#[test]
fn items_come_ordered_by_id_and_files_outside_known_dirs_are_dropped() {
    let mut warnings = Vec::new();
    let records = parse_fc_list(BASIC_FIXTURE, &mut warnings);
    let user_dirs = vec!["/home/user/.local/share/fonts".to_string()];
    let in_scope = select_in_scope(records, &user_dirs);
    assert_eq!(in_scope.len(), 6);
    let items = build_items(&in_scope, &StringMap::new());
    let ids: Vec<&str> = items.iter().map(|i| i.id.as_str()).collect();
    assert_eq!(ids, vec!["font:system:dejavu-sans", "font:system:noto-sans", "font:user:my-custom-font"]);
    let noto = &items[1];
    assert_eq!(noto.metadata.get("styles").map(String::as_str), Some("Bold;Bold Italic;Italic;Regular"));
    assert_eq!(noto.metadata.get("language_coverage").map(String::as_str), Some("en|fr|de"));
    assert_eq!(noto.metadata.get("font_formats").map(String::as_str), Some("TrueType"));
}
