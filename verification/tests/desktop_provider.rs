use kunger::desktop_parser::DesktopEntryRecord;
use kunger::domain::{InstallationScope, PackageManager, SoftwareCategory, StringMap};
use kunger::process::RunError;
use kunger::providers::desktop::{add_entry, build_item, dedupe_by_file_name, is_desktop_file, owners_outcome, within_depth};

fn record(name: &str) -> DesktopEntryRecord {
    DesktopEntryRecord { name: name.to_string(), ..Default::default() }
}

#[test]
fn collect_desktop_files_prefers_the_fixtures_directory_style_dedup_by_filename() {
    let found = vec![
        ("/home/user/.local/share/applications/app.desktop".to_string(), InstallationScope::User),
        ("/usr/share/applications/app.desktop".to_string(), InstallationScope::System),
    ];
    let out = dedupe_by_file_name(found);
    assert_eq!(out.len(), 1);
    assert_eq!(out[0].0, "/home/user/.local/share/applications/app.desktop");
}

#[test]
fn build_item_for_an_owned_entry_reuses_the_apt_id_and_stays_unclassified() {
    let item = build_item(&record("Firefox"), "/usr/share/applications/firefox.desktop", InstallationScope::System, Some("firefox"));
    assert_eq!(item.id, "apt:firefox");
    assert_eq!(item.package_manager, PackageManager::Apt);
    assert_eq!(item.category, SoftwareCategory::Unclassified);
    assert_eq!(item.metadata.get("owning_package").map(String::as_str), Some("firefox"));
}

#[test]
fn build_item_for_an_unowned_entry_gets_a_desktop_id_and_is_classified_as_an_application() {
    let mut r = record("Custom Tool");
    r.categories = vec!["Utility".to_string()];
    let item = build_item(&r, "/home/user/.local/share/applications/custom-tool.desktop", InstallationScope::User, None);
    assert_eq!(item.id, "desktop:custom-tool");
    assert_eq!(item.package_manager, PackageManager::Manual);
    assert_eq!(item.category, SoftwareCategory::Application);
    assert_eq!(item.metadata.get("categories").map(String::as_str), Some("Utility"));
}

#[test]
fn build_item_tags_hidden_and_no_display_in_metadata_without_dropping_the_item() {
    let mut r = record("Hidden Helper");
    r.hidden = true;
    r.no_display = true;
    let item = build_item(&r, "/usr/share/applications/hidden-helper.desktop", InstallationScope::System, None);
    assert_eq!(item.metadata.get("desktop_hidden").map(String::as_str), Some("true"));
    assert_eq!(item.metadata.get("desktop_no_display").map(String::as_str), Some("true"));
}

#[test]
fn build_item_never_promotes_exec_beyond_opaque_metadata() {
    let mut r = record("Escaped");
    r.exec_line = Some(r#"/usr/bin/app --flag="value" %f"#.to_string());
    let item = build_item(&r, "/usr/share/applications/escaped.desktop", InstallationScope::System, None);
    assert_eq!(item.metadata.get("exec").map(String::as_str), Some(r#"/usr/bin/app --flag="value" %f"#));
    assert!(item.executable_paths.is_empty());
}

#[test]
fn resolve_owners_degrades_gracefully_when_dpkg_is_missing() {
    let mut warnings = Vec::new();
    let owners = owners_outcome(Err(RunError::NotFound("kunger-nonexistent-dpkg-xyz".to_string())), &mut warnings);
    assert!(owners.is_empty());
    assert_eq!(warnings.len(), 1);
    assert!(warnings[0].message.contains("could not resolve desktop entry package ownership"));
}

#[test]
fn an_entry_is_added_with_its_owner_and_parse_warnings_are_kept() {
    let mut owners = StringMap::new();
    owners.insert("/usr/share/applications/git-gui.desktop".to_string(), "git-gui".to_string());
    let mut items = Vec::new();
    let mut warnings = Vec::new();
    let content = "[Desktop Entry]\nType=Application\nName=Git GUI\nno equals here\n".to_string();
    add_entry(&"/usr/share/applications/git-gui.desktop".to_string(), InstallationScope::System, Ok(content), &owners, &mut items, &mut warnings);
    assert_eq!(items.len(), 1);
    assert_eq!(items[0].id, "apt:git-gui");
    assert_eq!(warnings.len(), 1);
    add_entry(&"/x/broken.desktop".to_string(), InstallationScope::System, Err("permission denied".to_string()), &owners, &mut items, &mut warnings);
    assert_eq!(items.len(), 1);
    assert_eq!(warnings[1].message, "could not read /x/broken.desktop: permission denied");
}

#[test]
fn only_desktop_files_within_two_levels_are_looked_at() {
    assert!(is_desktop_file("/usr/share/applications/kde4/app.desktop"));
    assert!(!is_desktop_file("/usr/share/applications/app.Desktop"));
    assert!(!is_desktop_file("/usr/share/applications/.desktop"));
    assert!(is_desktop_file("/usr/share/applications/org.gnome.Maps.desktop"));
    assert!(within_depth(2));
    assert!(!within_depth(3));
}
