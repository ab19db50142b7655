use kunger::domain::{ClassificationConfidence, InstallationScope, PackageManager, SoftwareCategory};
use kunger::flatpak_parser::FlatpakRecord;
use kunger::providers::flatpak::{build_item, looks_like_extension, RefKind, Scope};

fn record(application: &str) -> FlatpakRecord {
    FlatpakRecord {
        application: application.to_string(),
        name: None,
        version: None,
        branch: None,
        arch: None,
        origin: None,
        installed_size_bytes: None,
    }
}

#[test]
fn build_item_for_an_app_uses_application_category_with_certain_confidence() {
    let mut r = record("org.mozilla.firefox");
    r.name = Some("Firefox".to_string());
    let item = build_item(&r, Scope::User, RefKind::App);
    assert_eq!(item.id, "flatpak:user:org.mozilla.firefox");
    assert_eq!(item.display_name, "Firefox");
    assert_eq!(item.category, SoftwareCategory::Application);
    assert_eq!(item.classification_confidence, ClassificationConfidence::Certain);
    assert_eq!(item.scope, InstallationScope::User);
    assert_eq!(item.package_manager, PackageManager::Flatpak);
}

#[test]
fn build_item_falls_back_to_application_id_when_name_is_missing() {
    let item = build_item(&record("org.example.NoName"), Scope::System, RefKind::App);
    assert_eq!(item.display_name, "org.example.NoName");
    assert_eq!(item.scope, InstallationScope::System);
}

#[test]
fn build_item_for_a_plain_runtime_tags_metadata_as_runtime() {
    let item = build_item(&record("org.gnome.Platform"), Scope::User, RefKind::Runtime);
    assert_eq!(item.category, SoftwareCategory::Runtime);
    assert_eq!(item.metadata.get("flatpak_kind").map(String::as_str), Some("runtime"));
}

#[test]
fn build_item_for_an_extension_like_ref_tags_metadata_as_extension() {
    let item = build_item(&record("org.freedesktop.Platform.GL.default"), Scope::User, RefKind::Runtime);
    assert_eq!(item.category, SoftwareCategory::Runtime);
    assert_eq!(item.metadata.get("flatpak_kind").map(String::as_str), Some("extension"));
}

#[test]
fn build_item_ids_differ_by_scope_so_user_and_system_installs_do_not_collide() {
    let user_item = build_item(&record("org.example.App"), Scope::User, RefKind::App);
    let system_item = build_item(&record("org.example.App"), Scope::System, RefKind::App);
    assert_ne!(user_item.id, system_item.id);
}

#[test]
fn extension_like_ids_are_recognized() {
    assert!(looks_like_extension("org.freedesktop.Platform.GL.default"));
    assert!(!looks_like_extension("org.gnome.Platform"));
}
