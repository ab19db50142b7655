use kunger::apt_parser::{DpkgRecord, NameSet};
use kunger::domain::{ClassificationConfidence, InstallationReason, InstallationScope, PackageManager, SoftwareCategory, StringMap};
use kunger::providers::apt::build_item;

fn record(package: &str) -> DpkgRecord {
    DpkgRecord {
        package: package.to_string(),
        version: "1.0".to_string(),
        architecture: "amd64".to_string(),
        section: None,
        priority: None,
        installed_size_kb: None,
        maintainer: None,
        homepage: None,
        summary: None,
        dependencies: Vec::new(),
    }
}

fn manual_set(names: &[&str]) -> NameSet {
    let mut set = NameSet::new();
    for n in names {
        set.insert(n.to_string());
    }
    set
}

#[test]
fn build_item_sets_a_stable_provider_prefixed_id() {
    let item = build_item(&record("git"), None, &StringMap::new());
    assert_eq!(item.id, "apt:git");
    assert_eq!(item.package_manager, PackageManager::Apt);
    assert_eq!(item.scope, InstallationScope::System);
}

#[test]
fn build_item_converts_installed_size_from_kib_to_bytes() {
    let mut r = record("git");
    r.installed_size_kb = Some(2048);
    let item = build_item(&r, None, &StringMap::new());
    assert_eq!(item.installed_size_bytes, Some(2048 * 1024));
}

#[test]
fn build_item_marks_manual_when_present_in_the_manual_set() {
    let manual = manual_set(&["git"]);
    let item = build_item(&record("git"), Some(&manual), &StringMap::new());
    assert_eq!(item.installation_reason, InstallationReason::Manual);
}

#[test]
fn build_item_marks_automatic_when_absent_from_a_known_manual_set() {
    let manual = manual_set(&["git"]);
    let item = build_item(&record("libssl3"), Some(&manual), &StringMap::new());
    assert_eq!(item.installation_reason, InstallationReason::Automatic);
}

#[test]
fn build_item_leaves_installation_reason_unknown_when_apt_mark_was_unavailable() {
    let item = build_item(&record("git"), None, &StringMap::new());
    assert_eq!(item.installation_reason, InstallationReason::Unknown);
}

#[test]
fn build_item_wires_up_update_availability() {
    let mut upgradable = StringMap::new();
    upgradable.insert("git".to_string(), "2.0".to_string());
    let item = build_item(&record("git"), None, &upgradable);
    assert!(item.update_available);
    assert_eq!(item.available_version.as_deref(), Some("2.0"));
}

#[test]
fn build_item_leaves_update_unavailable_when_not_listed() {
    let item = build_item(&record("git"), None, &StringMap::new());
    assert!(!item.update_available);
    assert_eq!(item.available_version, None);
}

#[test]
fn build_item_classifies_using_the_debian_section() {
    let mut r = record("libfoo1");
    r.section = Some("libs".to_string());
    let item = build_item(&r, None, &StringMap::new());
    assert_eq!(item.category, SoftwareCategory::Library);
    assert_eq!(item.classification_confidence, ClassificationConfidence::High);
}

#[test]
fn build_item_stores_maintainer_in_metadata() {
    let mut r = record("git");
    r.maintainer = Some("Someone <someone@example.com>".to_string());
    let item = build_item(&r, None, &StringMap::new());
    assert_eq!(item.metadata.get("maintainer").map(String::as_str), Some("Someone <someone@example.com>"));
}
