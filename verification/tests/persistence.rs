use kunger::domain::{ClassificationConfidence, PackageManager, SoftwareCategory, SoftwareItem};
use kunger::persistence::{diff_scans, pending_migrations};

fn sample_item(id: &str, display_name: &str, version: Option<&str>) -> SoftwareItem {
    let mut item = SoftwareItem::new(id, id, display_name, PackageManager::Apt);
    item.version = version.map(str::to_string);
    item.category = SoftwareCategory::Application;
    item.classification_confidence = ClassificationConfidence::High;
    item
}

#[test]
fn diff_detects_new_removed_and_version_changed_items() {
    let previous = vec![sample_item("apt:stays", "stays", Some("1.0")), sample_item("apt:removed", "removed", Some("1.0"))];
    let latest = vec![sample_item("apt:stays", "stays", Some("2.0")), sample_item("apt:new", "new", Some("1.0"))];
    let diff = diff_scans(&latest, &previous);
    assert_eq!(diff.new_items.len(), 1);
    assert_eq!(diff.new_items[0].id, "apt:new");
    assert_eq!(diff.removed_items.len(), 1);
    assert_eq!(diff.removed_items[0].id, "apt:removed");
    assert_eq!(diff.version_changed.len(), 1);
    assert_eq!(diff.version_changed[0].id, "apt:stays");
    assert_eq!(diff.version_changed[0].previous_version.as_deref(), Some("1.0"));
    assert_eq!(diff.version_changed[0].current_version.as_deref(), Some("2.0"));
}

#[test]
fn identical_scans_have_an_empty_diff() {
    let items = vec![sample_item("apt:a", "a", Some("1.0")), sample_item("apt:b", "b", None)];
    let diff = diff_scans(&items, &items);
    assert!(diff.new_items.is_empty());
    assert!(diff.removed_items.is_empty());
    assert!(diff.version_changed.is_empty());
}

#[test]
fn a_version_appearing_counts_as_a_change() {
    let previous = vec![sample_item("apt:a", "a", None)];
    let latest = vec![sample_item("apt:a", "a", Some("1.0"))];
    let diff = diff_scans(&latest, &previous);
    assert_eq!(diff.version_changed.len(), 1);
    assert_eq!(diff.version_changed[0].previous_version, None);
}

#[test]
fn migrations_run_from_the_stored_version_up() {
    assert_eq!(pending_migrations(0, 1), (0, 1));
    let (a, b) = pending_migrations(1, 1);
    assert_eq!(a, b);
    let (a, b) = pending_migrations(-3, 1);
    assert_eq!(a, b);
    assert_eq!(pending_migrations(2, 5), (2, 5));
}

#[test]
fn diffing_a_scan_with_itself_finds_no_change() {
    let mut git = SoftwareItem::new("apt:git", "git", "Git", PackageManager::Apt);
    git.version = Some("2.43".to_string());
    let vim = SoftwareItem::new("apt:vim", "vim", "Vim", PackageManager::Apt);
    let scan = vec![git, vim];
    let diff = diff_scans(&scan, &scan);
    assert!(diff.new_items.is_empty());
    assert!(diff.removed_items.is_empty());
    assert!(diff.version_changed.is_empty());
}
