use kunger::domain::{ClassificationConfidence, InstallationReason, PackageManager, SoftwareCategory, SoftwareItem};
use kunger::merge::merge_by_id;


fn apt_base() -> SoftwareItem {
    let mut item = SoftwareItem::new("apt:firefox", "firefox", "firefox", PackageManager::Apt);
    item.version = Some("128.0".to_string());
    item.package_section = Some("web".to_string());
    item.category = SoftwareCategory::Application;
    item.classification_confidence = ClassificationConfidence::High;
    item.classification_reasons = vec!["package provides a desktop launcher".to_string()];
    item
}

fn desktop_enrichment() -> SoftwareItem {
    let mut item = SoftwareItem::new("apt:firefox", "firefox", "Firefox", PackageManager::Apt);
    item.desktop_file_paths = vec!["/usr/share/applications/firefox.desktop".to_string()];
    item.icon_path = Some("firefox".to_string());
    item
}

#[test]
fn items_with_different_ids_are_not_merged() {
    let a = SoftwareItem::new("apt:git", "git", "git", PackageManager::Apt);
    let b = SoftwareItem::new("apt:curl", "curl", "curl", PackageManager::Apt);

    let merged = merge_by_id(vec![a, b]);

    assert_eq!(merged.len(), 2);
}

#[test]
fn merge_preserves_order_of_first_occurrence() {
    let a = SoftwareItem::new("apt:aaa", "aaa", "aaa", PackageManager::Apt);
    let b = SoftwareItem::new("apt:bbb", "bbb", "bbb", PackageManager::Apt);

    let merged = merge_by_id(vec![b.clone(), a.clone()]);

    assert_eq!(merged[0].id, "apt:bbb");
    assert_eq!(merged[1].id, "apt:aaa");
}

#[test]
fn enrichment_fills_empty_fields_on_the_base_item() {
    let merged = merge_by_id(vec![apt_base(), desktop_enrichment()]);

    assert_eq!(merged.len(), 1);
    let item = &merged[0];
    assert_eq!(
        item.desktop_file_paths,
        vec!["/usr/share/applications/firefox.desktop".to_string()]
    );
    assert_eq!(item.icon_path.as_deref(), Some("firefox"));
    // Fields the base already had are untouched.
    assert_eq!(item.version.as_deref(), Some("128.0"));
}

#[test]
fn a_more_specific_display_name_overrides_a_generic_one() {
    let merged = merge_by_id(vec![apt_base(), desktop_enrichment()]);

    assert_eq!(merged[0].display_name, "Firefox");
}

#[test]
fn does_not_overwrite_an_already_specific_display_name() {
    let mut base = apt_base();
    base.display_name = "Mozilla Firefox Web Browser".to_string();

    let merged = merge_by_id(vec![base, desktop_enrichment()]);

    assert_eq!(merged[0].display_name, "Mozilla Firefox Web Browser");
}

#[test]
fn higher_confidence_classification_wins() {
    let mut low_confidence_first =
        SoftwareItem::new("apt:libssl3", "libssl3", "libssl3", PackageManager::Apt);
    low_confidence_first.category = SoftwareCategory::Unclassified;
    low_confidence_first.classification_confidence = ClassificationConfidence::Unknown;

    let mut high_confidence_second =
        SoftwareItem::new("apt:libssl3", "libssl3", "libssl3", PackageManager::Apt);
    high_confidence_second.category = SoftwareCategory::Library;
    high_confidence_second.classification_confidence = ClassificationConfidence::High;
    high_confidence_second.classification_reasons =
        vec!["Debian section is \"libs\"".to_string()];

    let merged = merge_by_id(vec![low_confidence_first, high_confidence_second]);

    assert_eq!(merged[0].category, SoftwareCategory::Library);
    assert_eq!(
        merged[0].classification_confidence,
        ClassificationConfidence::High
    );
}

#[test]
fn equal_confidence_and_category_unions_reasons_instead_of_discarding() {
    let mut first = apt_base();
    first.classification_reasons = vec!["reason A".to_string()];

    let mut second = apt_base();
    second.classification_reasons = vec!["reason B".to_string()];

    let merged = merge_by_id(vec![first, second]);

    assert_eq!(
        merged[0].classification_reasons,
        vec!["reason A".to_string(), "reason B".to_string()]
    );
}

#[test]
fn secondary_categories_never_duplicate_the_final_primary_category() {
    let mut first = apt_base();
    first.category = SoftwareCategory::Library;
    first.classification_confidence = ClassificationConfidence::High;

    let mut second = apt_base();
    second.category = SoftwareCategory::Library;
    second.classification_confidence = ClassificationConfidence::High;
    second.secondary_categories = vec![
        SoftwareCategory::Library,
        SoftwareCategory::DevelopmentPackage,
    ];

    let merged = merge_by_id(vec![first, second]);

    assert!(!merged[0]
        .secondary_categories
        .contains(&SoftwareCategory::Library));
    assert!(merged[0]
        .secondary_categories
        .contains(&SoftwareCategory::DevelopmentPackage));
}

#[test]
fn metadata_maps_merge_without_overwriting_existing_keys() {
    let mut first = apt_base();
    first
        .metadata
        .insert("maintainer".to_string(), "Real Maintainer".to_string());

    let mut second = apt_base();
    second
        .metadata
        .insert("maintainer".to_string(), "Should Not Win".to_string());
    second
        .metadata
        .insert("owning_package".to_string(), "firefox".to_string());

    let merged = merge_by_id(vec![first, second]);

    assert_eq!(
        merged[0].metadata.get("maintainer").map(String::as_str),
        Some("Real Maintainer")
    );
    assert_eq!(
        merged[0].metadata.get("owning_package").map(String::as_str),
        Some("firefox")
    );
}

#[test]
fn update_available_is_true_if_any_source_says_so() {
    let mut first = apt_base();
    first.update_available = false;

    let mut second = apt_base();
    second.update_available = true;
    second.available_version = Some("129.0".to_string());

    let merged = merge_by_id(vec![first, second]);

    assert!(merged[0].update_available);
    assert_eq!(merged[0].available_version.as_deref(), Some("129.0"));
}

#[test]
fn installation_reason_unknown_is_filled_from_a_later_source() {
    let mut first = apt_base();
    first.installation_reason = InstallationReason::Unknown;

    let mut second = apt_base();
    second.installation_reason = InstallationReason::Manual;

    let merged = merge_by_id(vec![first, second]);

    assert_eq!(merged[0].installation_reason, InstallationReason::Manual);
}

#[test]
fn three_way_merge_combines_paths_from_every_source() {
    let base = apt_base();
    let mut desktop_item = desktop_enrichment();
    desktop_item.desktop_file_paths =
        vec!["/usr/share/applications/firefox.desktop".to_string()];

    let mut font_like_third =
        SoftwareItem::new("apt:firefox", "firefox", "firefox", PackageManager::Apt);
    font_like_third.install_paths = vec!["/usr/lib/firefox/firefox".to_string()];

    let merged = merge_by_id(vec![base, desktop_item, font_like_third]);

    assert_eq!(merged.len(), 1);
    assert_eq!(
        merged[0].install_paths,
        vec!["/usr/lib/firefox/firefox".to_string()]
    );
    assert_eq!(
        merged[0].desktop_file_paths,
        vec!["/usr/share/applications/firefox.desktop".to_string()]
    );
}

#[test]
fn merge_into_fills_missing_fields_and_keeps_present_ones() {
    let mut base = SoftwareItem::new("apt:git", "git", "git", PackageManager::Apt);
    base.version = Some("2.43".to_string());
    let mut other = SoftwareItem::new("apt:git", "git", "Git", PackageManager::Apt);
    other.version = Some("9.9".to_string());
    other.homepage = Some("https://git-scm.com".to_string());
    kunger::merge::merge_into(&mut base, &other);
    assert_eq!(base.version.as_deref(), Some("2.43"));
    assert_eq!(base.homepage.as_deref(), Some("https://git-scm.com"));
    assert_eq!(base.display_name, "Git");
}

#[test]
fn merging_leaves_one_item_per_id_and_merging_again_changes_nothing() {
    let items = vec![
        apt_base(),
        desktop_enrichment(),
        SoftwareItem::new("flatpak:user:org.mozilla.firefox", "firefox", "Firefox", PackageManager::Flatpak),
    ];
    let merged = merge_by_id(items);
    let ids: Vec<&str> = merged.iter().map(|i| i.id.as_str()).collect();
    assert_eq!(ids, vec!["apt:firefox", "flatpak:user:org.mozilla.firefox"]);
    assert_eq!(merge_by_id(merged.clone()), merged);
}

#[test]
fn an_item_whose_id_occurs_once_passes_merging_unchanged() {
    let lone = SoftwareItem::new("flatpak:user:org.gnome.Calculator", "calc", "Calculator", PackageManager::Flatpak);
    let merged = merge_by_id(vec![apt_base(), lone.clone(), desktop_enrichment()]);
    assert_eq!(merged[1], lone);
}
