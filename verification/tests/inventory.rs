use kunger::domain::{
    InventoryStatus, PackageManager, ProviderError, ProviderInventory, ProviderStatus, ProviderWarning,
    SoftwareCategory, SoftwareItem,
};
use kunger::inventory::{assemble_scan, build_summary};

fn item(id: &str, display_name: &str, manager: PackageManager) -> SoftwareItem {
    let package_name = id.rsplit(':').next().unwrap_or(id);
    SoftwareItem::new(id, package_name, display_name, manager)
}

/// A provider's finished result, as a successful provider reports it.
fn result(id: &str, items: Vec<SoftwareItem>) -> ProviderInventory {
    let mut r = ProviderInventory::started(id, 0).finish(0, ProviderStatus::Success);
    r.items = items;
    r
}

fn failing(id: &str, error: ProviderError) -> ProviderInventory {
    let mut r = result(id, Vec::new());
    r.error = Some(error);
    r.status = ProviderStatus::Failed;
    r
}

#[test]
fn scan_combines_items_from_every_provider() {
    let scan = assemble_scan(
        vec![
            result("apt", vec![item("apt:git", "git", PackageManager::Apt)]),
            result("flatpak", vec![item("flatpak:user:org.example.App", "Example App", PackageManager::Flatpak)]),
        ],
        1_000,
        1_250,
    );
    assert_eq!(scan.items.len(), 2);
    assert_eq!(scan.summary.total_items, 2);
    assert_eq!(scan.summary.status, InventoryStatus::Completed);
    assert_eq!(scan.summary.last_scan_started_at, Some(1_000));
    assert_eq!(scan.summary.scan_duration_ms, Some(250));
}

#[test]
fn one_provider_failing_does_not_prevent_others_from_contributing() {
    let scan = assemble_scan(
        vec![
            result("apt", vec![item("apt:git", "git", PackageManager::Apt)]),
            failing("broken", ProviderError::CommandNotFound("broken-tool".to_string())),
        ],
        0,
        0,
    );
    assert_eq!(scan.items.len(), 1);
    assert_eq!(scan.summary.status, InventoryStatus::PartiallyFailed);
    assert!(scan.summary.providers_with_errors.contains(&"broken".to_string()));
}

#[test]
fn every_provider_failing_reports_failed_status_with_zero_items() {
    let scan = assemble_scan(vec![failing("broken", ProviderError::CommandNotFound("x".to_string()))], 0, 0);
    assert!(scan.items.is_empty());
    assert_eq!(scan.summary.status, InventoryStatus::Failed);
}

#[test]
fn provider_warnings_produce_completed_with_warnings_status() {
    let mut desktop = result("desktop", vec![item("desktop:app", "App", PackageManager::Manual)]);
    desktop.warnings.push(ProviderWarning::new("one malformed .desktop file"));
    desktop.status = ProviderStatus::PartialSuccess;
    let scan = assemble_scan(vec![desktop], 0, 0);
    assert_eq!(scan.summary.status, InventoryStatus::CompletedWithWarnings);
    assert!(scan.summary.providers_with_warnings.contains(&"desktop".to_string()));
    assert_eq!(scan.provider_results[0].warnings.len(), 1);
}

#[test]
fn same_id_items_from_different_providers_are_merged_not_duplicated() {
    let mut apt_item = item("apt:firefox", "firefox", PackageManager::Apt);
    apt_item.version = Some("128.0".to_string());
    let mut desktop_item = item("apt:firefox", "Firefox", PackageManager::Apt);
    desktop_item.desktop_file_paths = vec!["/usr/share/applications/firefox.desktop".to_string()];

    let scan = assemble_scan(vec![result("apt", vec![apt_item]), result("desktop", vec![desktop_item])], 0, 0);
    assert_eq!(scan.items.len(), 1);
    assert_eq!(scan.items[0].display_name, "Firefox");
    assert_eq!(scan.items[0].version.as_deref(), Some("128.0"));
    assert_eq!(
        scan.items[0].desktop_file_paths,
        vec!["/usr/share/applications/firefox.desktop".to_string()]
    );
}

#[test]
fn cross_manager_duplicates_are_detected_after_merging() {
    let scan = assemble_scan(
        vec![
            result("apt", vec![item("apt:firefox", "Firefox", PackageManager::Apt)]),
            result("flatpak", vec![item("flatpak:user:org.mozilla.firefox", "Firefox", PackageManager::Flatpak)]),
        ],
        0,
        0,
    );
    assert_eq!(scan.items.len(), 2);
    assert_eq!(scan.duplicate_groups.len(), 1);
    assert_eq!(scan.summary.duplicate_group_count, 1);
}

#[test]
fn empty_scan_produces_a_completed_summary_with_zero_items() {
    let scan = assemble_scan(Vec::new(), 0, 0);
    assert!(scan.items.is_empty());
    assert_eq!(scan.summary.status, InventoryStatus::Completed);
    assert_eq!(scan.summary.total_items, 0);
}

#[test]
fn a_timed_out_provider_leaves_the_scan_completed_with_warnings() {
    let slow = ProviderInventory::started("slow", 0).finish(50, ProviderStatus::TimedOut);
    let scan = assemble_scan(vec![slow, result("fast", vec![item("apt:git", "git", PackageManager::Apt)])], 0, 60);
    assert_eq!(scan.items.len(), 1);
    assert_eq!(scan.summary.status, InventoryStatus::CompletedWithWarnings);
}

#[test]
fn build_summary_counts_by_category_and_manager_in_first_seen_order() {
    let mut font = item("fonts:system:noto", "Noto", PackageManager::Manual);
    font.category = SoftwareCategory::Font;
    let mut git = item("apt:git", "git", PackageManager::Apt);
    git.category = SoftwareCategory::CommandLineTool;
    let mut vim = item("apt:vim", "vim", PackageManager::Apt);
    vim.category = SoftwareCategory::CommandLineTool;
    let items = vec![font, git, vim];
    let summary = build_summary(&vec![result("apt", Vec::new())], &items, &Vec::new(), 10, 5);
    assert_eq!(
        summary.items_by_category,
        vec![(SoftwareCategory::Font, 1), (SoftwareCategory::CommandLineTool, 2)]
    );
    assert_eq!(
        summary.items_by_package_manager,
        vec![(PackageManager::Manual, 1), (PackageManager::Apt, 2)]
    );
    assert_eq!(summary.total_items, 3);
    assert_eq!(summary.scan_duration_ms, Some(0));
    assert_eq!(summary.duplicate_group_count, 0);
}

#[test]
fn summary_counts_add_up_to_the_number_of_items() {
    let mut font = item("fonts:system:noto", "Noto", PackageManager::Manual);
    font.category = SoftwareCategory::Font;
    let git = item("apt:git", "git", PackageManager::Apt);
    let app = item("flatpak:system:org.gimp.GIMP", "GIMP", PackageManager::Flatpak);
    let tool = item("manual:/usr/local/bin/mytool", "mytool", PackageManager::Manual);
    let items = vec![font, git, app, tool];
    let summary = build_summary(&vec![result("apt", Vec::new())], &items, &Vec::new(), 0, 7);
    let by_category: usize = summary.items_by_category.iter().map(|(_, n)| *n).sum();
    let by_manager: usize = summary.items_by_package_manager.iter().map(|(_, n)| *n).sum();
    assert_eq!(summary.total_items, 4);
    assert_eq!(by_category, 4);
    assert_eq!(by_manager, 4);
    assert_eq!(summary.items_by_package_manager.len(), 3);
}
