use kunger::commands::listing::{
    filter_items, get_software_item, list_software_items, matches_filters, page_request, paginate, provider_statuses,
    provider_warnings, sort_items,
};
use kunger::commands::scan::needs_last_summary;
use kunger::commands::CommandError;
use kunger::providers::{ProviderId, ProviderMetadata};
use kunger::commands::scan::{
    begin_scan, cancel_inventory_scan_impl, finish_scan, scan_status, validate_timeout, ScanOutcome, ScanRuntimeState,
    ScanStatusResponse, MAX_PER_PROVIDER_TIMEOUT_MS,
};
use kunger::commands::{ListSoftwareItemsRequest, SortDirection, SortField, MAX_PAGE_SIZE};
use kunger::domain::{
    ClassificationConfidence, InstallationScope, PackageManager, ProviderInventory, ProviderWarning, SoftwareCategory,
    SoftwareItem,
};

fn item(id: &str, display_name: &str, category: SoftwareCategory, manager: PackageManager) -> SoftwareItem {
    let mut item = SoftwareItem::new(id, id, display_name, manager);
    item.category = category;
    item
}

#[test]
fn list_software_items_rejects_page_zero() {
    let result = list_software_items(&Vec::new(), &ListSoftwareItemsRequest { page: Some(0), ..Default::default() });
    assert!(matches!(result, Err(e) if e.kind == "invalidRequest"));
}

#[test]
fn list_software_items_rejects_an_oversized_page_size() {
    let result = list_software_items(
        &Vec::new(),
        &ListSoftwareItemsRequest { page_size: Some(MAX_PAGE_SIZE + 1), ..Default::default() },
    );
    assert!(matches!(result, Err(e) if e.kind == "invalidRequest" && e.message == "pageSize must be between 1 and 500"));
}

#[test]
fn list_software_items_paginates_results() {
    let items: Vec<SoftwareItem> = (0..5)
        .map(|i| item(&format!("apt:pkg{i}"), &format!("Package {i}"), SoftwareCategory::Application, PackageManager::Apt))
        .collect();
    let page1 = list_software_items(&items, &ListSoftwareItemsRequest { page_size: Some(2), ..Default::default() }).expect("page 1");
    assert_eq!(page1.items.len(), 2);
    assert_eq!(page1.total_count, 5);
    let page3 = list_software_items(&items, &ListSoftwareItemsRequest { page: Some(3), page_size: Some(2), ..Default::default() })
        .expect("page 3");
    assert_eq!(page3.items.len(), 1);
    let page9 = list_software_items(&items, &ListSoftwareItemsRequest { page: Some(9), page_size: Some(2), ..Default::default() })
        .expect("page 9");
    assert!(page9.items.is_empty());
    assert_eq!(page9.total_count, 5);
}

#[test]
fn list_software_items_filters_by_search_across_multiple_fields() {
    let mut with_description = item("apt:git", "Git", SoftwareCategory::CommandLineTool, PackageManager::Apt);
    with_description.description = Some("distributed version control".to_string());
    let items = vec![with_description, item("apt:firefox", "Firefox", SoftwareCategory::Application, PackageManager::Apt)];
    let result = list_software_items(&items, &ListSoftwareItemsRequest { search: Some("version control".to_string()), ..Default::default() })
        .expect("search");
    assert_eq!(result.items.len(), 1);
    assert_eq!(result.items[0].id, "apt:git");
}

#[test]
fn list_software_items_filters_by_category_and_manager() {
    let items = vec![
        item("apt:git", "Git", SoftwareCategory::CommandLineTool, PackageManager::Apt),
        item("flatpak:app", "App", SoftwareCategory::Application, PackageManager::Flatpak),
    ];
    let result = list_software_items(
        &items,
        &ListSoftwareItemsRequest { categories: Some(vec![SoftwareCategory::CommandLineTool]), ..Default::default() },
    )
    .expect("filter");
    assert_eq!(result.items.len(), 1);
    assert_eq!(result.items[0].id, "apt:git");
    let by_manager = list_software_items(
        &items,
        &ListSoftwareItemsRequest { package_managers: Some(vec![PackageManager::Flatpak]), ..Default::default() },
    )
    .expect("filter");
    assert_eq!(by_manager.items[0].id, "flatpak:app");
}

#[test]
fn list_software_items_sorts_descending_by_display_name() {
    let items = vec![
        item("apt:a", "Alpha", SoftwareCategory::Application, PackageManager::Apt),
        item("apt:z", "Zulu", SoftwareCategory::Application, PackageManager::Apt),
    ];
    let result = list_software_items(&items, &ListSoftwareItemsRequest { sort_direction: Some(SortDirection::Descending), ..Default::default() })
        .expect("sort");
    assert_eq!(result.items[0].display_name, "Zulu");
}

#[test]
fn sorting_by_size_is_stable_and_treats_a_missing_size_as_zero() {
    let mut a = item("apt:a", "A", SoftwareCategory::Application, PackageManager::Apt);
    a.installed_size_bytes = Some(10);
    let b = item("apt:b", "B", SoftwareCategory::Application, PackageManager::Apt);
    let c = item("apt:c", "C", SoftwareCategory::Application, PackageManager::Apt);
    let mut d = item("apt:d", "D", SoftwareCategory::Application, PackageManager::Apt);
    d.installed_size_bytes = Some(5);
    let items = vec![a, b, c, d];
    let asc = list_software_items(&items, &ListSoftwareItemsRequest { sort_by: Some(SortField::InstalledSize), ..Default::default() }).expect("asc");
    let ids: Vec<&str> = asc.items.iter().map(|i| i.id.as_str()).collect();
    assert_eq!(ids, vec!["apt:b", "apt:c", "apt:d", "apt:a"]);
    let desc = list_software_items(
        &items,
        &ListSoftwareItemsRequest { sort_by: Some(SortField::InstalledSize), sort_direction: Some(SortDirection::Descending), ..Default::default() },
    )
    .expect("desc");
    let ids: Vec<&str> = desc.items.iter().map(|i| i.id.as_str()).collect();
    assert_eq!(ids, vec!["apt:a", "apt:d", "apt:b", "apt:c"]);
}

#[test]
fn get_software_item_rejects_an_empty_id() {
    let result = get_software_item(&Vec::new(), "  ");
    assert!(matches!(result, Err(e) if e.kind == "invalidRequest"));
}

#[test]
fn get_software_item_returns_none_when_not_found() {
    let items = vec![item("apt:git", "Git", SoftwareCategory::CommandLineTool, PackageManager::Apt)];
    let result = get_software_item(&items, "apt:does-not-exist").expect("lookup");
    assert!(result.is_none());
}

#[test]
fn get_software_item_finds_an_existing_item() {
    let items = vec![item("apt:git", "Git", SoftwareCategory::CommandLineTool, PackageManager::Apt)];
    let result = get_software_item(&items, " apt:git ").expect("lookup").expect("present");
    assert_eq!(result.display_name, "Git");
}

#[test]
fn update_available_only_filter_excludes_items_without_updates() {
    let mut without_update = item("apt:a", "A", SoftwareCategory::Application, PackageManager::Apt);
    without_update.update_available = false;
    let mut with_update = item("apt:b", "B", SoftwareCategory::Application, PackageManager::Apt);
    with_update.update_available = true;
    let request = ListSoftwareItemsRequest { update_available_only: Some(true), ..Default::default() };
    assert!(!matches_filters(&without_update, &request));
    assert!(matches_filters(&with_update, &request));
}

#[test]
fn min_confidence_filter_excludes_lower_confidence_items() {
    let mut low = item("apt:a", "A", SoftwareCategory::Application, PackageManager::Apt);
    low.classification_confidence = ClassificationConfidence::Low;
    let mut high = item("apt:b", "B", SoftwareCategory::Application, PackageManager::Apt);
    high.classification_confidence = ClassificationConfidence::High;
    let request = ListSoftwareItemsRequest { min_confidence: Some(ClassificationConfidence::High), ..Default::default() };
    assert!(!matches_filters(&low, &request));
    assert!(matches_filters(&high, &request));
}

#[test]
fn scope_filter_matches_only_listed_scopes() {
    let mut user_item = item("apt:a", "A", SoftwareCategory::Application, PackageManager::Apt);
    user_item.scope = InstallationScope::User;
    let mut system_item = item("apt:b", "B", SoftwareCategory::Application, PackageManager::Apt);
    system_item.scope = InstallationScope::System;
    let request = ListSoftwareItemsRequest { scopes: Some(vec![InstallationScope::User]), ..Default::default() };
    assert!(matches_filters(&user_item, &request));
    assert!(!matches_filters(&system_item, &request));
}

#[test]
fn an_empty_filter_list_allows_everything() {
    let it = item("apt:a", "A", SoftwareCategory::Application, PackageManager::Apt);
    let request = ListSoftwareItemsRequest { categories: Some(vec![]), search: Some("   ".to_string()), ..Default::default() };
    assert!(matches_filters(&it, &request));
}

#[test]
fn rejects_a_zero_timeout() {
    let result = validate_timeout(Some(0));
    assert!(matches!(result, Err(e) if e.kind == "invalidRequest"));
}

#[test]
fn rejects_an_excessive_timeout() {
    let result = validate_timeout(Some(MAX_PER_PROVIDER_TIMEOUT_MS + 1));
    assert!(matches!(result, Err(e) if e.kind == "invalidRequest" && e.message == "perProviderTimeoutMs must be between 1 and 600000"));
    assert_eq!(validate_timeout(None).ok(), Some(30_000));
}

#[test]
fn cancel_without_a_running_scan_is_a_conflict() {
    let mut state = ScanRuntimeState::Idle;
    let result = cancel_inventory_scan_impl(&mut state);
    assert!(matches!(result, Err(e) if e.kind == "conflict"));
    assert_eq!(state, ScanRuntimeState::Idle);
}

#[test]
fn starting_a_second_scan_while_one_is_running_is_a_conflict() {
    let mut state = ScanRuntimeState::Idle;
    assert_eq!(begin_scan(&mut state, None, 1_000).ok(), Some(30_000));
    let second = begin_scan(&mut state, None, 2_000);
    assert!(matches!(second, Err(e) if e.kind == "conflict"));
    assert_eq!(state, ScanRuntimeState::Running { started_at: 1_000, cancel_requested: false });
}

#[test]
fn a_completed_scan_returns_to_idle() {
    let mut state = ScanRuntimeState::Idle;
    begin_scan(&mut state, Some(5_000), 1_000).expect("starts");
    assert_eq!(finish_scan(&mut state, Ok(())), ScanOutcome::Completed);
    assert_eq!(state, ScanRuntimeState::Idle);
    assert!(matches!(scan_status(&state, 9_000, None), ScanStatusResponse::Idle { last_summary: None }));
}

#[test]
fn cancelling_a_running_scan_marks_it_cancelled() {
    let mut state = ScanRuntimeState::Idle;
    begin_scan(&mut state, None, 1_000).expect("starts");
    match scan_status(&state, 1_250, None) {
        ScanStatusResponse::Running { started_at, elapsed_ms } => {
            assert_eq!(started_at, 1_000);
            assert_eq!(elapsed_ms, 250);
        }
        other => panic!("expected running, got {other:?}"),
    }
    cancel_inventory_scan_impl(&mut state).expect("cancel");
    assert_eq!(finish_scan(&mut state, Ok(())), ScanOutcome::Cancelled);
    assert_eq!(state, ScanRuntimeState::Idle);
}

#[test]
fn a_scan_that_cannot_be_saved_failed() {
    let mut state = ScanRuntimeState::Idle;
    begin_scan(&mut state, None, 0).expect("starts");
    assert_eq!(finish_scan(&mut state, Err("disk full".to_string())), ScanOutcome::Failed("disk full".to_string()));
    assert_eq!(state, ScanRuntimeState::Idle);
}

#[test]
fn only_providers_with_warnings_or_errors_are_reported() {
    let quiet = ProviderInventory::started("apt", 0);
    let mut noisy = ProviderInventory::started("flatpak", 0);
    noisy.warnings.push(ProviderWarning::new("something odd"));
    let reported = provider_warnings(vec![quiet, noisy]);
    assert_eq!(reported.len(), 1);
    assert_eq!(reported[0].provider_id, "flatpak");
    assert_eq!(reported[0].warnings.len(), 1);
}

#[test]
fn page_request_defaults_to_the_first_page_of_fifty() {
    assert_eq!(page_request(None, None).map_err(|e| e.message), Ok((1, 50)));
    assert_eq!(page_request(Some(3), Some(500)).map_err(|e| e.message), Ok((3, 500)));
    let zero = page_request(Some(0), Some(0)).unwrap_err();
    assert_eq!((zero.kind.as_str(), zero.message.as_str()), ("invalidRequest", "page must be >= 1"));
    let big = page_request(Some(1), Some(501)).unwrap_err();
    assert_eq!(big.message, "pageSize must be between 1 and 500");
}

#[test]
fn paginate_returns_the_requested_slice() {
    let items: Vec<SoftwareItem> = (0..5)
        .map(|i| item(&format!("apt:p{i}"), &format!("P{i}"), SoftwareCategory::Library, PackageManager::Apt))
        .collect();
    let ids = |page: Vec<SoftwareItem>| page.into_iter().map(|i| i.id).collect::<Vec<_>>();
    assert_eq!(ids(paginate(&items, 1, 2)), vec!["apt:p0", "apt:p1"]);
    assert_eq!(ids(paginate(&items, 3, 2)), vec!["apt:p4"]);
    assert!(paginate(&items, 4, 2).is_empty());
}

#[test]
fn filter_items_keeps_order_and_sort_items_orders_by_the_field() {
    let items = vec![
        item("apt:b", "beta", SoftwareCategory::Library, PackageManager::Apt),
        item("flatpak:a", "Alpha", SoftwareCategory::Application, PackageManager::Flatpak),
        item("apt:c", "gamma", SoftwareCategory::Application, PackageManager::Apt),
    ];
    let request = ListSoftwareItemsRequest {
        package_managers: Some(vec![PackageManager::Apt]),
        ..Default::default()
    };
    let kept: Vec<String> = filter_items(&items, &request).into_iter().map(|i| i.id).collect();
    assert_eq!(kept, vec!["apt:b", "apt:c"]);

    let by_name: Vec<String> = sort_items(items.clone(), SortField::DisplayName, SortDirection::Ascending)
        .into_iter()
        .map(|i| i.id)
        .collect();
    assert_eq!(by_name, vec!["flatpak:a", "apt:b", "apt:c"]);
    let by_manager_desc: Vec<String> = sort_items(items, SortField::PackageManager, SortDirection::Descending)
        .into_iter()
        .map(|i| i.id)
        .collect();
    assert_eq!(by_manager_desc, vec!["flatpak:a", "apt:b", "apt:c"]);
}

#[test]
fn provider_statuses_report_each_provider_in_order() {
    let details = vec![
        (
            ProviderMetadata { id: ProviderId::new("apt"), display_name: "APT / dpkg", description: "Debian packages" },
            true,
        ),
        (
            ProviderMetadata { id: ProviderId::new("flatpak"), display_name: "Flatpak", description: "Flatpak refs" },
            false,
        ),
    ];
    let statuses = provider_statuses(&details);
    assert_eq!(statuses.len(), 2);
    assert_eq!(
        (statuses[0].id.as_str(), statuses[0].display_name.as_str(), statuses[0].available),
        ("apt", "APT / dpkg", true)
    );
    assert_eq!((statuses[1].id.as_str(), statuses[1].available), ("flatpak", false));
    assert_eq!(statuses[1].description, "Flatpak refs");
}

#[test]
fn command_errors_carry_their_kind() {
    let e = CommandError::invalid_request("bad".to_string());
    assert_eq!((e.kind.as_str(), e.message.as_str()), ("invalidRequest", "bad"));
    assert_eq!(CommandError::conflict("busy".to_string()).kind, "conflict");
    assert_eq!(CommandError::internal("oops".to_string()).kind, "internal");
}

#[test]
fn only_an_idle_status_needs_the_last_summary() {
    assert!(needs_last_summary(&ScanRuntimeState::Idle));
    assert!(!needs_last_summary(&ScanRuntimeState::Running { started_at: 0, cancel_requested: false }));
}
