use kunger::domain::{
    ClassificationConfidence, InstallationReason, InstallationScope, PackageManager, SoftwareCategory, SoftwareItem,
};
use kunger::tui::app::{App, FilterDimension, SortField, SortOrder, UpdateFilter};


fn create_test_item(name: &str, package_name: &str, description: &str) -> SoftwareItem {
    let mut item = SoftwareItem::new(name, package_name, name, PackageManager::Apt);
    item.description = Some(description.to_string());
    item.version = Some("1.0".to_string());
    item.category = SoftwareCategory::Application;
    item.classification_confidence = ClassificationConfidence::High;
    item
}

#[test]
fn test_app_initialization() {
    let items = vec![
        create_test_item("Firefox", "firefox", "Web browser"),
        create_test_item("Vim", "vim", "Text editor"),
    ];
    let app = App::new(items.clone());

    assert_eq!(app.item_count(), 2);
    assert_eq!(app.total_pages(), 1);
    assert_eq!(app.selected_index, 0);
    assert_eq!(app.all_items.len(), 2);
    assert_eq!(app.filtered_items.len(), 2);
}

#[test]
fn test_pagination_multiple_pages() {
    let mut items = vec![];
    for i in 0..50 {
        items.push(create_test_item(
            &format!("App{}", i),
            &format!("app{}", i),
            "Test application",
        ));
    }

    let app = App::new(items);
    assert_eq!(app.total_pages(), 3); // 50 items / 20 per page = 3 pages
    assert_eq!(app.visible_items().len(), 20);
}

#[test]
fn test_navigation_next() {
    let items = vec![
        create_test_item("Firefox", "firefox", "Web browser"),
        create_test_item("Vim", "vim", "Text editor"),
        create_test_item("Git", "git", "Version control"),
    ];
    let mut app = App::new(items);

    assert_eq!(app.selected_index, 0);
    app.select_next();
    assert_eq!(app.selected_index, 1);
    app.select_next();
    assert_eq!(app.selected_index, 2);
    app.select_next(); // Wraps around
    assert_eq!(app.selected_index, 0);
}

#[test]
fn test_navigation_previous() {
    let items = vec![
        create_test_item("Firefox", "firefox", "Web browser"),
        create_test_item("Vim", "vim", "Text editor"),
        create_test_item("Git", "git", "Version control"),
    ];
    let mut app = App::new(items);

    app.selected_index = 1;
    app.select_previous();
    assert_eq!(app.selected_index, 0);
    app.select_previous(); // Wraps around
    assert_eq!(app.selected_index, 2);
}

#[test]
fn test_page_navigation() {
    let mut items = vec![];
    for i in 0..50 {
        items.push(create_test_item(
            &format!("App{}", i),
            &format!("app{}", i),
            "Test application",
        ));
    }

    let mut app = App::new(items);
    assert_eq!(app.current_page, 0);

    app.page_down();
    assert_eq!(app.current_page, 1);

    app.page_down();
    assert_eq!(app.current_page, 2);

    app.page_down(); // Should not go beyond last page
    assert_eq!(app.current_page, 2);

    app.page_up();
    assert_eq!(app.current_page, 1);
}

#[test]
fn test_search_filtering() {
    let items = vec![
        create_test_item("Firefox", "firefox", "Web browser"),
        create_test_item("Thunderbird", "thunderbird", "Email client"),
        create_test_item("Vim", "vim", "Text editor"),
    ];
    let mut app = App::new(items);

    app.set_search_query("firefox".to_string());
    assert_eq!(app.item_count(), 1);
    assert_eq!(app.selected_item().unwrap().display_name, "Firefox");
}

#[test]
fn test_search_case_insensitive() {
    let items = vec![
        create_test_item("Firefox", "firefox", "Web browser"),
        create_test_item("Vim", "vim", "Text editor"),
    ];
    let mut app = App::new(items);

    app.set_search_query("FIREFOX".to_string());
    assert_eq!(app.item_count(), 1);
}

#[test]
fn test_search_package_name() {
    let items = vec![
        create_test_item("Firefox", "firefox-esr", "Web browser"),
        create_test_item("Vim", "vim", "Text editor"),
    ];
    let mut app = App::new(items);

    app.set_search_query("firefox".to_string());
    assert_eq!(app.item_count(), 1);
}

#[test]
fn test_search_description() {
    let items = vec![
        create_test_item("Firefox", "firefox", "Web browser and network tools"),
        create_test_item("Vim", "vim", "Text editor"),
    ];
    let mut app = App::new(items);

    app.set_search_query("browser".to_string());
    assert_eq!(app.item_count(), 1);
}

#[test]
fn test_reset_filters() {
    let items = vec![
        create_test_item("Firefox", "firefox", "Web browser"),
        create_test_item("Vim", "vim", "Text editor"),
    ];
    let mut app = App::new(items);

    app.set_search_query("firefox".to_string());
    assert_eq!(app.item_count(), 1);

    app.reset();
    assert_eq!(app.item_count(), 2);
    assert_eq!(app.search_query, "");
}

#[test]
fn test_selected_item_on_page() {
    let mut items = vec![];
    for i in 0..50 {
        items.push(create_test_item(
            &format!("App{}", i),
            &format!("app{}", i),
            "Test application",
        ));
    }

    let mut app = App::new(items);
    app.selected_index = 0;
    let selected = app.selected_item();
    assert!(selected.is_some());
    assert_eq!(selected.unwrap().display_name, "App0");

    app.selected_index = 25;
    app.page_down(); // Move to page 1
    let selected = app.selected_item();
    assert!(selected.is_some());
    assert_eq!(selected.unwrap().display_name, "App20");
}

#[test]
fn test_empty_items() {
    let app = App::new(vec![]);
    assert_eq!(app.item_count(), 0);
    assert_eq!(app.total_pages(), 0);
    assert!(app.selected_item().is_none());
}

// Phase 2 tests: Filtering & Search

#[test]
fn test_category_filter() {
    let mut items = vec![
        create_test_item("Firefox", "firefox", "Web browser"),
        create_test_item("Git", "git", "Version control"),
    ];
    items[0].category = SoftwareCategory::Application;
    items[1].category = SoftwareCategory::CommandLineTool;

    let mut app = App::new(items);
    app.toggle_category_filter(SoftwareCategory::Application);
    assert_eq!(app.item_count(), 1);
    assert_eq!(app.selected_item().unwrap().display_name, "Firefox");
}

#[test]
fn test_manager_filter() {
    let mut items = vec![
        create_test_item("Firefox", "firefox", "Web browser"),
        create_test_item("Slack", "slack", "Chat app"),
    ];
    items[0].package_manager = PackageManager::Apt;
    items[1].package_manager = PackageManager::Flatpak;

    let mut app = App::new(items);
    app.toggle_manager_filter(PackageManager::Apt);
    assert_eq!(app.item_count(), 1);
    assert_eq!(app.selected_item().unwrap().display_name, "Firefox");
}

#[test]
fn test_scope_filter() {
    let mut items = vec![
        create_test_item("Firefox", "firefox", "Web browser"),
        create_test_item("Git", "git", "Version control"),
    ];
    items[0].scope = InstallationScope::System;
    items[1].scope = InstallationScope::User;

    let mut app = App::new(items);
    app.toggle_scope_filter(InstallationScope::System);
    assert_eq!(app.item_count(), 1);
    assert_eq!(app.selected_item().unwrap().display_name, "Firefox");
}

#[test]
fn test_reason_filter() {
    let mut items = vec![
        create_test_item("Firefox", "firefox", "Web browser"),
        create_test_item("LibX11", "libx11", "X11 library"),
    ];
    items[0].installation_reason = InstallationReason::Manual;
    items[1].installation_reason = InstallationReason::Automatic;

    let mut app = App::new(items);
    app.toggle_reason_filter(InstallationReason::Manual);
    assert_eq!(app.item_count(), 1);
    assert_eq!(app.selected_item().unwrap().display_name, "Firefox");
}

#[test]
fn test_multiple_filters_combined() {
    let mut items = vec![
        create_test_item("Firefox", "firefox", "Web browser"),
        create_test_item("Git", "git", "Version control"),
        create_test_item("Vim", "vim", "Text editor"),
    ];
    items[0].category = SoftwareCategory::Application;
    items[0].package_manager = PackageManager::Apt;
    items[1].category = SoftwareCategory::CommandLineTool;
    items[1].package_manager = PackageManager::Apt;
    items[2].category = SoftwareCategory::CommandLineTool;
    items[2].package_manager = PackageManager::Cargo;

    let mut app = App::new(items);
    app.toggle_category_filter(SoftwareCategory::CommandLineTool);
    app.toggle_manager_filter(PackageManager::Apt);

    assert_eq!(app.item_count(), 1);
    assert_eq!(app.selected_item().unwrap().display_name, "Git");
}

#[test]
fn test_filter_toggle() {
    let items = vec![
        create_test_item("Firefox", "firefox", "Web browser"),
        create_test_item("Vim", "vim", "Text editor"),
    ];
    let mut app = App::new(items);

    app.toggle_category_filter(SoftwareCategory::Application);
    assert_eq!(app.category_filters.len(), 1);

    app.toggle_category_filter(SoftwareCategory::Application);
    assert_eq!(app.category_filters.len(), 0);
}

#[test]
fn test_clear_all_filters() {
    let mut items = vec![
        create_test_item("Firefox", "firefox", "Web browser"),
        create_test_item("Vim", "vim", "Text editor"),
    ];
    items[0].category = SoftwareCategory::Application;

    let mut app = App::new(items);
    app.set_search_query("firefox".to_string());
    app.toggle_category_filter(SoftwareCategory::Application);

    assert_eq!(app.item_count(), 1);
    app.clear_all_filters();
    assert_eq!(app.item_count(), 2);
    assert_eq!(app.search_query, "");
    assert!(app.category_filters.is_empty());
}

#[test]
fn test_sorting_by_name() {
    let items = vec![
        create_test_item("Zsh", "zsh", "Shell"),
        create_test_item("Bash", "bash", "Shell"),
        create_test_item("Fish", "fish", "Shell"),
    ];
    let mut app = App::new(items);
    app.apply_filters();

    let names: Vec<_> = app
        .filtered_items
        .iter()
        .map(|i| i.display_name.as_str())
        .collect();
    assert_eq!(names, vec!["Bash", "Fish", "Zsh"]);
}

#[test]
fn test_sorting_descending() {
    let items = vec![
        create_test_item("Bash", "bash", "Shell"),
        create_test_item("Fish", "fish", "Shell"),
        create_test_item("Zsh", "zsh", "Shell"),
    ];
    let mut app = App::new(items);
    app.sort_order = SortOrder::Descending;
    app.apply_filters();

    let names: Vec<_> = app
        .filtered_items
        .iter()
        .map(|i| i.display_name.as_str())
        .collect();
    assert_eq!(names, vec!["Zsh", "Fish", "Bash"]);
}

#[test]
fn test_sorting_by_category() {
    let mut items = vec![
        create_test_item("Vim", "vim", "Text editor"),
        create_test_item("Firefox", "firefox", "Web browser"),
        create_test_item("Git", "git", "Tool"),
    ];
    items[0].category = SoftwareCategory::CommandLineTool;
    items[1].category = SoftwareCategory::Application;
    items[2].category = SoftwareCategory::CommandLineTool;

    let mut app = App::new(items);
    app.sort_field = SortField::Category;
    app.apply_filters();

    let categories: Vec<_> = app.filtered_items.iter().map(|i| i.category).collect();
    assert_eq!(categories[0], SoftwareCategory::Application);
}

#[test]
fn test_search_and_filter_combined() {
    let mut items = vec![
        create_test_item("Firefox", "firefox", "Web browser"),
        create_test_item("Firefox-ESR", "firefox-esr", "Web browser ESR"),
        create_test_item("Chrome", "chrome", "Web browser"),
    ];
    items[0].package_manager = PackageManager::Apt;
    items[1].package_manager = PackageManager::Apt;
    items[2].package_manager = PackageManager::Flatpak;

    let mut app = App::new(items);
    app.set_search_query("firefox".to_string());
    app.toggle_manager_filter(PackageManager::Apt);

    assert_eq!(app.item_count(), 2);
    let names: Vec<_> = app
        .filtered_items
        .iter()
        .map(|i| i.display_name.as_str())
        .collect();
    assert!(names.contains(&"Firefox"));
    assert!(names.contains(&"Firefox-ESR"));
}

#[test]
fn test_add_search_char() {
    let items = vec![create_test_item("Firefox", "firefox", "Web browser")];
    let mut app = App::new(items);

    app.search_focused = true;
    app.add_search_char('f');
    assert_eq!(app.search_query, "f");
    assert_eq!(app.cursor_position, 1);

    app.add_search_char('i');
    assert_eq!(app.search_query, "fi");
    assert_eq!(app.cursor_position, 2);
}

#[test]
fn test_backspace_search() {
    let items = vec![create_test_item("Firefox", "firefox", "Web browser")];
    let mut app = App::new(items);

    app.search_query = "test".to_string();
    app.cursor_position = 4;
    app.backspace_search();

    assert_eq!(app.search_query, "tes");
    assert_eq!(app.cursor_position, 3);
}

#[test]
fn test_cycle_sort_field() {
    let items = vec![create_test_item("Firefox", "firefox", "Web browser")];
    let mut app = App::new(items);

    assert_eq!(app.sort_field, SortField::Name);
    app.cycle_sort_field();
    assert_eq!(app.sort_field, SortField::Category);
    app.cycle_sort_field();
    assert_eq!(app.sort_field, SortField::Manager);
    app.cycle_sort_field();
    assert_eq!(app.sort_field, SortField::Version);
    app.cycle_sort_field();
    assert_eq!(app.sort_field, SortField::Name);
}

#[test]
fn test_toggle_sort_order() {
    let items = vec![create_test_item("Firefox", "firefox", "Web browser")];
    let mut app = App::new(items);

    assert_eq!(app.sort_order, SortOrder::Ascending);
    app.toggle_sort_order();
    assert_eq!(app.sort_order, SortOrder::Descending);
    app.toggle_sort_order();
    assert_eq!(app.sort_order, SortOrder::Ascending);
}

// Phase 3 tests: Detail View & Scan

#[test]
fn test_detail_view_visibility() {
    let items = vec![create_test_item("Firefox", "firefox", "Web browser")];
    let mut app = App::new(items);

    assert!(!app.detail_view_visible);
    app.toggle_detail_view();
    assert!(app.detail_view_visible);
    app.toggle_detail_view();
    assert!(!app.detail_view_visible);
}

#[test]
fn test_close_detail_view() {
    let items = vec![create_test_item("Firefox", "firefox", "Web browser")];
    let mut app = App::new(items);

    app.detail_view_visible = true;
    app.close_detail_view();
    assert!(!app.detail_view_visible);
}

#[test]
fn test_selected_item_in_detail_view() {
    let items = vec![
        create_test_item("Firefox", "firefox", "Web browser"),
        create_test_item("Git", "git", "Version control"),
    ];
    let mut app = App::new(items);

    app.select_next(); // Select Git
    app.toggle_detail_view();

    assert!(app.detail_view_visible);
    assert_eq!(app.selected_item().unwrap().display_name, "Git");
}

#[test]
fn test_scan_state_transitions() {
    let items = vec![create_test_item("Firefox", "firefox", "Web browser")];
    let mut app = App::new(items);

    // Initial state
    assert!(!app.is_scanning);
    assert_eq!(app.scan_progress, 0);

    // Start scan
    app.start_scan();
    assert!(app.is_scanning);
    assert_eq!(app.scan_progress, 0);

    // Update progress
    app.update_scan_progress(50);
    assert!(app.is_scanning);
    assert_eq!(app.scan_progress, 50);

    // Finish scan
    app.finish_scan();
    assert!(!app.is_scanning);
    assert_eq!(app.scan_progress, 100);
}

#[test]
fn test_scan_progress_clamping() {
    let items = vec![create_test_item("Firefox", "firefox", "Web browser")];
    let mut app = App::new(items);

    // Progress over 100 should be clamped
    app.update_scan_progress(150);
    assert_eq!(app.scan_progress, 100);

    app.update_scan_progress(50);
    assert_eq!(app.scan_progress, 50);
}

#[test]
fn test_reset_clears_detail_and_scan_state() {
    let items = vec![create_test_item("Firefox", "firefox", "Web browser")];
    let mut app = App::new(items);

    app.toggle_detail_view();
    app.start_scan();
    app.update_scan_progress(75);

    assert!(app.detail_view_visible);
    assert!(app.is_scanning);
    assert_eq!(app.scan_progress, 75);

    app.reset();

    assert!(!app.detail_view_visible);
    assert!(!app.is_scanning);
    assert_eq!(app.scan_progress, 0);
}

#[test]
fn test_detail_view_with_filtered_items() {
    let mut items = vec![
        create_test_item("Firefox", "firefox", "Web browser"),
        create_test_item("Vim", "vim", "Text editor"),
    ];
    items[0].category = SoftwareCategory::Application;
    items[1].category = SoftwareCategory::CommandLineTool;

    let mut app = App::new(items);

    // Filter to only Applications
    app.toggle_category_filter(SoftwareCategory::Application);
    assert_eq!(app.item_count(), 1);

    // Show detail view
    app.toggle_detail_view();
    assert!(app.detail_view_visible);
    assert_eq!(app.selected_item().unwrap().display_name, "Firefox");
}

#[test]
fn test_detail_view_preserves_navigation() {
    let items = vec![
        create_test_item("Firefox", "firefox", "Web browser"),
        create_test_item("Git", "git", "Version control"),
        create_test_item("Vim", "vim", "Text editor"),
    ];
    let mut app = App::new(items);

    app.toggle_detail_view();
    assert_eq!(app.selected_item().unwrap().display_name, "Firefox");

    // Navigate while detail view is open
    app.select_next();
    assert_eq!(app.selected_item().unwrap().display_name, "Git");

    app.select_next();
    assert_eq!(app.selected_item().unwrap().display_name, "Vim");

    // Detail view should still be visible
    assert!(app.detail_view_visible);
}

#[test]
fn test_multiple_detail_view_toggles() {
    let items = vec![
        create_test_item("Firefox", "firefox", "Web browser"),
        create_test_item("Git", "git", "Version control"),
    ];
    let mut app = App::new(items);

    // Toggle multiple times and verify alternation
    assert!(!app.detail_view_visible);

    app.toggle_detail_view();
    assert!(app.detail_view_visible);

    app.toggle_detail_view();
    assert!(!app.detail_view_visible);

    app.toggle_detail_view();
    assert!(app.detail_view_visible);

    app.toggle_detail_view();
    assert!(!app.detail_view_visible);

    app.toggle_detail_view();
    assert!(app.detail_view_visible);

    // Should end up in open state (odd number of toggles from closed start)
    assert!(app.detail_view_visible);
}

#[test]
fn test_scan_progress_boundaries() {
    let items = vec![create_test_item("Firefox", "firefox", "Web browser")];
    let mut app = App::new(items);

    app.start_scan();

    // Test boundary values
    app.update_scan_progress(0);
    assert_eq!(app.scan_progress, 0);

    app.update_scan_progress(50);
    assert_eq!(app.scan_progress, 50);

    app.update_scan_progress(100);
    assert_eq!(app.scan_progress, 100);

    // Over 100 should clamp
    app.update_scan_progress(200);
    assert_eq!(app.scan_progress, 100);
}

#[test]
fn replace_items_preserves_active_filters_and_resets_selection() {
    let mut app = App::new(vec![create_test_item("Firefox", "firefox", "Web browser")]);
    app.toggle_category_filter(SoftwareCategory::Application);
    app.selected_index = 1;
    app.current_page = 1;

    let mut matching = create_test_item("Vim", "vim", "Text editor");
    matching.category = SoftwareCategory::Application;
    let mut filtered_out = create_test_item("Git", "git", "Version control");
    filtered_out.category = SoftwareCategory::CommandLineTool;
    app.replace_items(vec![matching, filtered_out]);

    assert_eq!(app.all_items.len(), 2);
    assert_eq!(app.item_count(), 1);
    assert_eq!(app.selected_index, 0);
    assert_eq!(app.current_page, 0);
    assert_eq!(app.selected_item().unwrap().display_name, "Vim");
}

#[test]
fn scan_messages_cover_completion_and_failure() {
    let mut app = App::new(vec![]);
    app.start_scan();
    assert_eq!(app.scan_message.as_deref(), Some("Scanning inventory..."));

    app.complete_scan("Scan complete: 0 items found.");
    assert!(!app.is_scanning);
    assert_eq!(
        app.scan_message.as_deref(),
        Some("Scan complete: 0 items found.")
    );

    app.fail_scan("Scan cancelled.");
    assert!(!app.is_scanning);
    assert_eq!(app.scan_message.as_deref(), Some("Scan cancelled."));
}

#[test]
fn test_confidence_filter() {
    let mut item1 = create_test_item("Firefox", "firefox", "Web browser");
    item1.classification_confidence = ClassificationConfidence::High;
    let mut item2 = create_test_item("Vim", "vim", "Text editor");
    item2.classification_confidence = ClassificationConfidence::Low;

    let mut app = App::new(vec![item1, item2]);
    assert_eq!(app.item_count(), 2);

    app.toggle_confidence_filter(ClassificationConfidence::High);
    assert_eq!(app.item_count(), 1);
    assert_eq!(
        app.filtered_items[0].classification_confidence,
        ClassificationConfidence::High
    );

    app.toggle_confidence_filter(ClassificationConfidence::Low);
    assert_eq!(app.item_count(), 2);

    app.toggle_confidence_filter(ClassificationConfidence::High);
    assert_eq!(app.item_count(), 1);
    assert_eq!(
        app.filtered_items[0].classification_confidence,
        ClassificationConfidence::Low
    );
}

#[test]
fn test_update_filter_cycle() {
    let mut item1 = create_test_item("Firefox", "firefox", "Web browser");
    item1.update_available = true;
    let mut item2 = create_test_item("Vim", "vim", "Text editor");
    item2.update_available = false;

    let mut app = App::new(vec![item1, item2]);
    assert_eq!(app.item_count(), 2);
    assert_eq!(app.update_filter, UpdateFilter::Any);

    app.cycle_update_filter();
    assert_eq!(app.update_filter, UpdateFilter::Available);
    assert_eq!(app.item_count(), 1);
    assert!(app.filtered_items[0].update_available);

    app.cycle_update_filter();
    assert_eq!(app.update_filter, UpdateFilter::NotAvailable);
    assert_eq!(app.item_count(), 1);
    assert!(!app.filtered_items[0].update_available);

    app.cycle_update_filter();
    assert_eq!(app.update_filter, UpdateFilter::Any);
    assert_eq!(app.item_count(), 2);
}

#[test]
fn test_filter_panel_navigation() {
    let _app = App::new(vec![]);

    // Test dimension navigation
    let mut dimension = FilterDimension::Category;
    for _ in 0..6 {
        dimension = dimension.next();
    }
    assert_eq!(dimension, FilterDimension::Category);

    dimension = FilterDimension::Category;
    for _ in 0..6 {
        dimension = dimension.prev();
    }
    assert_eq!(dimension, FilterDimension::Category);

    // Test cursor wrapping for different dimensions
    let mut app = App::new(vec![create_test_item("Test", "test", "Test")]);
    app.filter_dimension = FilterDimension::UpdateAvailable;
    app.filter_cursor = 2;
    app.filter_cursor_next();
    assert_eq!(app.filter_cursor, 0);

    app.filter_cursor = 0;
    app.filter_cursor_prev();
    assert_eq!(app.filter_cursor, 2);
}

#[test]
fn test_toggle_current_filter_value_dispatches_by_dimension() {
    let mut item1 = create_test_item("Firefox", "firefox", "Web browser");
    item1.category = SoftwareCategory::Application;
    let mut item2 = create_test_item("Vim", "vim", "Text editor");
    item2.category = SoftwareCategory::CommandLineTool;

    let mut app = App::new(vec![item1, item2]);
    app.filter_dimension = FilterDimension::Category;
    app.filter_cursor = 0;

    app.toggle_current_filter_value();
    assert_eq!(app.category_filters.len(), 1);
    assert!(app
        .category_filters
        .contains(&SoftwareCategory::Application));
}

#[test]
fn test_filter_panel_visibility() {
    let mut app = App::new(vec![]);
    assert!(!app.filter_panel_visible);

    app.open_filter_panel();
    assert!(app.filter_panel_visible);

    app.close_filter_panel();
    assert!(!app.filter_panel_visible);
}

#[test]
fn test_clear_all_filters_with_confidence_and_update() {
    let mut item = create_test_item("Firefox", "firefox", "Web browser");
    item.classification_confidence = ClassificationConfidence::High;
    item.update_available = true;

    let mut app = App::new(vec![item]);
    app.toggle_confidence_filter(ClassificationConfidence::High);
    app.cycle_update_filter();

    assert_eq!(app.confidence_filters.len(), 1);
    assert_ne!(app.update_filter, UpdateFilter::Any);

    app.clear_all_filters();
    assert_eq!(app.confidence_filters.len(), 0);
    assert_eq!(app.update_filter, UpdateFilter::Any);
    assert_eq!(app.item_count(), 1);
}

#[test]
fn sort_by_field_is_stable_and_reversed_items_flips_the_order() {
    let mut a = create_test_item("b-tool", "b", "x");
    a.category = SoftwareCategory::Library;
    let b = create_test_item("a-tool", "a", "x");
    let c = create_test_item("c-tool", "c", "x");
    let items = vec![a, b, c];
    let by_category: Vec<String> = kunger::tui::app::sort_by_field(&items, SortField::Category)
        .into_iter()
        .map(|i| i.id)
        .collect();
    assert_eq!(by_category, vec!["a-tool", "c-tool", "b-tool"]);
    let reversed: Vec<String> = kunger::tui::app::reversed_items(&items).into_iter().map(|i| i.id).collect();
    assert_eq!(reversed, vec!["c-tool", "a-tool", "b-tool"]);
    assert_eq!(kunger::tui::app::clone_items(&items), items);
}

#[test]
fn filter_dimensions_and_update_filters_name_themselves() {
    assert_eq!(FilterDimension::Category.label(), "Category");
    assert_eq!(FilterDimension::UpdateAvailable.label(), "Updates");
    assert_eq!(FilterDimension::Scope.value_count(), 3);
    assert_eq!(FilterDimension::UpdateAvailable.value_count(), 3);
    assert_eq!(UpdateFilter::Any.cycle(), UpdateFilter::Available);
    assert_eq!(UpdateFilter::NotAvailable.cycle(), UpdateFilter::Any);
    assert_eq!(UpdateFilter::NotAvailable.label(), "Not Available");
}

#[test]
fn filter_dimension_prev_wraps_and_resets_the_cursor() {
    let mut app = App::new(vec![]);
    app.open_filter_panel();
    app.filter_cursor_next();
    app.filter_dimension_prev();
    assert_eq!(app.filter_dimension, FilterDimension::UpdateAvailable);
    assert_eq!(app.filter_cursor, 0);
}

#[test]
fn set_scan_message_changes_only_the_message() {
    let mut app = App::new(vec![create_test_item("x", "x", "x")]);
    app.set_scan_message("Cancelling scan...");
    assert_eq!(app.scan_message.as_deref(), Some("Cancelling scan..."));
    assert_eq!(app.filtered_items.len(), 1);
}

#[test]
fn toggling_a_filter_twice_restores_the_listing() {
    let mut app = App::new(vec![create_test_item("a", "a", "x"), create_test_item("b", "b", "y")]);
    let before: Vec<String> = app.filtered_items.iter().map(|i| i.id.clone()).collect();
    app.toggle_category_filter(SoftwareCategory::Font);
    assert!(app.filtered_items.is_empty());
    app.toggle_category_filter(SoftwareCategory::Font);
    let after: Vec<String> = app.filtered_items.iter().map(|i| i.id.clone()).collect();
    assert_eq!(after, before);
    assert!(app.category_filters.is_empty());
}
