use kunger::domain::{InstallationReason, InstallationScope, PackageManager, SoftwareCategory, SoftwareItem};
use kunger::tui::app::{App, FilterDimension, UpdateFilter};
use kunger::tui::views::{
    active_filters_text, dimension_items, empty_table_message, format_item_details, is_selected_row, search_display,
    status_text, table_cells,
};

fn item(id: &str, name: &str) -> SoftwareItem {
    SoftwareItem::new(id, id, name, PackageManager::Apt)
}

#[test]
fn active_filters_text_lists_each_non_empty_group() {
    assert_eq!(active_filters_text(&vec![], &vec![], &vec![], &vec![]), "No filters active");
    assert_eq!(
        active_filters_text(
            &vec![SoftwareCategory::Font, SoftwareCategory::Library],
            &vec![],
            &vec![InstallationScope::User],
            &vec![InstallationReason::Manual],
        ),
        "Categories: Font, Library | Scopes: User | Reasons: Manual"
    );
}

#[test]
fn dimension_items_check_the_active_values() {
    let mut app = App::new(vec![]);
    app.toggle_scope_filter(InstallationScope::User);
    app.filter_dimension = FilterDimension::Scope;
    assert_eq!(dimension_items(&app), vec!["[ ] System", "[x] User", "[ ] Unknown"]);
    app.filter_dimension = FilterDimension::UpdateAvailable;
    app.update_filter = UpdateFilter::Available;
    assert_eq!(dimension_items(&app), vec!["( ) Any", "(•) Available", "( ) Not Available"]);
}

#[test]
fn item_details_start_with_the_identity_lines() {
    let mut it = item("apt:git", "Git");
    it.version = Some("2.43".to_string());
    let details = format_item_details(&it);
    assert!(details.starts_with("Display Name: Git\nPackage Name: apt:git\nID: apt:git\nVersion: 2.43\n\n"));
    assert!(details.contains("Package Manager: Apt\n"));
}

#[test]
fn status_text_shows_the_page_and_selection() {
    let app = App::new(vec![item("apt:a", "A"), item("apt:b", "B")]);
    assert_eq!(
        status_text(&app),
        "Page 1/1 | 2 items | Selection: 1/2 | Tab: Search | ↑↓: Nav | Enter: Detail | f: Filters | F5: Scan | q: Quit"
    );
    let empty = App::new(vec![]);
    assert!(status_text(&empty).starts_with("No items to display | "));
    let mut scanning = App::new(vec![]);
    scanning.start_scan();
    assert_eq!(status_text(&scanning), "Scanning inventory... Esc: Cancel | q: Quit");
}

#[test]
fn table_rows_show_name_category_manager_and_version() {
    let mut it = item("apt:git", "Git");
    assert_eq!(table_cells(&it), vec!["Git", "Unclassified", "Apt", "—"]);
    it.version = Some("2.43".to_string());
    it.category = SoftwareCategory::CommandLineTool;
    assert_eq!(table_cells(&it), vec!["Git", "CommandLineTool", "Apt", "2.43"]);
}

#[test]
fn only_the_selected_row_is_highlighted() {
    let mut app = App::new(vec![item("apt:a", "A"), item("apt:b", "B")]);
    assert!(is_selected_row(&app, 0));
    app.select_next();
    assert!(!is_selected_row(&app, 0));
    assert!(is_selected_row(&app, 1));
}

#[test]
fn empty_table_and_search_texts() {
    assert_eq!(empty_table_message(&App::new(vec![])), "No inventory available yet. Press F5 to scan.");
    let mut app = App::new(vec![item("apt:a", "A")]);
    app.set_search_query("zzz".to_string());
    assert_eq!(empty_table_message(&app), "No items match the current search or filters.");
    assert_eq!(search_display(""), "Type to search...");
    assert_eq!(search_display("fire"), "fire");
}
