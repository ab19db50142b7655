use kunger::domain::{PackageManager, SoftwareCategory, SoftwareItem};
use kunger::tui::app::App;
use kunger::tui::input::{Action, Event, InputHandler, KeyCode, KeyEffect, KeyEvent};


fn key(code: KeyCode, control: bool) -> Event {
    Event::Key(KeyEvent::new(code, control))
}

#[test]
fn f5_requests_a_scan_when_idle() {
    let mut app = App::new(vec![]);

    assert_eq!(
        InputHandler::handle_event(&mut app, key(KeyCode::F(5), false)),
        Action::StartScan
    );
    assert!(
        !app.is_scanning,
        "the CLI starts the worker after handling the action"
    );
}

#[test]
fn escape_cancels_an_active_scan() {
    let mut app = App::new(vec![]);
    app.start_scan();

    assert_eq!(
        InputHandler::handle_event(&mut app, key(KeyCode::Esc, false)),
        Action::CancelScan
    );
}

#[test]
fn control_c_quits_without_clearing_filters() {
    let mut app = App::new(vec![]);

    assert_eq!(
        InputHandler::handle_event(&mut app, key(KeyCode::Char('c'), true),),
        Action::Quit
    );
}

#[test]
fn f_opens_filter_panel() {
    let mut app = App::new(vec![]);
    assert!(!app.filter_panel_visible);

    InputHandler::handle_event(&mut app, key(KeyCode::Char('f'), false));
    assert!(app.filter_panel_visible);
}

#[test]
fn escape_closes_filter_panel() {
    let mut app = App::new(vec![]);
    app.open_filter_panel();
    assert!(app.filter_panel_visible);

    InputHandler::handle_event(&mut app, key(KeyCode::Esc, false));
    assert!(!app.filter_panel_visible);
}

#[test]
fn left_right_switch_filter_dimension() {
    let mut app = App::new(vec![]);
    app.open_filter_panel();

    let initial_dimension = app.filter_dimension;
    InputHandler::handle_event(&mut app, key(KeyCode::Right, false));
    assert_ne!(app.filter_dimension, initial_dimension);
    assert_eq!(app.filter_cursor, 0);

    InputHandler::handle_event(&mut app, key(KeyCode::Left, false));
    assert_eq!(app.filter_dimension, initial_dimension);
    assert_eq!(app.filter_cursor, 0);
}

#[test]
fn space_toggles_highlighted_value() {
    let mut item = SoftwareItem::new("Test", "test", "Test", PackageManager::Unknown);
    item.category = SoftwareCategory::Application;
    let mut app = App::new(vec![item]);
    app.open_filter_panel();

    assert_eq!(app.category_filters.len(), 0);
    InputHandler::handle_event(&mut app, key(KeyCode::Char(' '), false));
    assert_eq!(app.category_filters.len(), 1);
}

#[test]
fn response_names_the_action_and_effect_of_a_key() {
    let app = App::new(vec![]);
    assert_eq!(
        InputHandler::response(&app, KeyEvent::new(KeyCode::F(5), false)),
        (Action::StartScan, KeyEffect::Nothing)
    );
    assert_eq!(
        InputHandler::response(&app, KeyEvent::new(KeyCode::Down, false)),
        (Action::NoOp, KeyEffect::SelectNext)
    );
    assert_eq!(
        InputHandler::response(&app, KeyEvent::new(KeyCode::Char('q'), false)),
        (Action::Quit, KeyEffect::Nothing)
    );
}

#[test]
fn accepts_every_key_in_a_fresh_browser() {
    let app = App::new(vec![]);
    for code in [KeyCode::Down, KeyCode::Up, KeyCode::PageDown, KeyCode::PageUp, KeyCode::Tab, KeyCode::Enter] {
        assert!(InputHandler::accepts(&app, key(code, false)));
    }
    assert!(InputHandler::accepts(&app, Event::Other));
}

#[test]
fn accepts_refuses_a_backspace_inside_a_multibyte_char() {
    let mut app = App::new(vec![]);
    app.search_focused = true;
    app.search_query = "é".to_string();
    app.cursor_position = 2;
    // The byte before the cursor is the second byte of `é`.
    assert!(!InputHandler::accepts(&app, key(KeyCode::Backspace, false)));
    app.cursor_position = 1;
    assert!(!InputHandler::accepts(&app, key(KeyCode::Char('x'), false)));
    app.cursor_position = 0;
    assert!(InputHandler::accepts(&app, key(KeyCode::Backspace, false)));
    assert!(InputHandler::accepts(&app, key(KeyCode::Char('x'), false)));
}

#[test]
fn accepts_refuses_paging_with_an_empty_page_size() {
    let mut app = App::new(vec![]);
    app.page_size = 0;
    assert!(!InputHandler::accepts(&app, key(KeyCode::PageDown, false)));
    assert!(InputHandler::accepts(&app, key(KeyCode::Char('f'), false)));
}

#[test]
fn byte_len_fits_for_ordinary_text() {
    let chars: Vec<char> = "héllo".chars().collect();
    assert!(kunger::text::byte_len_fits(&chars));
    assert!(kunger::text::byte_len_fits(&Vec::new()));
}

#[test]
fn q_and_c_typed_into_the_search_box_are_text() {
    let mut app = App::new(vec![]);
    app.search_focused = true;
    assert_eq!(InputHandler::handle_event(&mut app, key(KeyCode::Char('q'), false)), Action::NoOp);
    assert_eq!(InputHandler::handle_event(&mut app, key(KeyCode::Char('c'), false)), Action::NoOp);
    assert_eq!(app.search_query, "qc");
    assert_eq!(app.cursor_position, 2);
}

#[test]
fn keys_other_than_escape_and_q_are_ignored_while_scanning() {
    let mut app = App::new(vec![]);
    app.start_scan();
    let before = app.clone();
    assert_eq!(InputHandler::handle_event(&mut app, key(KeyCode::F(5), false)), Action::NoOp);
    assert_eq!(InputHandler::handle_event(&mut app, key(KeyCode::Down, false)), Action::NoOp);
    assert_eq!(app.search_query, before.search_query);
    assert_eq!(app.selected_index, before.selected_index);
    assert!(app.is_scanning);
}
