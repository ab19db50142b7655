//! Key handling for the terminal browser: what each key does to the
//! [`App`] and which action it asks of the program around it.
use vstd::prelude::*;

use crate::text::{byte_len, byte_len_exec, char_index_at_byte};
use crate::tui::app::{toggled, App, FilterDimension, SortOrder, UpdateFilter};
use crate::domain::{
    ClassificationConfidence, InstallationReason, InstallationScope, PackageManager,
    SoftwareCategory,
};

verus! {

/// A key, as far as the browser tells keys apart.
#[derive(Debug, Clone, Copy, PartialEq, Eq, Structural)]
pub enum KeyCode {
    Char(char),
    Esc,
    Enter,
    Backspace,
    Left,
    Right,
    Up,
    Down,
    Home,
    End,
    PageUp,
    PageDown,
    Tab,
    F(u8),
    Other,
}

/// A key press; `control` tells whether Control was held.
#[derive(Debug, Clone, Copy, PartialEq, Eq, Structural)]
pub struct KeyEvent {
    pub code: KeyCode,
    pub control: bool,
}

impl KeyEvent {
    pub fn new(code: KeyCode, control: bool) -> (k: Self)
        ensures
            k.code == code,
            k.control == control,
    {
        KeyEvent { code, control }
    }
}

/// A terminal event: a key press or anything else.
#[derive(Debug, Clone, Copy, PartialEq, Eq, Structural)]
pub enum Event {
    Key(KeyEvent),
    Other,
}

pub struct InputHandler;

/// What the program around the browser is asked to do after a key.
#[derive(Debug, Clone, Copy, PartialEq, Eq, Structural)]
pub enum Action {
    SelectNext,
    SelectPrevious,
    PageDown,
    PageUp,
    StartScan,
    CancelScan,
    Quit,
    NoOp,
}

/// What a key does to the browser's state.
#[derive(Debug, Clone, Copy, PartialEq, Eq, Structural)]
pub enum KeyEffect {
    Nothing,
    CloseFilterPanel,
    FilterDimensionPrev,
    FilterDimensionNext,
    FilterCursorPrev,
    FilterCursorNext,
    ToggleFilterValue,
    ClearFilters,
    CloseDetail,
    SelectPrevious,
    SelectNext,
    PageUp,
    PageDown,
    FocusSearch,
    ToggleDetail,
    OpenFilterPanel,
    ToggleSortOrder,
    BlurSearch,
    Backspace,
    CursorLeft,
    CursorRight,
    CursorHome,
    CursorEnd,
    InsertChar(char),
}

/// The action a key asks for and its effect on `app`: Control-C quits;
/// while scanning only Esc and `q` count; the open filter panel takes the
/// keys next; then F5 starts a scan; then the focused search box, the open
/// detail view and the list, in that order.
pub open spec fn key_response(app: App, key: KeyEvent) -> (Action, KeyEffect) {
    if key.code == KeyCode::Char('c') && key.control {
        (Action::Quit, KeyEffect::Nothing)
    } else if app.is_scanning {
        match key.code {
            KeyCode::Esc => (Action::CancelScan, KeyEffect::Nothing),
            KeyCode::Char('q') => (Action::Quit, KeyEffect::Nothing),
            _ => (Action::NoOp, KeyEffect::Nothing),
        }
    } else if app.filter_panel_visible {
        (
            Action::NoOp,
            match key.code {
                KeyCode::Esc => KeyEffect::CloseFilterPanel,
                KeyCode::Left => KeyEffect::FilterDimensionPrev,
                KeyCode::Right => KeyEffect::FilterDimensionNext,
                KeyCode::Up => KeyEffect::FilterCursorPrev,
                KeyCode::Down => KeyEffect::FilterCursorNext,
                KeyCode::Char(' ') => KeyEffect::ToggleFilterValue,
                KeyCode::Enter => KeyEffect::ToggleFilterValue,
                KeyCode::Char('c') => KeyEffect::ClearFilters,
                _ => KeyEffect::Nothing,
            },
        )
    } else if key.code == KeyCode::F(5) {
        (Action::StartScan, KeyEffect::Nothing)
    } else if app.search_focused {
        (
            Action::NoOp,
            match key.code {
                KeyCode::Esc => KeyEffect::BlurSearch,
                KeyCode::Enter => KeyEffect::BlurSearch,
                KeyCode::Backspace => KeyEffect::Backspace,
                KeyCode::Left => KeyEffect::CursorLeft,
                KeyCode::Right => KeyEffect::CursorRight,
                KeyCode::Home => KeyEffect::CursorHome,
                KeyCode::End => KeyEffect::CursorEnd,
                KeyCode::Char(c) => KeyEffect::InsertChar(c),
                _ => KeyEffect::Nothing,
            },
        )
    } else if app.detail_view_visible {
        (
            Action::NoOp,
            match key.code {
                KeyCode::Esc => KeyEffect::CloseDetail,
                _ => KeyEffect::Nothing,
            },
        )
    } else {
        match key.code {
            KeyCode::Char('q') => (Action::Quit, KeyEffect::Nothing),
            KeyCode::Esc => (Action::Quit, KeyEffect::Nothing),
            KeyCode::Up => (Action::NoOp, KeyEffect::SelectPrevious),
            KeyCode::Down => (Action::NoOp, KeyEffect::SelectNext),
            KeyCode::PageUp => (Action::NoOp, KeyEffect::PageUp),
            KeyCode::PageDown => (Action::NoOp, KeyEffect::PageDown),
            KeyCode::Tab => (Action::NoOp, KeyEffect::FocusSearch),
            KeyCode::Enter => (Action::NoOp, KeyEffect::ToggleDetail),
            KeyCode::Char('f') => (Action::NoOp, KeyEffect::OpenFilterPanel),
            KeyCode::Char('c') => (Action::NoOp, KeyEffect::ClearFilters),
            KeyCode::Char('s') => (Action::NoOp, KeyEffect::ToggleSortOrder),
            _ => (Action::NoOp, KeyEffect::Nothing),
        }
    }
}

/// The states in which an effect can run: outside them the underlying
/// operation would overflow, divide by zero or cut a char in two.
pub open spec fn effect_allowed(a: App, e: KeyEffect) -> bool {
    match e {
        KeyEffect::SelectNext => a.filtered_items@.len() > 0 ==> a.page_size > 0 && a.selected_index
            < usize::MAX,
        KeyEffect::SelectPrevious => a.filtered_items@.len() > 0 ==> a.page_size > 0,
        KeyEffect::PageDown => a.page_size > 0 && a.filtered_items@.len() + a.page_size - 1
            <= usize::MAX,
        KeyEffect::PageUp => a.current_page > 0 ==> (a.current_page - 1) * a.page_size
            <= usize::MAX,
        KeyEffect::FilterCursorNext => a.filter_cursor < usize::MAX,
        KeyEffect::Backspace => a.cursor_position > 0 ==> (char_index_at_byte(
            a.search_query@,
            a.cursor_position - 1,
        ) matches Some(k) && k < a.search_query@.len()),
        KeyEffect::CursorRight => byte_len(a.search_query@) <= usize::MAX,
        KeyEffect::CursorEnd => byte_len(a.search_query@) <= usize::MAX,
        KeyEffect::InsertChar(_) => char_index_at_byte(a.search_query@, a.cursor_position as int)
            is Some && a.cursor_position < usize::MAX,
        _ => true,
    }
}

/// `b` is `a` with `filtered_items` recomputed for `a`'s settings.
pub open spec fn refiltered(a: App, b: App) -> bool {
    &&& b.is_consistent()
    &&& b == (App { filtered_items: b.filtered_items, ..a })
}

/// `b` is `a` after the effect `e`.
pub open spec fn effect_done(a: App, b: App, e: KeyEffect) -> bool {
    match e {
        KeyEffect::Nothing => b == a,
        KeyEffect::CloseFilterPanel => b == (App { filter_panel_visible: false, ..a }),
        KeyEffect::FilterDimensionPrev => b == (App {
            filter_dimension: a.filter_dimension.spec_prev(),
            filter_cursor: 0,
            ..a
        }),
        KeyEffect::FilterDimensionNext => b == (App {
            filter_dimension: a.filter_dimension.spec_next(),
            filter_cursor: 0,
            ..a
        }),
        KeyEffect::FilterCursorPrev => b == (App {
            filter_cursor: if a.filter_cursor == 0 {
                (a.filter_dimension.spec_value_count() - 1) as usize
            } else {
                (a.filter_cursor - 1) as usize
            },
            ..a
        }),
        KeyEffect::FilterCursorNext => b == (App {
            filter_cursor: ((a.filter_cursor + 1) % (a.filter_dimension.spec_value_count() as int)) as usize,
            ..a
        }),
        KeyEffect::ToggleFilterValue => filter_value_toggled(a, b),
        KeyEffect::ClearFilters => {
            &&& b.category_filters@.len() == 0
            &&& b.manager_filters@.len() == 0
            &&& b.scope_filters@.len() == 0
            &&& b.reason_filters@.len() == 0
            &&& b.confidence_filters@.len() == 0
            &&& b.search_query@.len() == 0
            &&& refiltered(
                App {
                    category_filters: b.category_filters,
                    manager_filters: b.manager_filters,
                    scope_filters: b.scope_filters,
                    reason_filters: b.reason_filters,
                    confidence_filters: b.confidence_filters,
                    update_filter: UpdateFilter::Any,
                    search_query: b.search_query,
                    cursor_position: 0,
                    selected_index: 0,
                    current_page: 0,
                    ..a
                },
                b,
            )
        },
        KeyEffect::CloseDetail => b == (App { detail_view_visible: false, ..a }),
        KeyEffect::SelectPrevious => {
            &&& a.filtered_items@.len() == 0 ==> b == a
            &&& a.filtered_items@.len() > 0 ==> {
                let sel = if a.selected_index == 0 {
                    (a.filtered_items@.len() - 1) as usize
                } else {
                    (a.selected_index - 1) as usize
                };
                b == (App {
                    selected_index: sel,
                    current_page: (sel / a.page_size) as usize,
                    scroll_offset: (sel % a.page_size) as usize,
                    ..a
                })
            }
        },
        KeyEffect::SelectNext => {
            &&& a.filtered_items@.len() == 0 ==> b == a
            &&& a.filtered_items@.len() > 0 ==> {
                let sel = ((a.selected_index + 1) % (a.filtered_items@.len() as int)) as usize;
                b == (App {
                    selected_index: sel,
                    current_page: (sel / a.page_size) as usize,
                    scroll_offset: (sel % a.page_size) as usize,
                    ..a
                })
            }
        },
        KeyEffect::PageUp => {
            &&& a.current_page > 0 ==> b == (App {
                current_page: (a.current_page - 1) as usize,
                selected_index: ((a.current_page - 1) * a.page_size) as usize,
                ..a
            })
            &&& a.current_page == 0 ==> b == a
        },
        KeyEffect::PageDown => {
            &&& a.current_page + 1 < a.spec_total_pages() ==> b == (App {
                current_page: (a.current_page + 1) as usize,
                selected_index: ((a.current_page + 1) * a.page_size) as usize,
                ..a
            })
            &&& a.current_page + 1 >= a.spec_total_pages() ==> b == a
        },
        KeyEffect::FocusSearch => b == (App { search_focused: true, ..a }),
        KeyEffect::ToggleDetail => b == (App { detail_view_visible: !a.detail_view_visible, ..a }),
        KeyEffect::OpenFilterPanel => b == (App { filter_panel_visible: true, ..a }),
        KeyEffect::ToggleSortOrder => refiltered(
            App {
                sort_order: match a.sort_order {
                    SortOrder::Ascending => SortOrder::Descending,
                    SortOrder::Descending => SortOrder::Ascending,
                },
                ..a
            },
            b,
        ),
        KeyEffect::BlurSearch => b == (App { search_focused: false, ..a }),
        KeyEffect::Backspace => {
            &&& a.cursor_position == 0 ==> b == a
            &&& a.cursor_position > 0 ==> {
                &&& b.search_query@ == a.search_query@.remove(
                    char_index_at_byte(a.search_query@, a.cursor_position - 1)->0,
                )
                &&& refiltered(
                    App {
                        search_query: b.search_query,
                        cursor_position: (a.cursor_position - 1) as usize,
                        selected_index: 0,
                        current_page: 0,
                        ..a
                    },
                    b,
                )
            }
        },
        KeyEffect::CursorLeft => b == (App {
            cursor_position: if a.cursor_position > 0 {
                (a.cursor_position - 1) as usize
            } else {
                0
            },
            ..a
        }),
        KeyEffect::CursorRight => b == (App {
            cursor_position: if a.cursor_position < byte_len(a.search_query@) {
                (a.cursor_position + 1) as usize
            } else {
                a.cursor_position
            },
            ..a
        }),
        KeyEffect::CursorHome => b == (App { cursor_position: 0, ..a }),
        KeyEffect::CursorEnd => b == (App {
            cursor_position: byte_len(a.search_query@) as usize,
            ..a
        }),
        KeyEffect::InsertChar(c) => {
            &&& b.search_query@ == a.search_query@.insert(
                char_index_at_byte(a.search_query@, a.cursor_position as int)->0,
                c,
            )
            &&& refiltered(
                App {
                    search_query: b.search_query,
                    cursor_position: (a.cursor_position + 1) as usize,
                    selected_index: 0,
                    current_page: 0,
                    ..a
                },
                b,
            )
        },
    }
}

/// `b` is `a` with the highlighted value of the current filter tab toggled.
pub open spec fn filter_value_toggled(a: App, b: App) -> bool {
    match a.filter_dimension {
        FilterDimension::UpdateAvailable => refiltered(
            App {
                update_filter: a.update_filter.spec_cycle(),
                selected_index: 0,
                current_page: 0,
                ..a
            },
            b,
        ),
        FilterDimension::Category => if a.filter_cursor < SoftwareCategory::spec_all().len() {
            b.category_filters@ == toggled(
                a.category_filters@,
                SoftwareCategory::spec_all()[a.filter_cursor as int],
            ) && refiltered(
                App {
                    category_filters: b.category_filters,
                    selected_index: 0,
                    current_page: 0,
                    ..a
                },
                b,
            )
        } else {
            b == a
        },
        FilterDimension::Manager => if a.filter_cursor < PackageManager::spec_all().len() {
            b.manager_filters@ == toggled(
                a.manager_filters@,
                PackageManager::spec_all()[a.filter_cursor as int],
            ) && refiltered(
                App { manager_filters: b.manager_filters, selected_index: 0, current_page: 0, ..a },
                b,
            )
        } else {
            b == a
        },
        FilterDimension::Scope => if a.filter_cursor < InstallationScope::spec_all().len() {
            b.scope_filters@ == toggled(
                a.scope_filters@,
                InstallationScope::spec_all()[a.filter_cursor as int],
            ) && refiltered(
                App { scope_filters: b.scope_filters, selected_index: 0, current_page: 0, ..a },
                b,
            )
        } else {
            b == a
        },
        FilterDimension::Reason => if a.filter_cursor < InstallationReason::spec_all().len() {
            b.reason_filters@ == toggled(
                a.reason_filters@,
                InstallationReason::spec_all()[a.filter_cursor as int],
            ) && refiltered(
                App { reason_filters: b.reason_filters, selected_index: 0, current_page: 0, ..a },
                b,
            )
        } else {
            b == a
        },
        FilterDimension::Confidence => if a.filter_cursor
            < ClassificationConfidence::spec_all().len() {
            b.confidence_filters@ == toggled(
                a.confidence_filters@,
                ClassificationConfidence::spec_all()[a.filter_cursor as int],
            ) && refiltered(
                App {
                    confidence_filters: b.confidence_filters,
                    selected_index: 0,
                    current_page: 0,
                    ..a
                },
                b,
            )
        } else {
            b == a
        },
    }
}

impl InputHandler {
    /// The action `key` asks for in `app`'s state and what it does there.
    pub fn response(app: &App, key: KeyEvent) -> (r: (Action, KeyEffect))
        ensures
            r == key_response(*app, key),
    {
        if key.code == KeyCode::Char('c') && key.control {
            (Action::Quit, KeyEffect::Nothing)
        } else if app.is_scanning {
            match key.code {
                KeyCode::Esc => (Action::CancelScan, KeyEffect::Nothing),
                KeyCode::Char('q') => (Action::Quit, KeyEffect::Nothing),
                _ => (Action::NoOp, KeyEffect::Nothing),
            }
        } else if app.filter_panel_visible {
            let e = match key.code {
                KeyCode::Esc => KeyEffect::CloseFilterPanel,
                KeyCode::Left => KeyEffect::FilterDimensionPrev,
                KeyCode::Right => KeyEffect::FilterDimensionNext,
                KeyCode::Up => KeyEffect::FilterCursorPrev,
                KeyCode::Down => KeyEffect::FilterCursorNext,
                KeyCode::Char(' ') => KeyEffect::ToggleFilterValue,
                KeyCode::Enter => KeyEffect::ToggleFilterValue,
                KeyCode::Char('c') => KeyEffect::ClearFilters,
                _ => KeyEffect::Nothing,
            };
            (Action::NoOp, e)
        } else if key.code == KeyCode::F(5) {
            (Action::StartScan, KeyEffect::Nothing)
        } else if app.search_focused {
            let e = match key.code {
                KeyCode::Esc => KeyEffect::BlurSearch,
                KeyCode::Enter => KeyEffect::BlurSearch,
                KeyCode::Backspace => KeyEffect::Backspace,
                KeyCode::Left => KeyEffect::CursorLeft,
                KeyCode::Right => KeyEffect::CursorRight,
                KeyCode::Home => KeyEffect::CursorHome,
                KeyCode::End => KeyEffect::CursorEnd,
                KeyCode::Char(c) => KeyEffect::InsertChar(c),
                _ => KeyEffect::Nothing,
            };
            (Action::NoOp, e)
        } else if app.detail_view_visible {
            match key.code {
                KeyCode::Esc => (Action::NoOp, KeyEffect::CloseDetail),
                _ => (Action::NoOp, KeyEffect::Nothing),
            }
        } else {
            match key.code {
                KeyCode::Char('q') => (Action::Quit, KeyEffect::Nothing),
                KeyCode::Esc => (Action::Quit, KeyEffect::Nothing),
                KeyCode::Up => (Action::NoOp, KeyEffect::SelectPrevious),
                KeyCode::Down => (Action::NoOp, KeyEffect::SelectNext),
                KeyCode::PageUp => (Action::NoOp, KeyEffect::PageUp),
                KeyCode::PageDown => (Action::NoOp, KeyEffect::PageDown),
                KeyCode::Tab => (Action::NoOp, KeyEffect::FocusSearch),
                KeyCode::Enter => (Action::NoOp, KeyEffect::ToggleDetail),
                KeyCode::Char('f') => (Action::NoOp, KeyEffect::OpenFilterPanel),
                KeyCode::Char('c') => (Action::NoOp, KeyEffect::ClearFilters),
                KeyCode::Char('s') => (Action::NoOp, KeyEffect::ToggleSortOrder),
                _ => (Action::NoOp, KeyEffect::Nothing),
            }
        }
    }

    /// Whether `event` can be handled in `app`'s state (see [`effect_allowed`]):
    /// the states it rules out are those in which the browser would overflow
    /// or cut a char of the search text in two.
    pub fn accepts(app: &App, event: Event) -> (b: bool)
        ensures
            b == (event matches Event::Key(k) ==> effect_allowed(*app, key_response(*app, k).1)),
    {
        let key = match event {
            Event::Key(k) => k,
            Event::Other => {
                return true;
            },
        };
        let (_, effect) = Self::response(app, key);
        match effect {
            KeyEffect::SelectNext => app.filtered_items.len() == 0 || (app.page_size > 0
                && app.selected_index < usize::MAX),
            KeyEffect::SelectPrevious => app.filtered_items.len() == 0 || app.page_size > 0,
            KeyEffect::PageDown => app.page_size > 0 && app.filtered_items.len() <= usize::MAX - (
            app.page_size - 1),
            KeyEffect::PageUp => app.current_page == 0 || (app.current_page - 1).checked_mul(
                app.page_size,
            ).is_some(),
            KeyEffect::FilterCursorNext => app.filter_cursor < usize::MAX,
            KeyEffect::Backspace => {
                if app.cursor_position == 0 {
                    true
                } else {
                    let chars = crate::text::chars_of(app.search_query.as_str());
                    match crate::text::char_index_at_byte_exec(&chars, app.cursor_position - 1) {
                        Some(k) => k < chars.len(),
                        None => false,
                    }
                }
            },
            KeyEffect::CursorRight | KeyEffect::CursorEnd => {
                let chars = crate::text::chars_of(app.search_query.as_str());
                crate::text::byte_len_fits(&chars)
            },
            KeyEffect::InsertChar(_) => {
                let chars = crate::text::chars_of(app.search_query.as_str());
                crate::text::char_index_at_byte_exec(&chars, app.cursor_position).is_some()
                    && app.cursor_position < usize::MAX
            },
            _ => true,
        }
    }

    /// Handles one terminal event: a key as [`key_response`] says, anything else ignored.
    pub fn handle_event(app: &mut App, event: Event) -> (action: Action)
        requires
            event matches Event::Key(k) ==> effect_allowed(*old(app), key_response(*old(app), k).1),
        ensures
            event matches Event::Key(k) ==> {
                &&& action == key_response(*old(app), k).0
                &&& effect_done(*old(app), *final(app), key_response(*old(app), k).1)
            },
            event is Other ==> action == Action::NoOp && *final(app) == *old(app),
    {
        match event {
            Event::Key(key) => Self::handle_key(app, key),
            Event::Other => Action::NoOp,
        }
    }

    fn handle_key(app: &mut App, key: KeyEvent) -> (action: Action)
        requires
            effect_allowed(*old(app), key_response(*old(app), key).1),
        ensures
            action == key_response(*old(app), key).0,
            effect_done(*old(app), *final(app), key_response(*old(app), key).1),
    {
        if key.code == KeyCode::Char('c') && key.control {
            return Action::Quit;
        }
        if app.is_scanning {
            return match key.code {
                KeyCode::Esc => Action::CancelScan,
                KeyCode::Char('q') => Action::Quit,
                _ => Action::NoOp,
            };
        }
        if app.filter_panel_visible {
            match key.code {
                KeyCode::Esc => app.close_filter_panel(),
                KeyCode::Left => app.filter_dimension_prev(),
                KeyCode::Right => app.filter_dimension_next(),
                KeyCode::Up => app.filter_cursor_prev(),
                KeyCode::Down => app.filter_cursor_next(),
                KeyCode::Char(' ') | KeyCode::Enter => app.toggle_current_filter_value(),
                KeyCode::Char('c') => app.clear_all_filters(),
                _ => {},
            }
            return Action::NoOp;
        }
        if key.code == KeyCode::F(5) {
            return Action::StartScan;
        }
        if app.search_focused {
            return Self::handle_search_input(app, key);
        }
        if app.detail_view_visible {
            match key.code {
                KeyCode::Esc => app.close_detail_view(),
                _ => {},
            }
            return Action::NoOp;
        }
        match key.code {
            KeyCode::Char('q') | KeyCode::Esc => Action::Quit,
            KeyCode::Up => {
                app.select_previous();
                Action::NoOp
            },
            KeyCode::Down => {
                app.select_next();
                Action::NoOp
            },
            KeyCode::PageUp => {
                app.page_up();
                Action::NoOp
            },
            KeyCode::PageDown => {
                app.page_down();
                Action::NoOp
            },
            KeyCode::Tab => {
                app.search_focused = true;
                Action::NoOp
            },
            KeyCode::Enter => {
                app.toggle_detail_view();
                Action::NoOp
            },
            KeyCode::Char('f') => {
                app.open_filter_panel();
                Action::NoOp
            },
            KeyCode::Char('c') => {
                app.clear_all_filters();
                Action::NoOp
            },
            KeyCode::Char('s') => {
                app.toggle_sort_order();
                Action::NoOp
            },
            _ => Action::NoOp,
        }
    }

    fn handle_search_input(app: &mut App, key: KeyEvent) -> (action: Action)
        requires
            old(app).search_focused,
            !old(app).is_scanning,
            !old(app).filter_panel_visible,
            !(key.code == KeyCode::Char('c') && key.control),
            key.code != KeyCode::F(5),
            effect_allowed(*old(app), key_response(*old(app), key).1),
        ensures
            action == key_response(*old(app), key).0,
            effect_done(*old(app), *final(app), key_response(*old(app), key).1),
    {
        match key.code {
            KeyCode::Esc | KeyCode::Enter => {
                app.search_focused = false;
            },
            KeyCode::Backspace => {
                app.backspace_search();
            },
            KeyCode::Left => {
                if app.cursor_position > 0 {
                    app.cursor_position -= 1;
                }
            },
            KeyCode::Right => {
                if app.cursor_position < byte_len_exec(app.search_query.as_str()) {
                    app.cursor_position += 1;
                }
            },
            KeyCode::Home => {
                app.cursor_position = 0;
            },
            KeyCode::End => {
                app.cursor_position = byte_len_exec(app.search_query.as_str());
            },
            KeyCode::Char(c) => {
                app.add_search_char(c);
            },
            _ => {},
        }
        Action::NoOp
    }
}


/// While a scan runs the browser stands still: Esc asks to cancel the scan,
/// `q` and Control-C quit, every other key (F5 too) is ignored, and no key
/// changes the browser's state.
pub proof fn law_keys_while_scanning(app: App, key: KeyEvent, b: App)
    requires
        app.is_scanning,
    ensures
        key_response(app, key).0 == (if key.code == KeyCode::Char('c') && key.control {
            Action::Quit
        } else if key.code == KeyCode::Esc {
            Action::CancelScan
        } else if key.code == KeyCode::Char('q') {
            Action::Quit
        } else {
            Action::NoOp
        }),
        key_response(app, key).1 == KeyEffect::Nothing,
        effect_done(app, b, key_response(app, key).1) ==> b == app,
{
}

/// In ASCII text each char is one byte.
proof fn lemma_ascii_byte_len(s: Seq<char>)
    requires
        forall|i: int| 0 <= i < s.len() ==> (#[trigger] s[i] as u32) < 128,
    ensures
        byte_len(s) == s.len(),
    decreases s.len(),
{
    if s.len() > 0 {
        let t = s.drop_last();
        assert forall|i: int| 0 <= i < t.len() implies (#[trigger] t[i] as u32) < 128 by {
            assert(t[i] == s[i]);
        }
        lemma_ascii_byte_len(t);
        assert(s.take(s.len() - 1) =~= t);
        assert(s.take(s.len() as int) =~= s);
        crate::text::lemma_byte_len_step(s, s.len() - 1);
        let c = s[s.len() - 1];
        assert((c as u32) < 128);
        assert(vstd::utf8::encode_scalar(c as u32).len() == 1) by {
            reveal(vstd::utf8::encode_scalar);
        }
    }
}

/// Typing a char into the focused search box while no scan runs and the
/// filter panel is closed only edits the query: `q` or `c` are typed, they
/// neither quit nor clear the filters. With ASCII text before the cursor,
/// the char goes in at the cursor's byte position itself.
pub proof fn law_typing_goes_into_the_search_box(app: App, c: char)
    requires
        !app.is_scanning,
        !app.filter_panel_visible,
        app.search_focused,
    ensures
        key_response(app, KeyEvent { code: KeyCode::Char(c), control: false }) == (
            Action::NoOp,
            KeyEffect::InsertChar(c),
        ),
        app.cursor_position <= app.search_query@.len() && (forall|i: int|
            0 <= i < app.search_query@.len() ==> (#[trigger] app.search_query@[i] as u32) < 128)
            ==> char_index_at_byte(app.search_query@, app.cursor_position as int) == Some(
            app.cursor_position as int,
        ),
{
    let q = app.search_query@;
    let k = app.cursor_position as int;
    if k <= q.len() && (forall|i: int| 0 <= i < q.len() ==> (#[trigger] q[i] as u32) < 128) {
        let t = q.take(k);
        assert forall|i: int| 0 <= i < t.len() implies (#[trigger] t[i] as u32) < 128 by {
            assert(t[i] == q[i]);
        }
        lemma_ascii_byte_len(t);
        let j = choose|j: int| 0 <= j <= q.len() && byte_len(q.take(j)) == k;
        crate::text::lemma_char_index_unique(q, j, k);
    }
}

} // verus!
