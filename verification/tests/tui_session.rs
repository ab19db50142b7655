use kunger::domain::{PackageManager, SoftwareItem};
use kunger::tui::app::App;
use kunger::tui::input::Action;
use kunger::tui::session::{on_action, on_scan_event, LoopCommand, ScanEvent};

fn item(id: &str) -> SoftwareItem {
    SoftwareItem::new(id, id, id, PackageManager::Apt)
}

#[test]
fn a_scan_starts_only_when_none_is_running() {
    let mut app = App::new(vec![]);
    assert_eq!(on_action(&mut app, false, Action::StartScan), LoopCommand::StartWorker);
    assert!(app.is_scanning);
    assert_eq!(app.scan_message.as_deref(), Some("Scanning inventory..."));
    let mut busy = App::new(vec![]);
    assert_eq!(on_action(&mut busy, true, Action::StartScan), LoopCommand::Continue);
    assert!(!busy.is_scanning);
}

#[test]
fn cancel_reaches_only_a_running_scan_and_quit_stops_it() {
    let mut app = App::new(vec![]);
    assert_eq!(on_action(&mut app, true, Action::CancelScan), LoopCommand::CancelWorker);
    assert_eq!(app.scan_message.as_deref(), Some("Cancelling scan..."));
    let mut idle = App::new(vec![]);
    assert_eq!(on_action(&mut idle, false, Action::CancelScan), LoopCommand::Continue);
    assert_eq!(idle.scan_message, None);
    assert_eq!(on_action(&mut idle, true, Action::Quit), LoopCommand::Quit { cancel_worker: true });
    assert_eq!(on_action(&mut idle, false, Action::Quit), LoopCommand::Quit { cancel_worker: false });
    assert_eq!(on_action(&mut idle, false, Action::SelectNext), LoopCommand::Continue);
}

#[test]
fn a_completed_scan_replaces_the_items_and_reports_the_count() {
    let mut app = App::new(vec![item("apt:old")]);
    app.start_scan();
    on_scan_event(&mut app, ScanEvent::Completed(Ok(vec![item("apt:a"), item("apt:b")])));
    assert!(!app.is_scanning);
    assert_eq!(app.scan_progress, 100);
    assert_eq!(app.scan_message.as_deref(), Some("Scan complete: 2 items found."));
    assert_eq!(app.filtered_items.len(), 2);
}

#[test]
fn failed_reloads_cancelled_and_failed_scans_are_reported() {
    let mut app = App::new(vec![]);
    app.start_scan();
    on_scan_event(&mut app, ScanEvent::Completed(Err("locked".to_string())));
    assert_eq!(app.scan_message.as_deref(), Some("Scan completed, but reload failed: locked"));
    assert!(!app.is_scanning);
    on_scan_event(&mut app, ScanEvent::Cancelled);
    assert_eq!(app.scan_message.as_deref(), Some("Scan cancelled."));
    on_scan_event(&mut app, ScanEvent::Failed("disk full".to_string()));
    assert_eq!(app.scan_message.as_deref(), Some("Scan failed: disk full"));
    assert_eq!(app.scan_progress, 0);
}
