//! The program's loop around the browser, as decisions: what to do after
//! a key's action, and how the browser takes a background scan's outcome.
//! Running the scan worker and reloading the saved items are the program's part.
use vstd::prelude::*;

use crate::domain::SoftwareItem;
use crate::text::{decimal, push_decimal, push_str};
use crate::tui::app::App;
use crate::tui::input::Action;

verus! {

/// What the program does next.
#[derive(Debug, Clone, Copy, PartialEq, Eq, Structural)]
pub enum LoopCommand {
    /// Nothing more: draw and wait for the next event.
    Continue,
    /// Start the scan worker.
    StartWorker,
    /// Ask the running scan worker to stop.
    CancelWorker,
    /// Leave the loop, cancelling the scan worker first when one runs.
    Quit { cancel_worker: bool },
}

/// How a background scan ended. A completed scan carries the reload of the
/// saved items, or why reloading them failed.
#[derive(Debug)]
pub enum ScanEvent {
    Completed(Result<Vec<SoftwareItem>, String>),
    Cancelled,
    Failed(String),
}

/// `b` is `a` with the scan marked failed and `msg` on the status line.
pub open spec fn failed_with(a: App, b: App, msg: Seq<char>) -> bool {
    &&& b.scan_message matches Some(m) && m@ == msg
    &&& b == (App { is_scanning: false, scan_progress: 0, scan_message: b.scan_message, ..a })
}

pub open spec fn msg_completed(count: nat) -> Seq<char> {
    "Scan complete: "@ + decimal(count) + " items found."@
}

pub open spec fn msg_reload_failed(error: Seq<char>) -> Seq<char> {
    "Scan completed, but reload failed: "@ + error
}

pub open spec fn msg_scan_failed(error: Seq<char>) -> Seq<char> {
    "Scan failed: "@ + error
}

/// The loop's step after a key's action: a scan starts only when none is
/// running, a cancel only reaches a running scan (and says so), quitting
/// stops a running scan too; every other action leaves the browser as it is.
pub fn on_action(app: &mut App, scan_running: bool, action: Action) -> (c: LoopCommand)
    ensures
        action == Action::StartScan && !scan_running ==> {
            &&& c == LoopCommand::StartWorker
            &&& final(app).scan_message matches Some(m) && m@ == "Scanning inventory..."@
            &&& *final(app) == (App {
                is_scanning: true,
                scan_progress: 0,
                scan_message: final(app).scan_message,
                ..*old(app)
            })
        },
        action == Action::CancelScan && scan_running ==> {
            &&& c == LoopCommand::CancelWorker
            &&& final(app).scan_message matches Some(m) && m@ == "Cancelling scan..."@
            &&& *final(app) == (App { scan_message: final(app).scan_message, ..*old(app) })
        },
        action == Action::Quit ==> c == (LoopCommand::Quit { cancel_worker: scan_running })
            && *final(app) == *old(app),
        !(action == Action::StartScan && !scan_running) && !(action == Action::CancelScan
            && scan_running) && action != Action::Quit ==> c == LoopCommand::Continue && *final(app)
            == *old(app),
{
    match action {
        Action::StartScan => {
            if scan_running {
                LoopCommand::Continue
            } else {
                app.start_scan();
                LoopCommand::StartWorker
            }
        },
        Action::CancelScan => {
            if scan_running {
                app.set_scan_message("Cancelling scan...");
                LoopCommand::CancelWorker
            } else {
                LoopCommand::Continue
            }
        },
        Action::Quit => LoopCommand::Quit { cancel_worker: scan_running },
        _ => LoopCommand::Continue,
    }
}

/// Takes a finished scan's outcome: a completed scan with its items
/// reloaded replaces the inventory and reports the count; a failed reload,
/// a cancelled and a failed scan are reported as failures.
pub fn on_scan_event(app: &mut App, event: ScanEvent)
    ensures
        event matches ScanEvent::Completed(Ok(items)) ==> {
            &&& final(app).is_consistent()
            &&& final(app).scan_message matches Some(m) && m@ == msg_completed(items@.len())
            &&& *final(app) == (App {
                all_items: items,
                selected_index: 0,
                current_page: 0,
                scroll_offset: 0,
                filtered_items: final(app).filtered_items,
                is_scanning: false,
                scan_progress: 100,
                scan_message: final(app).scan_message,
                ..*old(app)
            })
        },
        event matches ScanEvent::Completed(Err(e)) ==> failed_with(*old(app), *final(app), msg_reload_failed(e@)),
        event is Cancelled ==> failed_with(*old(app), *final(app), "Scan cancelled."@),
        event matches ScanEvent::Failed(e) ==> failed_with(*old(app), *final(app), msg_scan_failed(e@)),
{
    match event {
        ScanEvent::Completed(Ok(items)) => {
            let count = items.len();
            let mut m = String::new();
            push_str(&mut m, "Scan complete: ");
            push_decimal(&mut m, count as u64);
            push_str(&mut m, " items found.");
            proof {
                assert(m@ =~= msg_completed(count as nat));
            }
            app.replace_items(items);
            let ghost mid = *app;
            app.complete_scan(m.as_str());
            proof {
                crate::tui::app::lemma_kept_same(mid, *app, crate::domain::items_view(mid.all_items@));
            }
        },
        ScanEvent::Completed(Err(e)) => {
            let mut m = String::new();
            push_str(&mut m, "Scan completed, but reload failed: ");
            push_str(&mut m, e.as_str());
            proof {
                assert(m@ =~= msg_reload_failed(e@));
            }
            app.fail_scan(m.as_str());
        },
        ScanEvent::Cancelled => {
            app.fail_scan("Scan cancelled.");
        },
        ScanEvent::Failed(e) => {
            let mut m = String::new();
            push_str(&mut m, "Scan failed: ");
            push_str(&mut m, e.as_str());
            proof {
                assert(m@ =~= msg_scan_failed(e@));
            }
            app.fail_scan(m.as_str());
        },
    }
}

} // verus!
