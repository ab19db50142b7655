//! The scan lifecycle: at most one scan runs at a time, a running scan can
//! be cancelled, and a finished one returns the state to idle and says
//! which event to send. Running the providers and saving the result are the
//! program's part.
use vstd::prelude::*;

use crate::commands::CommandError;
use crate::domain::InventorySummary;
use crate::text::{decimal, push_decimal, push_str};

verus! {

/// The per-provider timeout when the request names none.
pub const DEFAULT_PER_PROVIDER_TIMEOUT_MS: u64 = 30000;

/// The longest per-provider timeout a request may ask for.
pub const MAX_PER_PROVIDER_TIMEOUT_MS: u64 = 600000;

/// Whether a scan is running and, if so, since when (ms since the epoch)
/// and whether it was asked to stop.
#[derive(Debug, Clone, Copy, PartialEq, Eq, Structural)]
pub enum ScanRuntimeState {
    Idle,
    Running { started_at: i64, cancel_requested: bool },
}

pub open spec fn msg_bad_timeout() -> Seq<char> {
    "perProviderTimeoutMs must be between 1 and "@ + decimal(MAX_PER_PROVIDER_TIMEOUT_MS as nat)
}

/// The timeout a scan request asks for: 30 s by default, refused unless
/// between 1 ms and 600 s.
pub fn validate_timeout(per_provider_timeout_ms: Option<u64>) -> (r: Result<u64, CommandError>)
    ensures
        ({
            let t = match per_provider_timeout_ms {
                Some(t) => t,
                None => DEFAULT_PER_PROVIDER_TIMEOUT_MS,
            };
            &&& (1 <= t <= MAX_PER_PROVIDER_TIMEOUT_MS) ==> r == Ok::<u64, CommandError>(t)
            &&& !(1 <= t <= MAX_PER_PROVIDER_TIMEOUT_MS) ==> (r matches Err(e) && e.kind@ == "invalidRequest"@
                && e.message@ == msg_bad_timeout())
        }),
{
    let t = match per_provider_timeout_ms {
        Some(t) => t,
        None => DEFAULT_PER_PROVIDER_TIMEOUT_MS,
    };
    if t == 0 || t > MAX_PER_PROVIDER_TIMEOUT_MS {
        let mut m = String::new();
        push_str(&mut m, "perProviderTimeoutMs must be between 1 and ");
        push_decimal(&mut m, MAX_PER_PROVIDER_TIMEOUT_MS);
        proof {
            assert(m@ =~= msg_bad_timeout());
        }
        Err(CommandError::invalid_request(m))
    } else {
        Ok(t)
    }
}

/// Starts a scan at `now`: the timeout is checked first, then that no scan
/// is running; on success the state is running and the timeout is returned,
/// and the scan counts as started: that is when the started event is sent.
/// A refused start leaves the state as it was, and sends nothing.
pub fn begin_scan(state: &mut ScanRuntimeState, per_provider_timeout_ms: Option<u64>, now: i64) -> (r: Result<u64, CommandError>)
    ensures
        ({
            let t = match per_provider_timeout_ms {
                Some(t) => t,
                None => DEFAULT_PER_PROVIDER_TIMEOUT_MS,
            };
            &&& !(1 <= t <= MAX_PER_PROVIDER_TIMEOUT_MS) ==> (r matches Err(e) && e.kind@ == "invalidRequest"@)
                && *final(state) == *old(state)
            &&& (1 <= t <= MAX_PER_PROVIDER_TIMEOUT_MS && *old(state) is Running) ==> (r matches Err(e)
                && e.kind@ == "conflict"@ && e.message@ == "a scan is already running"@) && *final(state) == *old(state)
            &&& (1 <= t <= MAX_PER_PROVIDER_TIMEOUT_MS && *old(state) is Idle) ==> r == Ok::<u64, CommandError>(t)
                && *final(state) == (ScanRuntimeState::Running { started_at: now, cancel_requested: false })
        }),
{
    let t = match validate_timeout(per_provider_timeout_ms) {
        Ok(t) => t,
        Err(e) => {
            return Err(e);
        },
    };
    match *state {
        ScanRuntimeState::Running { .. } => {
            proof {
                reveal_strlit("a scan is already running");
            }
            Err(CommandError::conflict("a scan is already running".to_owned()))
        },
        ScanRuntimeState::Idle => {
            *state = ScanRuntimeState::Running { started_at: now, cancel_requested: false };
            Ok(t)
        },
    }
}

/// Asks the running scan to stop; with no scan running this is a conflict.
pub fn cancel_inventory_scan_impl(state: &mut ScanRuntimeState) -> (r: Result<(), CommandError>)
    ensures
        (match *old(state) {
            ScanRuntimeState::Running { started_at, .. } => r is Ok && *final(state) == (ScanRuntimeState::Running {
                started_at,
                cancel_requested: true,
            }),
            ScanRuntimeState::Idle => (r matches Err(e) && e.kind@ == "conflict"@ && e.message@
                == "no scan is currently running"@) && *final(state) == ScanRuntimeState::Idle,
        }),
{
    match *state {
        ScanRuntimeState::Running { started_at, .. } => {
            *state = ScanRuntimeState::Running { started_at, cancel_requested: true };
            Ok(())
        },
        ScanRuntimeState::Idle => {
            proof {
                reveal_strlit("no scan is currently running");
            }
            Err(CommandError::conflict("no scan is currently running".to_owned()))
        },
    }
}

/// Which event a finished scan sends.
#[derive(Debug, Clone, PartialEq, Eq)]
pub enum ScanOutcome {
    Completed,
    Cancelled,
    Failed(String),
}

/// Ends the scan: the state is idle again, whatever happened. A scan whose
/// result could not be saved failed (with the save error's message); a
/// saved one was cancelled when a stop was asked for, else completed.
pub fn finish_scan(state: &mut ScanRuntimeState, saved: Result<(), String>) -> (r: ScanOutcome)
    ensures
        *final(state) == ScanRuntimeState::Idle,
        saved matches Err(m) ==> r matches ScanOutcome::Failed(x) && x@ == m@,
        saved is Ok ==> (r == (if old(state) matches ScanRuntimeState::Running { cancel_requested: true, .. } {
            ScanOutcome::Cancelled
        } else {
            ScanOutcome::Completed
        })),
{
    let cancelled = match *state {
        ScanRuntimeState::Running { cancel_requested, .. } => cancel_requested,
        ScanRuntimeState::Idle => false,
    };
    *state = ScanRuntimeState::Idle;
    match saved {
        Err(m) => ScanOutcome::Failed(m),
        Ok(()) => if cancelled {
            ScanOutcome::Cancelled
        } else {
            ScanOutcome::Completed
        },
    }
}

/// What the status command reports: idle with the latest saved summary, or
/// running since `started_at` (ms since the epoch) for `elapsed_ms`.
#[derive(Debug, Clone)]
pub enum ScanStatusResponse {
    Idle { last_summary: Option<InventorySummary> },
    Running { started_at: i64, elapsed_ms: i64 },
}

/// Whether answering the status command needs the latest saved summary.
pub fn needs_last_summary(state: &ScanRuntimeState) -> (b: bool)
    ensures
        b == (*state is Idle),
{
    match *state {
        ScanRuntimeState::Idle => true,
        ScanRuntimeState::Running { .. } => false,
    }
}

/// The status at `now`. `last_summary` is only used when idle.
pub fn scan_status(state: &ScanRuntimeState, now: i64, last_summary: Option<InventorySummary>) -> (r: ScanStatusResponse)
    requires
        *state matches ScanRuntimeState::Running { started_at, .. } ==> i64::MIN <= now - started_at <= i64::MAX,
    ensures
        (match *state {
            ScanRuntimeState::Idle => r matches ScanStatusResponse::Idle { last_summary: s } && s == last_summary,
            ScanRuntimeState::Running { started_at, .. } => r == (ScanStatusResponse::Running {
                started_at,
                elapsed_ms: (now - started_at) as i64,
            }),
        }),
{
    match *state {
        ScanRuntimeState::Idle => ScanStatusResponse::Idle { last_summary },
        ScanRuntimeState::Running { started_at, .. } => ScanStatusResponse::Running {
            started_at,
            elapsed_ms: now - started_at,
        },
    }
}

} // verus!
