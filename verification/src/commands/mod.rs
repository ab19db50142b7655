//! The application's command layer: requests and responses, the errors
//! callers see, and the rules each command applies. Where a command reads
//! the database or runs a scan, that is the program's part; it hands the
//! results to the functions here.
use vstd::prelude::*;

use crate::domain::{
    ClassificationConfidence, InstallationReason, InstallationScope, InventorySummary,
    PackageManager, ProviderError, ProviderWarning, SoftwareCategory, SoftwareItem,
};
use crate::text::push_decimal;

pub mod export;
pub mod listing;
pub mod scan;

verus! {

/// The largest page `list_software_items` serves.
pub const MAX_PAGE_SIZE: u32 = 500;

/// One provider as the status command reports it.
#[derive(Debug, Clone)]
pub struct ProviderStatusResponse {
    pub id: String,
    pub display_name: String,
    pub description: String,
    pub available: bool,
}

/// Starts a scan. The per-provider timeout defaults to 30 s.
#[derive(Debug, Clone, Default)]
pub struct StartScanRequest {
    pub per_provider_timeout_ms: Option<u64>,
}

/// What to list: a 1-based page of the items that pass every filter given,
/// sorted as asked.
#[derive(Debug, Clone, Default)]
pub struct ListSoftwareItemsRequest {
    pub page: Option<u32>,
    pub page_size: Option<u32>,
    pub search: Option<String>,
    pub categories: Option<Vec<SoftwareCategory>>,
    pub package_managers: Option<Vec<PackageManager>>,
    pub scopes: Option<Vec<InstallationScope>>,
    pub installation_reasons: Option<Vec<InstallationReason>>,
    pub update_available_only: Option<bool>,
    pub min_confidence: Option<ClassificationConfidence>,
    pub sort_by: Option<SortField>,
    pub sort_direction: Option<SortDirection>,
}

/// What `list_software_items` sorts by.
#[derive(Debug, Clone, Copy, PartialEq, Eq, Structural)]
pub enum SortField {
    DisplayName,
    Category,
    PackageManager,
    Version,
    InstalledSize,
    Confidence,
}

#[derive(Debug, Clone, Copy, PartialEq, Eq, Structural)]
pub enum SortDirection {
    Ascending,
    Descending,
}

/// One page of items, with how many passed the filters in all.
#[derive(Debug, Clone)]
pub struct ListSoftwareItemsResponse {
    pub items: Vec<SoftwareItem>,
    pub total_count: usize,
    pub page: u32,
    pub page_size: u32,
}

/// A provider's warnings and error from the latest scan.
#[derive(Debug, Clone)]
pub struct ProviderWarningsResponse {
    pub provider_id: String,
    pub warnings: Vec<ProviderWarning>,
    pub error: Option<ProviderError>,
}

/// What to export and in which format.
#[derive(Debug, Clone)]
pub struct ExportRequest {
    pub format: ExportFormat,
    pub mode: ExportMode,
}

#[derive(Debug, Clone, Copy, PartialEq, Eq, Structural)]
pub enum ExportFormat {
    Json,
    Yaml,
    Csv,
}

/// `Full` dumps every item; `ReinstallationManifest` groups what a package
/// manager can reinstall by name apart from what needs a person's review.
#[derive(Debug, Clone, Copy, PartialEq, Eq, Structural)]
pub enum ExportMode {
    Full,
    ReinstallationManifest,
}

impl Default for ExportMode {
    fn default() -> (m: Self)
        ensures
            m == ExportMode::Full,
    {
        ExportMode::Full
    }
}

/// An export's text, with the schema version it follows.
#[derive(Debug, Clone)]
pub struct ExportResponse {
    pub schema_version: u32,
    pub format: ExportFormat,
    pub content: String,
}

/// Why a command was refused or failed: a machine-readable kind
/// (`invalidRequest`, `conflict`, `internal`) and a message.
#[derive(Debug, Clone)]
pub struct CommandError {
    pub kind: String,
    pub message: String,
}

impl CommandError {
    pub fn invalid_request(message: String) -> (e: Self)
        ensures
            e.kind@ == "invalidRequest"@,
            e.message@ == message@,
    {
        CommandError { kind: "invalidRequest".to_owned(), message }
    }

    pub fn conflict(message: String) -> (e: Self)
        ensures
            e.kind@ == "conflict"@,
            e.message@ == message@,
    {
        CommandError { kind: "conflict".to_owned(), message }
    }

    pub fn internal(message: String) -> (e: Self)
        ensures
            e.kind@ == "internal"@,
            e.message@ == message@,
    {
        CommandError { kind: "internal".to_owned(), message }
    }
}

/// Tells the user interface how a scan is going.
pub trait ScanEventEmitter {
    fn emit_started(&self);

    fn emit_completed(&self, summary: &InventorySummary);

    fn emit_failed(&self, message: &str);

    fn emit_cancelled(&self);
}

/// An emitter that tells nobody.
#[derive(Debug, Clone, Copy, Default)]
pub struct NoopScanEventEmitter;

impl ScanEventEmitter for NoopScanEventEmitter {
    fn emit_started(&self) {
    }

    fn emit_completed(&self, summary: &InventorySummary) {
    }

    fn emit_failed(&self, message: &str) {
    }

    fn emit_cancelled(&self) {
    }
}

} // verus!
