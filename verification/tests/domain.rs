use kunger::domain::{
    ClassificationConfidence, InstallationReason, InstallationScope, InventoryStatus, PackageManager,
    ProviderError, ProviderInventory, ProviderStatus, ProviderWarning, SoftwareCategory, SoftwareRiskLevel, StringMap,
};
use kunger::providers::ProviderId;

#[test]
fn confidence_ordering_is_increasing() {
    assert!(ClassificationConfidence::Unknown < ClassificationConfidence::Low);
    assert!(ClassificationConfidence::Low < ClassificationConfidence::Medium);
    assert!(ClassificationConfidence::Medium < ClassificationConfidence::High);
    assert!(ClassificationConfidence::High < ClassificationConfidence::Certain);
}

#[test]
fn risk_level_ordering_is_increasing() {
    assert!(SoftwareRiskLevel::Unknown < SoftwareRiskLevel::Low);
    assert!(SoftwareRiskLevel::Low < SoftwareRiskLevel::Medium);
    assert!(SoftwareRiskLevel::Medium < SoftwareRiskLevel::High);
}

#[test]
fn defaults_are_the_unknown_variants() {
    assert_eq!(SoftwareCategory::default(), SoftwareCategory::Unclassified);
    assert_eq!(PackageManager::default(), PackageManager::Unknown);
    assert_eq!(InstallationScope::default(), InstallationScope::Unknown);
    assert_eq!(InstallationReason::default(), InstallationReason::Unknown);
    assert_eq!(ClassificationConfidence::default(), ClassificationConfidence::Unknown);
    assert_eq!(InventoryStatus::default(), InventoryStatus::NotStarted);
    assert_eq!(ProviderStatus::default(), ProviderStatus::NotRun);
    assert_eq!(SoftwareRiskLevel::default(), SoftwareRiskLevel::Unknown);
}

#[test]
fn provider_warning_builder_sets_optional_fields() {
    let warning = ProviderWarning::new("bad file")
        .for_item("apt:weird-pkg")
        .with_context("/usr/share/applications/weird.desktop");
    assert_eq!(warning.message, "bad file");
    assert_eq!(warning.item_id.as_deref(), Some("apt:weird-pkg"));
    assert_eq!(warning.context.as_deref(), Some("/usr/share/applications/weird.desktop"));
}

#[test]
fn provider_error_message_extracts_inner_string_for_every_variant() {
    let errors = vec![
        ProviderError::CommandNotFound("flatpak".into()),
        ProviderError::Timeout("dpkg-query timed out".into()),
        ProviderError::PermissionDenied("denied".into()),
        ProviderError::MalformedOutput("bad json".into()),
        ProviderError::Cancelled("cancelled".into()),
        ProviderError::Other("other".into()),
    ];
    for error in errors {
        assert!(!error.message().is_empty());
    }
}

#[test]
fn provider_id_displays_as_its_str() {
    let id = ProviderId::new("apt");
    assert_eq!(id.to_string(), "apt");
    assert_eq!(id.as_str(), "apt");
}

#[test]
fn finish_computes_duration_and_sets_status() {
    let started_at: i64 = 1_700_000_000_000;
    let inventory = ProviderInventory::started("apt", started_at);
    let completed_at = started_at + 250;
    let finished = inventory.finish(completed_at, ProviderStatus::Success);
    assert_eq!(finished.duration_ms, Some(250));
    assert_eq!(finished.completed_at, Some(completed_at));
    assert!(finished.is_success());
}

#[test]
fn partial_success_counts_as_success_for_is_success() {
    let started_at: i64 = 1_700_000_000_000;
    let inventory = ProviderInventory::started("flatpak", started_at).finish(started_at, ProviderStatus::PartialSuccess);
    assert!(inventory.is_success());
}

#[test]
fn failed_status_is_not_success() {
    let started_at: i64 = 1_700_000_000_000;
    let inventory = ProviderInventory::started("flatpak", started_at).finish(started_at, ProviderStatus::Failed);
    assert!(!inventory.is_success());
}

#[test]
fn a_completion_before_the_start_counts_as_no_time() {
    let inventory = ProviderInventory::started("apt", 1000).finish(400, ProviderStatus::Success);
    assert_eq!(inventory.duration_ms, Some(0));
}

#[test]
fn string_map_pairs_lists_each_key_once_with_its_latest_value() {
    let mut map = StringMap::new();
    map.insert("a".to_string(), "1".to_string());
    map.insert("b".to_string(), "2".to_string());
    map.insert("a".to_string(), "3".to_string());
    let mut pairs = map.pairs();
    pairs.sort();
    assert_eq!(
        pairs,
        vec![("a".to_string(), "3".to_string()), ("b".to_string(), "2".to_string())]
    );
    assert!(StringMap::new().pairs().is_empty());
}

#[test]
fn confidence_ranks_count_up_from_unknown() {
    assert_eq!(ClassificationConfidence::Unknown.rank(), 0);
    assert_eq!(ClassificationConfidence::Certain.rank(), 4);
    assert!(ClassificationConfidence::Low.rank() < ClassificationConfidence::Medium.rank());
}

#[test]
fn absorb_adds_only_missing_keys() {
    let mut mine = StringMap::new();
    mine.insert("k".to_string(), "mine".to_string());
    let mut other = StringMap::new();
    other.insert("k".to_string(), "theirs".to_string());
    other.insert("n".to_string(), "new".to_string());
    mine.absorb(&other);
    assert_eq!(mine.get("k").map(String::as_str), Some("mine"));
    assert_eq!(mine.get("n").map(String::as_str), Some("new"));
    assert_eq!(mine.len(), 2);
}

#[test]
fn blank_text_and_elapsed_time() {
    assert!(kunger::domain::is_blank("  \t\n"));
    assert!(!kunger::domain::is_blank(" x "));
    assert_eq!(kunger::domain::elapsed_ms_exec(100, 350), 250);
    assert_eq!(kunger::domain::elapsed_ms_exec(350, 100), 0);
}
