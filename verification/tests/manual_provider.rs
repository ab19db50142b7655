use kunger::domain::{ClassificationConfidence, InstallationScope, PackageManager, SoftwareCategory, StringMap};
use kunger::process::RunError;
use kunger::providers::manual::{build_item, is_owned, items_from_candidates, keeps_flat_file, ownership_outcome, Candidate, DirKind};

fn candidate(path: &str, kind: DirKind, is_dir: bool, scope: InstallationScope, size: Option<u64>, executable: bool) -> Candidate {
    Candidate { path: path.to_string(), kind, is_dir, scope, size_bytes: size, modified_at: None, executable }
}

#[test]
fn collect_flat_files_does_not_skip_appimage_extension_for_lib_dirs() {
    assert!(keeps_flat_file(DirKind::LocalLib, "/usr/local/lib/weird.AppImage"));
    assert!(!keeps_flat_file(DirKind::LocalBin, "/usr/local/bin/weird.AppImage"));
    assert!(keeps_flat_file(DirKind::LocalBin, "/usr/local/bin/my-tool"));
}

#[test]
fn build_item_for_opt_directory_is_application_with_low_confidence() {
    let item = build_item(&candidate("/opt/my-app", DirKind::Opt, true, InstallationScope::System, None, false));
    assert_eq!(item.category, SoftwareCategory::Application);
    assert_eq!(item.classification_confidence, ClassificationConfidence::Low);
    assert_eq!(item.package_manager, PackageManager::Manual);
    assert_eq!(item.id, "manual:/opt/my-app");
}

#[test]
fn build_item_for_shared_object_in_local_lib_has_high_confidence() {
    let item = build_item(&candidate("/usr/local/lib/libcustom.so.1", DirKind::LocalLib, false, InstallationScope::System, Some(2048), false));
    assert_eq!(item.category, SoftwareCategory::Library);
    assert_eq!(item.classification_confidence, ClassificationConfidence::High);
}

#[test]
fn build_item_for_local_bin_executable_is_command_line_tool() {
    let item = build_item(&candidate("/home/user/.local/bin/my-tool", DirKind::LocalBin, false, InstallationScope::User, Some(512), true));
    assert_eq!(item.category, SoftwareCategory::CommandLineTool);
    assert_eq!(item.classification_confidence, ClassificationConfidence::Medium);
    assert_eq!(item.executable_paths, vec!["/home/user/.local/bin/my-tool".to_string()]);
}

#[test]
fn is_owned_excludes_exactly_the_paths_dpkg_reports() {
    let owned = candidate("/usr/local/bin/owned-tool", DirKind::LocalBin, false, InstallationScope::System, Some(1), true);
    let unowned = candidate("/usr/local/bin/unowned-tool", DirKind::LocalBin, false, InstallationScope::System, Some(1), true);
    let mut owners = StringMap::new();
    owners.insert("/usr/local/bin/owned-tool".to_string(), "some-package".to_string());
    assert!(is_owned(&owned, &owners));
    assert!(!is_owned(&unowned, &owners));
}

#[test]
fn scan_degrades_gracefully_when_dpkg_is_unavailable_and_still_reports_candidates() {
    let mut warnings = Vec::new();
    let owners = ownership_outcome(Err(RunError::NotFound("kunger-nonexistent-dpkg-xyz".to_string())), &mut warnings);
    let candidates = vec![
        candidate("/usr/local/bin/owned-tool", DirKind::LocalBin, false, InstallationScope::System, Some(1), true),
        candidate("/usr/local/bin/unowned-tool", DirKind::LocalBin, false, InstallationScope::System, Some(1), true),
    ];
    let items = items_from_candidates(&candidates, &owners);
    assert_eq!(items.len(), 2);
    assert_eq!(warnings.len(), 1);
}

#[test]
fn owned_candidates_are_left_out_of_the_items() {
    let mut owners = StringMap::new();
    owners.insert("/opt/vendor-app".to_string(), "vendor-app".to_string());
    let candidates = vec![
        candidate("/opt/vendor-app", DirKind::Opt, true, InstallationScope::System, None, false),
        candidate("/opt/my-app", DirKind::Opt, true, InstallationScope::System, None, false),
        candidate("/opt/script.sh", DirKind::Opt, false, InstallationScope::System, Some(10), true),
    ];
    let items = items_from_candidates(&candidates, &owners);
    let ids: Vec<&str> = items.iter().map(|i| i.id.as_str()).collect();
    assert_eq!(ids, vec!["manual:/opt/my-app", "manual:/opt/script.sh"]);
    assert_eq!(items[1].category, SoftwareCategory::CommandLineTool);
    assert_eq!(items[1].metadata.get("executable").map(String::as_str), Some("true"));
    assert_eq!(items[0].metadata.get("is_directory").map(String::as_str), Some("true"));
}

#[test]
fn classify_candidate_reads_the_directory_kind() {
    let lib = candidate("/usr/local/lib/libfoo.so.1", DirKind::LocalLib, false, InstallationScope::System, Some(10), false);
    let (category, confidence, reason) = kunger::providers::manual::classify_candidate(&lib, "libfoo.so.1");
    assert_eq!((category, confidence), (SoftwareCategory::Library, ClassificationConfidence::High));
    assert_eq!(reason, "found in /usr/local/lib, not owned by any known package manager");
    let data = candidate("/usr/local/lib/notes.txt", DirKind::LocalLib, false, InstallationScope::System, Some(10), false);
    assert_eq!(
        kunger::providers::manual::classify_candidate(&data, "notes.txt").1,
        ClassificationConfidence::Medium
    );
    let opt_file = candidate("/opt/run.sh", DirKind::Opt, false, InstallationScope::System, Some(1), true);
    assert_eq!(
        kunger::providers::manual::classify_candidate(&opt_file, "run.sh").0,
        SoftwareCategory::CommandLineTool
    );
}
