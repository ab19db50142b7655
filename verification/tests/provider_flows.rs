use kunger::apt_parser::DPKG_QUERY_FORMAT;
use kunger::domain::{InstallationScope, ProviderError, ProviderInventory, ProviderStatus, ProviderWarning, SoftwareItem, PackageManager};
use kunger::fonts_parser::{FontFileRecord, FC_LIST_FORMAT};
use kunger::process::{CommandOutput, ProcessRunner, RunError};
use kunger::providers::apt::{manual_packages_outcome, upgradable_outcome, AptProvider};
use kunger::providers::desktop::ordered_dirs;
use kunger::providers::flatpak::{listings, FlatpakProvider, FlatpakScan, ListingStep, RefKind, Scope};
use kunger::providers::fonts::{list_failure, select_in_scope, FontProvider};
use kunger::providers::{complete_scan, extend_warnings, failed_scan, push_io_warning, push_warning};

fn ok(stdout: &str) -> Result<CommandOutput, RunError> {
    Ok(CommandOutput {
        stdout: stdout.to_string(),
        stderr: String::new(),
        exit_code: Some(0),
    })
}

fn messages(warnings: &[ProviderWarning]) -> Vec<String> {
    warnings.iter().map(|w| w.message.clone()).collect()
}

#[test]
fn apt_commands_name_the_configured_binaries() {
    let provider = AptProvider::with_binaries(ProcessRunner::default(), "dq", "am", "ap");
    assert_eq!(provider.availability_command().program, "dq");
    assert_eq!(provider.availability_command().args, vec!["--version"]);
    let inventory = provider.inventory_command();
    assert_eq!(inventory.program, "dq");
    assert_eq!(inventory.args, vec!["-W", "--showformat", DPKG_QUERY_FORMAT]);
    assert_eq!(provider.manual_command().program, "am");
    assert_eq!(provider.manual_command().args, vec!["showmanual"]);
    assert_eq!(provider.upgradable_command().program, "ap");
    assert_eq!(provider.upgradable_command().args, vec!["list", "--upgradable"]);
    let default = AptProvider::new();
    assert_eq!(
        (default.dpkg_query_bin.as_str(), default.apt_mark_bin.as_str(), default.apt_bin.as_str()),
        ("dpkg-query", "apt-mark", "apt")
    );
}

#[test]
fn manual_packages_outcome_parses_success_and_warns_on_failure() {
    let mut warnings = Vec::new();
    let names = manual_packages_outcome(ok("git\nvim\n"), &mut warnings).expect("parsed");
    assert!(names.contains("git") && names.contains("vim") && !names.contains("curl"));
    assert!(warnings.is_empty());

    let failed = manual_packages_outcome(Err(RunError::NotFound("apt-mark".to_string())), &mut warnings);
    assert!(failed.is_none());
    assert_eq!(
        messages(&warnings),
        vec![
            "could not determine manual vs. automatic installation state via apt-mark \
             (command `apt-mark` was not found on PATH); installation reason will be left unknown for all items"
        ]
    );
}

#[test]
fn upgradable_outcome_parses_success_and_warns_on_failure() {
    let mut warnings = Vec::new();
    let table = upgradable_outcome(
        ok("Listing... Done\nfirefox/jammy-updates 129.0 amd64 [upgradable from: 128.0]\n"),
        &mut warnings,
    );
    assert_eq!(table.get("firefox").map(String::as_str), Some("129.0"));
    assert!(warnings.is_empty());

    let empty = upgradable_outcome(Err(RunError::NonZeroExit("apt".to_string(), 100, "E".to_string())), &mut warnings);
    assert!(empty.is_empty());
    assert_eq!(
        messages(&warnings),
        vec!["could not determine available updates via \"apt list --upgradable\" (command `apt` exited with status 100: E)"]
    );
}

#[test]
fn flatpak_lists_user_then_system_apps_then_runtimes() {
    assert_eq!(
        listings(),
        vec![
            (Scope::User, RefKind::App),
            (Scope::User, RefKind::Runtime),
            (Scope::System, RefKind::App),
            (Scope::System, RefKind::Runtime),
        ]
    );
    let provider = FlatpakProvider::with_binary(ProcessRunner::default(), "fp");
    let command = provider.list_command(Scope::System, RefKind::Runtime);
    assert_eq!(command.program, "fp");
    assert_eq!(
        command.args,
        vec!["list", "--system", "--runtime", "--columns=application,name,version,branch,arch,origin,size"]
    );
    assert_eq!(provider.availability_command().args, vec!["--version"]);
    assert_eq!(Scope::User.as_installation_scope(), InstallationScope::User);
}

#[test]
fn flatpak_scan_collects_listings_and_warns_about_failed_ones() {
    let mut scan = FlatpakScan::new();
    let step = scan.apply_listing(
        Scope::User,
        RefKind::App,
        ok("org.mozilla.firefox\tFirefox\t129.0\tstable\tx86_64\tflathub\t312.5 MB\n"),
    );
    assert_eq!(step, ListingStep::Continue);
    let step = scan.apply_listing(
        Scope::System,
        RefKind::App,
        Err(RunError::TimedOut("flatpak".to_string(), 15000)),
    );
    assert_eq!(step, ListingStep::Continue);
    assert_eq!((scan.attempted, scan.succeeded), (2, 1));
    assert_eq!(scan.items.len(), 1);
    assert_eq!(scan.items[0].id, "flatpak:user:org.mozilla.firefox");
    assert_eq!(
        messages(&scan.warnings),
        vec!["could not list system application Flatpak refs: command `flatpak` timed out after 15s"]
    );

    let result = scan.finish(ProviderInventory::started("flatpak", 1_000), 1_500);
    assert_eq!(result.status, ProviderStatus::PartialSuccess);
    assert_eq!(result.items.len(), 1);
    assert_eq!(result.duration_ms, Some(500));
}

#[test]
fn flatpak_scan_stops_as_unavailable_when_flatpak_is_missing() {
    let mut scan = FlatpakScan::new();
    let step = scan.apply_listing(Scope::User, RefKind::App, Err(RunError::NotFound("flatpak".to_string())));
    assert_eq!(step, ListingStep::Unavailable);
}

#[test]
fn flatpak_scan_fails_when_every_listing_failed() {
    let mut scan = FlatpakScan::new();
    for (scope, kind) in listings() {
        scan.apply_listing(scope, kind, Err(RunError::SpawnFailed("flatpak".to_string(), "denied".to_string())));
    }
    let result = scan.finish(ProviderInventory::started("flatpak", 0), 10);
    assert_eq!(result.status, ProviderStatus::Failed);
    assert_eq!(
        result.error,
        Some(ProviderError::Other("all flatpak list calls failed; see warnings for details".to_string()))
    );
    assert_eq!(result.warnings.len(), 4);
}

#[test]
fn fonts_command_and_list_failures() {
    let provider = FontProvider::with_binaries(ProcessRunner::default(), "fcl", "dp");
    let command = provider.list_command();
    assert_eq!(command.program, "fcl");
    assert_eq!(command.args, vec![format!("--format={}", FC_LIST_FORMAT)]);
    assert_eq!(provider.availability_command().args, vec!["--version"]);

    let missing = list_failure(ProviderInventory::started("fonts", 5), 9, &RunError::NotFound("fcl".to_string()));
    assert_eq!(missing.status, ProviderStatus::Unavailable);
    assert!(missing.error.is_none());
    assert_eq!(missing.duration_ms, Some(4));

    let broken = list_failure(
        ProviderInventory::started("fonts", 5),
        9,
        &RunError::OutputTooLarge("fcl".to_string(), 10),
    );
    assert_eq!(broken.status, ProviderStatus::Failed);
    assert_eq!(
        broken.error,
        Some(ProviderError::Other("fcl output exceeded the 10 byte limit".to_string()))
    );
}

#[test]
fn select_in_scope_keeps_system_and_user_fonts_only() {
    let record = |file: &str| FontFileRecord {
        file: file.to_string(),
        family: "F".to_string(),
        style: None,
        fullname: None,
        font_format: None,
        language_coverage: None,
    };
    let kept = select_in_scope(
        vec![record("/usr/share/fonts/a.ttf"), record("/tmp/b.ttf"), record("/home/u/.fonts/c.ttf")],
        &vec!["/home/u/.fonts".to_string()],
    );
    let scopes: Vec<(String, InstallationScope)> = kept.into_iter().map(|(r, s)| (r.file, s)).collect();
    assert_eq!(
        scopes,
        vec![
            ("/usr/share/fonts/a.ttf".to_string(), InstallationScope::System),
            ("/home/u/.fonts/c.ttf".to_string(), InstallationScope::User),
        ]
    );
}

#[test]
fn desktop_dirs_start_with_the_users_own() {
    let mut warnings = Vec::new();
    let dirs = ordered_dirs(Some("/home/u/.local/share/applications".to_string()), &mut warnings);
    assert_eq!(
        dirs,
        vec![
            ("/home/u/.local/share/applications".to_string(), InstallationScope::User),
            ("/usr/local/share/applications".to_string(), InstallationScope::System),
            ("/usr/share/applications".to_string(), InstallationScope::System),
        ]
    );
    assert!(warnings.is_empty());
    let dirs = ordered_dirs(None, &mut warnings);
    assert_eq!(dirs.len(), 2);
    assert_eq!(
        messages(&warnings),
        vec!["could not determine the user's local applications directory (no home directory found)"]
    );
}

#[test]
fn scans_end_complete_or_failed() {
    let item = SoftwareItem::new("apt:git", "git", "Git", PackageManager::Apt);
    let done = complete_scan(ProviderInventory::started("apt", 100), 350, vec![item], Vec::new());
    assert_eq!(done.status, ProviderStatus::Success);
    assert_eq!((done.items.len(), done.completed_at, done.duration_ms), (1, Some(350), Some(250)));

    let mut warnings = Vec::new();
    push_warning(&mut warnings, "odd line".to_string());
    extend_warnings(&mut warnings, &vec!["a".to_string(), "b".to_string()]);
    push_io_warning(&mut warnings, "could not read", "/opt/x", "denied");
    assert_eq!(messages(&warnings), vec!["odd line", "a", "b", "could not read /opt/x: denied"]);
    assert!(warnings.iter().all(|w| w.item_id.is_none() && w.context.is_none()));
    let partial = complete_scan(ProviderInventory::started("apt", 0), 0, Vec::new(), warnings);
    assert_eq!(partial.status, ProviderStatus::PartialSuccess);

    let failed = failed_scan(ProviderInventory::started("apt", 0), 7, &RunError::NotFound("dpkg-query".to_string()));
    assert_eq!(failed.status, ProviderStatus::Failed);
    assert_eq!(failed.error, Some(ProviderError::CommandNotFound("dpkg-query".to_string())));
    assert!(failed.items.is_empty());
}

#[test]
fn a_cancelled_scan_keeps_what_it_gathered() {
    let item = SoftwareItem::new("apt:git", "git", "Git", PackageManager::Apt);
    let mut warnings = Vec::new();
    push_warning(&mut warnings, "odd line".to_string());
    let p = kunger::providers::cancelled_scan(ProviderInventory::started("apt", 10), 30, vec![item], warnings);
    assert_eq!(p.status, ProviderStatus::Cancelled);
    assert_eq!((p.items.len(), p.warnings.len(), p.duration_ms), (1, 1, Some(20)));

    let mut scan = FlatpakScan::new();
    scan.apply_listing(
        Scope::User,
        RefKind::App,
        ok("org.mozilla.firefox\tFirefox\t129.0\tstable\tx86_64\tflathub\t312.5 MB\n"),
    );
    let stopped = scan.cancel(ProviderInventory::started("flatpak", 0), 5);
    assert_eq!(stopped.status, ProviderStatus::Cancelled);
    assert_eq!(stopped.items.len(), 1);
}
