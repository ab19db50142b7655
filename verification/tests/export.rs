use kunger::commands::export::{build_manifest, csv_safe, export_csv, export_manifest_csv, install_hint};
use kunger::domain::{InstallationReason, PackageManager, SoftwareItem};

#[test]
fn csv_safe_prefixes_formula_leading_characters() {
    for dangerous in ["=SUM(A1)", "+1", "-1", "@cmd", "\ttab", "\rcr"] {
        let escaped = csv_safe(dangerous);
        assert!(escaped.starts_with('\''), "expected {dangerous:?} to be escaped");
        assert_eq!(&escaped[1..], dangerous);
    }
}

#[test]
fn csv_safe_leaves_ordinary_values_untouched() {
    for ordinary in ["firefox", "1.2.3", "", "a=b", "GNU/Linux"] {
        assert_eq!(csv_safe(ordinary), ordinary);
    }
}

#[test]
fn csv_export_has_a_header_and_one_data_row() {
    let items = vec![SoftwareItem::new("apt:git", "git", "Git", PackageManager::Apt)];
    let content = export_csv(&items).expect("export");
    let lines: Vec<&str> = content.lines().collect();
    assert_eq!(lines.len(), 2);
    assert!(lines[0].starts_with("id,packageName"));
    assert!(lines[1].starts_with("apt:git,git,Git"));
}

#[test]
fn full_csv_export_neutralizes_formula_prefixes_in_scanned_fields() {
    let mut item = SoftwareItem::new("apt:evil-pkg", "=SUM(A1:A9)", "@evil()", PackageManager::Apt);
    item.version = Some("+1.0".to_string());
    let content = export_csv(&vec![item]).expect("export");
    let data_row = content.lines().nth(1).expect("data row");
    assert!(data_row.contains("'=SUM(A1:A9)"));
    assert!(data_row.contains("'@evil()"));
    assert!(data_row.contains("'+1.0"));
}

fn manifest_fixture_items() -> Vec<SoftwareItem> {
    let mut manual_apt = SoftwareItem::new("apt:ripgrep", "ripgrep", "ripgrep", PackageManager::Apt);
    manual_apt.installation_reason = InstallationReason::Manual;
    manual_apt.version = Some("14.1.0".to_string());
    let mut auto_apt = SoftwareItem::new("apt:libc6", "libc6", "libc6", PackageManager::Apt);
    auto_apt.installation_reason = InstallationReason::Automatic;
    let mut manual_local = SoftwareItem::new("manual:/usr/local/bin/mytool", "mytool", "mytool", PackageManager::Manual);
    manual_local.install_paths = vec!["/home/alice/.local/bin/mytool".to_string()];
    let mut appimage = SoftwareItem::new("appimage:/opt/App.AppImage", "App", "App", PackageManager::AppImage);
    appimage.install_paths = vec!["/opt/App.AppImage".to_string()];
    vec![manual_apt, auto_apt, manual_local, appimage]
}

#[test]
fn manifest_separates_reproducible_from_manual_review_and_drops_automatic_deps() {
    let manifest = build_manifest(&manifest_fixture_items(), 0);
    assert_eq!(manifest.reproducible.len(), 1);
    assert_eq!(manifest.reproducible[0].package_manager, PackageManager::Apt);
    assert_eq!(manifest.reproducible[0].install_hint, "sudo apt install <package names>");
    assert_eq!(manifest.reproducible[0].packages.len(), 1);
    assert_eq!(manifest.reproducible[0].packages[0].package_name, "ripgrep");
    let names: Vec<&str> = manifest.manual_review.iter().map(|r| r.display_name.as_str()).collect();
    assert_eq!(names, vec!["App", "mytool"]);
    assert_eq!(manifest.manual_review[1].paths, vec!["/home/alice/.local/bin/mytool"]);
}

#[test]
fn manifest_csv_marks_each_row_reproducible_or_not() {
    let manifest = build_manifest(&manifest_fixture_items(), 0);
    let content = export_manifest_csv(&manifest).expect("export");
    let lines: Vec<&str> = content.lines().collect();
    assert_eq!(lines.len(), 4);
    assert!(lines[0].starts_with("reproducible,packageManager"));
    assert!(lines.iter().any(|line| line.starts_with("yes,Apt,ripgrep")));
    assert!(lines.iter().any(|line| line.starts_with("no,Manual,")));
    assert!(!content.contains("libc6"));
}

#[test]
fn manifest_csv_neutralizes_formula_prefixes_in_scanned_fields() {
    let mut manual_apt = SoftwareItem::new("apt:x", "=cmd()", "-2+3", PackageManager::Apt);
    manual_apt.installation_reason = InstallationReason::Manual;
    let mut manual_local = SoftwareItem::new("manual:y", "y", "@display", PackageManager::Manual);
    manual_local.install_paths = vec!["=HYPERLINK(\"http://evil\")".to_string()];
    let manifest = build_manifest(&vec![manual_apt, manual_local], 0);
    let content = export_manifest_csv(&manifest).expect("export");
    assert!(content.contains("'=cmd()"));
    assert!(content.contains("'-2+3"));
    assert!(content.contains("'@display"));
    assert!(content.contains("'=HYPERLINK"));
}

#[test]
fn manifest_packages_are_sorted_by_name_within_each_manager() {
    let mut a = SoftwareItem::new("flatpak:b", "org.b.App", "B", PackageManager::Flatpak);
    a.installation_reason = InstallationReason::Unknown;
    let b = SoftwareItem::new("flatpak:a", "org.a.App", "A", PackageManager::Flatpak);
    let c = SoftwareItem::new("apt:zsh", "zsh", "zsh", PackageManager::Apt);
    let manifest = build_manifest(&vec![a, b, c], 7);
    assert_eq!(manifest.exported_at, 7);
    assert_eq!(manifest.reproducible.len(), 2);
    assert_eq!(manifest.reproducible[0].package_manager, PackageManager::Apt);
    let names: Vec<&str> = manifest.reproducible[1].packages.iter().map(|p| p.package_name.as_str()).collect();
    assert_eq!(names, vec!["org.a.App", "org.b.App"]);
    assert_eq!(install_hint(PackageManager::Manual), "no automatic install command");
}

#[test]
fn reproducible_managers_and_review_reasons() {
    assert_eq!(
        kunger::commands::export::reproducible_managers_list(),
        vec![
            PackageManager::Apt,
            PackageManager::Flatpak,
            PackageManager::Snap,
            PackageManager::Pip,
            PackageManager::Pipx,
            PackageManager::Npm,
            PackageManager::Cargo,
        ]
    );
    assert_eq!(
        kunger::commands::export::manual_review_reason(PackageManager::AppImage),
        "AppImage bundle -- no package registry entry; keep or re-download the file manually."
    );
    assert_eq!(
        kunger::commands::export::manual_review_reason(PackageManager::Unknown),
        "Kunger could not determine a package manager for this item; review manually."
    );
}

#[test]
fn manifest_lists_every_chosen_item_exactly_once() {
    let mut items = manifest_fixture_items();
    let mut npm = SoftwareItem::new("npm:typescript", "typescript", "TypeScript", PackageManager::Npm);
    npm.installation_reason = InstallationReason::Unknown;
    let mut auto_flatpak = SoftwareItem::new("flatpak:system:org.gnome.Platform", "org.gnome.Platform", "GNOME Platform", PackageManager::Flatpak);
    auto_flatpak.installation_reason = InstallationReason::Automatic;
    let git = SoftwareItem::new("apt:git", "git", "Git", PackageManager::Apt);
    let unknown = SoftwareItem::new("unknown:thing", "thing", "Thing", PackageManager::Unknown);
    items.push(npm);
    items.push(auto_flatpak);
    items.push(git);
    items.push(unknown);
    let chosen = items.iter().filter(|i| i.installation_reason != InstallationReason::Automatic).count();

    let manifest = build_manifest(&items, 0);

    let listed: usize = manifest.reproducible.iter().map(|g| g.packages.len()).sum();
    assert_eq!(listed + manifest.manual_review.len(), chosen);
    let managers: Vec<PackageManager> = manifest.reproducible.iter().map(|g| g.package_manager).collect();
    assert_eq!(managers, vec![PackageManager::Apt, PackageManager::Npm]);
    let apt: Vec<&str> = manifest.reproducible[0].packages.iter().map(|p| p.package_name.as_str()).collect();
    assert_eq!(apt, vec!["git", "ripgrep"]);
    let reviewed: Vec<&str> = manifest.manual_review.iter().map(|r| r.id.as_str()).collect();
    assert_eq!(reviewed, vec!["appimage:/opt/App.AppImage", "unknown:thing", "manual:/usr/local/bin/mytool"]);
}
