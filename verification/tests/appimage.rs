use kunger::domain::{ClassificationConfidence, InstallationScope, PackageManager, SoftwareCategory};
use kunger::providers::appimage::{
    build_item, find_desktop_integration, has_appimage_extension, infer_display_name, integration_dir, is_candidate,
    scan_roots, should_read_signature,
    signature_matches, Candidate,
};

#[test]
fn infer_display_name_strips_extension_version_and_arch() {
    assert_eq!(infer_display_name("Obsidian-1.5.3-x86_64.AppImage"), "Obsidian");
    assert_eq!(infer_display_name("myapp_v2.0.AppImage"), "myapp");
    assert_eq!(infer_display_name("Simple.AppImage"), "Simple");
}

#[test]
fn infer_display_name_falls_back_to_the_filename_when_nothing_can_be_stripped() {
    assert_eq!(infer_display_name("weird_name_here"), "weird name here");
}

#[test]
fn infer_display_name_never_strips_down_to_nothing() {
    assert_eq!(infer_display_name("1.2.3.AppImage"), "1.2.3");
    assert_eq!(infer_display_name("---.AppImage"), "---.AppImage");
    assert_eq!(infer_display_name("Tool-ARM64.appimage"), "Tool");
}

fn candidate(path: &str, executable: bool, signature: bool, extension: bool) -> Candidate {
    Candidate {
        path: path.to_string(),
        size_bytes: 1024,
        modified_at: None,
        executable,
        signature_confirmed: signature,
        has_appimage_extension: extension,
    }
}

#[test]
fn build_item_confidence_is_certain_for_extension_plus_signature() {
    let item = build_item(&candidate("/home/user/Applications/App-1.0.AppImage", true, true, true), InstallationScope::User, None);
    assert_eq!(item.classification_confidence, ClassificationConfidence::Certain);
    assert_eq!(item.package_manager, PackageManager::AppImage);
    assert_eq!(item.category, SoftwareCategory::Application);
}

#[test]
fn build_item_confidence_is_high_for_extension_without_confirmed_signature() {
    let item = build_item(&candidate("/home/user/Applications/App.AppImage", true, false, true), InstallationScope::User, None);
    assert_eq!(item.classification_confidence, ClassificationConfidence::High);
}

#[test]
fn build_item_confidence_is_medium_for_signature_only() {
    let item = build_item(&candidate("/opt/renamed-app", true, true, false), InstallationScope::System, None);
    assert_eq!(item.classification_confidence, ClassificationConfidence::Medium);
}

#[test]
fn build_item_id_is_stable_and_path_based() {
    let item = build_item(&candidate("/home/user/Applications/App.AppImage", true, true, true), InstallationScope::User, None);
    assert_eq!(item.id, "appimage:/home/user/Applications/App.AppImage");
    assert_eq!(item.package_name, "App.AppImage");
    assert_eq!(item.display_name, "App");
    assert_eq!(item.classification_reasons.len(), 3);
}

#[test]
fn find_desktop_integration_matches_on_exec_path_and_extracts_icon() {
    let entries = vec![
        ("/tmp/apps/readme.txt".to_string(), Some("/home/user/Applications/App.AppImage".to_string())),
        ("/tmp/apps/other.desktop".to_string(), Some("[Desktop Entry]\nExec=/usr/bin/other\n".to_string())),
        ("/tmp/apps/unreadable.desktop".to_string(), None),
        (
            "/tmp/apps/app.desktop".to_string(),
            Some("[Desktop Entry]\nType=Application\nName=App\nExec=/home/user/Applications/App.AppImage %U\nIcon=app-icon\n".to_string()),
        ),
    ];
    let integration = find_desktop_integration("/home/user/Applications/App.AppImage", &entries)
        .expect("should find the matching desktop entry");
    assert_eq!(integration.icon.as_deref(), Some("app-icon"));
    assert_eq!(integration.desktop_file_path, "/tmp/apps/app.desktop");

    let item = build_item(
        &candidate("/home/user/Applications/App.AppImage", true, true, true),
        InstallationScope::User,
        Some(integration),
    );
    assert_eq!(item.desktop_file_paths, vec!["/tmp/apps/app.desktop"]);
    assert_eq!(item.icon_path.as_deref(), Some("app-icon"));
    assert_eq!(item.metadata.get("desktop_integrated").map(String::as_str), Some("true"));
}

#[test]
fn a_blank_icon_line_names_no_icon() {
    let entries = vec![("/d/a.desktop".to_string(), Some("Exec=/x/A.AppImage\nIcon=   \nIcon=later\n".to_string()))];
    let integration = find_desktop_integration("/x/A.AppImage", &entries).expect("found");
    assert_eq!(integration.icon, None);
}

#[test]
fn the_signature_needs_elf_magic_and_an_ai_type_marker() {
    let mut buf = vec![0x7f, b'E', b'L', b'F', 2, 1, 1, 0, b'A', b'I', 2, 0, 0, 0, 0, 0];
    assert!(signature_matches(&buf, 16));
    assert!(!signature_matches(&buf, 10));
    buf[10] = 3;
    assert!(!signature_matches(&buf, 16));
    buf[10] = 1;
    buf[0] = 0;
    assert!(!signature_matches(&buf, 16));
}

#[test]
fn the_executable_bit_alone_never_makes_a_candidate() {
    assert!(!is_candidate(false, true, false));
    assert!(is_candidate(false, true, true));
    assert!(is_candidate(true, false, false));
    assert!(has_appimage_extension("/opt/Tool.appIMAGE"));
    assert!(!has_appimage_extension("/opt/tool.sh"));
}

#[test]
fn scan_roots_put_the_home_directories_before_the_system_ones() {
    assert_eq!(
        scan_roots(Some("/home/u")),
        vec![
            ("/home/u/Applications".to_string(), InstallationScope::User),
            ("/home/u/.local/bin".to_string(), InstallationScope::User),
            ("/home/u/Downloads".to_string(), InstallationScope::User),
            ("/opt".to_string(), InstallationScope::System),
            ("/usr/local/bin".to_string(), InstallationScope::System),
        ]
    );
    assert_eq!(
        scan_roots(None),
        vec![
            ("/opt".to_string(), InstallationScope::System),
            ("/usr/local/bin".to_string(), InstallationScope::System),
        ]
    );
}

#[test]
fn integration_dir_is_under_the_home_directory() {
    assert_eq!(
        integration_dir(Some("/home/u")),
        Some("/home/u/.local/share/applications".to_string())
    );
    assert_eq!(integration_dir(None), None);
}

#[test]
fn the_signature_is_read_only_with_other_evidence() {
    assert!(should_read_signature(true, false));
    assert!(should_read_signature(false, true));
    assert!(!should_read_signature(false, false));
}

#[test]
fn build_item_confidence_is_medium_for_a_bare_extension() {
    let item = build_item(&candidate("/home/user/Applications/App.AppImage", false, false, true), InstallationScope::User, None);
    assert_eq!(item.classification_confidence, ClassificationConfidence::Medium);
}
