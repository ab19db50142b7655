//! The desktop entry provider: `.desktop` launchers in the standard
//! application directories. An entry some package owns is reported under
//! that package's `apt:` id and left unclassified, to be merged with it;
//! an entry nothing owns is classified on its own under a `desktop:` id.
use vstd::prelude::*;

use crate::classification::{
    classify, lemma_classify_same, same_evidence, spec_classify, Evidence,
};
use crate::desktop_parser::{
    parse_desktop_entry, spec_parse_desktop_entry, DesktopEntryRecord, DesktopEntryView,
};
use crate::domain::{
    ClassificationConfidence, InstallationReason, InstallationScope, PackageManager,
    ProviderWarning, SoftwareCategory, SoftwareItem, SoftwareItemView, SoftwareRiskLevel,
    StringMap,
};
use crate::process::{ProcessRunner, RunError};
use crate::providers::{
    appended_plain, extend_warnings, file_name_of, file_stem_of, extension_of, path_extension,
    path_file_name, path_file_stem, push_warning, ProviderId, ProviderMetadata,
};
use crate::text::{joined, opt_view, push_joined, push_str, str_eq, strs_view};

verus! {

/// How deep below an applications directory the scan descends.
pub const MAX_RECURSION_DEPTH: usize = 2;

/// How many bytes of a `.desktop` file are read at most.
pub const MAX_DESKTOP_FILE_BYTES: u64 = 1048576;

/// Finds `.desktop` launchers and asks dpkg which package owns each.
pub struct DesktopProvider {
    pub runner: ProcessRunner,
    pub dpkg_bin: String,
}

impl DesktopProvider {
    pub fn new() -> (p: Self)
        ensures
            p.dpkg_bin@ == "dpkg"@,
            p.runner.timeout_ms == 15000,
            p.runner.max_output_bytes == 8388608,
    {
        DesktopProvider { runner: ProcessRunner::default(), dpkg_bin: "dpkg".to_owned() }
    }

    /// A provider that runs `dpkg_bin` in place of `dpkg`.
    pub fn with_binary(runner: ProcessRunner, dpkg_bin: &str) -> (p: Self)
        ensures
            p.runner == runner,
            p.dpkg_bin@ == dpkg_bin@,
    {
        DesktopProvider { runner, dpkg_bin: dpkg_bin.to_owned() }
    }

    pub fn id(&self) -> (id: ProviderId)
        ensures
            id.spec_str() == "desktop"@,
    {
        ProviderId::new("desktop")
    }

    pub fn metadata(&self) -> (m: ProviderMetadata)
        ensures
            m.id.spec_str() == "desktop"@,
            m.display_name@ == "Desktop Entries"@,
            m.description@ == "Application launchers discovered from .desktop files."@,
    {
        ProviderMetadata {
            id: ProviderId::new("desktop"),
            display_name: "Desktop Entries",
            description: "Application launchers discovered from .desktop files.",
        }
    }

    /// The filesystem is always there to look at: the provider is always available.
    pub fn is_available(&self) -> (b: bool)
        ensures
            b,
    {
        true
    }
}

impl Default for DesktopProvider {
    fn default() -> (p: Self)
        ensures
            p.dpkg_bin@ == "dpkg"@,
    {
        DesktopProvider::new()
    }
}

// ---------------------------------------------------------------------------
// Where to look

pub open spec fn msg_no_user_dir() -> Seq<char> {
    "could not determine the user's local applications directory (no home directory found)"@
}

/// The directories to scan, highest priority first: the user's own (when
/// there is a home directory; else a warning), then `/usr/local/share` and
/// `/usr/share`.
pub open spec fn spec_ordered_dirs(user_dir: Option<Seq<char>>) -> Seq<(Seq<char>, InstallationScope)> {
    let system = seq![
        ("/usr/local/share/applications"@, InstallationScope::System),
        ("/usr/share/applications"@, InstallationScope::System),
    ];
    match user_dir {
        Some(d) => seq![(d, InstallationScope::User)] + system,
        None => system,
    }
}

pub open spec fn dirs_view(s: Seq<(String, InstallationScope)>) -> Seq<(Seq<char>, InstallationScope)> {
    s.map_values(|p: (String, InstallationScope)| (p.0@, p.1))
}

/// The applications directories in priority order, each with the scope of what is found there.
pub fn ordered_dirs(user_dir: Option<String>, warnings: &mut Vec<ProviderWarning>) -> (dirs: Vec<(String, InstallationScope)>)
    ensures
        dirs_view(dirs@) == spec_ordered_dirs(opt_view(user_dir)),
        user_dir is Some ==> final(warnings)@ == old(warnings)@,
        user_dir is None ==> appended_plain(old(warnings)@, final(warnings)@, seq![msg_no_user_dir()]),
{
    let mut dirs: Vec<(String, InstallationScope)> = Vec::new();
    match user_dir {
        Some(d) => {
            dirs.push((d, InstallationScope::User));
        },
        None => {
            let m = "could not determine the user's local applications directory (no home directory found)".to_owned();
            push_warning(warnings, m);
        },
    }
    dirs.push(("/usr/local/share/applications".to_owned(), InstallationScope::System));
    dirs.push(("/usr/share/applications".to_owned(), InstallationScope::System));
    proof {
        assert(dirs_view(dirs@) =~= spec_ordered_dirs(opt_view(user_dir)));
    }
    dirs
}

/// Whether a directory `depth` levels below an applications directory is
/// still read (subdirectories are entered, symlinks to them never).
pub fn within_depth(depth: usize) -> (b: bool)
    ensures
        b == (depth <= MAX_RECURSION_DEPTH),
{
    depth <= MAX_RECURSION_DEPTH
}

/// Whether a plain file is a launcher: its extension is exactly `desktop`.
pub fn is_desktop_file(path: &str) -> (b: bool)
    ensures
        b == (path_extension(path@) == Some("desktop"@)),
{
    match extension_of(path) {
        Some(ext) => {
            proof {
                reveal_strlit("desktop");
            }
            str_eq(ext.as_str(), "desktop")
        },
        None => false,
    }
}

/// The files found, in priority order, with each file name kept once: a
/// user's override shadows the system launcher of the same name. Paths
/// without a file name are dropped.
pub open spec fn first_by_file_name(fs: Seq<(Seq<char>, InstallationScope)>) -> Seq<(Seq<char>, InstallationScope)>
    decreases fs.len(),
{
    if fs.len() == 0 {
        Seq::empty()
    } else {
        let kept = first_by_file_name(fs.drop_last());
        match path_file_name(fs.last().0) {
            None => kept,
            Some(n) => if exists|j: int| 0 <= j < kept.len() && path_file_name(#[trigger] kept[j].0) == Some(n) {
                kept
            } else {
                kept.push(fs.last())
            },
        }
    }
}

/// Drops every file whose name an earlier file already has.
pub fn dedupe_by_file_name(found: Vec<(String, InstallationScope)>) -> (files: Vec<(String, InstallationScope)>)
    ensures
        dirs_view(files@) == first_by_file_name(dirs_view(found@)),
{
    let mut files: Vec<(String, InstallationScope)> = Vec::new();
    let mut names: Vec<String> = Vec::new();
    let mut i: usize = 0;
    while i < found.len()
        invariant
            0 <= i <= found@.len(),
            dirs_view(files@) == first_by_file_name(dirs_view(found@.take(i as int))),
            names@.len() == files@.len(),
            forall|j: int| 0 <= j < names@.len() ==> path_file_name(#[trigger] files@[j].0@) == Some(names@[j]@),
        decreases found@.len() - i,
    {
        let ghost before = dirs_view(found@.take(i as int));
        proof {
            assert(dirs_view(found@.take(i + 1)).drop_last() =~= before);
            assert(dirs_view(found@.take(i + 1)).last() == (found@[i as int].0@, found@[i as int].1));
        }
        let entry = &found[i];
        match file_name_of(entry.0.as_str()) {
            None => {},
            Some(n) => {
                let mut seen = false;
                let mut k: usize = 0;
                while k < names.len()
                    invariant
                        0 <= k <= names@.len(),
                        seen <==> exists|j: int| 0 <= j < k && names@[j]@ == n@,
                    decreases names@.len() - k,
                {
                    if str_eq(names[k].as_str(), n.as_str()) {
                        seen = true;
                    }
                    k += 1;
                }
                let ghost kept = dirs_view(files@);
                proof {
                    if seen {
                        let j = choose|j: int| 0 <= j < names@.len() && names@[j]@ == n@;
                        assert(path_file_name(kept[j].0) == Some(n@));
                    } else {
                        assert forall|j: int| 0 <= j < kept.len() implies path_file_name(#[trigger] kept[j].0) != Some(n@) by {
                            assert(path_file_name(files@[j].0@) == Some(names@[j]@));
                        }
                    }
                }
                if !seen {
                    files.push((entry.0.clone(), entry.1));
                    names.push(n);
                    proof {
                        assert(dirs_view(files@) =~= kept.push((found@[i as int].0@, found@[i as int].1)));
                    }
                }
            },
        }
        i += 1;
    }
    proof {
        assert(found@.take(i as int) =~= found@);
    }
    files
}

// ---------------------------------------------------------------------------
// Ownership

pub open spec fn msg_owners_failed(error: RunError) -> Seq<char> {
    "could not resolve desktop entry package ownership via dpkg -S ("@ + error.spec_message()
        + "); all entries will be treated as unowned"@
}

/// The ownership table from `dpkg -S`'s outcome; a failure is warned about
/// and every entry is then treated as unowned.
pub fn owners_outcome(outcome: Result<StringMap, RunError>, warnings: &mut Vec<ProviderWarning>) -> (owners: StringMap)
    ensures
        outcome matches Ok(m) ==> owners@ == m@ && final(warnings)@ == old(warnings)@,
        outcome matches Err(e) ==> owners@ == Map::<Seq<char>, Seq<char>>::empty() && appended_plain(
            old(warnings)@,
            final(warnings)@,
            seq![msg_owners_failed(e)],
        ),
{
    match outcome {
        Ok(m) => m,
        Err(error) => {
            let mut m = String::new();
            push_str(&mut m, "could not resolve desktop entry package ownership via dpkg -S (");
            let text = error.message();
            push_str(&mut m, text.as_str());
            push_str(&mut m, "); all entries will be treated as unowned");
            proof {
                assert(m@ =~= msg_owners_failed(error));
            }
            push_warning(warnings, m);
            StringMap::new()
        },
    }
}

// ---------------------------------------------------------------------------
// Items

/// The package name of an entry nothing owns: its file's stem, else its `Name`.
pub open spec fn unowned_package(r: DesktopEntryView, path: Seq<char>) -> Seq<char> {
    match path_file_stem(path) {
        Some(s) => s,
        None => r.name,
    }
}

/// The evidence an unowned entry is classified by: its package name, that
/// it has a launcher, and its `Categories`.
pub open spec fn desktop_evidence(e: Evidence, package: Seq<char>, categories: Seq<Seq<char>>) -> bool {
    &&& e.package_name@ == package
    &&& e.debian_section is None
    &&& e.has_desktop_launcher
    &&& strs_view(e.desktop_categories@) == categories
    &&& !e.has_executables
    &&& !e.owns_shared_libraries
    &&& !e.owns_header_files
    &&& !e.owns_pkgconfig_files
    &&& !e.owns_font_files
    &&& !e.owns_firmware_files
    &&& !e.owns_kernel_module_files
    &&& !e.owns_systemd_unit_files
    &&& !e.owns_gtk_theme_files
    &&& !e.owns_icon_theme_files
    &&& !e.documentation_only
}

pub open spec fn put_opt(m: Map<Seq<char>, Seq<char>>, k: Seq<char>, v: Option<Seq<char>>) -> Map<Seq<char>, Seq<char>> {
    match v {
        Some(x) => m.insert(k, x),
        None => m,
    }
}

pub open spec fn put_flag(m: Map<Seq<char>, Seq<char>>, k: Seq<char>, b: bool) -> Map<Seq<char>, Seq<char>> {
    if b {
        m.insert(k, "true"@)
    } else {
        m
    }
}

/// The metadata of an entry's item: its owner, the launcher's other fields
/// (`Exec` verbatim, never interpreted) and its categories joined by `;`.
pub open spec fn desktop_metadata(r: DesktopEntryView, owner: Option<Seq<char>>) -> Map<Seq<char>, Seq<char>> {
    let m0 = put_opt(Map::empty(), "owning_package"@, owner);
    let m1 = put_opt(m0, "generic_name"@, r.generic_name);
    let m2 = put_opt(m1, "exec"@, r.exec_line);
    let m3 = put_opt(m2, "startup_wm_class"@, r.startup_wm_class);
    let m4 = put_flag(m3, "terminal"@, r.terminal);
    let m5 = put_flag(m4, "desktop_no_display"@, r.no_display);
    let m6 = put_flag(m5, "desktop_hidden"@, r.hidden);
    if r.categories.len() > 0 {
        m6.insert("categories"@, joined(r.categories, ";"@))
    } else {
        m6
    }
}

/// The item for entry `r` at `path`: under its owner's `apt:` id and
/// unclassified when owned, else under `desktop:<stem>` and classified as `c` says.
pub open spec fn desktop_item(
    r: DesktopEntryView,
    path: Seq<char>,
    scope: InstallationScope,
    owner: Option<Seq<char>>,
    c: (SoftwareCategory, Seq<SoftwareCategory>, ClassificationConfidence, Seq<Seq<char>>),
) -> SoftwareItemView {
    let stem = unowned_package(r, path);
    SoftwareItemView {
        id: match owner {
            Some(p) => "apt:"@ + p,
            None => "desktop:"@ + stem,
        },
        package_name: match owner {
            Some(p) => p,
            None => stem,
        },
        display_name: r.name,
        description: r.comment,
        version: None,
        architecture: None,
        category: if owner is Some { SoftwareCategory::Unclassified } else { c.0 },
        secondary_categories: if owner is Some { Seq::empty() } else { c.1 },
        package_manager: if owner is Some { PackageManager::Apt } else { PackageManager::Manual },
        package_source: None,
        scope: scope,
        install_paths: Seq::empty(),
        executable_paths: Seq::empty(),
        desktop_file_paths: seq![path],
        icon_path: r.icon,
        package_section: None,
        installed_size_bytes: None,
        installed_at: None,
        installation_reason: InstallationReason::Unknown,
        dependencies: Seq::empty(),
        reverse_dependencies: Seq::empty(),
        update_available: false,
        available_version: None,
        repository: None,
        homepage: None,
        license: None,
        classification_confidence: if owner is Some { ClassificationConfidence::Unknown } else { c.2 },
        classification_reasons: if owner is Some { Seq::empty() } else { c.3 },
        risk_level: SoftwareRiskLevel::Unknown,
        metadata: desktop_metadata(r, owner),
        warnings: Seq::empty(),
    }
}

pub open spec fn str_opt_view(o: Option<&str>) -> Option<Seq<char>> {
    match o {
        Some(s) => Some(s@),
        None => None,
    }
}

fn put_opt_exec(m: &mut StringMap, k: &str, v: &Option<String>)
    ensures
        final(m)@ == put_opt(old(m)@, k@, opt_view(*v)),
{
    match v {
        Some(x) => {
            m.insert(k.to_owned(), x.clone());
        },
        None => {},
    }
}

fn put_flag_exec(m: &mut StringMap, k: &str, b: bool)
    ensures
        final(m)@ == put_flag(old(m)@, k@, b),
{
    if b {
        proof {
            reveal_strlit("true");
        }
        m.insert(k.to_owned(), "true".to_owned());
    }
}

/// The item for one launcher, owned by `owner` or by nothing.
pub fn build_item(record: &DesktopEntryRecord, path: &str, scope: InstallationScope, owner: Option<&str>) -> (item: SoftwareItem)
    ensures
        forall|e: Evidence|
            desktop_evidence(e, unowned_package(record@, path@), record@.categories) ==> item@ == desktop_item(
                record@,
                path@,
                scope,
                str_opt_view(owner),
                spec_classify(e),
            ),
{
    let stem = match file_stem_of(path) {
        Some(s) => s,
        None => record.name.clone(),
    };
    let evidence = Evidence {
        package_name: stem.clone(),
        debian_section: None,
        has_desktop_launcher: true,
        desktop_categories: crate::domain::clone_strings(&record.categories),
        has_executables: false,
        owns_shared_libraries: false,
        owns_header_files: false,
        owns_pkgconfig_files: false,
        owns_font_files: false,
        owns_firmware_files: false,
        owns_kernel_module_files: false,
        owns_systemd_unit_files: false,
        owns_gtk_theme_files: false,
        owns_icon_theme_files: false,
        documentation_only: false,
    };
    let mut id = String::new();
    let mut item = match owner {
        Some(pkg) => {
            push_str(&mut id, "apt:");
            push_str(&mut id, pkg);
            SoftwareItem::new(id.as_str(), pkg, record.name.as_str(), PackageManager::Apt)
        },
        None => {
            push_str(&mut id, "desktop:");
            push_str(&mut id, stem.as_str());
            SoftwareItem::new(id.as_str(), stem.as_str(), record.name.as_str(), PackageManager::Manual)
        },
    };
    item.scope = scope;
    let mut paths: Vec<String> = Vec::new();
    paths.push(path.to_owned());
    item.desktop_file_paths = paths;
    item.icon_path = crate::domain::clone_opt(&record.icon);
    item.description = crate::domain::clone_opt(&record.comment);
    let ghost cls = spec_classify(evidence);
    match owner {
        Some(pkg) => {
            item.metadata.insert("owning_package".to_owned(), pkg.to_owned());
        },
        None => {
            let classification = classify(&evidence);
            item.category = classification.category;
            item.secondary_categories = classification.secondary_categories;
            item.classification_confidence = classification.confidence;
            item.classification_reasons = classification.reasons;
            proof {
                assert(strs_view(item.classification_reasons@) =~= cls.3);
            }
        },
    }
    let ghost m0 = item.metadata@;
    proof {
        assert(m0 == put_opt(Map::empty(), "owning_package"@, str_opt_view(owner)));
    }
    put_opt_exec(&mut item.metadata, "generic_name", &record.generic_name);
    put_opt_exec(&mut item.metadata, "exec", &record.exec_line);
    put_opt_exec(&mut item.metadata, "startup_wm_class", &record.startup_wm_class);
    put_flag_exec(&mut item.metadata, "terminal", record.terminal);
    put_flag_exec(&mut item.metadata, "desktop_no_display", record.no_display);
    put_flag_exec(&mut item.metadata, "desktop_hidden", record.hidden);
    if record.categories.len() > 0 {
        let mut joined_text = String::new();
        push_joined(&mut joined_text, &record.categories, ";");
        item.metadata.insert("categories".to_owned(), joined_text);
    }
    proof {
        assert(item.metadata@ == desktop_metadata(record@, str_opt_view(owner)));
        assert forall|e: Evidence|
            desktop_evidence(e, unowned_package(record@, path@), record@.categories) implies item@
            == desktop_item(record@, path@, scope, str_opt_view(owner), spec_classify(e)) by {
            assert(same_evidence(e, evidence));
            lemma_classify_same(e, evidence);
            let want = desktop_item(record@, path@, scope, str_opt_view(owner), spec_classify(e));
            assert(item@.desktop_file_paths =~= want.desktop_file_paths);
            assert(item@.install_paths =~= want.install_paths);
            assert(item@.executable_paths =~= want.executable_paths);
            assert(item@.dependencies =~= want.dependencies);
            assert(item@.reverse_dependencies =~= want.reverse_dependencies);
            assert(item@.warnings =~= want.warnings);
            assert(item@.secondary_categories =~= want.secondary_categories);
            assert(item@.classification_reasons =~= want.classification_reasons);
        }
    }
    item
}

/// What reading one found file gives: its text, or why it could not be read.
pub open spec fn msg_unreadable(path: Seq<char>, error: Seq<char>) -> Seq<char> {
    "could not read "@ + path + ": "@ + error
}

/// Turns one found launcher into an item: an unreadable file is warned
/// about; otherwise its parse warnings are kept and, when it describes an
/// application, its item is appended with the owner `owners` gives its path.
pub fn add_entry(
    path: &String,
    scope: InstallationScope,
    read: Result<String, String>,
    owners: &StringMap,
    items: &mut Vec<SoftwareItem>,
    warnings: &mut Vec<ProviderWarning>,
)
    ensures
        read matches Err(msg) ==> final(items)@ == old(items)@ && appended_plain(
            old(warnings)@,
            final(warnings)@,
            seq![msg_unreadable(path@, msg@)],
        ),
        read matches Ok(content) ==> {
            let (entry, ws) = spec_parse_desktop_entry(content@, path@);
            let owner = if owners@.contains_key(path@) {
                Some(owners@[path@])
            } else {
                None
            };
            &&& appended_plain(old(warnings)@, final(warnings)@, ws)
            &&& entry is None ==> final(items)@ == old(items)@
            &&& entry matches Some(r) ==> {
                &&& final(items)@.len() == old(items)@.len() + 1
                &&& forall|j: int| 0 <= j < old(items)@.len() ==> #[trigger] final(items)@[j] == old(items)@[j]
                &&& forall|e: Evidence|
                    desktop_evidence(e, unowned_package(r, path@), r.categories) ==> final(items)@.last()@
                        == desktop_item(r, path@, scope, owner, spec_classify(e))
            }
        },
{
    match read {
        Err(msg) => {
            let mut m = String::new();
            push_str(&mut m, "could not read ");
            push_str(&mut m, path.as_str());
            push_str(&mut m, ": ");
            push_str(&mut m, msg.as_str());
            proof {
                assert(m@ =~= msg_unreadable(path@, msg@));
            }
            push_warning(warnings, m);
        },
        Ok(content) => {
            let mut parse_warnings: Vec<String> = Vec::new();
            let record = parse_desktop_entry(content.as_str(), path.as_str(), &mut parse_warnings);
            proof {
                let ws = spec_parse_desktop_entry(content@, path@).1;
                assert(parse_warnings@.len() == ws.len());
                assert forall|i: int| 0 <= i < ws.len() implies #[trigger] strs_view(parse_warnings@)[i] == ws[i] by {
                    assert(parse_warnings@[0 + i]@ == ws[i]);
                }
                assert(strs_view(parse_warnings@) =~= ws);
            }
            extend_warnings(warnings, &parse_warnings);
            match record {
                None => {},
                Some(r) => {
                    let owner = owners.get(path.as_str());
                    let item = match owner {
                        Some(o) => build_item(&r, path.as_str(), scope, Some(o.as_str())),
                        None => build_item(&r, path.as_str(), scope, None),
                    };
                    items.push(item);
                },
            }
        },
    }
}

// ---------------------------------------------------------------------------
// Laws

/// A launcher that dpkg says some package owns is reported under that
/// package's `apt:` id, the id the APT provider gives the package, so that
/// merging by id joins them into one item.
pub proof fn law_owned_entry_shares_apt_id(
    r: DesktopEntryView,
    path: Seq<char>,
    scope: InstallationScope,
    c: (SoftwareCategory, Seq<SoftwareCategory>, ClassificationConfidence, Seq<Seq<char>>),
    record: crate::apt_parser::DpkgRecordView,
    manual: Option<Set<Seq<char>>>,
    upgradable: Map<Seq<char>, Seq<char>>,
    c2: (SoftwareCategory, Seq<SoftwareCategory>, ClassificationConfidence, Seq<Seq<char>>),
)
    ensures
        desktop_item(r, path, scope, Some(record.package), c).id == crate::providers::apt::apt_item(
            record,
            manual,
            upgradable,
            c2,
        ).id,
        desktop_item(r, path, scope, Some(record.package), c).package_manager == PackageManager::Apt,
{
}

/// After dropping shadowed launchers, no two kept files share a file name,
/// every kept file has one, and each is one of the files found.
pub proof fn law_kept_files_have_distinct_names(fs: Seq<(Seq<char>, InstallationScope)>)
    ensures
        forall|i: int, j: int|
            0 <= i < j < first_by_file_name(fs).len() ==> path_file_name((#[trigger] first_by_file_name(fs)[i]).0)
                != path_file_name((#[trigger] first_by_file_name(fs)[j]).0),
        forall|i: int| 0 <= i < first_by_file_name(fs).len() ==> (#[trigger] path_file_name(first_by_file_name(fs)[i].0)) is Some,
        forall|i: int| 0 <= i < first_by_file_name(fs).len() ==> fs.contains(#[trigger] first_by_file_name(fs)[i]),
    decreases fs.len(),
{
    if fs.len() > 0 {
        let p = fs.drop_last();
        law_kept_files_have_distinct_names(p);
        let kept = first_by_file_name(p);
        let r = first_by_file_name(fs);
        assert forall|i: int| 0 <= i < r.len() implies fs.contains(#[trigger] r[i]) by {
            if i < kept.len() {
                assert(r[i] == kept[i]);
                let k = choose|k: int| 0 <= k < p.len() && p[k] == kept[i];
                assert(fs[k] == p[k]);
            } else {
                assert(r[i] == fs.last());
                assert(fs[fs.len() - 1] == fs.last());
            }
        }
        assert forall|i: int, j: int|
            0 <= i < j < r.len() implies path_file_name((#[trigger] r[i]).0) != path_file_name((#[trigger] r[j]).0) by {
            if j < kept.len() {
                assert(r[i] == kept[i] && r[j] == kept[j]);
            } else {
                assert(r[j] == fs.last());
                assert(r[i] == kept[i]);
                assert(path_file_name(kept[i].0) is Some);
            }
        }
        assert forall|i: int| 0 <= i < r.len() implies (#[trigger] path_file_name(r[i].0)) is Some by {
            if i < kept.len() {
                assert(r[i] == kept[i]);
            }
        }
    }
}

} // verus!
