//! The manual software provider: executables, libraries and `/opt`
//! installs that no package manager owns. `.desktop` files and AppImages
//! are left to their own providers.
use vstd::prelude::*;

use crate::domain::{
    ClassificationConfidence, InstallationReason, InstallationScope, PackageManager,
    ProviderWarning, SoftwareCategory, SoftwareItem, SoftwareItemView, SoftwareRiskLevel,
    StringMap,
};
use crate::process::{ProcessRunner, RunError};
use crate::providers::{
    file_name_of, path_file_name, push_warning, appended_plain, ProviderId, ProviderMetadata,
};
use crate::text::{chars_of, contains_in, contains_seq, eq_ignore_ascii_case, opt_view, push_str, range_eq_ignore_ascii_case, strs_view};

verus! {

/// Where a candidate was found.
#[derive(Debug, Clone, Copy, PartialEq, Eq, Structural)]
pub enum DirKind {
    Opt,
    LocalBin,
    LocalLib,
}

/// Finds software installed by hand.
pub struct ManualSoftwareProvider {
    pub runner: ProcessRunner,
    pub dpkg_bin: String,
    pub opt_dir: String,
    pub usr_local_bin_dir: String,
    pub usr_local_lib_dir: String,
    pub home_override: Option<String>,
}

impl ManualSoftwareProvider {
    pub fn new() -> (p: Self)
        ensures
            p.dpkg_bin@ == "dpkg"@,
            p.opt_dir@ == "/opt"@,
            p.usr_local_bin_dir@ == "/usr/local/bin"@,
            p.usr_local_lib_dir@ == "/usr/local/lib"@,
            p.home_override is None,
            p.runner.timeout_ms == 15000,
            p.runner.max_output_bytes == 8388608,
    {
        ManualSoftwareProvider {
            runner: ProcessRunner::default(),
            dpkg_bin: "dpkg".to_owned(),
            opt_dir: "/opt".to_owned(),
            usr_local_bin_dir: "/usr/local/bin".to_owned(),
            usr_local_lib_dir: "/usr/local/lib".to_owned(),
            home_override: None,
        }
    }

    /// A provider looking in other directories, with `home` as the home directory.
    pub fn with_test_roots(opt_dir: &str, usr_local_bin_dir: &str, usr_local_lib_dir: &str, home: &str, dpkg_bin: &str) -> (p: Self)
        ensures
            p.opt_dir@ == opt_dir@,
            p.usr_local_bin_dir@ == usr_local_bin_dir@,
            p.usr_local_lib_dir@ == usr_local_lib_dir@,
            p.home_override matches Some(h) && h@ == home@,
            p.dpkg_bin@ == dpkg_bin@,
            p.runner.timeout_ms == 15000,
            p.runner.max_output_bytes == 8388608,
    {
        ManualSoftwareProvider {
            runner: ProcessRunner::default(),
            dpkg_bin: dpkg_bin.to_owned(),
            opt_dir: opt_dir.to_owned(),
            usr_local_bin_dir: usr_local_bin_dir.to_owned(),
            usr_local_lib_dir: usr_local_lib_dir.to_owned(),
            home_override: Some(home.to_owned()),
        }
    }

    pub fn id(&self) -> (id: ProviderId)
        ensures
            id.spec_str() == "manual"@,
    {
        ProviderId::new("manual")
    }

    pub fn metadata(&self) -> (m: ProviderMetadata)
        ensures
            m.id.spec_str() == "manual"@,
            m.display_name@ == "Manual Software"@,
            m.description@ == "Executables, libraries, and /opt installs not owned by any known package manager."@,
    {
        ProviderMetadata {
            id: ProviderId::new("manual"),
            display_name: "Manual Software",
            description: "Executables, libraries, and /opt installs not owned by any known package manager.",
        }
    }
}

/// A file or directory that may be software installed by hand.
#[derive(Debug, Clone, PartialEq)]
pub struct Candidate {
    pub path: String,
    pub kind: DirKind,
    pub is_dir: bool,
    pub scope: InstallationScope,
    pub size_bytes: Option<u64>,
    /// Last modification, in ms since the epoch.
    pub modified_at: Option<i64>,
    pub executable: bool,
}

/// Whether a plain file found in a directory of kind `kind` is a candidate:
/// AppImages in bin directories belong to the AppImage provider.
pub fn keeps_flat_file(kind: DirKind, path: &str) -> (b: bool)
    ensures
        b == !(kind == DirKind::LocalBin && (path_extension_is_appimage(path@))),
{
    if kind == DirKind::LocalBin {
        match crate::providers::extension_of(path) {
            Some(ext) => {
                let v = chars_of(ext.as_str());
                proof {
                    assert(v@.subrange(0, v@.len() as int) =~= v@);
                }
                !range_eq_ignore_ascii_case(&v, 0, v.len(), "AppImage")
            },
            None => true,
        }
    } else {
        true
    }
}

/// The path's extension is `AppImage`, in any ASCII case.
pub open spec fn path_extension_is_appimage(path: Seq<char>) -> bool {
    crate::providers::path_extension(path) matches Some(e) && eq_ignore_ascii_case(e, "AppImage"@)
}

pub open spec fn reason_opt_dir() -> Seq<char> {
    "found as a top-level directory under /opt (commonly used for self-contained application installs), not owned by any known package manager"@
}

/// How a candidate is classified: by where it was found, whether it is a
/// directory, whether it is executable and, in lib directories, whether its
/// name looks like a shared object.
pub open spec fn spec_classify_candidate(kind: DirKind, is_dir: bool, executable: bool, filename: Seq<char>) -> (
    SoftwareCategory,
    ClassificationConfidence,
    Seq<char>,
) {
    match (kind, is_dir) {
        (DirKind::Opt, true) => (SoftwareCategory::Application, ClassificationConfidence::Low, reason_opt_dir()),
        (DirKind::Opt, false) => if executable {
            (
                SoftwareCategory::CommandLineTool,
                ClassificationConfidence::Low,
                "found as an executable file directly under /opt, not owned by any known package manager"@,
            )
        } else {
            (
                SoftwareCategory::Miscellaneous,
                ClassificationConfidence::Low,
                "found as a non-executable file directly under /opt, not owned by any known package manager"@,
            )
        },
        (DirKind::LocalLib, false) => (
            SoftwareCategory::Library,
            if contains_seq(filename, ".so"@) {
                ClassificationConfidence::High
            } else {
                ClassificationConfidence::Medium
            },
            "found in /usr/local/lib, not owned by any known package manager"@,
        ),
        (DirKind::LocalBin, false) => (
            SoftwareCategory::CommandLineTool,
            if executable {
                ClassificationConfidence::Medium
            } else {
                ClassificationConfidence::Low
            },
            "found in a local bin directory, not owned by any known package manager"@,
        ),
        (_, true) => (
            SoftwareCategory::Unclassified,
            ClassificationConfidence::Unknown,
            "unexpected directory entry outside /opt -- not descended into"@,
        ),
    }
}

/// The category, confidence and reason of a candidate named `filename`.
pub fn classify_candidate(candidate: &Candidate, filename: &str) -> (r: (SoftwareCategory, ClassificationConfidence, String))
    ensures
        (r.0, r.1, r.2@) == spec_classify_candidate(candidate.kind, candidate.is_dir, candidate.executable, filename@),
{
    match (candidate.kind, candidate.is_dir) {
        (DirKind::Opt, true) => (
            SoftwareCategory::Application,
            ClassificationConfidence::Low,
            "found as a top-level directory under /opt (commonly used for self-contained application installs), not owned by any known package manager".to_owned(),
        ),
        (DirKind::Opt, false) => {
            if candidate.executable {
                (
                    SoftwareCategory::CommandLineTool,
                    ClassificationConfidence::Low,
                    "found as an executable file directly under /opt, not owned by any known package manager".to_owned(),
                )
            } else {
                (
                    SoftwareCategory::Miscellaneous,
                    ClassificationConfidence::Low,
                    "found as a non-executable file directly under /opt, not owned by any known package manager".to_owned(),
                )
            }
        },
        (DirKind::LocalLib, false) => {
            let v = chars_of(filename);
            let so = chars_of(".so");
            proof {
                assert(v@.subrange(0, v@.len() as int) =~= v@);
            }
            let looks_like_shared_object = contains_in(&v, 0, v.len(), &so);
            let confidence = if looks_like_shared_object {
                ClassificationConfidence::High
            } else {
                ClassificationConfidence::Medium
            };
            (
                SoftwareCategory::Library,
                confidence,
                "found in /usr/local/lib, not owned by any known package manager".to_owned(),
            )
        },
        (DirKind::LocalBin, false) => {
            let confidence = if candidate.executable {
                ClassificationConfidence::Medium
            } else {
                ClassificationConfidence::Low
            };
            (
                SoftwareCategory::CommandLineTool,
                confidence,
                "found in a local bin directory, not owned by any known package manager".to_owned(),
            )
        },
        (_, true) => (
            SoftwareCategory::Unclassified,
            ClassificationConfidence::Unknown,
            "unexpected directory entry outside /opt -- not descended into".to_owned(),
        ),
    }
}

pub open spec fn bool_text(b: bool) -> Seq<char> {
    if b {
        "true"@
    } else {
        "false"@
    }
}

fn bool_string(b: bool) -> (s: String)
    ensures
        s@ == bool_text(b),
{
    if b {
        "true".to_owned()
    } else {
        "false".to_owned()
    }
}

/// The item a candidate becomes: `manual:<path>`, named by its file name.
pub open spec fn manual_item(c: Candidate) -> SoftwareItemView {
    let filename = match path_file_name(c.path@) {
        Some(n) => n,
        None => Seq::empty(),
    };
    let cls = spec_classify_candidate(c.kind, c.is_dir, c.executable, filename);
    SoftwareItemView {
        id: "manual:"@ + c.path@,
        package_name: filename,
        display_name: match path_file_name(c.path@) {
            Some(n) => n,
            None => "(unknown)"@,
        },
        description: None,
        version: None,
        architecture: None,
        category: cls.0,
        secondary_categories: Seq::empty(),
        package_manager: PackageManager::Manual,
        package_source: None,
        scope: c.scope,
        install_paths: seq![c.path@],
        executable_paths: if !c.is_dir && c.executable {
            seq![c.path@]
        } else {
            Seq::empty()
        },
        desktop_file_paths: Seq::empty(),
        icon_path: None,
        package_section: None,
        installed_size_bytes: c.size_bytes,
        installed_at: c.modified_at,
        installation_reason: InstallationReason::Unknown,
        dependencies: Seq::empty(),
        reverse_dependencies: Seq::empty(),
        update_available: false,
        available_version: None,
        repository: None,
        homepage: None,
        license: None,
        classification_confidence: cls.1,
        classification_reasons: seq![cls.2],
        risk_level: SoftwareRiskLevel::Unknown,
        metadata: Map::<Seq<char>, Seq<char>>::empty().insert("executable"@, bool_text(c.executable)).insert(
            "is_directory"@,
            bool_text(c.is_dir),
        ),
        warnings: Seq::empty(),
    }
}

fn one_path(p: &String) -> (v: Vec<String>)
    ensures
        strs_view(v@) == seq![p@],
{
    let mut v: Vec<String> = Vec::new();
    v.push(p.clone());
    proof {
        assert(strs_view(v@) =~= seq![p@]);
    }
    v
}

/// The item for a candidate nothing owns.
pub fn build_item(candidate: &Candidate) -> (item: SoftwareItem)
    ensures
        item@ == manual_item(*candidate),
{
    let name = file_name_of(candidate.path.as_str());
    let filename = match &name {
        Some(n) => n.clone(),
        None => String::new(),
    };
    let display = match &name {
        Some(n) => n.clone(),
        None => "(unknown)".to_owned(),
    };
    let (category, confidence, reason) = classify_candidate(candidate, filename.as_str());
    let mut id = String::new();
    push_str(&mut id, "manual:");
    push_str(&mut id, candidate.path.as_str());
    let mut item = SoftwareItem::new(id.as_str(), filename.as_str(), display.as_str(), PackageManager::Manual);
    item.scope = candidate.scope;
    item.category = category;
    item.classification_confidence = confidence;
    let mut reasons: Vec<String> = Vec::new();
    reasons.push(reason);
    item.classification_reasons = reasons;
    item.installed_size_bytes = candidate.size_bytes;
    item.installed_at = candidate.modified_at;
    item.install_paths = one_path(&candidate.path);
    if !candidate.is_dir && candidate.executable {
        item.executable_paths = one_path(&candidate.path);
    }
    item.metadata.insert("executable".to_owned(), bool_string(candidate.executable));
    item.metadata.insert("is_directory".to_owned(), bool_string(candidate.is_dir));
    proof {
        let want = manual_item(*candidate);
        assert(item@.metadata =~= want.metadata);
        assert(item@.classification_reasons =~= want.classification_reasons);
        assert(item@.executable_paths =~= want.executable_paths);
        assert(item@.desktop_file_paths =~= want.desktop_file_paths);
        assert(item@.dependencies =~= want.dependencies);
        assert(item@.reverse_dependencies =~= want.reverse_dependencies);
        assert(item@.warnings =~= want.warnings);
        assert(item@.secondary_categories =~= want.secondary_categories);
    }
    item
}

/// Whether some package owns the candidate's path.
pub fn is_owned(candidate: &Candidate, owners: &StringMap) -> (b: bool)
    ensures
        b == owners@.contains_key(candidate.path@),
{
    owners.contains_key(candidate.path.as_str())
}

/// One item per candidate that no package owns, in order.
pub fn items_from_candidates(candidates: &Vec<Candidate>, owners: &StringMap) -> (items: Vec<SoftwareItem>)
    ensures
        crate::domain::items_view(items@) == unowned_items(candidates@, owners@),
{
    let mut items: Vec<SoftwareItem> = Vec::new();
    let mut i: usize = 0;
    proof {
        assert(crate::domain::items_view(items@) =~= unowned_items(candidates@.take(0), owners@));
    }
    while i < candidates.len()
        invariant
            0 <= i <= candidates@.len(),
            crate::domain::items_view(items@) == unowned_items(candidates@.take(i as int), owners@),
        decreases candidates@.len() - i,
    {
        proof {
            assert(candidates@.take(i + 1).drop_last() =~= candidates@.take(i as int));
        }
        if !is_owned(&candidates[i], owners) {
            let ghost before = items@;
            items.push(build_item(&candidates[i]));
            proof {
                assert(crate::domain::items_view(items@) =~= crate::domain::items_view(before).push(manual_item(candidates@[i as int])));
            }
        }
        i += 1;
    }
    proof {
        assert(candidates@.take(i as int) =~= candidates@);
    }
    items
}

/// The items of the candidates whose paths no package owns, in order.
pub open spec fn unowned_items(cs: Seq<Candidate>, owners: Map<Seq<char>, Seq<char>>) -> Seq<SoftwareItemView>
    decreases cs.len(),
{
    if cs.len() == 0 {
        Seq::empty()
    } else if owners.contains_key(cs.last().path@) {
        unowned_items(cs.drop_last(), owners)
    } else {
        unowned_items(cs.drop_last(), owners).push(manual_item(cs.last()))
    }
}

pub open spec fn msg_ownership_failed(error: RunError) -> Seq<char> {
    "could not check dpkg ownership for candidate manual paths ("@ + error.spec_message()
        + "); proceeding as if all candidates are unowned"@
}

/// The ownership table from `dpkg -S`'s outcome; a failure is warned about
/// and every candidate is then treated as unowned.
pub fn ownership_outcome(outcome: Result<StringMap, RunError>, warnings: &mut Vec<ProviderWarning>) -> (owners: StringMap)
    ensures
        outcome matches Ok(m) ==> owners@ == m@ && final(warnings)@ == old(warnings)@,
        outcome matches Err(e) ==> owners@ == Map::<Seq<char>, Seq<char>>::empty() && appended_plain(
            old(warnings)@,
            final(warnings)@,
            seq![msg_ownership_failed(e)],
        ),
{
    match outcome {
        Ok(m) => m,
        Err(error) => {
            let mut m = String::new();
            push_str(&mut m, "could not check dpkg ownership for candidate manual paths (");
            let text = error.message();
            push_str(&mut m, text.as_str());
            push_str(&mut m, "); proceeding as if all candidates are unowned");
            proof {
                assert(m@ =~= msg_ownership_failed(error));
            }
            push_warning(warnings, m);
            StringMap::new()
        },
    }
}

} // verus!
