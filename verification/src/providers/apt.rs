//! The APT/dpkg provider: one batched `dpkg-query` call for the inventory,
//! then `apt-mark showmanual` and `apt list --upgradable`, whose failures
//! only degrade the result.
use vstd::prelude::*;

use crate::apt_parser::{
    parse_manual_packages, parse_upgradable, spec_parse_upgradable, DpkgRecord, DpkgRecordView,
    NameSet, DPKG_QUERY_FORMAT,
};
use crate::classification::{classify, lemma_classify_same, same_evidence, spec_classify, Evidence};
use crate::domain::{
    clone_strings, ClassificationConfidence, InstallationReason, InstallationScope, PackageManager,
    ProviderWarning, SoftwareCategory, SoftwareItem, SoftwareItemView, SoftwareRiskLevel,
    StringMap,
};
use crate::process::{CommandOutput, CommandSpec, ProcessRunner, RunError};
use crate::providers::{appended_plain, extend_warnings, push_warning, ProviderId, ProviderMetadata};
use crate::text::{opt_view, push_str, strs_view};

verus! {

/// Inventories the packages dpkg knows as installed.
pub struct AptProvider {
    pub runner: ProcessRunner,
    pub dpkg_query_bin: String,
    pub apt_mark_bin: String,
    pub apt_bin: String,
}

impl AptProvider {
    pub fn new() -> (p: Self)
        ensures
            p.dpkg_query_bin@ == "dpkg-query"@,
            p.apt_mark_bin@ == "apt-mark"@,
            p.apt_bin@ == "apt"@,
            p.runner.timeout_ms == 15000,
            p.runner.max_output_bytes == 8388608,
    {
        AptProvider {
            runner: ProcessRunner::default(),
            dpkg_query_bin: "dpkg-query".to_owned(),
            apt_mark_bin: "apt-mark".to_owned(),
            apt_bin: "apt".to_owned(),
        }
    }

    /// A provider running other binaries under other limits.
    pub fn with_binaries(runner: ProcessRunner, dpkg_query_bin: &str, apt_mark_bin: &str, apt_bin: &str) -> (p: Self)
        ensures
            p.runner == runner,
            p.dpkg_query_bin@ == dpkg_query_bin@,
            p.apt_mark_bin@ == apt_mark_bin@,
            p.apt_bin@ == apt_bin@,
    {
        AptProvider {
            runner,
            dpkg_query_bin: dpkg_query_bin.to_owned(),
            apt_mark_bin: apt_mark_bin.to_owned(),
            apt_bin: apt_bin.to_owned(),
        }
    }

    pub fn runner(&self) -> (r: ProcessRunner)
        ensures
            r == self.runner,
    {
        self.runner
    }

    pub fn id(&self) -> (id: ProviderId)
        ensures
            id.spec_str() == "apt"@,
    {
        ProviderId::new("apt")
    }

    pub fn metadata(&self) -> (m: ProviderMetadata)
        ensures
            m.id.spec_str() == "apt"@,
            m.display_name@ == "APT / dpkg"@,
            m.description@ == "Packages installed via APT and tracked by dpkg."@,
    {
        ProviderMetadata {
            id: ProviderId::new("apt"),
            display_name: "APT / dpkg",
            description: "Packages installed via APT and tracked by dpkg.",
        }
    }

    /// `dpkg-query --version`: whether dpkg is there at all.
    pub fn availability_command(&self) -> (c: CommandSpec)
        ensures
            c.program@ == self.dpkg_query_bin@,
            strs_view(c.args@) == seq!["--version"@],
    {
        CommandSpec::new(self.dpkg_query_bin.as_str()).arg("--version")
    }

    /// `dpkg-query -W --showformat <format>`: every package in one call.
    pub fn inventory_command(&self) -> (c: CommandSpec)
        ensures
            c.program@ == self.dpkg_query_bin@,
            strs_view(c.args@) == seq!["-W"@, "--showformat"@, DPKG_QUERY_FORMAT@],
    {
        CommandSpec::new(self.dpkg_query_bin.as_str()).arg("-W").arg("--showformat").arg(
            DPKG_QUERY_FORMAT,
        )
    }

    /// `apt-mark showmanual`.
    pub fn manual_command(&self) -> (c: CommandSpec)
        ensures
            c.program@ == self.apt_mark_bin@,
            strs_view(c.args@) == seq!["showmanual"@],
    {
        CommandSpec::new(self.apt_mark_bin.as_str()).arg("showmanual")
    }

    /// `apt list --upgradable`.
    pub fn upgradable_command(&self) -> (c: CommandSpec)
        ensures
            c.program@ == self.apt_bin@,
            strs_view(c.args@) == seq!["list"@, "--upgradable"@],
    {
        CommandSpec::new(self.apt_bin.as_str()).arg("list").arg("--upgradable")
    }
}

impl Default for AptProvider {
    fn default() -> (p: Self)
        ensures
            p.dpkg_query_bin@ == "dpkg-query"@,
            p.apt_mark_bin@ == "apt-mark"@,
            p.apt_bin@ == "apt"@,
    {
        AptProvider::new()
    }
}

pub open spec fn msg_manual_failed(error: RunError) -> Seq<char> {
    "could not determine manual vs. automatic installation state via apt-mark ("@
        + error.spec_message() + "); installation reason will be left unknown for all items"@
}

pub open spec fn msg_upgradable_failed(error: RunError) -> Seq<char> {
    "could not determine available updates via \"apt list --upgradable\" ("@ + error.spec_message()
        + ")"@
}

/// The manually installed packages from `apt-mark showmanual`'s outcome; a
/// failure is warned about and leaves the reason unknown for every item.
pub fn manual_packages_outcome(
    outcome: Result<CommandOutput, RunError>,
    warnings: &mut Vec<ProviderWarning>,
) -> (r: Option<NameSet>)
    ensures
        outcome matches Ok(o) ==> (r matches Some(set) && set@ == crate::apt_parser::spec_manual_packages(o.stdout@))
            && final(warnings)@ == old(warnings)@,
        outcome matches Err(e) ==> r is None && appended_plain(old(warnings)@, final(warnings)@, seq![msg_manual_failed(e)]),
{
    match outcome {
        Ok(output) => Some(parse_manual_packages(output.stdout.as_str())),
        Err(error) => {
            let mut m = String::new();
            push_str(&mut m, "could not determine manual vs. automatic installation state via apt-mark (");
            let text = error.message();
            push_str(&mut m, text.as_str());
            push_str(&mut m, "); installation reason will be left unknown for all items");
            proof {
                assert(m@ =~= msg_manual_failed(error));
            }
            push_warning(warnings, m);
            None
        },
    }
}

/// The upgradable packages from `apt list --upgradable`'s outcome, its
/// parse warnings appended; a failure is warned about and gives none.
pub fn upgradable_outcome(
    outcome: Result<CommandOutput, RunError>,
    warnings: &mut Vec<ProviderWarning>,
) -> (r: StringMap)
    ensures
        outcome matches Ok(o) ==> r@ == spec_parse_upgradable(o.stdout@).0 && appended_plain(
            old(warnings)@,
            final(warnings)@,
            spec_parse_upgradable(o.stdout@).1,
        ),
        outcome matches Err(e) ==> r@ == Map::<Seq<char>, Seq<char>>::empty() && appended_plain(
            old(warnings)@,
            final(warnings)@,
            seq![msg_upgradable_failed(e)],
        ),
{
    match outcome {
        Ok(output) => {
            let mut parse_warnings: Vec<String> = Vec::new();
            let table = parse_upgradable(output.stdout.as_str(), &mut parse_warnings);
            proof {
                let ws = spec_parse_upgradable(output.stdout@).1;
                assert(parse_warnings@.len() == ws.len());
                assert forall|i: int| 0 <= i < ws.len() implies #[trigger] strs_view(parse_warnings@)[i] == ws[i] by {
                    assert(parse_warnings@[0 + i]@ == ws[i]);
                }
                assert(strs_view(parse_warnings@) =~= ws);
            }
            extend_warnings(warnings, &parse_warnings);
            table
        },
        Err(error) => {
            let mut m = String::new();
            push_str(&mut m, "could not determine available updates via \"apt list --upgradable\" (");
            let text = error.message();
            push_str(&mut m, text.as_str());
            push_str(&mut m, ")");
            proof {
                assert(m@ =~= msg_upgradable_failed(error));
            }
            push_warning(warnings, m);
            StringMap::new()
        },
    }
}

/// The evidence an APT item is classified by: its package name and section.
pub open spec fn apt_evidence(e: Evidence, r: DpkgRecordView) -> bool {
    &&& e.package_name@ == r.package
    &&& opt_view(e.debian_section) == r.section
    &&& e.desktop_categories@.len() == 0
    &&& !e.has_desktop_launcher
    &&& !e.has_executables
    &&& !e.owns_shared_libraries
    &&& !e.owns_header_files
    &&& !e.owns_pkgconfig_files
    &&& !e.owns_font_files
    &&& !e.owns_firmware_files
    &&& !e.owns_kernel_module_files
    &&& !e.owns_systemd_unit_files
    &&& !e.owns_gtk_theme_files
    &&& !e.owns_icon_theme_files
    &&& !e.documentation_only
}

/// The item an installed package becomes, classified as `c` says.
pub open spec fn apt_item(
    r: DpkgRecordView,
    manual: Option<Set<Seq<char>>>,
    upgradable: Map<Seq<char>, Seq<char>>,
    c: (SoftwareCategory, Seq<SoftwareCategory>, ClassificationConfidence, Seq<Seq<char>>),
) -> SoftwareItemView {
    SoftwareItemView {
        id: "apt:"@ + r.package,
        package_name: r.package,
        display_name: r.package,
        description: r.summary,
        version: Some(r.version),
        architecture: Some(r.architecture),
        category: c.0,
        secondary_categories: c.1,
        package_manager: PackageManager::Apt,
        package_source: None,
        scope: InstallationScope::System,
        install_paths: Seq::empty(),
        executable_paths: Seq::empty(),
        desktop_file_paths: Seq::empty(),
        icon_path: None,
        package_section: r.section,
        installed_size_bytes: match r.installed_size_kb {
            Some(kb) => Some((kb * 1024) as u64),
            None => None,
        },
        installed_at: None,
        installation_reason: match manual {
            Some(set) => if set.contains(r.package) {
                InstallationReason::Manual
            } else {
                InstallationReason::Automatic
            },
            None => InstallationReason::Unknown,
        },
        dependencies: r.dependencies,
        reverse_dependencies: Seq::empty(),
        update_available: upgradable.contains_key(r.package),
        available_version: if upgradable.contains_key(r.package) {
            Some(upgradable[r.package])
        } else {
            None
        },
        repository: None,
        homepage: r.homepage,
        license: None,
        classification_confidence: c.2,
        classification_reasons: c.3,
        risk_level: SoftwareRiskLevel::Unknown,
        metadata: match r.maintainer {
            Some(m) => Map::<Seq<char>, Seq<char>>::empty().insert("maintainer"@, m),
            None => Map::empty(),
        },
        warnings: Seq::empty(),
    }
}

/// The item for one installed package: `apt:<package>`, classified by its
/// name and section, marked manual or automatic when that is known, and
/// flagged when an update is available.
pub fn build_item(record: &DpkgRecord, manual_packages: Option<&NameSet>, upgradable: &StringMap) -> (item: SoftwareItem)
    requires
        record.installed_size_kb matches Some(kb) ==> kb * 1024 <= u64::MAX,
    ensures
        forall|e: Evidence|
            apt_evidence(e, record@) ==> item@ == apt_item(
                record@,
                match manual_packages {
                    Some(set) => Some(set@),
                    None => None,
                },
                upgradable@,
                spec_classify(e),
            ),
{
    let evidence = Evidence {
        package_name: record.package.clone(),
        debian_section: crate::domain::clone_opt(&record.section),
        has_desktop_launcher: false,
        desktop_categories: Vec::new(),
        has_executables: false,
        owns_shared_libraries: false,
        owns_header_files: false,
        owns_pkgconfig_files: false,
        owns_font_files: false,
        owns_firmware_files: false,
        owns_kernel_module_files: false,
        owns_systemd_unit_files: false,
        owns_gtk_theme_files: false,
        owns_icon_theme_files: false,
        documentation_only: false,
    };
    let classification = classify(&evidence);
    let mut id = String::new();
    push_str(&mut id, "apt:");
    push_str(&mut id, record.package.as_str());
    let mut item = SoftwareItem::new(
        id.as_str(),
        record.package.as_str(),
        record.package.as_str(),
        PackageManager::Apt,
    );
    item.description = crate::domain::clone_opt(&record.summary);
    item.version = Some(record.version.clone());
    item.architecture = Some(record.architecture.clone());
    item.category = classification.category;
    item.secondary_categories = classification.secondary_categories;
    item.classification_confidence = classification.confidence;
    item.classification_reasons = classification.reasons;
    item.package_section = crate::domain::clone_opt(&record.section);
    item.installed_size_bytes = match record.installed_size_kb {
        Some(kb) => Some(kb * 1024),
        None => None,
    };
    item.dependencies = clone_strings(&record.dependencies);
    item.homepage = crate::domain::clone_opt(&record.homepage);
    item.scope = InstallationScope::System;
    item.installation_reason = match manual_packages {
        Some(manual) => if manual.contains(record.package.as_str()) {
            InstallationReason::Manual
        } else {
            InstallationReason::Automatic
        },
        None => InstallationReason::Unknown,
    };
    match upgradable.get(record.package.as_str()) {
        Some(v) => {
            item.update_available = true;
            item.available_version = Some(v.clone());
        },
        None => {},
    }
    match &record.maintainer {
        Some(m) => {
            item.metadata.insert("maintainer".to_owned(), m.clone());
        },
        None => {},
    }
    proof {
        assert(strs_view(item.classification_reasons@) =~= spec_classify(evidence).3);
        assert(strs_view(evidence.desktop_categories@) =~= Seq::<Seq<char>>::empty());
        let ghost m = match manual_packages {
            Some(set) => Some(set@),
            None => None,
        };
        assert forall|e: Evidence| apt_evidence(e, record@) implies item@ == apt_item(
            record@,
            m,
            upgradable@,
            spec_classify(e),
        ) by {
            assert(strs_view(e.desktop_categories@) =~= Seq::<Seq<char>>::empty());
            assert(same_evidence(e, evidence));
            lemma_classify_same(e, evidence);
            let want = apt_item(record@, m, upgradable@, spec_classify(e));
            assert(item@.metadata =~= want.metadata);
            assert(item@.id == want.id);
            assert(item@.category == want.category);
            assert(item@.secondary_categories == want.secondary_categories);
            assert(item@.classification_reasons == want.classification_reasons);
            assert(item@.installed_size_bytes == want.installed_size_bytes);
            assert(item@.installation_reason == want.installation_reason);
            assert(item@.update_available == want.update_available);
            assert(item@.available_version == want.available_version);
            assert(item@.dependencies == want.dependencies);
            assert(item@.install_paths =~= want.install_paths);
            assert(item@.executable_paths =~= want.executable_paths);
            assert(item@.desktop_file_paths =~= want.desktop_file_paths);
            assert(item@.reverse_dependencies =~= want.reverse_dependencies);
            assert(item@.warnings =~= want.warnings);
        }
    }
    item
}

/// One item per record, in order.
pub fn build_items(records: &Vec<DpkgRecord>, manual_packages: Option<&NameSet>, upgradable: &StringMap) -> (items: Vec<SoftwareItem>)
    requires
        forall|i: int|
            0 <= i < records@.len() ==> ((#[trigger] records@[i]).installed_size_kb matches Some(kb)
                ==> kb * 1024 <= u64::MAX),
    ensures
        items@.len() == records@.len(),
        forall|i: int, e: Evidence|
            0 <= i < records@.len() && #[trigger] apt_evidence(e, records@[i]@) ==> (#[trigger] items@[i])@
                == apt_item(
                records@[i]@,
                match manual_packages {
                    Some(set) => Some(set@),
                    None => None,
                },
                upgradable@,
                spec_classify(e),
            ),
{
    let mut items: Vec<SoftwareItem> = Vec::new();
    let mut i: usize = 0;
    while i < records.len()
        invariant
            0 <= i <= records@.len(),
            items@.len() == i,
            forall|k: int|
                0 <= k < records@.len() ==> ((#[trigger] records@[k]).installed_size_kb matches Some(kb)
                    ==> kb * 1024 <= u64::MAX),
            forall|k: int, e: Evidence|
                0 <= k < i && #[trigger] apt_evidence(e, records@[k]@) ==> (#[trigger] items@[k])@ == apt_item(
                    records@[k]@,
                    match manual_packages {
                        Some(set) => Some(set@),
                        None => None,
                    },
                    upgradable@,
                    spec_classify(e),
                ),
        decreases records@.len() - i,
    {
        let item = build_item(&records[i], manual_packages, upgradable);
        items.push(item);
        i += 1;
    }
    items
}

/// Law: an APT item reports the version dpkg says is installed, whatever
/// updates apt offers; an offered update shows only as the available version
/// (and marks the item as having an update). Two upgradable tables give the
/// same installed version. A package apt marks as manually installed is
/// Manual, any other Automatic; without apt's list the reason is Unknown.
pub proof fn law_apt_version_is_the_installed_one(
    r: DpkgRecordView,
    manual: Option<Set<Seq<char>>>,
    upgradable: Map<Seq<char>, Seq<char>>,
    other: Map<Seq<char>, Seq<char>>,
    c: (SoftwareCategory, Seq<SoftwareCategory>, ClassificationConfidence, Seq<Seq<char>>),
)
    ensures
        apt_item(r, manual, upgradable, c).version == Some(r.version),
        apt_item(r, manual, upgradable, c).version == apt_item(r, manual, other, c).version,
        upgradable.contains_key(r.package) ==> {
            &&& apt_item(r, manual, upgradable, c).update_available
            &&& apt_item(r, manual, upgradable, c).available_version == Some(upgradable[r.package])
        },
        !upgradable.contains_key(r.package) ==> {
            &&& !apt_item(r, manual, upgradable, c).update_available
            &&& apt_item(r, manual, upgradable, c).available_version is None
        },
        apt_item(r, manual, upgradable, c).installation_reason == match manual {
            Some(set) => if set.contains(r.package) {
                InstallationReason::Manual
            } else {
                InstallationReason::Automatic
            },
            None => InstallationReason::Unknown,
        },
{
}

} // verus!
