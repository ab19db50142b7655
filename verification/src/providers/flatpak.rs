//! The Flatpak provider: four `flatpak list` calls (user and system,
//! applications and runtimes), each failure only degrading the result.
use vstd::prelude::*;

use crate::domain::{
    ClassificationConfidence, InstallationReason, InstallationScope, PackageManager,
    ProviderError, ProviderInventory, ProviderStatus, ProviderWarning, SoftwareCategory,
    SoftwareItem, SoftwareItemView, SoftwareRiskLevel,
};
use crate::flatpak_parser::{
    parse_flatpak_list, spec_parse_flatpak_list, FlatpakRecord, FlatpakView, FLATPAK_COLUMNS,
};
use crate::process::{CommandOutput, CommandSpec, ProcessRunner, RunError};
use crate::providers::{appended_plain, extend_warnings, push_warning, ProviderId, ProviderMetadata};
use crate::text::{chars_of, contains_in, contains_seq, push_str, strs_view};

verus! {

/// Which kind of refs a listing asks for.
#[derive(Debug, Clone, Copy, PartialEq, Eq, Structural)]
pub enum RefKind {
    App,
    Runtime,
}

/// Which installation a listing asks about.
#[derive(Debug, Clone, Copy, PartialEq, Eq, Structural)]
pub enum Scope {
    User,
    System,
}

impl Scope {
    pub open spec fn spec_flag(self) -> Seq<char> {
        match self {
            Scope::User => "--user"@,
            Scope::System => "--system"@,
        }
    }

    pub open spec fn spec_str(self) -> Seq<char> {
        match self {
            Scope::User => "user"@,
            Scope::System => "system"@,
        }
    }

    pub fn flag(self) -> (s: &'static str)
        ensures
            s@ == self.spec_flag(),
    {
        match self {
            Scope::User => "--user",
            Scope::System => "--system",
        }
    }

    pub fn as_installation_scope(self) -> (s: InstallationScope)
        ensures
            s == (match self {
                Scope::User => InstallationScope::User,
                Scope::System => InstallationScope::System,
            }),
    {
        match self {
            Scope::User => InstallationScope::User,
            Scope::System => InstallationScope::System,
        }
    }

    pub fn as_str(self) -> (s: &'static str)
        ensures
            s@ == self.spec_str(),
    {
        match self {
            Scope::User => "user",
            Scope::System => "system",
        }
    }
}

/// The four listings a scan makes, in order.
pub open spec fn spec_listings() -> Seq<(Scope, RefKind)> {
    seq![
        (Scope::User, RefKind::App),
        (Scope::User, RefKind::Runtime),
        (Scope::System, RefKind::App),
        (Scope::System, RefKind::Runtime),
    ]
}

pub fn listings() -> (v: Vec<(Scope, RefKind)>)
    ensures
        v@ == spec_listings(),
{
    let v = vec![
        (Scope::User, RefKind::App),
        (Scope::User, RefKind::Runtime),
        (Scope::System, RefKind::App),
        (Scope::System, RefKind::Runtime),
    ];
    proof {
        assert(v@ =~= spec_listings());
    }
    v
}

/// Inventories Flatpak applications and runtimes.
pub struct FlatpakProvider {
    pub runner: ProcessRunner,
    pub flatpak_bin: String,
}

impl FlatpakProvider {
    pub fn new() -> (p: Self)
        ensures
            p.flatpak_bin@ == "flatpak"@,
            p.runner.timeout_ms == 15000,
            p.runner.max_output_bytes == 8388608,
    {
        FlatpakProvider { runner: ProcessRunner::default(), flatpak_bin: "flatpak".to_owned() }
    }

    pub fn with_binary(runner: ProcessRunner, flatpak_bin: &str) -> (p: Self)
        ensures
            p.runner == runner,
            p.flatpak_bin@ == flatpak_bin@,
    {
        FlatpakProvider { runner, flatpak_bin: flatpak_bin.to_owned() }
    }

    pub fn id(&self) -> (id: ProviderId)
        ensures
            id.spec_str() == "flatpak"@,
    {
        ProviderId::new("flatpak")
    }

    pub fn metadata(&self) -> (m: ProviderMetadata)
        ensures
            m.id.spec_str() == "flatpak"@,
            m.display_name@ == "Flatpak"@,
            m.description@ == "Applications and runtimes installed via Flatpak."@,
    {
        ProviderMetadata {
            id: ProviderId::new("flatpak"),
            display_name: "Flatpak",
            description: "Applications and runtimes installed via Flatpak.",
        }
    }

    /// `flatpak --version`.
    pub fn availability_command(&self) -> (c: CommandSpec)
        ensures
            c.program@ == self.flatpak_bin@,
            strs_view(c.args@) == seq!["--version"@],
    {
        CommandSpec::new(self.flatpak_bin.as_str()).arg("--version")
    }

    /// `flatpak list --<scope> --app|--runtime --columns=...`.
    pub fn list_command(&self, scope: Scope, kind: RefKind) -> (c: CommandSpec)
        ensures
            c.program@ == self.flatpak_bin@,
            strs_view(c.args@) == seq![
                "list"@,
                scope.spec_flag(),
                match kind {
                    RefKind::App => "--app"@,
                    RefKind::Runtime => "--runtime"@,
                },
                "--columns="@ + FLATPAK_COLUMNS@,
            ],
    {
        let kind_flag = match kind {
            RefKind::App => "--app",
            RefKind::Runtime => "--runtime",
        };
        let mut columns = String::new();
        push_str(&mut columns, "--columns=");
        push_str(&mut columns, FLATPAK_COLUMNS);
        let c = CommandSpec::new(self.flatpak_bin.as_str()).arg("list").arg(scope.flag()).arg(
            kind_flag,
        ).arg(columns.as_str());
        proof {
            assert(strs_view(c.args@) =~= seq![
                "list"@,
                scope.spec_flag(),
                match kind {
                    RefKind::App => "--app"@,
                    RefKind::Runtime => "--runtime"@,
                },
                "--columns="@ + FLATPAK_COLUMNS@,
            ]);
        }
        c
    }
}

/// Ids that name extensions rather than standalone runtimes.
pub open spec fn spec_looks_like_extension(id: Seq<char>) -> bool {
    ||| contains_seq(id, ".Locale"@)
    ||| contains_seq(id, ".Debug"@)
    ||| contains_seq(id, ".GL."@)
    ||| contains_seq(id, ".Extension"@)
    ||| contains_seq(id, ".Codecs"@)
    ||| contains_seq(id, ".Sources"@)
}

fn id_contains(v: &Vec<char>, marker: &str) -> (b: bool)
    ensures
        b == contains_seq(v@, marker@),
{
    let m = chars_of(marker);
    proof {
        assert(v@.subrange(0, v@.len() as int) =~= v@);
    }
    contains_in(v, 0, v.len(), &m)
}

pub fn looks_like_extension(application_id: &str) -> (b: bool)
    ensures
        b == spec_looks_like_extension(application_id@),
{
    let v = chars_of(application_id);
    id_contains(&v, ".Locale") || id_contains(&v, ".Debug") || id_contains(&v, ".GL.")
        || id_contains(&v, ".Extension") || id_contains(&v, ".Codecs") || id_contains(&v, ".Sources")
}

/// The item a listed ref becomes.
pub open spec fn flatpak_item(r: FlatpakView, scope: Scope, kind: RefKind) -> SoftwareItemView {
    SoftwareItemView {
        id: "flatpak:"@ + scope.spec_str() + ":"@ + r.application,
        package_name: r.application,
        display_name: match r.name {
            Some(n) => if n.len() > 0 {
                n
            } else {
                r.application
            },
            None => r.application,
        },
        description: None,
        version: r.version,
        architecture: r.arch,
        category: match kind {
            RefKind::App => SoftwareCategory::Application,
            RefKind::Runtime => SoftwareCategory::Runtime,
        },
        secondary_categories: Seq::empty(),
        package_manager: PackageManager::Flatpak,
        package_source: None,
        scope: match scope {
            Scope::User => InstallationScope::User,
            Scope::System => InstallationScope::System,
        },
        install_paths: Seq::empty(),
        executable_paths: Seq::empty(),
        desktop_file_paths: Seq::empty(),
        icon_path: None,
        package_section: None,
        installed_size_bytes: r.installed_size_bytes,
        installed_at: None,
        installation_reason: InstallationReason::Unknown,
        dependencies: Seq::empty(),
        reverse_dependencies: Seq::empty(),
        update_available: false,
        available_version: None,
        repository: r.origin,
        homepage: None,
        license: None,
        classification_confidence: ClassificationConfidence::Certain,
        classification_reasons: match kind {
            RefKind::App => seq!["installed as a Flatpak application"@],
            RefKind::Runtime => if spec_looks_like_extension(r.application) {
                seq!["installed as a Flatpak extension (modeled as a Runtime)"@]
            } else {
                seq!["installed as a Flatpak runtime"@]
            },
        },
        risk_level: SoftwareRiskLevel::Unknown,
        metadata: {
            let with_branch = match r.branch {
                Some(b) => Map::<Seq<char>, Seq<char>>::empty().insert("branch"@, b),
                None => Map::empty(),
            };
            match kind {
                RefKind::App => with_branch,
                RefKind::Runtime => with_branch.insert(
                    "flatpak_kind"@,
                    if spec_looks_like_extension(r.application) {
                        "extension"@
                    } else {
                        "runtime"@
                    },
                ),
            }
        },
        warnings: Seq::empty(),
    }
}

fn one_reason(r: &str) -> (v: Vec<String>)
    ensures
        strs_view(v@) == seq![r@],
{
    let mut v: Vec<String> = Vec::new();
    v.push(r.to_owned());
    proof {
        assert(strs_view(v@) =~= seq![r@]);
    }
    v
}

/// The item for one listed ref: `flatpak:<scope>:<application>`, named by
/// its display name when it has one, an application or a runtime with
/// certainty, extensions told apart from runtimes.
pub fn build_item(record: &FlatpakRecord, scope: Scope, kind: RefKind) -> (item: SoftwareItem)
    ensures
        item@ == flatpak_item(record@, scope, kind),
{
    let display_name = match &record.name {
        Some(n) => if n.as_str().is_empty() {
            record.application.clone()
        } else {
            n.clone()
        },
        None => record.application.clone(),
    };
    let mut id = String::new();
    push_str(&mut id, "flatpak:");
    push_str(&mut id, scope.as_str());
    push_str(&mut id, ":");
    push_str(&mut id, record.application.as_str());
    let mut item = SoftwareItem::new(
        id.as_str(),
        record.application.as_str(),
        display_name.as_str(),
        PackageManager::Flatpak,
    );
    item.version = crate::domain::clone_opt(&record.version);
    item.architecture = crate::domain::clone_opt(&record.arch);
    item.scope = scope.as_installation_scope();
    item.repository = crate::domain::clone_opt(&record.origin);
    item.installed_size_bytes = record.installed_size_bytes;
    item.classification_confidence = ClassificationConfidence::Certain;
    match &record.branch {
        Some(b) => {
            item.metadata.insert("branch".to_owned(), b.clone());
        },
        None => {},
    }
    match kind {
        RefKind::App => {
            item.category = SoftwareCategory::Application;
            item.classification_reasons = one_reason("installed as a Flatpak application");
        },
        RefKind::Runtime => {
            item.category = SoftwareCategory::Runtime;
            if looks_like_extension(record.application.as_str()) {
                item.metadata.insert("flatpak_kind".to_owned(), "extension".to_owned());
                item.classification_reasons = one_reason(
                    "installed as a Flatpak extension (modeled as a Runtime)",
                );
            } else {
                item.metadata.insert("flatpak_kind".to_owned(), "runtime".to_owned());
                item.classification_reasons = one_reason("installed as a Flatpak runtime");
            }
        },
    }
    proof {
        let want = flatpak_item(record@, scope, kind);
        assert(item@.metadata =~= want.metadata);
        assert(item@.install_paths =~= want.install_paths);
        assert(item@.executable_paths =~= want.executable_paths);
        assert(item@.desktop_file_paths =~= want.desktop_file_paths);
        assert(item@.dependencies =~= want.dependencies);
        assert(item@.reverse_dependencies =~= want.reverse_dependencies);
        assert(item@.warnings =~= want.warnings);
        assert(item@.secondary_categories =~= want.secondary_categories);
    }
    item
}

// ---------------------------------------------------------------------------
// A scan's progress

/// What a Flatpak scan has gathered so far.
pub struct FlatpakScan {
    pub items: Vec<SoftwareItem>,
    pub warnings: Vec<ProviderWarning>,
    pub attempted: u32,
    pub succeeded: u32,
}

/// What the scan does after a listing.
#[derive(Debug, Clone, Copy, PartialEq, Eq, Structural)]
pub enum ListingStep {
    /// Go on with the next listing.
    Continue,
    /// Flatpak is not installed: the scan ends as unavailable.
    Unavailable,
}

pub open spec fn msg_listing_failed(scope: Scope, kind: RefKind, error: RunError) -> Seq<char> {
    "could not list "@ + scope.spec_str() + " "@ + match kind {
        RefKind::App => "application"@,
        RefKind::Runtime => "runtime"@,
    } + " Flatpak refs: "@ + error.spec_message()
}

impl FlatpakScan {
    pub fn new() -> (s: Self)
        ensures
            s.items@.len() == 0,
            s.warnings@.len() == 0,
            s.attempted == 0,
            s.succeeded == 0,
    {
        FlatpakScan { items: Vec::new(), warnings: Vec::new(), attempted: 0, succeeded: 0 }
    }

    /// Takes in one listing's outcome: its refs become items and its parse
    /// warnings warnings; a missing `flatpak` ends the scan; any other
    /// failure is warned about.
    pub fn apply_listing(&mut self, scope: Scope, kind: RefKind, outcome: Result<CommandOutput, RunError>) -> (step: ListingStep)
        requires
            old(self).attempted < u32::MAX,
            old(self).succeeded < u32::MAX,
        ensures
            final(self).attempted == old(self).attempted + 1,
            outcome matches Err(RunError::NotFound(_)) ==> step == ListingStep::Unavailable,
            !(outcome matches Err(RunError::NotFound(_))) ==> step == ListingStep::Continue,
            outcome matches Ok(o) ==> {
                let (rs, ws) = spec_parse_flatpak_list(o.stdout@);
                &&& final(self).succeeded == old(self).succeeded + 1
                &&& final(self).items@.len() == old(self).items@.len() + rs.len()
                &&& forall|i: int| 0 <= i < old(self).items@.len() ==> #[trigger] final(self).items@[i] == old(self).items@[i]
                &&& forall|i: int| 0 <= i < rs.len() ==> #[trigger] final(self).items@[old(self).items@.len() + i]@ == flatpak_item(rs[i], scope, kind)
                &&& appended_plain(old(self).warnings@, final(self).warnings@, ws)
            },
            outcome matches Err(e) ==> !(e matches RunError::NotFound(_)) ==> {
                &&& final(self).succeeded == old(self).succeeded
                &&& final(self).items == old(self).items
                &&& appended_plain(old(self).warnings@, final(self).warnings@, seq![msg_listing_failed(scope, kind, e)])
            },
    {
        self.attempted = self.attempted + 1;
        match outcome {
            Ok(output) => {
                self.succeeded = self.succeeded + 1;
                let mut parse_warnings: Vec<String> = Vec::new();
                let records = parse_flatpak_list(output.stdout.as_str(), &mut parse_warnings);
                proof {
                    let ws = spec_parse_flatpak_list(output.stdout@).1;
                    assert forall|i: int| 0 <= i < ws.len() implies #[trigger] strs_view(parse_warnings@)[i] == ws[i] by {
                        assert(parse_warnings@[0 + i]@ == ws[i]);
                    }
                    assert(strs_view(parse_warnings@) =~= ws);
                }
                extend_warnings(&mut self.warnings, &parse_warnings);
                let ghost before = self.items@;
                let ghost att = self.attempted;
                let ghost suc = self.succeeded;
                let ghost ws_now = self.warnings@;
                let mut i: usize = 0;
                while i < records.len()
                    invariant
                        0 <= i <= records@.len(),
                        self.attempted == att,
                        self.succeeded == suc,
                        self.warnings@ == ws_now,
                        records@.len() == spec_parse_flatpak_list(output.stdout@).0.len(),
                        forall|k: int| 0 <= k < records@.len() ==> #[trigger] records@[k]@ == spec_parse_flatpak_list(output.stdout@).0[k],
                        self.items@.len() == before.len() + i,
                        forall|k: int| 0 <= k < before.len() ==> #[trigger] self.items@[k] == before[k],
                        forall|k: int| 0 <= k < i ==> #[trigger] self.items@[before.len() + k]@ == flatpak_item(records@[k]@, scope, kind),
                    decreases records@.len() - i,
                {
                    let item = build_item(&records[i], scope, kind);
                    self.items.push(item);
                    i += 1;
                }
                ListingStep::Continue
            },
            Err(RunError::NotFound(_)) => ListingStep::Unavailable,
            Err(error) => {
                let mut m = String::new();
                push_str(&mut m, "could not list ");
                push_str(&mut m, scope.as_str());
                push_str(&mut m, " ");
                match kind {
                    RefKind::App => push_str(&mut m, "application"),
                    RefKind::Runtime => push_str(&mut m, "runtime"),
                }
                push_str(&mut m, " Flatpak refs: ");
                let text = error.message();
                push_str(&mut m, text.as_str());
                proof {
                    assert(m@ =~= msg_listing_failed(scope, kind, error));
                }
                push_warning(&mut self.warnings, m);
                ListingStep::Continue
            },
        }
    }

    /// How the scan ends when cancelled between listings: cancelled, with
    /// the refs and warnings of the listings that already ran.
    pub fn cancel(self, base: ProviderInventory, completed_at: i64) -> (p: ProviderInventory)
        ensures
            p.status == ProviderStatus::Cancelled,
            p.items == self.items,
            p.warnings == self.warnings,
            p.completed_at == Some(completed_at),
            p.duration_ms == Some(crate::domain::elapsed_ms(base.started_at, completed_at) as u64),
            p.provider_id == base.provider_id,
            p.error == base.error,
            p.started_at == base.started_at,
    {
        crate::providers::cancelled_scan(base, completed_at, self.items, self.warnings)
    }

    /// How the scan ends once every listing ran: failed when every listing
    /// failed, else a success or, with warnings, a partial success.
    pub fn finish(self, base: ProviderInventory, completed_at: i64) -> (p: ProviderInventory)
        ensures
            self.succeeded == 0 && self.attempted > 0 ==> {
                &&& p.status == ProviderStatus::Failed
                &&& p.error matches Some(ProviderError::Other(m)) && m@ == "all flatpak list calls failed; see warnings for details"@
                &&& p.warnings == self.warnings
                &&& p.items == base.items
            },
            !(self.succeeded == 0 && self.attempted > 0) ==> {
                &&& p.status == (if self.warnings@.len() == 0 {
                    ProviderStatus::Success
                } else {
                    ProviderStatus::PartialSuccess
                })
                &&& p.items == self.items
                &&& p.warnings == self.warnings
                &&& p.error == base.error
            },
            p.completed_at == Some(completed_at),
            p.duration_ms == Some(crate::domain::elapsed_ms(base.started_at, completed_at) as u64),
            p.provider_id == base.provider_id,
            p.started_at == base.started_at,
    {
        if self.succeeded == 0 && self.attempted > 0 {
            let mut failed = base.finish(completed_at, ProviderStatus::Failed);
            failed.error = Some(
                ProviderError::Other("all flatpak list calls failed; see warnings for details".to_owned()),
            );
            failed.warnings = self.warnings;
            return failed;
        }
        crate::providers::complete_scan(base, completed_at, self.items, self.warnings)
    }
}

/// Law: a Flatpak item's version is the version column of its listed
/// record, never the ref's branch: two records that differ only in their
/// branch give items with the same version.
pub proof fn law_flatpak_version_is_the_listed_version(r: FlatpakView, other_branch: Option<Seq<char>>, scope: Scope, kind: RefKind)
    ensures
        flatpak_item(r, scope, kind).version == r.version,
        flatpak_item(FlatpakView { branch: other_branch, ..r }, scope, kind).version == flatpak_item(
            r,
            scope,
            kind,
        ).version,
{
}

} // verus!
