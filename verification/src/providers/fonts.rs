//! The font provider: fonts Fontconfig reports in the known font
//! directories, one item per family and scope. `fc-list` is only read,
//! never `fc-cache`.
use vstd::prelude::*;

use crate::domain::{
    items_view, ClassificationConfidence, InstallationReason, InstallationScope, PackageManager,
    ProviderInventory, ProviderStatus, ProviderWarning, SoftwareCategory, SoftwareItem,
    SoftwareItemView, SoftwareRiskLevel, StringMap,
};
use crate::duplicates::{lemma_insert_by_at, sort_strings, sorted_by, text_key};
use crate::fonts_parser::{FontFileRecord, FontFileView, FC_LIST_FORMAT};
use crate::process::{CommandSpec, ProcessRunner, RunError};
use crate::providers::{appended_plain, failed_scan, push_warning, ProviderId, ProviderMetadata};
use crate::text::{
    ascii_lower, ascii_lower_char, chars_of, decimal, joined, lex_le, lex_le_exec, opt_view,
    push_decimal, push_joined, push_str, starts_with, starts_with_exec, str_eq, strs_view,
};

verus! {

/// Finds fonts with `fc-list` and asks dpkg who owns their files.
pub struct FontProvider {
    pub runner: ProcessRunner,
    pub fc_list_bin: String,
    pub dpkg_bin: String,
}

impl FontProvider {
    pub fn new() -> (p: Self)
        ensures
            p.fc_list_bin@ == "fc-list"@,
            p.dpkg_bin@ == "dpkg"@,
            p.runner.timeout_ms == 15000,
            p.runner.max_output_bytes == 8388608,
    {
        FontProvider {
            runner: ProcessRunner::default(),
            fc_list_bin: "fc-list".to_owned(),
            dpkg_bin: "dpkg".to_owned(),
        }
    }

    /// A provider that runs other binaries in place of `fc-list` and `dpkg`.
    pub fn with_binaries(runner: ProcessRunner, fc_list_bin: &str, dpkg_bin: &str) -> (p: Self)
        ensures
            p.runner == runner,
            p.fc_list_bin@ == fc_list_bin@,
            p.dpkg_bin@ == dpkg_bin@,
    {
        FontProvider { runner, fc_list_bin: fc_list_bin.to_owned(), dpkg_bin: dpkg_bin.to_owned() }
    }

    pub fn id(&self) -> (id: ProviderId)
        ensures
            id.spec_str() == "fonts"@,
    {
        ProviderId::new("fonts")
    }

    pub fn metadata(&self) -> (m: ProviderMetadata)
        ensures
            m.id.spec_str() == "fonts"@,
            m.display_name@ == "Fonts"@,
            m.description@ == "Fonts registered with Fontconfig in known font directories."@,
    {
        ProviderMetadata {
            id: ProviderId::new("fonts"),
            display_name: "Fonts",
            description: "Fonts registered with Fontconfig in known font directories.",
        }
    }

    /// `fc-list --version`: the provider is available when it runs.
    pub fn availability_command(&self) -> (c: CommandSpec)
        ensures
            c.program@ == self.fc_list_bin@,
            strs_view(c.args@) == seq!["--version"@],
    {
        let c = CommandSpec::new(self.fc_list_bin.as_str()).arg("--version");
        proof {
            assert(strs_view(c.args@) =~= seq!["--version"@]);
        }
        c
    }

    /// `fc-list --format=...`, one record per font file.
    pub fn list_command(&self) -> (c: CommandSpec)
        ensures
            c.program@ == self.fc_list_bin@,
            strs_view(c.args@) == seq!["--format="@ + FC_LIST_FORMAT@],
    {
        let mut a = String::new();
        push_str(&mut a, "--format=");
        push_str(&mut a, FC_LIST_FORMAT);
        let c = CommandSpec::new(self.fc_list_bin.as_str()).arg(a.as_str());
        proof {
            assert(strs_view(c.args@) =~= seq!["--format="@ + FC_LIST_FORMAT@]);
        }
        c
    }
}

impl Default for FontProvider {
    fn default() -> (p: Self)
        ensures
            p.fc_list_bin@ == "fc-list"@,
            p.dpkg_bin@ == "dpkg"@,
    {
        FontProvider::new()
    }
}

/// How a scan ends when `fc-list` could not be run: a missing Fontconfig
/// is expected on minimal systems and makes the provider unavailable, not
/// failed; any other error fails the scan.
pub fn list_failure(base: ProviderInventory, completed_at: i64, error: &RunError) -> (p: ProviderInventory)
    ensures
        error is NotFound ==> p.status == ProviderStatus::Unavailable && p.error == base.error,
        !(error is NotFound) ==> p.status == ProviderStatus::Failed && (p.error matches Some(e)
            && crate::process::is_mapped_error(*error, e)),
        p.items == base.items,
        p.warnings == base.warnings,
        p.completed_at == Some(completed_at),
        p.duration_ms == Some(crate::domain::elapsed_ms(base.started_at, completed_at) as u64),
        p.provider_id == base.provider_id,
        p.started_at == base.started_at,
        p.provider_version == base.provider_version,
{
    match error {
        RunError::NotFound(_) => base.finish(completed_at, ProviderStatus::Unavailable),
        _ => failed_scan(base, completed_at, error),
    }
}

// ---------------------------------------------------------------------------
// Scope

/// Where the system's fonts live.
pub open spec fn system_font_dirs() -> Seq<Seq<char>> {
    seq!["/usr/share/fonts"@, "/usr/local/share/fonts"@]
}

/// The scope of a font file: system under a system font directory, user
/// under one of `user_dirs`, and none (out of scope) elsewhere. Directories
/// are matched as text prefixes.
pub open spec fn spec_classify_scope(path: Seq<char>, user_dirs: Seq<Seq<char>>) -> Option<InstallationScope> {
    if exists|i: int| 0 <= i < system_font_dirs().len() && starts_with(path, #[trigger] system_font_dirs()[i]) {
        Some(InstallationScope::System)
    } else if exists|i: int| 0 <= i < user_dirs.len() && starts_with(path, #[trigger] user_dirs[i]) {
        Some(InstallationScope::User)
    } else {
        None
    }
}

fn starts_with_str(v: &Vec<char>, p: &str) -> (b: bool)
    ensures
        b == starts_with(v@, p@),
{
    let pv = chars_of(p);
    proof {
        assert(v@.subrange(0, v@.len() as int) =~= v@);
    }
    starts_with_exec(v, 0, v.len(), &pv)
}

pub fn classify_scope(path: &str, user_dirs: &Vec<String>) -> (r: Option<InstallationScope>)
    ensures
        r == spec_classify_scope(path@, strs_view(user_dirs@)),
{
    let v = chars_of(path);
    proof {
        reveal_strlit("/usr/share/fonts");
        reveal_strlit("/usr/local/share/fonts");
    }
    let a = starts_with_str(&v, "/usr/share/fonts");
    let b = starts_with_str(&v, "/usr/local/share/fonts");
    if a || b {
        proof {
            if a {
                assert(starts_with(path@, system_font_dirs()[0]));
            } else {
                assert(starts_with(path@, system_font_dirs()[1]));
            }
        }
        return Some(InstallationScope::System);
    }
    proof {
        assert forall|i: int| 0 <= i < system_font_dirs().len() implies !starts_with(path@, #[trigger] system_font_dirs()[i]) by {
            if i == 0 {
                assert(!a);
            } else {
                assert(!b);
            }
        }
    }
    let mut i: usize = 0;
    while i < user_dirs.len()
        invariant
            0 <= i <= user_dirs@.len(),
            v@ == path@,
            forall|j: int| 0 <= j < system_font_dirs().len() ==> !starts_with(path@, #[trigger] system_font_dirs()[j]),
            forall|j: int| 0 <= j < i ==> !starts_with(path@, #[trigger] strs_view(user_dirs@)[j]),
        decreases user_dirs@.len() - i,
    {
        if starts_with_str(&v, user_dirs[i].as_str()) {
            proof {
                assert(strs_view(user_dirs@)[i as int] == user_dirs@[i as int]@);
            }
            return Some(InstallationScope::User);
        }
        proof {
            assert(strs_view(user_dirs@)[i as int] == user_dirs@[i as int]@);
        }
        i += 1;
    }
    None
}

// ---------------------------------------------------------------------------
// Naming

pub open spec fn is_ascii_alnum(c: char) -> bool {
    ('0' <= c && c <= '9') || ('a' <= c && c <= 'z') || ('A' <= c && c <= 'Z')
}

pub open spec fn slug_char(c: char) -> char {
    if is_ascii_alnum(c) {
        ascii_lower(c)
    } else {
        '-'
    }
}

/// A family name as an id: ASCII letters and digits lowered, anything else `-`.
pub open spec fn slug(family: Seq<char>) -> Seq<char> {
    family.map_values(|c: char| slug_char(c))
}

pub fn slugify(family: &str) -> (s: String)
    ensures
        s@ == slug(family@),
{
    let v = chars_of(family);
    let mut out: Vec<char> = Vec::new();
    let mut i: usize = 0;
    while i < v.len()
        invariant
            0 <= i <= v@.len(),
            out@ == v@.take(i as int).map_values(|c: char| slug_char(c)),
        decreases v@.len() - i,
    {
        let c = v[i];
        let d = if ('0' <= c && c <= '9') || ('a' <= c && c <= 'z') || ('A' <= c && c <= 'Z') {
            ascii_lower_char(c)
        } else {
            '-'
        };
        out.push(d);
        proof {
            assert(out@ =~= v@.take(i + 1).map_values(|c: char| slug_char(c)));
        }
        i += 1;
    }
    proof {
        assert(v@.take(i as int) =~= v@);
    }
    crate::text::string_of_all(&out)
}

pub open spec fn spec_scope_str(scope: InstallationScope) -> Seq<char> {
    match scope {
        InstallationScope::System => "system"@,
        InstallationScope::User => "user"@,
        InstallationScope::Unknown => "unknown"@,
    }
}

/// The scope as it appears in a font id.
pub fn scope_str(scope: InstallationScope) -> (s: &'static str)
    ensures
        s@ == spec_scope_str(scope),
{
    match scope {
        InstallationScope::System => "system",
        InstallationScope::User => "user",
        InstallationScope::Unknown => "unknown",
    }
}

// ---------------------------------------------------------------------------
// Grouping

pub open spec fn in_scope_view(s: Seq<(FontFileRecord, InstallationScope)>) -> Seq<(FontFileView, InstallationScope)> {
    s.map_values(|p: (FontFileRecord, InstallationScope)| (p.0@, p.1))
}

pub open spec fn font_key(p: (FontFileView, InstallationScope)) -> (InstallationScope, Seq<char>) {
    (p.1, p.0.family)
}

/// The distinct (scope, family) pairs of `s`, in order of first appearance.
pub open spec fn font_keys(s: Seq<(FontFileView, InstallationScope)>) -> Seq<(InstallationScope, Seq<char>)>
    decreases s.len(),
{
    if s.len() == 0 {
        Seq::empty()
    } else {
        let k = font_keys(s.drop_last());
        if k.contains(font_key(s.last())) {
            k
        } else {
            k.push(font_key(s.last()))
        }
    }
}

/// The files of `s` with the given (scope, family), in order.
pub open spec fn font_members(s: Seq<(FontFileView, InstallationScope)>, key: (InstallationScope, Seq<char>)) -> Seq<FontFileView>
    decreases s.len(),
{
    if s.len() == 0 {
        Seq::empty()
    } else if font_key(s.last()) == key {
        font_members(s.drop_last(), key).push(s.last().0)
    } else {
        font_members(s.drop_last(), key)
    }
}

proof fn lemma_members_of_unseen(s: Seq<(FontFileView, InstallationScope)>, key: (InstallationScope, Seq<char>))
    requires
        !font_keys(s).contains(key),
    ensures
        font_members(s, key) == Seq::<FontFileView>::empty(),
    decreases s.len(),
{
    if s.len() > 0 {
        let k = font_keys(s.drop_last());
        if !k.contains(font_key(s.last())) {
            assert(font_keys(s)[k.len() as int] == font_key(s.last()));
        }
        assert(font_key(s.last()) != key);
        assert forall|j: int| 0 <= j < k.len() implies #[trigger] k[j] != key by {
            assert(font_keys(s)[j] == k[j]);
        }
        lemma_members_of_unseen(s.drop_last(), key);
    }
}

/// The package that owns `file`, if any.
pub open spec fn owner_of(owners: Map<Seq<char>, Seq<char>>, file: Seq<char>) -> Option<Seq<char>> {
    if owners.contains_key(file) {
        Some(owners[file])
    } else {
        None
    }
}

/// The owner of a family's files when every file has the same one.
pub open spec fn single_owner(ms: Seq<FontFileView>, owners: Map<Seq<char>, Seq<char>>) -> Option<Seq<char>> {
    if ms.len() > 0 && forall|i: int| 0 <= i < ms.len() ==> owner_of(owners, #[trigger] ms[i].file) == owner_of(owners, ms[0].file) {
        owner_of(owners, ms[0].file)
    } else {
        None
    }
}

/// The texts that are present, in order.
pub open spec fn present(s: Seq<Option<Seq<char>>>) -> Seq<Seq<char>>
    decreases s.len(),
{
    if s.len() == 0 {
        Seq::empty()
    } else {
        match s.last() {
            Some(t) => present(s.drop_last()).push(t),
            None => present(s.drop_last()),
        }
    }
}

/// `s` with each run of equal neighbours kept once.
pub open spec fn dedup_adjacent(s: Seq<Seq<char>>) -> Seq<Seq<char>>
    decreases s.len(),
{
    if s.len() == 0 {
        Seq::empty()
    } else {
        let d = dedup_adjacent(s.drop_last());
        if d.len() > 0 && d.last() == s.last() {
            d
        } else {
            d.push(s.last())
        }
    }
}

/// The distinct values, sorted.
pub open spec fn sorted_distinct(s: Seq<Seq<char>>) -> Seq<Seq<char>> {
    dedup_adjacent(sorted_by(s, text_key()))
}

/// The first language coverage any file reports.
pub open spec fn first_present(s: Seq<Option<Seq<char>>>) -> Option<Seq<char>>
    decreases s.len(),
{
    if s.len() == 0 {
        None
    } else {
        match s[0] {
            Some(t) => Some(t),
            None => first_present(s.subrange(1, s.len() as int)),
        }
    }
}

pub open spec fn reason_font() -> Seq<char> {
    "package owns TrueType/OpenType font files in a known font directory"@
}

pub open spec fn font_metadata(ms: Seq<FontFileView>, owner: Option<Seq<char>>) -> Map<Seq<char>, Seq<char>> {
    let styles = sorted_distinct(present(ms.map_values(|f: FontFileView| f.style)));
    let formats = sorted_distinct(present(ms.map_values(|f: FontFileView| f.font_format)));
    let m0 = match owner {
        Some(p) => Map::<Seq<char>, Seq<char>>::empty().insert("owning_package"@, p),
        None => Map::empty(),
    };
    let m1 = if styles.len() > 0 { m0.insert("styles"@, joined(styles, ";"@)) } else { m0 };
    let m2 = if formats.len() > 0 { m1.insert("font_formats"@, joined(formats, ";"@)) } else { m1 };
    let m3 = m2.insert("file_count"@, decimal(ms.len()));
    match first_present(ms.map_values(|f: FontFileView| f.language_coverage)) {
        Some(l) => m3.insert("language_coverage"@, l),
        None => m3,
    }
}

/// The item for one family in one scope: under its owner's `apt:` id and
/// unclassified when one package owns all its files, else a manual font
/// under `font:<scope>:<slug>`, classified as a font with certainty.
pub open spec fn font_item(
    family: Seq<char>,
    scope: InstallationScope,
    ms: Seq<FontFileView>,
    owners: Map<Seq<char>, Seq<char>>,
) -> SoftwareItemView {
    let owner = single_owner(ms, owners);
    let s = slug(family);
    SoftwareItemView {
        id: match owner {
            Some(p) => "apt:"@ + p,
            None => "font:"@ + spec_scope_str(scope) + ":"@ + s,
        },
        package_name: match owner {
            Some(p) => p,
            None => s,
        },
        display_name: family,
        description: None,
        version: None,
        architecture: None,
        category: if owner is Some { SoftwareCategory::Unclassified } else { SoftwareCategory::Font },
        secondary_categories: Seq::empty(),
        package_manager: if owner is Some { PackageManager::Apt } else { PackageManager::Manual },
        package_source: None,
        scope: scope,
        install_paths: ms.map_values(|f: FontFileView| f.file),
        executable_paths: Seq::empty(),
        desktop_file_paths: Seq::empty(),
        icon_path: None,
        package_section: None,
        installed_size_bytes: None,
        installed_at: None,
        installation_reason: InstallationReason::Unknown,
        dependencies: Seq::empty(),
        reverse_dependencies: Seq::empty(),
        update_available: false,
        available_version: None,
        repository: None,
        homepage: None,
        license: None,
        classification_confidence: if owner is Some {
            ClassificationConfidence::Unknown
        } else {
            ClassificationConfidence::Certain
        },
        classification_reasons: if owner is Some { Seq::empty() } else { seq![reason_font()] },
        risk_level: SoftwareRiskLevel::Unknown,
        metadata: font_metadata(ms, owner),
        warnings: Seq::empty(),
    }
}

pub open spec fn item_id_key() -> spec_fn(SoftwareItemView) -> Seq<char> {
    |v: SoftwareItemView| v.id
}

/// One item per (scope, family) of the in-scope files, ordered by id;
/// items with equal ids keep the order in which their families first appear.
pub open spec fn spec_build_font_items(
    s: Seq<(FontFileView, InstallationScope)>,
    owners: Map<Seq<char>, Seq<char>>,
) -> Seq<SoftwareItemView> {
    let keys = font_keys(s);
    sorted_by(
        keys.map_values(|k: (InstallationScope, Seq<char>)| font_item(k.1, k.0, font_members(s, k), owners)),
        item_id_key(),
    )
}

pub open spec fn records_view(v: Seq<FontFileRecord>) -> Seq<FontFileView> {
    v.map_values(|r: FontFileRecord| r@)
}

fn clone_record(r: &FontFileRecord) -> (c: FontFileRecord)
    ensures
        c@ == r@,
{
    FontFileRecord {
        file: r.file.clone(),
        family: r.family.clone(),
        style: crate::domain::clone_opt(&r.style),
        fullname: crate::domain::clone_opt(&r.fullname),
        font_format: crate::domain::clone_opt(&r.font_format),
        language_coverage: crate::domain::clone_opt(&r.language_coverage),
    }
}

fn same_owner(a: Option<&String>, b: Option<&String>) -> (r: bool)
    ensures
        r == (match (a, b) {
            (Some(x), Some(y)) => x@ == y@,
            (None, None) => true,
            _ => false,
        }),
{
    match (a, b) {
        (Some(x), Some(y)) => str_eq(x.as_str(), y.as_str()),
        (None, None) => true,
        _ => false,
    }
}

pub open spec fn opt_ref_view(o: Option<&String>) -> Option<Seq<char>> {
    match o {
        Some(x) => Some(x@),
        None => None,
    }
}

fn single_owner_exec(records: &Vec<FontFileRecord>, owners: &StringMap) -> (r: Option<String>)
    ensures
        opt_view(r) == single_owner(records_view(records@), owners@),
{
    let ghost ms = records_view(records@);
    if records.len() == 0 {
        return None;
    }
    let first = owners.get(records[0].file.as_str());
    proof {
        assert(opt_ref_view(first) == owner_of(owners@, ms[0].file));
    }
    let mut all_same = true;
    let mut i: usize = 0;
    while i < records.len()
        invariant
            0 <= i <= records@.len(),
            records@.len() > 0,
            ms == records_view(records@),
            opt_ref_view(first) == owner_of(owners@, ms[0].file),
            all_same <==> forall|j: int| 0 <= j < i ==> owner_of(owners@, #[trigger] ms[j].file) == owner_of(owners@, ms[0].file),
        decreases records@.len() - i,
    {
        let o = owners.get(records[i].file.as_str());
        proof {
            assert(ms[i as int].file == records@[i as int].file@);
            assert(opt_ref_view(o) == owner_of(owners@, ms[i as int].file));
        }
        if !same_owner(o, first) {
            all_same = false;
        }
        i += 1;
    }
    if all_same {
        match first {
            Some(p) => Some(p.clone()),
            None => None,
        }
    } else {
        proof {
            let j = choose|j: int| 0 <= j < records@.len() && owner_of(owners@, #[trigger] ms[j].file) != owner_of(owners@, ms[0].file);
        }
        None
    }
}

/// The texts of one field, where present, in order.
fn present_styles(records: &Vec<FontFileRecord>, formats: bool) -> (r: Vec<String>)
    ensures
        strs_view(r@) == present(
            if formats {
                records_view(records@).map_values(|f: FontFileView| f.font_format)
            } else {
                records_view(records@).map_values(|f: FontFileView| f.style)
            },
        ),
{
    let ghost field = if formats {
        records_view(records@).map_values(|f: FontFileView| f.font_format)
    } else {
        records_view(records@).map_values(|f: FontFileView| f.style)
    };
    let mut out: Vec<String> = Vec::new();
    let mut i: usize = 0;
    while i < records.len()
        invariant
            0 <= i <= records@.len(),
            field == (if formats {
                records_view(records@).map_values(|f: FontFileView| f.font_format)
            } else {
                records_view(records@).map_values(|f: FontFileView| f.style)
            }),
            strs_view(out@) == present(field.take(i as int)),
        decreases records@.len() - i,
    {
        proof {
            assert(field.take(i + 1).drop_last() =~= field.take(i as int));
            assert(field.take(i + 1).last() == field[i as int]);
        }
        let v = if formats {
            &records[i].font_format
        } else {
            &records[i].style
        };
        proof {
            assert(opt_view(*v) == field[i as int]);
        }
        match v {
            Some(t) => {
                out.push(t.clone());
                proof {
                    assert(strs_view(out@) =~= present(field.take(i as int)).push(t@));
                }
            },
            None => {},
        }
        i += 1;
    }
    proof {
        assert(field.take(i as int) =~= field);
    }
    out
}

/// Keeps one of each run of equal neighbours.
fn dedup_strings(v: Vec<String>) -> (r: Vec<String>)
    ensures
        strs_view(r@) == dedup_adjacent(strs_view(v@)),
{
    let mut out: Vec<String> = Vec::new();
    let mut i: usize = 0;
    while i < v.len()
        invariant
            0 <= i <= v@.len(),
            strs_view(out@) == dedup_adjacent(strs_view(v@.take(i as int))),
        decreases v@.len() - i,
    {
        proof {
            assert(strs_view(v@.take(i + 1)).drop_last() =~= strs_view(v@.take(i as int)));
            assert(strs_view(v@.take(i + 1)).last() == v@[i as int]@);
        }
        let n = out.len();
        let dup = n > 0 && str_eq(out[n - 1].as_str(), v[i].as_str());
        if !dup {
            out.push(v[i].clone());
            proof {
                assert(strs_view(out@) =~= dedup_adjacent(strs_view(v@.take(i as int))).push(v@[i as int]@));
            }
        } else {
            proof {
                assert(strs_view(out@).last() == out@[n - 1]@);
            }
        }
        i += 1;
    }
    proof {
        assert(v@.take(i as int) =~= v@);
    }
    out
}

fn first_coverage(records: &Vec<FontFileRecord>) -> (r: Option<String>)
    ensures
        opt_view(r) == first_present(records_view(records@).map_values(|f: FontFileView| f.language_coverage)),
{
    let ghost field = records_view(records@).map_values(|f: FontFileView| f.language_coverage);
    proof {
        assert(field.subrange(0, field.len() as int) =~= field);
    }
    let mut i: usize = 0;
    while i < records.len()
        invariant
            0 <= i <= records@.len(),
            field == records_view(records@).map_values(|f: FontFileView| f.language_coverage),
            first_present(field) == first_present(field.subrange(i as int, field.len() as int)),
        decreases records@.len() - i,
    {
        let ghost rest = field.subrange(i as int, field.len() as int);
        proof {
            assert(rest[0] == field[i as int]);
            assert(rest.subrange(1, rest.len() as int) =~= field.subrange(i + 1, field.len() as int));
        }
        match &records[i].language_coverage {
            Some(l) => {
                return Some(l.clone());
            },
            None => {},
        }
        i += 1;
    }
    None
}

/// The item for one family's files, found in `scope`.
pub fn build_item(family: &str, scope: InstallationScope, records: &Vec<FontFileRecord>, owners: &StringMap) -> (item: SoftwareItem)
    ensures
        item@ == font_item(family@, scope, records_view(records@), owners@),
{
    let ghost ms = records_view(records@);
    let owner = single_owner_exec(records, owners);
    let slugged = slugify(family);
    let mut id = String::new();
    let mut item = match &owner {
        Some(p) => {
            push_str(&mut id, "apt:");
            push_str(&mut id, p.as_str());
            SoftwareItem::new(id.as_str(), p.as_str(), family, PackageManager::Apt)
        },
        None => {
            push_str(&mut id, "font:");
            push_str(&mut id, scope_str(scope));
            push_str(&mut id, ":");
            push_str(&mut id, slugged.as_str());
            SoftwareItem::new(id.as_str(), slugged.as_str(), family, PackageManager::Manual)
        },
    };
    item.scope = scope;
    let mut paths: Vec<String> = Vec::new();
    let mut i: usize = 0;
    while i < records.len()
        invariant
            0 <= i <= records@.len(),
            ms == records_view(records@),
            paths@.len() == i,
            forall|j: int| 0 <= j < i ==> #[trigger] paths@[j]@ == ms[j].file,
        decreases records@.len() - i,
    {
        paths.push(records[i].file.clone());
        proof {
            assert(ms[i as int] == records@[i as int]@);
        }
        i += 1;
    }
    proof {
        assert(strs_view(paths@) =~= ms.map_values(|f: FontFileView| f.file));
    }
    item.install_paths = paths;
    match &owner {
        Some(p) => {
            item.metadata.insert("owning_package".to_owned(), p.clone());
        },
        None => {
            item.category = SoftwareCategory::Font;
            item.classification_confidence = ClassificationConfidence::Certain;
            let mut reasons: Vec<String> = Vec::new();
            reasons.push("package owns TrueType/OpenType font files in a known font directory".to_owned());
            item.classification_reasons = reasons;
        },
    }
    let styles = dedup_strings(sort_strings(&present_styles(records, false)));
    if styles.len() > 0 {
        let mut t = String::new();
        push_joined(&mut t, &styles, ";");
        item.metadata.insert("styles".to_owned(), t);
    }
    let formats = dedup_strings(sort_strings(&present_styles(records, true)));
    if formats.len() > 0 {
        let mut t = String::new();
        push_joined(&mut t, &formats, ";");
        item.metadata.insert("font_formats".to_owned(), t);
    }
    let mut count = String::new();
    push_decimal(&mut count, records.len() as u64);
    item.metadata.insert("file_count".to_owned(), count);
    match first_coverage(records) {
        Some(l) => {
            item.metadata.insert("language_coverage".to_owned(), l);
        },
        None => {},
    }
    proof {
        let want = font_item(family@, scope, ms, owners@);
        assert(item@.metadata =~= want.metadata);
        assert(item@.install_paths =~= want.install_paths);
        assert(item@.classification_reasons =~= want.classification_reasons);
        assert(item@.executable_paths =~= want.executable_paths);
        assert(item@.desktop_file_paths =~= want.desktop_file_paths);
        assert(item@.dependencies =~= want.dependencies);
        assert(item@.reverse_dependencies =~= want.reverse_dependencies);
        assert(item@.warnings =~= want.warnings);
        assert(item@.secondary_categories =~= want.secondary_categories);
    }
    item
}

pub open spec fn keys_view(s: Seq<(InstallationScope, String)>) -> Seq<(InstallationScope, Seq<char>)> {
    s.map_values(|k: (InstallationScope, String)| (k.0, k.1@))
}

/// The (scope, family) groups of the in-scope files, in order of first
/// appearance, each with its files in order.
fn group_files(in_scope: &Vec<(FontFileRecord, InstallationScope)>) -> (r: (Vec<(InstallationScope, String)>, Vec<Vec<FontFileRecord>>))
    ensures
        keys_view(r.0@) == font_keys(in_scope_view(in_scope@)),
        r.1@.len() == r.0@.len(),
        forall|g: int| 0 <= g < r.1@.len() ==> records_view(#[trigger] r.1@[g]@) == font_members(
            in_scope_view(in_scope@),
            keys_view(r.0@)[g],
        ),
{
    let ghost sv = in_scope_view(in_scope@);
    let mut keys: Vec<(InstallationScope, String)> = Vec::new();
    let mut groups: Vec<Vec<FontFileRecord>> = Vec::new();
    let mut i: usize = 0;
    while i < in_scope.len()
        invariant
            0 <= i <= in_scope@.len(),
            sv == in_scope_view(in_scope@),
            keys_view(keys@) == font_keys(sv.take(i as int)),
            forall|a: int, b: int| 0 <= a < b < keys@.len() ==> keys_view(keys@)[a] != keys_view(keys@)[b],
            groups@.len() == keys@.len(),
            forall|g: int| 0 <= g < groups@.len() ==> records_view(#[trigger] groups@[g]@) == font_members(
                sv.take(i as int),
                keys_view(keys@)[g],
            ),
        decreases in_scope@.len() - i,
    {
        let ghost prev = sv.take(i as int);
        let ghost cur = sv.take(i + 1);
        proof {
            assert(cur.drop_last() =~= prev);
            assert(cur.last() == sv[i as int]);
        }
        let rec = &in_scope[i].0;
        let scope = in_scope[i].1;
        let ghost key = (scope, rec.family@);
        proof {
            assert(font_key(cur.last()) == key);
        }
        let mut p: usize = 0;
        let mut found = false;
        while p < keys.len() && !found
            invariant
                0 <= p <= keys@.len(),
                key == (scope, rec.family@),
                !found ==> forall|j: int| 0 <= j < p ==> keys_view(keys@)[j] != key,
                found ==> p < keys@.len() && keys_view(keys@)[p as int] == key,
            decreases keys@.len() - p + (if found { 0int } else { 1int }),
        {
            if keys[p].0 == scope && str_eq(keys[p].1.as_str(), rec.family.as_str()) {
                found = true;
            } else {
                p += 1;
            }
        }
        let ghost kv = keys_view(keys@);
        let ghost gv = groups@;
        if found {
            proof {
                assert(kv.contains(key));
                assert(font_keys(cur) == font_keys(prev));
            }
            let mut g = groups.remove(p);
            g.push(clone_record(rec));
            groups.insert(p, g);
            proof {
                assert forall|q: int| 0 <= q < groups@.len() implies records_view(#[trigger] groups@[q]@) == font_members(
                    cur,
                    keys_view(keys@)[q],
                ) by {
                    if q == p {
                        assert(records_view(groups@[q]@) =~= records_view(gv[q]@).push(rec@));
                    } else {
                        assert(groups@[q] == gv[q]);
                        assert(kv[q] != kv[p as int]);
                    }
                }
            }
        } else {
            proof {
                assert(!kv.contains(key)) by {
                    if kv.contains(key) {
                        let j = choose|j: int| 0 <= j < kv.len() && kv[j] == key;
                        assert(kv[j] != key);
                    }
                }
                lemma_members_of_unseen(prev, key);
            }
            keys.push((scope, rec.family.clone()));
            let mut g: Vec<FontFileRecord> = Vec::new();
            g.push(clone_record(rec));
            groups.push(g);
            proof {
                assert(keys_view(keys@) =~= kv.push(key));
                assert(records_view(g@) =~= seq![rec@]);
                assert forall|q: int| 0 <= q < groups@.len() implies records_view(#[trigger] groups@[q]@) == font_members(
                    cur,
                    keys_view(keys@)[q],
                ) by {
                    if q < gv.len() {
                        assert(groups@[q] == gv[q]);
                        assert(kv[q] != key);
                    } else {
                        assert(font_members(prev, key) =~= Seq::<FontFileView>::empty());
                    }
                }
            }
        }
        i += 1;
    }
    proof {
        assert(sv.take(i as int) =~= sv);
    }
    (keys, groups)
}

/// One item per (scope, family) of the in-scope files, ordered by id.
pub fn build_items(in_scope: &Vec<(FontFileRecord, InstallationScope)>, owners: &StringMap) -> (items: Vec<SoftwareItem>)
    ensures
        items_view(items@) == spec_build_font_items(in_scope_view(in_scope@), owners@),
{
    let ghost sv = in_scope_view(in_scope@);
    let (keys, groups) = group_files(in_scope);
    let ghost unsorted = font_keys(sv).map_values(
        |k: (InstallationScope, Seq<char>)| font_item(k.1, k.0, font_members(sv, k), owners@),
    );
    let mut out: Vec<SoftwareItem> = Vec::new();
    let mut ids: Vec<Vec<char>> = Vec::new();
    let mut g: usize = 0;
    proof {
        assert(items_view(out@) =~= sorted_by(unsorted.take(0), item_id_key()));
    }
    while g < keys.len()
        invariant
            0 <= g <= keys@.len() == groups@.len(),
            keys_view(keys@) == font_keys(sv),
            unsorted == font_keys(sv).map_values(
                |k: (InstallationScope, Seq<char>)| font_item(k.1, k.0, font_members(sv, k), owners@),
            ),
            forall|q: int| 0 <= q < groups@.len() ==> records_view(#[trigger] groups@[q]@) == font_members(sv, keys_view(keys@)[q]),
            ids@.len() == out@.len(),
            forall|j: int| 0 <= j < ids@.len() ==> (#[trigger] ids@[j])@ == out@[j].id@,
            items_view(out@) == sorted_by(unsorted.take(g as int), item_id_key()),
        decreases keys@.len() - g,
    {
        let x = build_item(keys[g].1.as_str(), keys[g].0, &groups[g], owners);
        proof {
            assert(keys_view(keys@)[g as int] == (keys@[g as int].0, keys@[g as int].1@));
            assert(x@ == unsorted[g as int]);
        }
        let k = chars_of(x.id.as_str());
        let mut pos = out.len();
        while pos > 0 && !lex_le_exec(&ids[pos - 1], &k)
            invariant
                0 <= pos <= out@.len() == ids@.len(),
                forall|j: int| 0 <= j < ids@.len() ==> (#[trigger] ids@[j])@ == out@[j].id@,
                k@ == x.id@,
                forall|j: int| pos <= j < out@.len() ==> !lex_le((#[trigger] out@[j]).id@, k@),
            decreases pos,
        {
            pos -= 1;
        }
        proof {
            let s = items_view(out@);
            assert forall|j: int| pos <= j < s.len() implies !lex_le(
                item_id_key()(#[trigger] s[j]),
                item_id_key()(x@),
            ) by {
                assert(s[j] == out@[j]@);
            }
            if pos > 0 {
                assert(s[pos - 1] == out@[pos - 1]@);
            }
            lemma_insert_by_at(s, x@, item_id_key(), pos as int);
            assert(unsorted.take(g + 1).drop_last() =~= unsorted.take(g as int));
            assert(unsorted.take(g + 1).last() == x@);
        }
        let ghost before = out@;
        let ghost kbefore = ids@;
        let ghost xv = x@;
        out.insert(pos, x);
        ids.insert(pos, k);
        proof {
            assert(items_view(out@) =~= items_view(before).insert(pos as int, xv));
            assert forall|j: int| 0 <= j < ids@.len() implies (#[trigger] ids@[j])@ == out@[j].id@ by {
                if j < pos {
                    assert(ids@[j] == kbefore[j] && out@[j] == before[j]);
                } else if j > pos {
                    assert(ids@[j] == kbefore[j - 1] && out@[j] == before[j - 1]);
                }
            }
        }
        g += 1;
    }
    proof {
        assert(unsorted.take(g as int) =~= unsorted);
    }
    out
}

/// The in-scope files with their scopes, in order: a file outside every
/// known font directory is dropped.
pub open spec fn spec_in_scope(rs: Seq<FontFileView>, user_dirs: Seq<Seq<char>>) -> Seq<(FontFileView, InstallationScope)>
    decreases rs.len(),
{
    if rs.len() == 0 {
        Seq::empty()
    } else {
        match spec_classify_scope(rs.last().file, user_dirs) {
            Some(s) => spec_in_scope(rs.drop_last(), user_dirs).push((rs.last(), s)),
            None => spec_in_scope(rs.drop_last(), user_dirs),
        }
    }
}

/// Keeps the files that lie in a known font directory, each with its scope.
pub fn select_in_scope(records: Vec<FontFileRecord>, user_dirs: &Vec<String>) -> (r: Vec<(FontFileRecord, InstallationScope)>)
    ensures
        in_scope_view(r@) == spec_in_scope(records_view(records@), strs_view(user_dirs@)),
{
    let ghost rv = records_view(records@);
    let mut out: Vec<(FontFileRecord, InstallationScope)> = Vec::new();
    let mut i: usize = 0;
    while i < records.len()
        invariant
            0 <= i <= records@.len(),
            rv == records_view(records@),
            in_scope_view(out@) == spec_in_scope(rv.take(i as int), strs_view(user_dirs@)),
        decreases records@.len() - i,
    {
        proof {
            assert(rv.take(i + 1).drop_last() =~= rv.take(i as int));
            assert(rv.take(i + 1).last() == records@[i as int]@);
        }
        match classify_scope(records[i].file.as_str(), user_dirs) {
            Some(scope) => {
                let ghost before = out@;
                out.push((clone_record(&records[i]), scope));
                proof {
                    assert(in_scope_view(out@) =~= in_scope_view(before).push((records@[i as int]@, scope)));
                }
            },
            None => {},
        }
        i += 1;
    }
    proof {
        assert(rv.take(i as int) =~= rv);
    }
    out
}

pub open spec fn msg_owners_failed(error: RunError) -> Seq<char> {
    "could not resolve font package ownership via dpkg -S ("@ + error.spec_message()
        + "); all fonts will be treated as unowned"@
}

/// The ownership table from `dpkg -S`'s outcome; a failure is warned about
/// and every font is then treated as unowned.
pub fn owners_outcome(outcome: Result<StringMap, RunError>, warnings: &mut Vec<ProviderWarning>) -> (owners: StringMap)
    ensures
        outcome matches Ok(m) ==> owners@ == m@ && final(warnings)@ == old(warnings)@,
        outcome matches Err(e) ==> owners@ == Map::<Seq<char>, Seq<char>>::empty() && appended_plain(
            old(warnings)@,
            final(warnings)@,
            seq![msg_owners_failed(e)],
        ),
{
    match outcome {
        Ok(m) => m,
        Err(error) => {
            let mut m = String::new();
            push_str(&mut m, "could not resolve font package ownership via dpkg -S (");
            let text = error.message();
            push_str(&mut m, text.as_str());
            push_str(&mut m, "); all fonts will be treated as unowned");
            proof {
                assert(m@ =~= msg_owners_failed(error));
            }
            push_warning(warnings, m);
            StringMap::new()
        },
    }
}

// ---------------------------------------------------------------------------
// Laws

proof fn lemma_font_keys_distinct(s: Seq<(FontFileView, InstallationScope)>)
    ensures
        forall|a: int, b: int| 0 <= a < b < font_keys(s).len() ==> font_keys(s)[a] != font_keys(s)[b],
        forall|k: int| 0 <= k < s.len() ==> font_keys(s).contains(font_key(#[trigger] s[k])),
    decreases s.len(),
{
    if s.len() > 0 {
        let p = s.drop_last();
        lemma_font_keys_distinct(p);
        let kp = font_keys(p);
        let ks = font_keys(s);
        assert forall|k: int| 0 <= k < s.len() implies ks.contains(font_key(#[trigger] s[k])) by {
            if k < p.len() {
                assert(p[k] == s[k]);
                let j = choose|j: int| 0 <= j < kp.len() && kp[j] == font_key(p[k]);
                assert(ks[j] == kp[j]);
            } else if !kp.contains(font_key(s.last())) {
                assert(ks[kp.len() as int] == font_key(s.last()));
            }
        }
    }
}

/// The font provider reports one item per (scope, family) pair: as many
/// items as distinct pairs, so a family installed both system-wide and for
/// the user shows up twice; the items come ordered by id.
pub proof fn law_one_font_item_per_scope_and_family(
    s: Seq<(FontFileView, InstallationScope)>,
    owners: Map<Seq<char>, Seq<char>>,
)
    ensures
        spec_build_font_items(s, owners).len() == font_keys(s).len(),
        forall|a: int, b: int| 0 <= a < b < font_keys(s).len() ==> font_keys(s)[a] != font_keys(s)[b],
        forall|k: int| 0 <= k < s.len() ==> font_keys(s).contains(font_key(#[trigger] s[k])),
        forall|i: int, j: int|
            0 <= i < j < spec_build_font_items(s, owners).len() ==> lex_le(
                (#[trigger] spec_build_font_items(s, owners)[i]).id,
                (#[trigger] spec_build_font_items(s, owners)[j]).id,
            ),
{
    lemma_font_keys_distinct(s);
    let unsorted = font_keys(s).map_values(
        |k: (InstallationScope, Seq<char>)| font_item(k.1, k.0, font_members(s, k), owners),
    );
    crate::duplicates::lemma_sorted_by_members(unsorted, item_id_key());
    crate::duplicates::lemma_sorted_by_ordered(unsorted, item_id_key());
}

/// Two unowned families in different scopes get different ids.
pub proof fn law_unowned_scopes_get_distinct_ids(
    family: Seq<char>,
    s1: InstallationScope,
    s2: InstallationScope,
    m1: Seq<FontFileView>,
    m2: Seq<FontFileView>,
    owners: Map<Seq<char>, Seq<char>>,
)
    requires
        s1 != s2,
        single_owner(m1, owners) is None,
        single_owner(m2, owners) is None,
    ensures
        font_item(family, s1, m1, owners).id != font_item(family, s2, m2, owners).id,
{
    let a = font_item(family, s1, m1, owners).id;
    let b = font_item(family, s2, m2, owners).id;
    reveal_strlit("font:");
    reveal_strlit("system");
    reveal_strlit("user");
    reveal_strlit("unknown");
    assert(a[5] != b[5] || a[6] != b[6]) by {
        assert(a[5] == spec_scope_str(s1)[0]);
        assert(b[5] == spec_scope_str(s2)[0]);
        assert(a[6] == spec_scope_str(s1)[1]);
        assert(b[6] == spec_scope_str(s2)[1]);
    }
}

} // verus!
