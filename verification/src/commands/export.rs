//! Exports: the CSV form of the full inventory, and the reinstallation
//! manifest, which separates what a package manager can reinstall by name
//! from what a person has to review. JSON and YAML are written by the
//! program from the same values.
use vstd::prelude::*;

use crate::commands::CommandError;
use crate::domain::{
    items_view, InstallationReason, PackageManager, SoftwareItem, SoftwareItemView,
};
use crate::duplicates::{lemma_insert_by_at, sorted_by};
use crate::text::{chars_of, decimal, joined, lex_le, lex_le_exec, opt_view, push_decimal, push_joined, push_str, strs_view};

verus! {

/// The version of the export formats' layout.
pub const EXPORT_SCHEMA_VERSION: u32 = 1;

// ---------------------------------------------------------------------------
// CSV

/// A value as it is put in a CSV cell: one that a spreadsheet would take
/// for a formula (starting with `=`, `+`, `-`, `@`, a tab or a carriage
/// return) gets a leading `'`, so it is shown as text.
pub open spec fn spec_csv_safe(value: Seq<char>) -> Seq<char> {
    if value.len() > 0 && (value[0] == '=' || value[0] == '+' || value[0] == '-' || value[0] == '@'
        || value[0] == '\t' || value[0] == '\r') {
        seq!['\''] + value
    } else {
        value
    }
}

pub fn csv_safe(value: &str) -> (s: String)
    ensures
        s@ == spec_csv_safe(value@),
{
    let v = chars_of(value);
    let risky = v.len() > 0 && (v[0] == '=' || v[0] == '+' || v[0] == '-' || v[0] == '@' || v[0] == '\t'
        || v[0] == '\r');
    let mut s = String::new();
    if risky {
        push_str(&mut s, "'");
        proof {
            reveal_strlit("'");
        }
    }
    push_str(&mut s, value);
    proof {
        assert(s@ =~= spec_csv_safe(value@));
    }
    s
}

/// How the `csv` crate's writer, with its default settings, writes one
/// record: the fields, quoted where needed, separated by commas and ended
/// by a newline.
pub uninterp spec fn csv_record_text(fields: Seq<Seq<char>>) -> Seq<char>;

/// One record written by a fresh `csv::Writer` into memory, as text. This
/// succeeds: the first record a writer takes only fixes its field count,
/// writing to and flushing a `Vec<u8>` cannot fail, and UTF-8 fields give
/// UTF-8 output.
#[verifier::external_body]
fn csv_record(fields: &Vec<String>) -> (r: Result<String, String>)
    ensures
        r is Ok,
        r matches Ok(s) ==> s@ == csv_record_text(strs_view(fields@)),
{
    let mut writer = csv::Writer::from_writer(Vec::new());
    writer.write_record(fields).map_err(|e| e.to_string())?;
    let bytes = writer.into_inner().map_err(|e| e.to_string())?;
    String::from_utf8(bytes).map_err(|e| e.to_string())
}

/// A CSV document: its records, one after another.
pub open spec fn csv_document(rows: Seq<Seq<Seq<char>>>) -> Seq<char>
    decreases rows.len(),
{
    if rows.len() == 0 {
        Seq::empty()
    } else {
        csv_document(rows.drop_last()) + csv_record_text(rows.last())
    }
}

pub open spec fn rows_view(rows: Seq<Vec<String>>) -> Seq<Seq<Seq<char>>> {
    rows.map_values(|r: Vec<String>| strs_view(r@))
}

/// Writes `rows` as CSV. Were row `i` refused by the writer, the error
/// would be `internal`, with `messages[i]` and the writer's message.
fn write_csv(rows: &Vec<Vec<String>>, messages: &Vec<String>) -> (r: Result<String, CommandError>)
    requires
        messages@.len() == rows@.len(),
    ensures
        r is Ok,
        r matches Ok(s) ==> s@ == csv_document(rows_view(rows@)),
{
    let mut out = String::new();
    let mut i: usize = 0;
    while i < rows.len()
        invariant
            0 <= i <= rows@.len() == messages@.len(),
            out@ == csv_document(rows_view(rows@.take(i as int))),
        decreases rows@.len() - i,
    {
        match csv_record(&rows[i]) {
            Ok(line) => {
                push_str(&mut out, line.as_str());
                proof {
                    assert(rows_view(rows@.take(i + 1)).drop_last() =~= rows_view(rows@.take(i as int)));
                    assert(rows_view(rows@.take(i + 1)).last() == strs_view(rows@[i as int]@));
                }
            },
            Err(e) => {
                let mut m = String::new();
                push_str(&mut m, messages[i].as_str());
                push_str(&mut m, ": ");
                push_str(&mut m, e.as_str());
                return Err(CommandError::internal(m));
            },
        }
        i += 1;
    }
    proof {
        assert(rows@.take(i as int) =~= rows@);
    }
    Ok(out)
}

pub open spec fn full_csv_header() -> Seq<Seq<char>> {
    seq![
        "id"@,
        "packageName"@,
        "displayName"@,
        "category"@,
        "packageManager"@,
        "scope"@,
        "version"@,
        "installedSizeBytes"@,
        "updateAvailable"@,
        "classificationConfidence"@,
    ]
}

pub open spec fn bool_word(b: bool) -> Seq<char> {
    if b {
        "true"@
    } else {
        "false"@
    }
}

/// An item's row in the full CSV export: texts scanned from packages are
/// made formula-safe; enums are written by their names.
pub open spec fn full_csv_row(it: SoftwareItemView) -> Seq<Seq<char>> {
    seq![
        spec_csv_safe(it.id),
        spec_csv_safe(it.package_name),
        spec_csv_safe(it.display_name),
        it.category.spec_name(),
        it.package_manager.spec_name(),
        it.scope.spec_name(),
        spec_csv_safe(match it.version {
            Some(v) => v,
            None => Seq::empty(),
        }),
        match it.installed_size_bytes {
            Some(n) => decimal(n as nat),
            None => Seq::empty(),
        },
        bool_word(it.update_available),
        it.classification_confidence.spec_name(),
    ]
}

pub open spec fn full_csv_rows(s: Seq<SoftwareItemView>) -> Seq<Seq<Seq<char>>> {
    seq![full_csv_header()] + s.map_values(|it: SoftwareItemView| full_csv_row(it))
}

fn strings_of(words: &Vec<&str>) -> (r: Vec<String>)
    ensures
        strs_view(r@) == words@.map_values(|s: &str| s@),
{
    let mut r: Vec<String> = Vec::new();
    let mut i: usize = 0;
    while i < words.len()
        invariant
            0 <= i <= words@.len(),
            r@.len() == i,
            forall|k: int| 0 <= k < i ==> #[trigger] r@[k]@ == words@[k]@,
        decreases words@.len() - i,
    {
        r.push(words[i].to_owned());
        i += 1;
    }
    proof {
        assert(strs_view(r@) =~= words@.map_values(|s: &str| s@));
    }
    r
}

fn full_header_row() -> (r: Vec<String>)
    ensures
        strs_view(r@) == full_csv_header(),
{
    let words = vec![
        "id",
        "packageName",
        "displayName",
        "category",
        "packageManager",
        "scope",
        "version",
        "installedSizeBytes",
        "updateAvailable",
        "classificationConfidence",
    ];
    let r = strings_of(&words);
    proof {
        assert(words@.map_values(|s: &str| s@) =~= full_csv_header());
    }
    r
}

fn full_row(item: &SoftwareItem) -> (r: Vec<String>)
    ensures
        strs_view(r@) == full_csv_row(item@),
{
    let mut r: Vec<String> = Vec::new();
    r.push(csv_safe(item.id.as_str()));
    r.push(csv_safe(item.package_name.as_str()));
    r.push(csv_safe(item.display_name.as_str()));
    r.push(item.category.name().to_owned());
    r.push(item.package_manager.name().to_owned());
    r.push(item.scope.name().to_owned());
    r.push(
        match &item.version {
            Some(v) => csv_safe(v.as_str()),
            None => csv_safe(""),
        },
    );
    let mut size = String::new();
    match item.installed_size_bytes {
        Some(n) => push_decimal(&mut size, n),
        None => {},
    }
    r.push(size);
    r.push(
        if item.update_available {
            "true".to_owned()
        } else {
            "false".to_owned()
        },
    );
    r.push(item.classification_confidence.name().to_owned());
    proof {
        reveal_strlit("");
        assert(""@ =~= Seq::<char>::empty());
        assert(strs_view(r@) =~= full_csv_row(item@));
    }
    r
}

/// The full inventory as CSV: a header, then one row per item in order.
pub fn export_csv(items: &Vec<SoftwareItem>) -> (r: Result<String, CommandError>)
    ensures
        r is Ok,
        r matches Ok(s) ==> s@ == csv_document(full_csv_rows(items_view(items@))),
{
    let mut rows: Vec<Vec<String>> = Vec::new();
    let mut messages: Vec<String> = Vec::new();
    rows.push(full_header_row());
    messages.push("failed to write CSV header".to_owned());
    let mut i: usize = 0;
    while i < items.len()
        invariant
            0 <= i <= items@.len(),
            rows@.len() == messages@.len() == i + 1,
            rows_view(rows@) == full_csv_rows(items_view(items@.take(i as int))),
        decreases items@.len() - i,
    {
        let ghost before = rows@;
        let row = full_row(&items[i]);
        let ghost rv = strs_view(row@);
        rows.push(row);
        let mut m = String::new();
        push_str(&mut m, "failed to write CSV row for ");
        push_str(&mut m, items[i].id.as_str());
        messages.push(m);
        proof {
            assert(rows_view(rows@) =~= rows_view(before).push(rv));
            let a = items_view(items@.take(i as int));
            let b = items_view(items@.take(i + 1));
            assert(b =~= a.push(items@[i as int]@));
            assert(b.map_values(|it: SoftwareItemView| full_csv_row(it)) =~= a.map_values(
                |it: SoftwareItemView| full_csv_row(it),
            ).push(full_csv_row(items@[i as int]@)));
            assert(rows_view(rows@) =~= full_csv_rows(b));
        }
        i += 1;
    }
    proof {
        assert(items@.take(i as int) =~= items@);
    }
    write_csv(&rows, &messages)
}

// ---------------------------------------------------------------------------
// Reinstallation manifest

/// The package managers that can reinstall a package by name, in the order
/// their groups appear.
pub open spec fn reproducible_managers() -> Seq<PackageManager> {
    seq![
        PackageManager::Apt,
        PackageManager::Flatpak,
        PackageManager::Snap,
        PackageManager::Pip,
        PackageManager::Pipx,
        PackageManager::Npm,
        PackageManager::Cargo,
    ]
}

pub fn reproducible_managers_list() -> (v: Vec<PackageManager>)
    ensures
        v@ == reproducible_managers(),
{
    let v = vec![
        PackageManager::Apt,
        PackageManager::Flatpak,
        PackageManager::Snap,
        PackageManager::Pip,
        PackageManager::Pipx,
        PackageManager::Npm,
        PackageManager::Cargo,
    ];
    proof {
        assert(v@ =~= reproducible_managers());
    }
    v
}

pub open spec fn spec_install_hint(m: PackageManager) -> Seq<char> {
    match m {
        PackageManager::Apt => "sudo apt install <package names>"@,
        PackageManager::Flatpak => "flatpak install <package names>"@,
        PackageManager::Snap => "sudo snap install <package names>"@,
        PackageManager::Pip => "pip install <package names>"@,
        PackageManager::Pipx => "pipx install <package names>"@,
        PackageManager::Npm => "npm install -g <package names>"@,
        PackageManager::Cargo => "cargo install <package names>"@,
        _ => "no automatic install command"@,
    }
}

/// The command that reinstalls packages of `manager`, with the names left to fill in.
pub fn install_hint(manager: PackageManager) -> (s: &'static str)
    ensures
        s@ == spec_install_hint(manager),
{
    match manager {
        PackageManager::Apt => "sudo apt install <package names>",
        PackageManager::Flatpak => "flatpak install <package names>",
        PackageManager::Snap => "sudo snap install <package names>",
        PackageManager::Pip => "pip install <package names>",
        PackageManager::Pipx => "pipx install <package names>",
        PackageManager::Npm => "npm install -g <package names>",
        PackageManager::Cargo => "cargo install <package names>",
        PackageManager::AppImage | PackageManager::Manual | PackageManager::Unknown => "no automatic install command",
    }
}

pub open spec fn spec_manual_review_reason(m: PackageManager) -> Seq<char> {
    match m {
        PackageManager::AppImage => "AppImage bundle -- no package registry entry; keep or re-download the file manually."@,
        PackageManager::Manual => "Found in a local bin/lib/opt directory with no owning package manager; review manually."@,
        _ => "Kunger could not determine a package manager for this item; review manually."@,
    }
}

/// Why an item needs a person's review, by its package manager.
pub fn manual_review_reason(manager: PackageManager) -> (s: String)
    ensures
        s@ == spec_manual_review_reason(manager),
{
    match manager {
        PackageManager::AppImage => "AppImage bundle -- no package registry entry; keep or re-download the file manually.".to_owned(),
        PackageManager::Manual => "Found in a local bin/lib/opt directory with no owning package manager; review manually.".to_owned(),
        _ => "Kunger could not determine a package manager for this item; review manually.".to_owned(),
    }
}

/// A package a manager can reinstall by name.
#[derive(Debug, Clone)]
pub struct ReproduciblePackage {
    pub package_name: String,
    pub display_name: String,
    pub version: Option<String>,
}

/// The packages of one manager, with its install command.
#[derive(Debug, Clone)]
pub struct ReproducibleGroup {
    pub package_manager: PackageManager,
    pub install_hint: String,
    pub packages: Vec<ReproduciblePackage>,
}

/// An item no package manager can reinstall, with why and where it is.
#[derive(Debug, Clone)]
pub struct ManualReviewItem {
    pub id: String,
    pub display_name: String,
    pub package_manager: PackageManager,
    pub reason: String,
    pub paths: Vec<String>,
}

/// What to run to get the software back, and what to look at by hand.
#[derive(Debug, Clone)]
pub struct ReinstallManifest {
    pub schema_version: u32,
    /// When the manifest was made, in ms since the epoch.
    pub exported_at: i64,
    pub reproducible: Vec<ReproducibleGroup>,
    pub manual_review: Vec<ManualReviewItem>,
}

pub struct PackageView {
    pub package_name: Seq<char>,
    pub display_name: Seq<char>,
    pub version: Option<Seq<char>>,
}

pub struct GroupView {
    pub package_manager: PackageManager,
    pub install_hint: Seq<char>,
    pub packages: Seq<PackageView>,
}

pub struct ReviewView {
    pub id: Seq<char>,
    pub display_name: Seq<char>,
    pub package_manager: PackageManager,
    pub reason: Seq<char>,
    pub paths: Seq<Seq<char>>,
}

impl View for ReproduciblePackage {
    type V = PackageView;

    open spec fn view(&self) -> PackageView {
        PackageView { package_name: self.package_name@, display_name: self.display_name@, version: opt_view(self.version) }
    }
}

impl View for ReproducibleGroup {
    type V = GroupView;

    open spec fn view(&self) -> GroupView {
        GroupView {
            package_manager: self.package_manager,
            install_hint: self.install_hint@,
            packages: self.packages@.map_values(|p: ReproduciblePackage| p@),
        }
    }
}

impl View for ManualReviewItem {
    type V = ReviewView;

    open spec fn view(&self) -> ReviewView {
        ReviewView {
            id: self.id@,
            display_name: self.display_name@,
            package_manager: self.package_manager,
            reason: self.reason@,
            paths: strs_view(self.paths@),
        }
    }
}

/// The items a manifest is about: every one not installed automatically
/// as a dependency (reinstalling what was chosen brings those back).
pub open spec fn chosen(s: Seq<SoftwareItemView>) -> Seq<SoftwareItemView>
    decreases s.len(),
{
    if s.len() == 0 {
        s
    } else if s.last().installation_reason != InstallationReason::Automatic {
        chosen(s.drop_last()).push(s.last())
    } else {
        chosen(s.drop_last())
    }
}

pub open spec fn package_of(it: SoftwareItemView) -> PackageView {
    PackageView { package_name: it.package_name, display_name: it.display_name, version: it.version }
}

/// The packages of the items of `s` managed by `m`, in order.
pub open spec fn packages_of(s: Seq<SoftwareItemView>, m: PackageManager) -> Seq<PackageView>
    decreases s.len(),
{
    if s.len() == 0 {
        Seq::empty()
    } else if s.last().package_manager == m {
        packages_of(s.drop_last(), m).push(package_of(s.last()))
    } else {
        packages_of(s.drop_last(), m)
    }
}

pub open spec fn package_name_key() -> spec_fn(PackageView) -> Seq<char> {
    |p: PackageView| p.package_name
}

pub open spec fn review_name_key() -> spec_fn(ReviewView) -> Seq<char> {
    |r: ReviewView| r.display_name
}

/// One group per reproducible manager that has chosen items, in the fixed
/// manager order, its packages sorted by package name.
pub open spec fn groups_upto(s: Seq<SoftwareItemView>, n: int) -> Seq<GroupView>
    decreases n,
{
    if n <= 0 {
        Seq::empty()
    } else {
        let m = reproducible_managers()[n - 1];
        let ps = packages_of(chosen(s), m);
        if ps.len() > 0 {
            groups_upto(s, n - 1).push(GroupView {
                package_manager: m,
                install_hint: spec_install_hint(m),
                packages: sorted_by(ps, package_name_key()),
            })
        } else {
            groups_upto(s, n - 1)
        }
    }
}

pub open spec fn review_of(it: SoftwareItemView) -> ReviewView {
    ReviewView {
        id: it.id,
        display_name: it.display_name,
        package_manager: it.package_manager,
        reason: spec_manual_review_reason(it.package_manager),
        paths: it.install_paths,
    }
}

/// The chosen items no reproducible manager handles, in order.
pub open spec fn reviews_of(s: Seq<SoftwareItemView>) -> Seq<ReviewView>
    decreases s.len(),
{
    if s.len() == 0 {
        Seq::empty()
    } else if !reproducible_managers().contains(s.last().package_manager) {
        reviews_of(s.drop_last()).push(review_of(s.last()))
    } else {
        reviews_of(s.drop_last())
    }
}

/// The manifest of `s`: the reproducible groups, and the items for review
/// sorted by display name.
pub open spec fn spec_manifest(s: Seq<SoftwareItemView>) -> (Seq<GroupView>, Seq<ReviewView>) {
    (groups_upto(s, 7), sorted_by(reviews_of(chosen(s)), review_name_key()))
}

fn sort_packages(v: Vec<ReproduciblePackage>) -> (r: Vec<ReproduciblePackage>)
    ensures
        r@.map_values(|p: ReproduciblePackage| p@) == sorted_by(v@.map_values(|p: ReproduciblePackage| p@), package_name_key()),
{
    let ghost s = v@.map_values(|p: ReproduciblePackage| p@);
    let mut rest = v;
    let mut out: Vec<ReproduciblePackage> = Vec::new();
    let mut keys: Vec<Vec<char>> = Vec::new();
    let mut i: usize = 0;
    let n = rest.len();
    proof {
        assert(out@.map_values(|p: ReproduciblePackage| p@) =~= sorted_by(s.take(0), package_name_key()));
        assert(rest@.map_values(|p: ReproduciblePackage| p@) =~= s.subrange(0, s.len() as int));
    }
    while rest.len() > 0
        invariant
            i + rest@.len() == s.len() == n,
            rest@.map_values(|p: ReproduciblePackage| p@) == s.subrange(i as int, s.len() as int),
            keys@.len() == out@.len(),
            forall|j: int| 0 <= j < keys@.len() ==> (#[trigger] keys@[j])@ == out@[j].package_name@,
            out@.map_values(|p: ReproduciblePackage| p@) == sorted_by(s.take(i as int), package_name_key()),
        decreases rest@.len(),
    {
        let ghost rv = rest@.map_values(|p: ReproduciblePackage| p@);
        let ghost old_rest = rest@;
        let x = rest.remove(0);
        proof {
            assert(rv[0] == x@);
            assert(s[i as int] == x@);
            assert forall|j: int| 0 <= j < rest@.len() implies #[trigger] rest@[j]@ == s[i + 1 + j] by {
                assert(rest@[j] == old_rest[j + 1]);
                assert(rv[j + 1] == old_rest[j + 1]@);
            }
            assert(rest@.map_values(|p: ReproduciblePackage| p@) =~= s.subrange(i + 1, s.len() as int));
        }
        let k = chars_of(x.package_name.as_str());
        let mut pos = out.len();
        while pos > 0 && !lex_le_exec(&keys[pos - 1], &k)
            invariant
                0 <= pos <= out@.len() == keys@.len(),
                forall|j: int| 0 <= j < keys@.len() ==> (#[trigger] keys@[j])@ == out@[j].package_name@,
                k@ == x.package_name@,
                forall|j: int| pos <= j < out@.len() ==> !lex_le((#[trigger] out@[j]).package_name@, k@),
            decreases pos,
        {
            pos -= 1;
        }
        proof {
            let sv = out@.map_values(|p: ReproduciblePackage| p@);
            assert forall|j: int| pos <= j < sv.len() implies !lex_le(package_name_key()(#[trigger] sv[j]), package_name_key()(x@)) by {
                assert(sv[j] == out@[j]@);
            }
            if pos > 0 {
                assert(sv[pos - 1] == out@[pos - 1]@);
            }
            lemma_insert_by_at(sv, x@, package_name_key(), pos as int);
            assert(s.take(i + 1).drop_last() =~= s.take(i as int));
            assert(s.take(i + 1).last() == x@);
        }
        let ghost before = out@;
        let ghost kbefore = keys@;
        let ghost xv = x@;
        out.insert(pos, x);
        keys.insert(pos, k);
        proof {
            assert(out@.map_values(|p: ReproduciblePackage| p@) =~= before.map_values(|p: ReproduciblePackage| p@).insert(pos as int, xv));
            assert forall|j: int| 0 <= j < keys@.len() implies (#[trigger] keys@[j])@ == out@[j].package_name@ by {
                if j < pos {
                    assert(keys@[j] == kbefore[j] && out@[j] == before[j]);
                } else if j > pos {
                    assert(keys@[j] == kbefore[j - 1] && out@[j] == before[j - 1]);
                }
            }
        }
        i += 1;
    }
    proof {
        assert(s.take(i as int) =~= s);
    }
    out
}

fn sort_reviews(v: Vec<ManualReviewItem>) -> (r: Vec<ManualReviewItem>)
    ensures
        r@.map_values(|p: ManualReviewItem| p@) == sorted_by(v@.map_values(|p: ManualReviewItem| p@), review_name_key()),
{
    let ghost s = v@.map_values(|p: ManualReviewItem| p@);
    let mut rest = v;
    let mut out: Vec<ManualReviewItem> = Vec::new();
    let mut keys: Vec<Vec<char>> = Vec::new();
    let mut i: usize = 0;
    let n = rest.len();
    proof {
        assert(out@.map_values(|p: ManualReviewItem| p@) =~= sorted_by(s.take(0), review_name_key()));
        assert(rest@.map_values(|p: ManualReviewItem| p@) =~= s.subrange(0, s.len() as int));
    }
    while rest.len() > 0
        invariant
            i + rest@.len() == s.len() == n,
            rest@.map_values(|p: ManualReviewItem| p@) == s.subrange(i as int, s.len() as int),
            keys@.len() == out@.len(),
            forall|j: int| 0 <= j < keys@.len() ==> (#[trigger] keys@[j])@ == out@[j].display_name@,
            out@.map_values(|p: ManualReviewItem| p@) == sorted_by(s.take(i as int), review_name_key()),
        decreases rest@.len(),
    {
        let ghost rv = rest@.map_values(|p: ManualReviewItem| p@);
        let ghost old_rest = rest@;
        let x = rest.remove(0);
        proof {
            assert(rv[0] == x@);
            assert(s[i as int] == x@);
            assert forall|j: int| 0 <= j < rest@.len() implies #[trigger] rest@[j]@ == s[i + 1 + j] by {
                assert(rest@[j] == old_rest[j + 1]);
                assert(rv[j + 1] == old_rest[j + 1]@);
            }
            assert(rest@.map_values(|p: ManualReviewItem| p@) =~= s.subrange(i + 1, s.len() as int));
        }
        let k = chars_of(x.display_name.as_str());
        let mut pos = out.len();
        while pos > 0 && !lex_le_exec(&keys[pos - 1], &k)
            invariant
                0 <= pos <= out@.len() == keys@.len(),
                forall|j: int| 0 <= j < keys@.len() ==> (#[trigger] keys@[j])@ == out@[j].display_name@,
                k@ == x.display_name@,
                forall|j: int| pos <= j < out@.len() ==> !lex_le((#[trigger] out@[j]).display_name@, k@),
            decreases pos,
        {
            pos -= 1;
        }
        proof {
            let sv = out@.map_values(|p: ManualReviewItem| p@);
            assert forall|j: int| pos <= j < sv.len() implies !lex_le(review_name_key()(#[trigger] sv[j]), review_name_key()(x@)) by {
                assert(sv[j] == out@[j]@);
            }
            if pos > 0 {
                assert(sv[pos - 1] == out@[pos - 1]@);
            }
            lemma_insert_by_at(sv, x@, review_name_key(), pos as int);
            assert(s.take(i + 1).drop_last() =~= s.take(i as int));
            assert(s.take(i + 1).last() == x@);
        }
        let ghost before = out@;
        let ghost kbefore = keys@;
        let ghost xv = x@;
        out.insert(pos, x);
        keys.insert(pos, k);
        proof {
            assert(out@.map_values(|p: ManualReviewItem| p@) =~= before.map_values(|p: ManualReviewItem| p@).insert(pos as int, xv));
            assert forall|j: int| 0 <= j < keys@.len() implies (#[trigger] keys@[j])@ == out@[j].display_name@ by {
                if j < pos {
                    assert(keys@[j] == kbefore[j] && out@[j] == before[j]);
                } else if j > pos {
                    assert(keys@[j] == kbefore[j - 1] && out@[j] == before[j - 1]);
                }
            }
        }
        i += 1;
    }
    proof {
        assert(s.take(i as int) =~= s);
    }
    out
}

fn packages_for(items: &Vec<SoftwareItem>, m: PackageManager) -> (r: Vec<ReproduciblePackage>)
    ensures
        r@.map_values(|p: ReproduciblePackage| p@) == packages_of(chosen(items_view(items@)), m),
{
    let ghost s = items_view(items@);
    let mut out: Vec<ReproduciblePackage> = Vec::new();
    let mut i: usize = 0;
    while i < items.len()
        invariant
            0 <= i <= items@.len(),
            s == items_view(items@),
            out@.map_values(|p: ReproduciblePackage| p@) == packages_of(chosen(s.take(i as int)), m),
        decreases items@.len() - i,
    {
        proof {
            assert(s.take(i + 1).drop_last() =~= s.take(i as int));
            assert(s.take(i + 1).last() == items@[i as int]@);
        }
        proof {
            let c = chosen(s.take(i as int));
            let x = items@[i as int]@;
            if x.installation_reason != InstallationReason::Automatic {
                assert(chosen(s.take(i + 1)) == c.push(x));
                assert(c.push(x).drop_last() =~= c);
                assert(c.push(x).last() == x);
            } else {
                assert(chosen(s.take(i + 1)) == c);
            }
        }
        let it = &items[i];
        if it.installation_reason != InstallationReason::Automatic && it.package_manager == m {
            let p = ReproduciblePackage {
                package_name: it.package_name.clone(),
                display_name: it.display_name.clone(),
                version: crate::domain::clone_opt(&it.version),
            };
            let ghost before = out@;
            let ghost pv = p@;
            out.push(p);
            proof {
                assert(pv == package_of(items@[i as int]@));
                assert(out@.map_values(|p: ReproduciblePackage| p@) =~= before.map_values(|p: ReproduciblePackage| p@).push(pv));
            }
        }
        i += 1;
    }
    proof {
        assert(s.take(i as int) =~= s);
    }
    out
}

fn reviews_for(items: &Vec<SoftwareItem>) -> (r: Vec<ManualReviewItem>)
    ensures
        r@.map_values(|p: ManualReviewItem| p@) == reviews_of(chosen(items_view(items@))),
{
    let ghost s = items_view(items@);
    let managers = reproducible_managers_list();
    let mut out: Vec<ManualReviewItem> = Vec::new();
    let mut i: usize = 0;
    while i < items.len()
        invariant
            0 <= i <= items@.len(),
            s == items_view(items@),
            managers@ == reproducible_managers(),
            out@.map_values(|p: ManualReviewItem| p@) == reviews_of(chosen(s.take(i as int))),
        decreases items@.len() - i,
    {
        proof {
            assert(s.take(i + 1).drop_last() =~= s.take(i as int));
            assert(s.take(i + 1).last() == items@[i as int]@);
        }
        proof {
            let c = chosen(s.take(i as int));
            let x = items@[i as int]@;
            if x.installation_reason != InstallationReason::Automatic {
                assert(chosen(s.take(i + 1)) == c.push(x));
                assert(c.push(x).drop_last() =~= c);
                assert(c.push(x).last() == x);
            } else {
                assert(chosen(s.take(i + 1)) == c);
            }
        }
        let it = &items[i];
        if it.installation_reason != InstallationReason::Automatic && !crate::tui::app::has_manager(&managers, it.package_manager) {
            let r = ManualReviewItem {
                id: it.id.clone(),
                display_name: it.display_name.clone(),
                package_manager: it.package_manager,
                reason: manual_review_reason(it.package_manager),
                paths: crate::domain::clone_strings(&it.install_paths),
            };
            let ghost before = out@;
            let ghost rv = r@;
            out.push(r);
            proof {
                assert(rv == review_of(items@[i as int]@));
                assert(out@.map_values(|p: ManualReviewItem| p@) =~= before.map_values(|p: ManualReviewItem| p@).push(rv));
            }
        }
        i += 1;
    }
    proof {
        assert(s.take(i as int) =~= s);
    }
    out
}

pub open spec fn groups_view(v: Seq<ReproducibleGroup>) -> Seq<GroupView> {
    v.map_values(|g: ReproducibleGroup| g@)
}

pub open spec fn reviews_view(v: Seq<ManualReviewItem>) -> Seq<ReviewView> {
    v.map_values(|r: ManualReviewItem| r@)
}

/// The reinstallation manifest of `items`, made at `exported_at`.
pub fn build_manifest(items: &Vec<SoftwareItem>, exported_at: i64) -> (m: ReinstallManifest)
    ensures
        m.schema_version == EXPORT_SCHEMA_VERSION,
        m.exported_at == exported_at,
        (groups_view(m.reproducible@), reviews_view(m.manual_review@)) == spec_manifest(items_view(items@)),
{
    let ghost s = items_view(items@);
    let managers = reproducible_managers_list();
    let mut groups: Vec<ReproducibleGroup> = Vec::new();
    let mut n: usize = 0;
    while n < 7
        invariant
            0 <= n <= 7,
            s == items_view(items@),
            managers@ == reproducible_managers(),
            groups_view(groups@) == groups_upto(s, n as int),
        decreases 7 - n,
    {
        let m = managers[n];
        let packages = packages_for(items, m);
        if packages.len() > 0 {
            let sorted = sort_packages(packages);
            let g = ReproducibleGroup { package_manager: m, install_hint: install_hint(m).to_owned(), packages: sorted };
            let ghost before = groups@;
            let ghost gv = g@;
            groups.push(g);
            proof {
                assert(groups_view(groups@) =~= groups_view(before).push(gv));
            }
        }
        n += 1;
    }
    let reviews = sort_reviews(reviews_for(items));
    ReinstallManifest { schema_version: EXPORT_SCHEMA_VERSION, exported_at, reproducible: groups, manual_review: reviews }
}

pub open spec fn manifest_csv_header() -> Seq<Seq<char>> {
    seq!["reproducible"@, "packageManager"@, "packageName"@, "displayName"@, "version"@, "paths"@, "reason"@]
}

pub open spec fn package_row(g: GroupView, p: PackageView) -> Seq<Seq<char>> {
    seq![
        "yes"@,
        g.package_manager.spec_name(),
        spec_csv_safe(p.package_name),
        spec_csv_safe(p.display_name),
        spec_csv_safe(match p.version {
            Some(v) => v,
            None => Seq::empty(),
        }),
        Seq::empty(),
        g.install_hint,
    ]
}

pub open spec fn groups_rows(gs: Seq<GroupView>) -> Seq<Seq<Seq<char>>>
    decreases gs.len(),
{
    if gs.len() == 0 {
        Seq::empty()
    } else {
        groups_rows(gs.drop_last()) + gs.last().packages.map_values(|p: PackageView| package_row(gs.last(), p))
    }
}

pub open spec fn review_row(r: ReviewView) -> Seq<Seq<char>> {
    seq![
        "no"@,
        r.package_manager.spec_name(),
        Seq::empty(),
        spec_csv_safe(r.display_name),
        Seq::empty(),
        spec_csv_safe(joined(r.paths, "; "@)),
        r.reason,
    ]
}

/// The manifest as CSV rows: a header, one `yes` row per reproducible
/// package (group by group), then one `no` row per item for review.
pub open spec fn manifest_csv_rows(gs: Seq<GroupView>, rs: Seq<ReviewView>) -> Seq<Seq<Seq<char>>> {
    seq![manifest_csv_header()] + groups_rows(gs) + rs.map_values(|r: ReviewView| review_row(r))
}

fn manifest_header_row() -> (r: Vec<String>)
    ensures
        strs_view(r@) == manifest_csv_header(),
{
    let words = vec!["reproducible", "packageManager", "packageName", "displayName", "version", "paths", "reason"];
    let r = strings_of(&words);
    proof {
        assert(words@.map_values(|s: &str| s@) =~= manifest_csv_header());
    }
    r
}

fn package_row_exec(g: &ReproducibleGroup, p: &ReproduciblePackage) -> (r: Vec<String>)
    ensures
        strs_view(r@) == package_row(g@, p@),
{
    let mut r: Vec<String> = Vec::new();
    r.push("yes".to_owned());
    r.push(g.package_manager.name().to_owned());
    r.push(csv_safe(p.package_name.as_str()));
    r.push(csv_safe(p.display_name.as_str()));
    r.push(
        match &p.version {
            Some(v) => csv_safe(v.as_str()),
            None => csv_safe(""),
        },
    );
    r.push(String::new());
    r.push(g.install_hint.clone());
    proof {
        reveal_strlit("");
        assert(""@ =~= Seq::<char>::empty());
        assert(strs_view(r@) =~= package_row(g@, p@));
    }
    r
}

fn review_row_exec(x: &ManualReviewItem) -> (r: Vec<String>)
    ensures
        strs_view(r@) == review_row(x@),
{
    let mut paths = String::new();
    push_joined(&mut paths, &x.paths, "; ");
    let mut r: Vec<String> = Vec::new();
    r.push("no".to_owned());
    r.push(x.package_manager.name().to_owned());
    r.push(String::new());
    r.push(csv_safe(x.display_name.as_str()));
    r.push(String::new());
    r.push(csv_safe(paths.as_str()));
    r.push(x.reason.clone());
    proof {
        assert(paths@ =~= joined(strs_view(x.paths@), "; "@));
        assert(strs_view(r@) =~= review_row(x@));
    }
    r
}

/// The manifest as CSV.
pub fn export_manifest_csv(manifest: &ReinstallManifest) -> (r: Result<String, CommandError>)
    ensures
        r matches Ok(s) ==> s@ == csv_document(
            manifest_csv_rows(groups_view(manifest.reproducible@), reviews_view(manifest.manual_review@)),
        ),
        r is Ok,
{
    let ghost gs = groups_view(manifest.reproducible@);
    let ghost rs = reviews_view(manifest.manual_review@);
    let mut rows: Vec<Vec<String>> = Vec::new();
    let mut messages: Vec<String> = Vec::new();
    rows.push(manifest_header_row());
    messages.push("failed to write CSV header".to_owned());
    proof {
        assert(rows_view(rows@) =~= seq![manifest_csv_header()] + groups_rows(gs.take(0)));
    }
    let mut g: usize = 0;
    while g < manifest.reproducible.len()
        invariant
            0 <= g <= manifest.reproducible@.len(),
            gs == groups_view(manifest.reproducible@),
            rows@.len() == messages@.len(),
            rows_view(rows@) == seq![manifest_csv_header()] + groups_rows(gs.take(g as int)),
        decreases manifest.reproducible@.len() - g,
    {
        let group = &manifest.reproducible[g];
        let ghost start = rows_view(rows@);
        let ghost gv = group@;
        let mut k: usize = 0;
        while k < group.packages.len()
            invariant
                0 <= k <= group.packages@.len(),
                gv == group@,
                rows@.len() == messages@.len(),
                rows_view(rows@) == start + gv.packages.take(k as int).map_values(|p: PackageView| package_row(gv, p)),
            decreases group.packages@.len() - k,
        {
            let ghost before = rows_view(rows@);
            let row = package_row_exec(group, &group.packages[k]);
            let ghost rv = strs_view(row@);
            rows.push(row);
            messages.push("failed to write CSV row".to_owned());
            proof {
                assert(gv.packages[k as int] == group.packages@[k as int]@);
                assert(rows_view(rows@) =~= before.push(rv));
                assert(gv.packages.take(k + 1).map_values(|p: PackageView| package_row(gv, p)) =~= gv.packages.take(
                    k as int,
                ).map_values(|p: PackageView| package_row(gv, p)).push(rv));
                assert(rows_view(rows@) =~= start + gv.packages.take(k + 1).map_values(|p: PackageView| package_row(gv, p)));
            }
            k += 1;
        }
        proof {
            assert(gv.packages.take(k as int) =~= gv.packages);
            assert(gs.take(g + 1).drop_last() =~= gs.take(g as int));
            assert(gs.take(g + 1).last() == gv);
            assert(rows_view(rows@) =~= seq![manifest_csv_header()] + groups_rows(gs.take(g + 1)));
        }
        g += 1;
    }
    proof {
        assert(gs.take(g as int) =~= gs);
    }
    let ghost mid = rows_view(rows@);
    let mut j: usize = 0;
    while j < manifest.manual_review.len()
        invariant
            0 <= j <= manifest.manual_review@.len(),
            rs == reviews_view(manifest.manual_review@),
            rows@.len() == messages@.len(),
            rows_view(rows@) == mid + rs.take(j as int).map_values(|r: ReviewView| review_row(r)),
        decreases manifest.manual_review@.len() - j,
    {
        let ghost before = rows_view(rows@);
        let row = review_row_exec(&manifest.manual_review[j]);
        let ghost rv = strs_view(row@);
        rows.push(row);
        let mut m = String::new();
        push_str(&mut m, "failed to write CSV row for ");
        push_str(&mut m, manifest.manual_review[j].id.as_str());
        messages.push(m);
        proof {
            assert(rows_view(rows@) =~= before.push(rv));
            assert(rs.take(j + 1).map_values(|r: ReviewView| review_row(r)) =~= rs.take(j as int).map_values(
                |r: ReviewView| review_row(r),
            ).push(rv));
        }
        j += 1;
    }
    proof {
        assert(rs.take(j as int) =~= rs);
        assert(rows_view(rows@) =~= manifest_csv_rows(gs, rs));
    }
    write_csv(&rows, &messages)
}

// ---------------------------------------------------------------------------
// Laws

pub open spec fn is_formula_start(c: char) -> bool {
    c == '=' || c == '+' || c == '-' || c == '@' || c == '\t' || c == '\r'
}

/// No exported cell starts like a formula, and removing the added quote
/// gives the scanned value back unchanged.
pub proof fn law_csv_safe_cells(value: Seq<char>)
    ensures
        spec_csv_safe(value).len() > 0 ==> !is_formula_start(spec_csv_safe(value)[0]),
        value.len() > 0 && is_formula_start(value[0]) ==> spec_csv_safe(value)[0] == '\'' && spec_csv_safe(value).subrange(
            1,
            spec_csv_safe(value).len() as int,
        ) == value,
        !(value.len() > 0 && is_formula_start(value[0])) ==> spec_csv_safe(value) == value,
{
    if value.len() > 0 && is_formula_start(value[0]) {
        assert(spec_csv_safe(value).subrange(1, spec_csv_safe(value).len() as int) =~= value);
    }
}

proof fn lemma_chosen_members(s: Seq<SoftwareItemView>)
    ensures
        forall|i: int| 0 <= i < chosen(s).len() ==> #[trigger] s.contains(chosen(s)[i])
            && chosen(s)[i].installation_reason != InstallationReason::Automatic,
    decreases s.len(),
{
    if s.len() > 0 {
        let p = s.drop_last();
        lemma_chosen_members(p);
        assert forall|i: int| 0 <= i < chosen(s).len() implies #[trigger] s.contains(chosen(s)[i])
            && chosen(s)[i].installation_reason != InstallationReason::Automatic by {
            if i < chosen(p).len() {
                assert(chosen(s)[i] == chosen(p)[i]);
                assert(p.contains(chosen(p)[i]));
                let k = choose|k: int| 0 <= k < p.len() && p[k] == chosen(p)[i];
                assert(s[k] == p[k]);
            } else {
                assert(chosen(s)[i] == s.last());
                assert(s[s.len() - 1] == s.last());
            }
        }
    }
}

proof fn lemma_reviews_members(s: Seq<SoftwareItemView>)
    ensures
        forall|i: int| 0 <= i < reviews_of(s).len() ==> exists|k: int|
            0 <= k < s.len() && #[trigger] reviews_of(s)[i] == review_of(s[k]) && !reproducible_managers().contains(
                s[k].package_manager,
            ),
    decreases s.len(),
{
    if s.len() > 0 {
        let p = s.drop_last();
        lemma_reviews_members(p);
        assert forall|i: int| 0 <= i < reviews_of(s).len() implies exists|k: int|
            0 <= k < s.len() && #[trigger] reviews_of(s)[i] == review_of(s[k]) && !reproducible_managers().contains(
                s[k].package_manager,
            ) by {
            if i < reviews_of(p).len() {
                assert(reviews_of(s)[i] == reviews_of(p)[i]);
                let k = choose|k: int|
                    0 <= k < p.len() && reviews_of(p)[i] == review_of(p[k]) && !reproducible_managers().contains(
                        p[k].package_manager,
                    );
                assert(s[k] == p[k]);
            } else {
                assert(s[s.len() - 1] == s.last());
            }
        }
    }
}

/// Every item the manifest sends for review was chosen (not installed
/// automatically as a dependency) and has no manager that could reinstall it.
pub proof fn law_manifest_reviews_only_chosen_unreproducible(s: Seq<SoftwareItemView>)
    ensures
        forall|i: int| 0 <= i < spec_manifest(s).1.len() ==> exists|k: int|
            0 <= k < s.len() && #[trigger] spec_manifest(s).1[i] == review_of(s[k])
                && s[k].installation_reason != InstallationReason::Automatic
                && !reproducible_managers().contains(s[k].package_manager),
{
    let c = chosen(s);
    lemma_chosen_members(s);
    lemma_reviews_members(c);
    crate::duplicates::lemma_sorted_by_members(reviews_of(c), review_name_key());
    assert forall|i: int| 0 <= i < spec_manifest(s).1.len() implies exists|k: int|
        0 <= k < s.len() && #[trigger] spec_manifest(s).1[i] == review_of(s[k])
            && s[k].installation_reason != InstallationReason::Automatic
            && !reproducible_managers().contains(s[k].package_manager) by {
        let r = spec_manifest(s).1[i];
        assert(reviews_of(c).contains(r));
        let j = choose|j: int| 0 <= j < reviews_of(c).len() && reviews_of(c)[j] == r;
        let k = choose|k: int|
            0 <= k < c.len() && reviews_of(c)[j] == review_of(c[k]) && !reproducible_managers().contains(
                c[k].package_manager,
            );
        assert(s.contains(c[k]));
        let m = choose|m: int| 0 <= m < s.len() && s[m] == c[k];
        assert(spec_manifest(s).1[i] == review_of(s[m]));
    }
}

proof fn lemma_packages_members(s: Seq<SoftwareItemView>, m: PackageManager)
    ensures
        forall|i: int| 0 <= i < packages_of(s, m).len() ==> exists|k: int|
            0 <= k < s.len() && #[trigger] packages_of(s, m)[i] == package_of(s[k]) && s[k].package_manager == m,
    decreases s.len(),
{
    if s.len() > 0 {
        let p = s.drop_last();
        lemma_packages_members(p, m);
        assert forall|i: int| 0 <= i < packages_of(s, m).len() implies exists|k: int|
            0 <= k < s.len() && #[trigger] packages_of(s, m)[i] == package_of(s[k]) && s[k].package_manager == m by {
            if i < packages_of(p, m).len() {
                assert(packages_of(s, m)[i] == packages_of(p, m)[i]);
                let k = choose|k: int| 0 <= k < p.len() && packages_of(p, m)[i] == package_of(p[k]) && p[k].package_manager == m;
                assert(s[k] == p[k]);
            } else {
                assert(s[s.len() - 1] == s.last());
            }
        }
    }
}

proof fn lemma_groups_members(s: Seq<SoftwareItemView>, n: int)
    requires
        n <= 7,
    ensures
        forall|g: int| 0 <= g < groups_upto(s, n).len() ==> {
            let gv = #[trigger] groups_upto(s, n)[g];
            &&& gv.install_hint == spec_install_hint(gv.package_manager)
            &&& forall|i: int| 0 <= i < gv.packages.len() ==> exists|k: int|
                0 <= k < chosen(s).len() && #[trigger] gv.packages[i] == package_of(chosen(s)[k])
                    && chosen(s)[k].package_manager == gv.package_manager
        },
    decreases n,
{
    if n > 0 {
        lemma_groups_members(s, n - 1);
        let m = reproducible_managers()[n - 1];
        let ps = packages_of(chosen(s), m);
        if ps.len() > 0 {
            lemma_packages_members(chosen(s), m);
            crate::duplicates::lemma_sorted_by_members(ps, package_name_key());
            let last = groups_upto(s, n).last();
            assert forall|i: int| 0 <= i < last.packages.len() implies exists|k: int|
                0 <= k < chosen(s).len() && #[trigger] last.packages[i] == package_of(chosen(s)[k])
                    && chosen(s)[k].package_manager == last.package_manager by {
                assert(ps.contains(last.packages[i]));
                let j = choose|j: int| 0 <= j < ps.len() && ps[j] == last.packages[i];
                let k = choose|k: int| 0 <= k < chosen(s).len() && ps[j] == package_of(chosen(s)[k]) && chosen(s)[k].package_manager == m;
            }
            assert forall|g: int| 0 <= g < groups_upto(s, n).len() - 1 implies #[trigger] groups_upto(s, n)[g] == groups_upto(s, n - 1)[g] by {}
        }
    }
}

/// Every package the manifest says to reinstall comes from an item that
/// was chosen (not pulled in automatically as a dependency), in the group
/// of that item's own package manager, with that manager's install command.
pub proof fn law_manifest_packages_only_chosen(s: Seq<SoftwareItemView>)
    ensures
        forall|g: int| 0 <= g < spec_manifest(s).0.len() ==> {
            let gv = #[trigger] spec_manifest(s).0[g];
            &&& gv.install_hint == spec_install_hint(gv.package_manager)
            &&& forall|i: int| 0 <= i < gv.packages.len() ==> exists|k: int|
                0 <= k < s.len() && #[trigger] gv.packages[i] == package_of(s[k])
                    && s[k].package_manager == gv.package_manager
                    && s[k].installation_reason != InstallationReason::Automatic
        },
{
    lemma_groups_members(s, 7);
    lemma_chosen_members(s);
    assert forall|g: int| 0 <= g < spec_manifest(s).0.len() implies {
        let gv = #[trigger] spec_manifest(s).0[g];
        &&& gv.install_hint == spec_install_hint(gv.package_manager)
        &&& forall|i: int| 0 <= i < gv.packages.len() ==> exists|k: int|
            0 <= k < s.len() && #[trigger] gv.packages[i] == package_of(s[k])
                && s[k].package_manager == gv.package_manager
                && s[k].installation_reason != InstallationReason::Automatic
    } by {
        let gv = spec_manifest(s).0[g];
        assert forall|i: int| 0 <= i < gv.packages.len() implies exists|k: int|
            0 <= k < s.len() && #[trigger] gv.packages[i] == package_of(s[k])
                && s[k].package_manager == gv.package_manager
                && s[k].installation_reason != InstallationReason::Automatic by {
            let c = chosen(s);
            let k = choose|k: int| 0 <= k < c.len() && gv.packages[i] == package_of(c[k]) && c[k].package_manager == gv.package_manager;
            assert(s.contains(c[k]));
            let m = choose|m: int| 0 <= m < s.len() && s[m] == c[k];
            assert(gv.packages[i] == package_of(s[m]));
        }
    }
}


// ---------------------------------------------------------------------------
// Every chosen item is listed once

/// How many packages the groups hold in all.
pub open spec fn package_count(gs: Seq<GroupView>) -> nat
    decreases gs.len(),
{
    if gs.len() == 0 {
        0
    } else {
        package_count(gs.drop_last()) + gs.last().packages.len()
    }
}

/// How many items of `c` the first `n` reproducible managers handle.
pub open spec fn packages_total(c: Seq<SoftwareItemView>, n: int) -> nat
    decreases n,
{
    if n <= 0 {
        0
    } else {
        packages_total(c, n - 1) + packages_of(c, reproducible_managers()[n - 1]).len()
    }
}

/// How many of the first `n` reproducible managers are `m`.
pub open spec fn manager_hits(m: PackageManager, n: int) -> nat
    decreases n,
{
    if n <= 0 {
        0
    } else {
        manager_hits(m, n - 1) + if reproducible_managers()[n - 1] == m {
            1nat
        } else {
            0nat
        }
    }
}

proof fn lemma_group_count(s: Seq<SoftwareItemView>, n: int)
    ensures
        package_count(groups_upto(s, n)) == packages_total(chosen(s), n),
    decreases n,
{
    if n > 0 {
        lemma_group_count(s, n - 1);
        let m = reproducible_managers()[n - 1];
        let ps = packages_of(chosen(s), m);
        if ps.len() > 0 {
            crate::duplicates::lemma_sorted_by_members(ps, package_name_key());
            let u = groups_upto(s, n - 1);
            let g = GroupView {
                package_manager: m,
                install_hint: spec_install_hint(m),
                packages: sorted_by(ps, package_name_key()),
            };
            assert(u.push(g).drop_last() =~= u);
        }
    }
}

proof fn lemma_total_step(c: Seq<SoftwareItemView>, n: int)
    requires
        c.len() > 0,
    ensures
        packages_total(c, n) == packages_total(c.drop_last(), n) + manager_hits(c.last().package_manager, n),
    decreases n,
{
    if n > 0 {
        lemma_total_step(c, n - 1);
    }
}

proof fn lemma_hits_all(m: PackageManager)
    ensures
        manager_hits(m, 7) == (if reproducible_managers().contains(m) {
            1nat
        } else {
            0nat
        }),
{
    reveal_with_fuel(manager_hits, 8);
    let rm = reproducible_managers();
    if rm.contains(m) {
        let k = choose|k: int| 0 <= k < rm.len() && rm[k] == m;
        assert(0 <= k < 7);
    } else {
        assert(rm[0] != m && rm[1] != m && rm[2] != m && rm[3] != m);
        assert(rm[4] != m && rm[5] != m && rm[6] != m);
    }
}

proof fn lemma_partition(c: Seq<SoftwareItemView>)
    ensures
        packages_total(c, 7) + reviews_of(c).len() == c.len(),
    decreases c.len(),
{
    if c.len() == 0 {
        reveal_with_fuel(packages_total, 8);
    } else {
        lemma_partition(c.drop_last());
        lemma_total_step(c, 7);
        lemma_hits_all(c.last().package_manager);
    }
}

proof fn lemma_groups_hold(s: Seq<SoftwareItemView>, n: int)
    requires
        0 <= n <= 7,
    ensures
        forall|g: int| 0 <= g < groups_upto(s, n).len() ==> {
            let gv = #[trigger] groups_upto(s, n)[g];
            &&& reproducible_managers().contains(gv.package_manager)
            &&& gv.packages.to_multiset() =~= packages_of(chosen(s), gv.package_manager).to_multiset()
        },
        forall|i: int|
            0 <= i < n && packages_of(chosen(s), #[trigger] reproducible_managers()[i]).len() > 0 ==> exists|g: int|
                0 <= g < groups_upto(s, n).len() && groups_upto(s, n)[g].package_manager
                    == reproducible_managers()[i],
    decreases n,
{
    if n > 0 {
        lemma_groups_hold(s, n - 1);
        let rm = reproducible_managers();
        let m = rm[n - 1];
        let ps = packages_of(chosen(s), m);
        let u = groups_upto(s, n - 1);
        if ps.len() > 0 {
            crate::duplicates::lemma_sorted_by_multiset(ps, package_name_key());
            let gnew = GroupView {
                package_manager: m,
                install_hint: spec_install_hint(m),
                packages: sorted_by(ps, package_name_key()),
            };
            let w = u.push(gnew);
            assert(rm[n - 1] == m);
            assert forall|g: int| 0 <= g < w.len() implies {
                let gv = #[trigger] w[g];
                &&& reproducible_managers().contains(gv.package_manager)
                &&& gv.packages.to_multiset() =~= packages_of(chosen(s), gv.package_manager).to_multiset()
            } by {
                if g < u.len() {
                    assert(w[g] == u[g]);
                }
            }
            assert forall|i: int|
                0 <= i < n && packages_of(chosen(s), #[trigger] reproducible_managers()[i]).len() > 0 implies exists|g: int|
                    0 <= g < w.len() && w[g].package_manager == reproducible_managers()[i] by {
                if i < n - 1 {
                    let g = choose|g: int| 0 <= g < u.len() && u[g].package_manager == reproducible_managers()[i];
                    assert(w[g] == u[g]);
                } else {
                    assert(w[u.len() as int] == gnew);
                }
            }
        } else {
            assert forall|i: int|
                0 <= i < n && packages_of(chosen(s), #[trigger] reproducible_managers()[i]).len() > 0 implies exists|g: int|
                    0 <= g < u.len() && u[g].package_manager == reproducible_managers()[i] by {
                if i == n - 1 {
                    assert(reproducible_managers()[i] == m);
                }
            }
        }
    }
}

/// Every chosen item (one not installed automatically as a dependency) is
/// listed exactly once: the manifest holds as many entries as there are
/// chosen items; each reproducible manager with chosen items has its group,
/// holding the packages of exactly those items (reordered by name); the
/// review list holds exactly the chosen items no such manager handles
/// (reordered by display name).
pub proof fn law_manifest_lists_every_chosen_item_once(s: Seq<SoftwareItemView>)
    ensures
        package_count(spec_manifest(s).0) + spec_manifest(s).1.len() == chosen(s).len(),
        forall|g: int| 0 <= g < spec_manifest(s).0.len() ==> {
            let gv = #[trigger] spec_manifest(s).0[g];
            &&& reproducible_managers().contains(gv.package_manager)
            &&& gv.packages.to_multiset() =~= packages_of(chosen(s), gv.package_manager).to_multiset()
        },
        forall|i: int|
            0 <= i < reproducible_managers().len() && packages_of(chosen(s), #[trigger] reproducible_managers()[i]).len()
                > 0 ==> exists|g: int|
                0 <= g < spec_manifest(s).0.len() && spec_manifest(s).0[g].package_manager
                    == reproducible_managers()[i],
        spec_manifest(s).1.to_multiset() =~= reviews_of(chosen(s)).to_multiset(),
{
    lemma_group_count(s, 7);
    lemma_partition(chosen(s));
    crate::duplicates::lemma_sorted_by_members(reviews_of(chosen(s)), review_name_key());
    crate::duplicates::lemma_sorted_by_multiset(reviews_of(chosen(s)), review_name_key());
    lemma_groups_hold(s, 7);
}

/// Law: in the full CSV export every cell of an item's row stands under the
/// header that names its field: as many cells as headers, and the cell at
/// each column holds the field that column's header names.
pub proof fn law_full_csv_cells_line_up_with_the_header(it: SoftwareItemView)
    ensures
        full_csv_row(it).len() == full_csv_header().len(),
        forall|i: int|
            0 <= i < full_csv_header().len() ==> {
                &&& #[trigger] full_csv_header()[i] == "id"@ ==> full_csv_row(it)[i] == spec_csv_safe(it.id)
                &&& full_csv_header()[i] == "packageName"@ ==> full_csv_row(it)[i] == spec_csv_safe(
                    it.package_name,
                )
                &&& full_csv_header()[i] == "displayName"@ ==> full_csv_row(it)[i] == spec_csv_safe(
                    it.display_name,
                )
                &&& full_csv_header()[i] == "category"@ ==> full_csv_row(it)[i] == it.category.spec_name()
                &&& full_csv_header()[i] == "packageManager"@ ==> full_csv_row(it)[i]
                    == it.package_manager.spec_name()
                &&& full_csv_header()[i] == "scope"@ ==> full_csv_row(it)[i] == it.scope.spec_name()
                &&& full_csv_header()[i] == "version"@ ==> full_csv_row(it)[i] == spec_csv_safe(
                    match it.version {
                        Some(v) => v,
                        None => Seq::empty(),
                    },
                )
                &&& full_csv_header()[i] == "installedSizeBytes"@ ==> full_csv_row(it)[i]
                    == match it.installed_size_bytes {
                    Some(n) => decimal(n as nat),
                    None => Seq::empty(),
                }
                &&& full_csv_header()[i] == "updateAvailable"@ ==> full_csv_row(it)[i] == bool_word(
                    it.update_available,
                )
                &&& full_csv_header()[i] == "classificationConfidence"@ ==> full_csv_row(it)[i]
                    == it.classification_confidence.spec_name()
            },
{
    reveal_strlit("id");
    reveal_strlit("packageName");
    reveal_strlit("displayName");
    reveal_strlit("category");
    reveal_strlit("packageManager");
    reveal_strlit("scope");
    reveal_strlit("version");
    reveal_strlit("installedSizeBytes");
    reveal_strlit("updateAvailable");
    reveal_strlit("classificationConfidence");
    let h = full_csv_header();
    let names = seq![
        "id"@,
        "packageName"@,
        "displayName"@,
        "category"@,
        "packageManager"@,
        "scope"@,
        "version"@,
        "installedSizeBytes"@,
        "updateAvailable"@,
        "classificationConfidence"@,
    ];
    assert(h =~= names);
    assert(names[1][0] != names[2][0]);
    assert forall|a: int, b: int| 0 <= a < b < 10 implies names[a] != names[b] by {
        if a == 1 && b == 2 {
            assert(names[a][0] != names[b][0]);
        } else {
            assert(names[a].len() != names[b].len());
        }
    }
}

} // verus!
