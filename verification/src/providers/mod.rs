//! What the inventory providers decide: the commands they run, the items
//! they build from parsed output and how a scan ends. Running the commands
//! and reading files is the program's part.
use vstd::prelude::*;

use crate::domain::{ProviderInventory, ProviderStatus, ProviderWarning};
use crate::process::{map_run_error, RunError};
use crate::text::{opt_view, strs_view};

pub mod apt;
pub mod appimage;
pub mod desktop;
pub mod flatpak;
pub mod fonts;
pub mod manual;


verus! {

/// A provider's stable identifier, such as `"apt"` or `"flatpak"`.
#[derive(Debug, Clone, Copy, PartialEq, Eq, Hash)]
pub struct ProviderId(&'static str);

impl ProviderId {
    pub closed spec fn spec_str(self) -> Seq<char> {
        self.0@
    }

    pub fn new(id: &'static str) -> (p: Self)
        ensures
            p.spec_str() == id@,
    {
        ProviderId(id)
    }

    pub fn as_str(&self) -> (s: &'static str)
        ensures
            s@ == self.spec_str(),
    {
        self.0
    }

    /// The id as an owned string, as it is displayed.
    pub fn to_string(&self) -> (s: String)
        ensures
            s@ == self.spec_str(),
    {
        self.0.to_owned()
    }
}

/// What a provider is, independent of any scan.
#[derive(Debug, Clone)]
pub struct ProviderMetadata {
    pub id: ProviderId,
    pub display_name: &'static str,
    pub description: &'static str,
}

/// A scan that ran to the end: its items and warnings, a success when
/// nothing was warned about, else a partial success.
pub fn complete_scan(
    base: ProviderInventory,
    completed_at: i64,
    items: Vec<crate::domain::SoftwareItem>,
    warnings: Vec<ProviderWarning>,
) -> (p: ProviderInventory)
    ensures
        p.status == (if warnings@.len() == 0 {
            ProviderStatus::Success
        } else {
            ProviderStatus::PartialSuccess
        }),
        p.items == items,
        p.warnings == warnings,
        p.completed_at == Some(completed_at),
        p.duration_ms == Some(crate::domain::elapsed_ms(base.started_at, completed_at) as u64),
        p.provider_id == base.provider_id,
        p.error == base.error,
        p.started_at == base.started_at,
        p.provider_version == base.provider_version,
{
    let status = if warnings.len() == 0 {
        ProviderStatus::Success
    } else {
        ProviderStatus::PartialSuccess
    };
    let mut p = base.finish(completed_at, status);
    p.items = items;
    p.warnings = warnings;
    p
}

/// A scan stopped by cancellation between its stages: cancelled, and
/// still carrying the items and warnings gathered so far.
pub fn cancelled_scan(
    base: ProviderInventory,
    completed_at: i64,
    items: Vec<crate::domain::SoftwareItem>,
    warnings: Vec<ProviderWarning>,
) -> (p: ProviderInventory)
    ensures
        p.status == ProviderStatus::Cancelled,
        p.items == items,
        p.warnings == warnings,
        p.completed_at == Some(completed_at),
        p.duration_ms == Some(crate::domain::elapsed_ms(base.started_at, completed_at) as u64),
        p.provider_id == base.provider_id,
        p.error == base.error,
        p.started_at == base.started_at,
        p.provider_version == base.provider_version,
{
    let mut p = base.finish(completed_at, ProviderStatus::Cancelled);
    p.items = items;
    p.warnings = warnings;
    p
}

/// A scan whose essential command failed: failed, with the mapped error.
pub fn failed_scan(base: ProviderInventory, completed_at: i64, error: &RunError) -> (p: ProviderInventory)
    ensures
        p.status == ProviderStatus::Failed,
        p.error matches Some(e) && crate::process::is_mapped_error(*error, e),
        p.items == base.items,
        p.warnings == base.warnings,
        p.completed_at == Some(completed_at),
        p.duration_ms == Some(crate::domain::elapsed_ms(base.started_at, completed_at) as u64),
        p.provider_id == base.provider_id,
        p.started_at == base.started_at,
        p.provider_version == base.provider_version,
{
    let mut p = base.finish(completed_at, ProviderStatus::Failed);
    p.error = Some(map_run_error(error));
    p
}

/// `after` is `before` with one warning per message of `msgs` appended, each
/// tied to no item and carrying no context.
pub open spec fn appended_plain(
    before: Seq<ProviderWarning>,
    after: Seq<ProviderWarning>,
    msgs: Seq<Seq<char>>,
) -> bool {
    &&& after.len() == before.len() + msgs.len()
    &&& forall|i: int| 0 <= i < before.len() ==> #[trigger] after[i] == before[i]
    &&& forall|i: int|
        0 <= i < msgs.len() ==> {
            let w = #[trigger] after[before.len() + i];
            &&& w.message@ == msgs[i]
            &&& w.item_id is None
            &&& w.context is None
        }
}

/// Appends one plain warning per message.
pub fn extend_warnings(warnings: &mut Vec<ProviderWarning>, messages: &Vec<String>)
    ensures
        appended_plain(old(warnings)@, final(warnings)@, strs_view(messages@)),
{
    let ghost start = warnings@;
    let mut i: usize = 0;
    while i < messages.len()
        invariant
            0 <= i <= messages@.len(),
            appended_plain(start, warnings@, strs_view(messages@).take(i as int)),
        decreases messages@.len() - i,
    {
        let ghost before = warnings@;
        warnings.push(ProviderWarning::new(messages[i].as_str()));
        proof {
            let ms = strs_view(messages@).take(i + 1);
            assert forall|j: int| 0 <= j < ms.len() implies {
                let w = #[trigger] warnings@[start.len() + j];
                &&& w.message@ == ms[j]
                &&& w.item_id is None
                &&& w.context is None
            } by {
                if j < i {
                    assert(warnings@[start.len() + j] == before[start.len() + j]);
                    assert(strs_view(messages@).take(i as int)[j] == ms[j]);
                }
            }
            assert forall|j: int| 0 <= j < start.len() implies #[trigger] warnings@[j] == start[j] by {
                assert(warnings@[j] == before[j]);
            }
        }
        i += 1;
    }
    proof {
        assert(strs_view(messages@).take(i as int) =~= strs_view(messages@));
    }
}

/// Appends one plain warning.
pub fn push_warning(warnings: &mut Vec<ProviderWarning>, message: String)
    ensures
        appended_plain(old(warnings)@, final(warnings)@, seq![message@]),
{
    let ghost before = warnings@;
    warnings.push(ProviderWarning::new(message.as_str()));
    proof {
        assert forall|j: int| 0 <= j < before.len() implies #[trigger] warnings@[j] == before[j] by {}
    }
}

// ---------------------------------------------------------------------------
// Paths

/// The last component of a path, as `Path::file_name` gives it.
pub uninterp spec fn path_file_name(path: Seq<char>) -> Option<Seq<char>>;

/// Where the last `.` of `name` stands, or -1 where it has none.
pub open spec fn last_dot(name: Seq<char>) -> int
    decreases name.len(),
{
    if name.len() == 0 {
        -1
    } else if name.last() == '.' {
        name.len() - 1
    } else {
        last_dot(name.drop_last())
    }
}

/// The stem of a file name: the whole name where no `.` stands after its first
/// character, else what stands before its last `.`.
pub open spec fn stem_of_name(name: Seq<char>) -> Seq<char> {
    if last_dot(name) <= 0 {
        name
    } else {
        name.subrange(0, last_dot(name))
    }
}

/// The extension of a file name: none where no `.` stands after its first
/// character, else what stands after its last `.`.
pub open spec fn extension_of_name(name: Seq<char>) -> Option<Seq<char>> {
    if last_dot(name) <= 0 {
        None
    } else {
        Some(name.subrange(last_dot(name) + 1, name.len() as int))
    }
}

/// The file name without its extension, as `Path::file_stem` gives it:
/// none where the path has no file name (which is never `..`).
pub open spec fn path_file_stem(path: Seq<char>) -> Option<Seq<char>> {
    match path_file_name(path) {
        Some(name) => Some(stem_of_name(name)),
        None => None,
    }
}

/// The extension, as `Path::extension` gives it: none where the path has no
/// file name.
pub open spec fn path_extension(path: Seq<char>) -> Option<Seq<char>> {
    match path_file_name(path) {
        Some(name) => extension_of_name(name),
        None => None,
    }
}

/// `Path::new(path).file_name()`, as text.
#[verifier::external_body]
pub(crate) fn file_name_of(path: &str) -> (r: Option<String>)
    ensures
        opt_view(r) == path_file_name(path@),
{
    std::path::Path::new(path).file_name().map(|n| n.to_string_lossy().into_owned())
}

/// `Path::new(path).file_stem()`, as text.
#[verifier::external_body]
pub(crate) fn file_stem_of(path: &str) -> (r: Option<String>)
    ensures
        opt_view(r) == path_file_stem(path@),
{
    std::path::Path::new(path).file_stem().map(|n| n.to_string_lossy().into_owned())
}

/// `Path::new(path).extension()`, as text.
#[verifier::external_body]
pub(crate) fn extension_of(path: &str) -> (r: Option<String>)
    ensures
        opt_view(r) == path_extension(path@),
{
    std::path::Path::new(path).extension().map(|n| n.to_string_lossy().into_owned())
}

/// The path `child` names relative to `base`, as `Path::join` gives it.
pub uninterp spec fn path_joined(base: Seq<char>, child: Seq<char>) -> Seq<char>;

/// `Path::new(base).join(child)`, as text.
#[verifier::external_body]
pub(crate) fn join_path(base: &str, child: &str) -> (r: String)
    ensures
        r@ == path_joined(base@, child@),
{
    std::path::Path::new(base).join(child).to_string_lossy().into_owned()
}

/// The warning for a file or directory that could not be read:
/// `"<what> <path>: <error>"`.
pub open spec fn msg_io(what: Seq<char>, path: Seq<char>, error: Seq<char>) -> Seq<char> {
    what + " "@ + path + ": "@ + error
}

/// Warns that `path` could not be read (`what` says how far it got).
pub fn push_io_warning(warnings: &mut Vec<ProviderWarning>, what: &str, path: &str, error: &str)
    ensures
        appended_plain(old(warnings)@, final(warnings)@, seq![msg_io(what@, path@, error@)]),
{
    let mut m = String::new();
    crate::text::push_str(&mut m, what);
    crate::text::push_str(&mut m, " ");
    crate::text::push_str(&mut m, path);
    crate::text::push_str(&mut m, ": ");
    crate::text::push_str(&mut m, error);
    proof {
        assert(m@ =~= msg_io(what@, path@, error@));
    }
    push_warning(warnings, m);
}

} // verus!
