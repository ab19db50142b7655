//! Domain layer: the data types every other part of the library speaks in.
use vstd::prelude::*;

use crate::text::{chars_of, opt_view, str_eq, strs_view, trim, trim_range, CharClass};

verus! {

/// Primary classification bucket for a discovered piece of software.
/// `Unclassified` is the default and never an error state.
#[derive(Debug, Clone, Copy, PartialEq, Eq, Hash, Structural)]
pub enum SoftwareCategory {
    Application,
    CommandLineTool,
    Library,
    Font,
    Runtime,
    DevelopmentPackage,
    Theme,
    IconPack,
    Firmware,
    Driver,
    KernelComponent,
    SystemService,
    DesktopComponent,
    Documentation,
    LanguagePack,
    Miscellaneous,
    Unclassified,
}

impl SoftwareCategory {
    pub open spec fn spec_all() -> Seq<SoftwareCategory> {
        seq![
            SoftwareCategory::Application,
            SoftwareCategory::CommandLineTool,
            SoftwareCategory::Library,
            SoftwareCategory::Font,
            SoftwareCategory::Runtime,
            SoftwareCategory::DevelopmentPackage,
            SoftwareCategory::Theme,
            SoftwareCategory::IconPack,
            SoftwareCategory::Firmware,
            SoftwareCategory::Driver,
            SoftwareCategory::KernelComponent,
            SoftwareCategory::SystemService,
            SoftwareCategory::DesktopComponent,
            SoftwareCategory::Documentation,
            SoftwareCategory::LanguagePack,
            SoftwareCategory::Miscellaneous,
            SoftwareCategory::Unclassified,
        ]
    }

    /// Every category, in declaration order.
    pub fn all() -> (v: Vec<SoftwareCategory>)
        ensures
            v@ == Self::spec_all(),
    {
        let v = vec![
            SoftwareCategory::Application,
            SoftwareCategory::CommandLineTool,
            SoftwareCategory::Library,
            SoftwareCategory::Font,
            SoftwareCategory::Runtime,
            SoftwareCategory::DevelopmentPackage,
            SoftwareCategory::Theme,
            SoftwareCategory::IconPack,
            SoftwareCategory::Firmware,
            SoftwareCategory::Driver,
            SoftwareCategory::KernelComponent,
            SoftwareCategory::SystemService,
            SoftwareCategory::DesktopComponent,
            SoftwareCategory::Documentation,
            SoftwareCategory::LanguagePack,
            SoftwareCategory::Miscellaneous,
            SoftwareCategory::Unclassified,
        ];
        proof {
            assert(v@ =~= Self::spec_all());
        }
        v
    }

    /// The variant's name, as `{:?}` prints it.
    pub open spec fn spec_name(&self) -> Seq<char> {
        match self {
            SoftwareCategory::Application => "Application"@,
            SoftwareCategory::CommandLineTool => "CommandLineTool"@,
            SoftwareCategory::Library => "Library"@,
            SoftwareCategory::Font => "Font"@,
            SoftwareCategory::Runtime => "Runtime"@,
            SoftwareCategory::DevelopmentPackage => "DevelopmentPackage"@,
            SoftwareCategory::Theme => "Theme"@,
            SoftwareCategory::IconPack => "IconPack"@,
            SoftwareCategory::Firmware => "Firmware"@,
            SoftwareCategory::Driver => "Driver"@,
            SoftwareCategory::KernelComponent => "KernelComponent"@,
            SoftwareCategory::SystemService => "SystemService"@,
            SoftwareCategory::DesktopComponent => "DesktopComponent"@,
            SoftwareCategory::Documentation => "Documentation"@,
            SoftwareCategory::LanguagePack => "LanguagePack"@,
            SoftwareCategory::Miscellaneous => "Miscellaneous"@,
            SoftwareCategory::Unclassified => "Unclassified"@,
        }
    }

    /// The variant's name, as `{:?}` prints it.
    pub fn name(&self) -> (s: &'static str)
        ensures
            s@ == self.spec_name(),
    {
        match self {
            SoftwareCategory::Application => "Application",
            SoftwareCategory::CommandLineTool => "CommandLineTool",
            SoftwareCategory::Library => "Library",
            SoftwareCategory::Font => "Font",
            SoftwareCategory::Runtime => "Runtime",
            SoftwareCategory::DevelopmentPackage => "DevelopmentPackage",
            SoftwareCategory::Theme => "Theme",
            SoftwareCategory::IconPack => "IconPack",
            SoftwareCategory::Firmware => "Firmware",
            SoftwareCategory::Driver => "Driver",
            SoftwareCategory::KernelComponent => "KernelComponent",
            SoftwareCategory::SystemService => "SystemService",
            SoftwareCategory::DesktopComponent => "DesktopComponent",
            SoftwareCategory::Documentation => "Documentation",
            SoftwareCategory::LanguagePack => "LanguagePack",
            SoftwareCategory::Miscellaneous => "Miscellaneous",
            SoftwareCategory::Unclassified => "Unclassified",
        }
    }
}

impl Default for SoftwareCategory {
    fn default() -> (r: Self)
        ensures
            r == SoftwareCategory::Unclassified,
    {
        SoftwareCategory::Unclassified
    }
}

/// The installation source / ownership mechanism for a software item.
#[derive(Debug, Clone, Copy, PartialEq, Eq, Hash, Structural)]
pub enum PackageManager {
    Apt,
    Flatpak,
    Snap,
    AppImage,
    Pip,
    Pipx,
    Npm,
    Cargo,
    /// Detected in a known location but not owned by any recognized package manager.
    Manual,
    Unknown,
}

impl PackageManager {
    pub open spec fn spec_all() -> Seq<PackageManager> {
        seq![
            PackageManager::Apt,
            PackageManager::Flatpak,
            PackageManager::Snap,
            PackageManager::AppImage,
            PackageManager::Pip,
            PackageManager::Pipx,
            PackageManager::Npm,
            PackageManager::Cargo,
            PackageManager::Manual,
            PackageManager::Unknown,
        ]
    }

    /// Every package manager, in declaration order.
    pub fn all() -> (v: Vec<PackageManager>)
        ensures
            v@ == Self::spec_all(),
    {
        let v = vec![
            PackageManager::Apt,
            PackageManager::Flatpak,
            PackageManager::Snap,
            PackageManager::AppImage,
            PackageManager::Pip,
            PackageManager::Pipx,
            PackageManager::Npm,
            PackageManager::Cargo,
            PackageManager::Manual,
            PackageManager::Unknown,
        ];
        proof {
            assert(v@ =~= Self::spec_all());
        }
        v
    }

    /// The variant's name, as `{:?}` prints it.
    pub open spec fn spec_name(&self) -> Seq<char> {
        match self {
            PackageManager::Apt => "Apt"@,
            PackageManager::Flatpak => "Flatpak"@,
            PackageManager::Snap => "Snap"@,
            PackageManager::AppImage => "AppImage"@,
            PackageManager::Pip => "Pip"@,
            PackageManager::Pipx => "Pipx"@,
            PackageManager::Npm => "Npm"@,
            PackageManager::Cargo => "Cargo"@,
            PackageManager::Manual => "Manual"@,
            PackageManager::Unknown => "Unknown"@,
        }
    }

    /// The variant's name, as `{:?}` prints it.
    pub fn name(&self) -> (s: &'static str)
        ensures
            s@ == self.spec_name(),
    {
        match self {
            PackageManager::Apt => "Apt",
            PackageManager::Flatpak => "Flatpak",
            PackageManager::Snap => "Snap",
            PackageManager::AppImage => "AppImage",
            PackageManager::Pip => "Pip",
            PackageManager::Pipx => "Pipx",
            PackageManager::Npm => "Npm",
            PackageManager::Cargo => "Cargo",
            PackageManager::Manual => "Manual",
            PackageManager::Unknown => "Unknown",
        }
    }
}

impl Default for PackageManager {
    fn default() -> (r: Self)
        ensures
            r == PackageManager::Unknown,
    {
        PackageManager::Unknown
    }
}

/// Whether a software item is installed for the whole system or a single user.
#[derive(Debug, Clone, Copy, PartialEq, Eq, Hash, Structural)]
pub enum InstallationScope {
    System,
    User,
    Unknown,
}

impl InstallationScope {
    pub open spec fn spec_all() -> Seq<InstallationScope> {
        seq![InstallationScope::System, InstallationScope::User, InstallationScope::Unknown]
    }

    pub fn all() -> (v: Vec<InstallationScope>)
        ensures
            v@ == Self::spec_all(),
    {
        let v = vec![InstallationScope::System, InstallationScope::User, InstallationScope::Unknown];
        proof {
            assert(v@ =~= Self::spec_all());
        }
        v
    }

    /// The variant's name, as `{:?}` prints it.
    pub open spec fn spec_name(&self) -> Seq<char> {
        match self {
            InstallationScope::System => "System"@,
            InstallationScope::User => "User"@,
            InstallationScope::Unknown => "Unknown"@,
        }
    }

    /// The variant's name, as `{:?}` prints it.
    pub fn name(&self) -> (s: &'static str)
        ensures
            s@ == self.spec_name(),
    {
        match self {
            InstallationScope::System => "System",
            InstallationScope::User => "User",
            InstallationScope::Unknown => "Unknown",
        }
    }
}

impl Default for InstallationScope {
    fn default() -> (r: Self)
        ensures
            r == InstallationScope::Unknown,
    {
        InstallationScope::Unknown
    }
}

/// Why a package ended up installed: explicitly, as a dependency, or unknown.
#[derive(Debug, Clone, Copy, PartialEq, Eq, Hash, Structural)]
pub enum InstallationReason {
    Manual,
    Automatic,
    Unknown,
}

impl InstallationReason {
    pub open spec fn spec_all() -> Seq<InstallationReason> {
        seq![InstallationReason::Manual, InstallationReason::Automatic, InstallationReason::Unknown]
    }

    pub fn all() -> (v: Vec<InstallationReason>)
        ensures
            v@ == Self::spec_all(),
    {
        let v = vec![
            InstallationReason::Manual,
            InstallationReason::Automatic,
            InstallationReason::Unknown,
        ];
        proof {
            assert(v@ =~= Self::spec_all());
        }
        v
    }

    /// The variant's name, as `{:?}` prints it.
    pub open spec fn spec_name(&self) -> Seq<char> {
        match self {
            InstallationReason::Manual => "Manual"@,
            InstallationReason::Automatic => "Automatic"@,
            InstallationReason::Unknown => "Unknown"@,
        }
    }

    /// The variant's name, as `{:?}` prints it.
    pub fn name(&self) -> (s: &'static str)
        ensures
            s@ == self.spec_name(),
    {
        match self {
            InstallationReason::Manual => "Manual",
            InstallationReason::Automatic => "Automatic",
            InstallationReason::Unknown => "Unknown",
        }
    }
}

impl Default for InstallationReason {
    fn default() -> (r: Self)
        ensures
            r == InstallationReason::Unknown,
    {
        InstallationReason::Unknown
    }
}

/// How confident the classification engine is, from least to most.
#[derive(Debug, Clone, Copy, PartialEq, Eq, PartialOrd, Ord, Hash, Structural)]
pub enum ClassificationConfidence {
    Unknown,
    Low,
    Medium,
    High,
    Certain,
}

impl ClassificationConfidence {
    pub open spec fn spec_all() -> Seq<ClassificationConfidence> {
        seq![
            ClassificationConfidence::Unknown,
            ClassificationConfidence::Low,
            ClassificationConfidence::Medium,
            ClassificationConfidence::High,
            ClassificationConfidence::Certain,
        ]
    }

    pub fn all() -> (v: Vec<ClassificationConfidence>)
        ensures
            v@ == Self::spec_all(),
    {
        let v = vec![
            ClassificationConfidence::Unknown,
            ClassificationConfidence::Low,
            ClassificationConfidence::Medium,
            ClassificationConfidence::High,
            ClassificationConfidence::Certain,
        ];
        proof {
            assert(v@ =~= Self::spec_all());
        }
        v
    }

    /// Position in the order from least to most confident.
    pub open spec fn spec_rank(self) -> u8 {
        match self {
            ClassificationConfidence::Unknown => 0,
            ClassificationConfidence::Low => 1,
            ClassificationConfidence::Medium => 2,
            ClassificationConfidence::High => 3,
            ClassificationConfidence::Certain => 4,
        }
    }

    #[verifier::when_used_as_spec(spec_rank)]
    pub fn rank(self) -> (r: u8)
        ensures
            r == self.spec_rank(),
    {
        match self {
            ClassificationConfidence::Unknown => 0,
            ClassificationConfidence::Low => 1,
            ClassificationConfidence::Medium => 2,
            ClassificationConfidence::High => 3,
            ClassificationConfidence::Certain => 4,
        }
    }

    /// The variant's name, as `{:?}` prints it.
    pub open spec fn spec_name(&self) -> Seq<char> {
        match self {
            ClassificationConfidence::Unknown => "Unknown"@,
            ClassificationConfidence::Low => "Low"@,
            ClassificationConfidence::Medium => "Medium"@,
            ClassificationConfidence::High => "High"@,
            ClassificationConfidence::Certain => "Certain"@,
        }
    }

    /// The variant's name, as `{:?}` prints it.
    pub fn name(&self) -> (s: &'static str)
        ensures
            s@ == self.spec_name(),
    {
        match self {
            ClassificationConfidence::Unknown => "Unknown",
            ClassificationConfidence::Low => "Low",
            ClassificationConfidence::Medium => "Medium",
            ClassificationConfidence::High => "High",
            ClassificationConfidence::Certain => "Certain",
        }
    }
}

impl Default for ClassificationConfidence {
    fn default() -> (r: Self)
        ensures
            r == ClassificationConfidence::Unknown,
    {
        ClassificationConfidence::Unknown
    }
}

/// Overall status of a full inventory scan (across all providers).
#[derive(Debug, Clone, Copy, PartialEq, Eq, Hash, Structural)]
pub enum InventoryStatus {
    NotStarted,
    Scanning,
    Completed,
    CompletedWithWarnings,
    PartiallyFailed,
    Failed,
    Cancelled,
}

impl Default for InventoryStatus {
    fn default() -> (r: Self)
        ensures
            r == InventoryStatus::NotStarted,
    {
        InventoryStatus::NotStarted
    }
}

/// Outcome of a single provider's scan attempt.
#[derive(Debug, Clone, Copy, PartialEq, Eq, Hash, Structural)]
pub enum ProviderStatus {
    NotRun,
    Success,
    PartialSuccess,
    Unavailable,
    Failed,
    TimedOut,
    Cancelled,
}

impl Default for ProviderStatus {
    fn default() -> (r: Self)
        ensures
            r == ProviderStatus::NotRun,
    {
        ProviderStatus::NotRun
    }
}

/// Reserved trust/risk signal for a software item, from least to most risky.
#[derive(Debug, Clone, Copy, PartialEq, Eq, PartialOrd, Ord, Hash, Structural)]
pub enum SoftwareRiskLevel {
    Unknown,
    Low,
    Medium,
    High,
}

impl Default for SoftwareRiskLevel {
    fn default() -> (r: Self)
        ensures
            r == SoftwareRiskLevel::Unknown,
    {
        SoftwareRiskLevel::Unknown
    }
}

// ---------------------------------------------------------------------------
// Provider-specific extra fields
/// The map a list of entries stands for: the first entry with a key wins.
pub open spec fn entries_map(s: Seq<(String, String)>) -> Map<Seq<char>, Seq<char>>
    decreases s.len(),
{
    if s.len() == 0 {
        Map::empty()
    } else {
        entries_map(s.drop_first()).insert(s[0].0@, s[0].1@)
    }
}

/// A map from text keys to text values (provider-specific extra fields,
/// package-to-version tables, path-to-owner tables). Keys never repeat.
#[derive(Debug, PartialEq, Eq)]
pub struct StringMap {
    entries: Vec<(String, String)>,
}

impl Clone for StringMap {
    fn clone(&self) -> (r: Self)
        ensures
            r@ == self@,
    {
        proof {
            use_type_invariant(self);
        }
        let mut entries: Vec<(String, String)> = Vec::new();
        let mut i: usize = 0;
        while i < self.entries.len()
            invariant
                0 <= i <= self.entries@.len(),
                entries@.len() == i,
                forall|j: int|
                    0 <= j < i ==> (#[trigger] entries@[j]).0@ == self.entries@[j].0@ && entries@[j].1@
                        == self.entries@[j].1@,
            decreases self.entries@.len() - i,
        {
            let (k, v) = &self.entries[i];
            entries.push((k.clone(), v.clone()));
            i += 1;
        }
        proof {
            lemma_entries_map_same(entries@, self.entries@);
        }
        StringMap { entries }
    }
}

proof fn lemma_entries_map_same(a: Seq<(String, String)>, b: Seq<(String, String)>)
    requires
        a.len() == b.len(),
        forall|j: int| 0 <= j < a.len() ==> (#[trigger] a[j]).0@ == b[j].0@ && a[j].1@ == b[j].1@,
    ensures
        entries_map(a) == entries_map(b),
    decreases a.len(),
{
    if a.len() > 0 {
        assert forall|j: int| 0 <= j < a.len() - 1 implies (#[trigger] a.drop_first()[j]).0@
            == b.drop_first()[j].0@ && a.drop_first()[j].1@ == b.drop_first()[j].1@ by {
            assert(a[j + 1] == a.drop_first()[j]);
        }
        lemma_entries_map_same(a.drop_first(), b.drop_first());
        assert(a[0].0@ == b[0].0@);
    }
}

impl StringMap {
    #[verifier::type_invariant]
    spec fn keys_distinct(self) -> bool {
        forall|i: int, j: int|
            0 <= i < j < self.entries@.len() ==> (#[trigger] self.entries@[i]).0@
                != (#[trigger] self.entries@[j]).0@
    }
}

impl View for StringMap {
    type V = Map<Seq<char>, Seq<char>>;

    closed spec fn view(&self) -> Map<Seq<char>, Seq<char>> {
        entries_map(self.entries@)
    }
}

proof fn lemma_entries_map_dom(s: Seq<(String, String)>, k: Seq<char>)
    ensures
        entries_map(s).contains_key(k) <==> exists|i: int| 0 <= i < s.len() && s[i].0@ == k,
    decreases s.len(),
{
    if s.len() > 0 {
        lemma_entries_map_dom(s.drop_first(), k);
        if exists|i: int| 0 <= i < s.len() && s[i].0@ == k {
            let i = choose|i: int| 0 <= i < s.len() && s[i].0@ == k;
            if i > 0 {
                assert(s.drop_first()[i - 1].0@ == k);
            }
        }
        if exists|i: int| 0 <= i < s.drop_first().len() && s.drop_first()[i].0@ == k {
            let i = choose|i: int| 0 <= i < s.drop_first().len() && s.drop_first()[i].0@ == k;
            assert(s[i + 1].0@ == k);
        }
    }
}

proof fn lemma_entries_map_first(s: Seq<(String, String)>, i: int)
    requires
        0 <= i < s.len(),
        forall|j: int| 0 <= j < i ==> s[j].0@ != s[i].0@,
    ensures
        entries_map(s).contains_key(s[i].0@),
        entries_map(s)[s[i].0@] == s[i].1@,
    decreases s.len(),
{
    if i > 0 {
        assert forall|j: int| 0 <= j < i - 1 implies (#[trigger] s.drop_first()[j]).0@
            != s.drop_first()[i - 1].0@ by {
            assert(s[j + 1].0@ != s[i].0@);
        }
        lemma_entries_map_first(s.drop_first(), i - 1);
        assert(s[0].0@ != s[i].0@);
    }
}

proof fn lemma_entries_map_update(s: Seq<(String, String)>, i: int, k: String, v: String)
    requires
        0 <= i < s.len(),
        s[i].0@ == k@,
        forall|j: int| 0 <= j < i ==> s[j].0@ != k@,
    ensures
        entries_map(s.update(i, (k, v))) == entries_map(s).insert(k@, v@),
    decreases s.len(),
{
    if i == 0 {
        assert(s.update(0, (k, v)).drop_first() =~= s.drop_first());
        assert(entries_map(s.update(i, (k, v))) =~= entries_map(s).insert(k@, v@));
    } else {
        assert(s.update(i, (k, v)).drop_first() =~= s.drop_first().update(i - 1, (k, v)));
        lemma_entries_map_update(s.drop_first(), i - 1, k, v);
        assert(s[0].0@ != k@);
        assert(entries_map(s.update(i, (k, v))) =~= entries_map(s).insert(k@, v@));
    }
}

proof fn lemma_entries_map_push(s: Seq<(String, String)>, k: String, v: String)
    requires
        forall|j: int| 0 <= j < s.len() ==> s[j].0@ != k@,
    ensures
        entries_map(s.push((k, v))) == entries_map(s).insert(k@, v@),
    decreases s.len(),
{
    if s.len() == 0 {
        assert(s.push((k, v)).drop_first() =~= s);
        assert(entries_map(s.push((k, v))) =~= entries_map(s).insert(k@, v@));
    } else {
        assert(s.push((k, v)).drop_first() =~= s.drop_first().push((k, v)));
        lemma_entries_map_push(s.drop_first(), k, v);
        assert(entries_map(s.push((k, v))) =~= entries_map(s).insert(k@, v@));
    }
}

impl StringMap {
    pub fn new() -> (m: StringMap)
        ensures
            m@ == Map::<Seq<char>, Seq<char>>::empty(),
    {
        StringMap { entries: Vec::new() }
    }

    /// The position of the first entry with key `key`.
    fn position(&self, key: &str) -> (r: Option<usize>)
        ensures
            r matches Some(i) ==> i < self.entries@.len() && self.entries@[i as int].0@ == key@
                && forall|j: int| 0 <= j < i ==> self.entries@[j].0@ != key@,
            r is None ==> forall|j: int| 0 <= j < self.entries@.len() ==> self.entries@[j].0@ != key@,
    {
        let mut i: usize = 0;
        while i < self.entries.len()
            invariant
                0 <= i <= self.entries@.len(),
                forall|j: int| 0 <= j < i ==> self.entries@[j].0@ != key@,
            decreases self.entries@.len() - i,
        {
            if str_eq(self.entries[i].0.as_str(), key) {
                return Some(i);
            }
            i += 1;
        }
        None
    }

    pub fn contains_key(&self, key: &str) -> (b: bool)
        ensures
            b == self@.contains_key(key@),
    {
        let r = self.position(key);
        proof {
            lemma_entries_map_dom(self.entries@, key@);
        }
        r.is_some()
    }

    pub fn get(&self, key: &str) -> (r: Option<&String>)
        ensures
            r matches Some(v) ==> self@.contains_key(key@) && self@[key@] == v@,
            r is None ==> !self@.contains_key(key@),
    {
        proof {
            lemma_entries_map_dom(self.entries@, key@);
        }
        match self.position(key) {
            Some(i) => {
                proof {
                    lemma_entries_map_first(self.entries@, i as int);
                }
                Some(&self.entries[i].1)
            },
            None => None,
        }
    }

    /// Sets `key` to `value`, replacing an earlier value.
    pub fn insert(&mut self, key: String, value: String)
        ensures
            final(self)@ == old(self)@.insert(key@, value@),
    {
        proof {
            use_type_invariant(&*self);
        }
        let pos = self.position(key.as_str());
        let mut entries: Vec<(String, String)> = Vec::new();
        std::mem::swap(&mut entries, &mut self.entries);
        match pos {
            Some(i) => {
                proof {
                    lemma_entries_map_update(entries@, i as int, key, value);
                }
                entries.set(i, (key, value));
                proof {
                    assert forall|a: int, b: int| 0 <= a < b < entries@.len() implies (
                    #[trigger] entries@[a]).0@ != (#[trigger] entries@[b]).0@ by {
                        if a != i && b != i {
                            assert(old(self).entries@[a] == entries@[a]);
                            assert(old(self).entries@[b] == entries@[b]);
                        } else if a == i {
                            assert(old(self).entries@[b] == entries@[b]);
                        } else {
                            assert(old(self).entries@[a] == entries@[a]);
                        }
                    }
                }
            },
            None => {
                proof {
                    lemma_entries_map_push(entries@, key, value);
                }
                entries.push((key, value));
            },
        }
        self.entries = entries;
    }

    /// The number of keys.
    pub fn len(&self) -> (n: usize)
        ensures
            n == self@.dom().len(),
    {
        proof {
            use_type_invariant(self);
            lemma_entries_map_len(self.entries@);
        }
        self.entries.len()
    }

    pub fn is_empty(&self) -> (b: bool)
        ensures
            b == (self@.dom().len() == 0),
    {
        proof {
            if self.entries@.len() > 0 {
                lemma_entries_map_dom(self.entries@, self.entries@[0].0@);
                assert(self@.dom().contains(self.entries@[0].0@));
                lemma_entries_map_finite(self.entries@);
            } else {
                assert(self@ =~= Map::<Seq<char>, Seq<char>>::empty());
            }
        }
        self.entries.len() == 0
    }

    /// Every key with its value, each key once.
    pub fn pairs(&self) -> (r: Vec<(String, String)>)
        ensures
            entries_map(r@) == self@,
            forall|i: int, j: int| 0 <= i < j < r@.len() ==> (#[trigger] r@[i]).0@ != (#[trigger] r@[j]).0@,
    {
        proof {
            use_type_invariant(self);
        }
        let mut out: Vec<(String, String)> = Vec::new();
        let mut i: usize = 0;
        while i < self.entries.len()
            invariant
                0 <= i <= self.entries@.len(),
                out@.len() == i,
                forall|a: int, b: int|
                    0 <= a < b < self.entries@.len() ==> (#[trigger] self.entries@[a]).0@
                        != (#[trigger] self.entries@[b]).0@,
                forall|j: int|
                    0 <= j < i ==> (#[trigger] out@[j]).0@ == self.entries@[j].0@ && out@[j].1@
                        == self.entries@[j].1@,
            decreases self.entries@.len() - i,
        {
            let (k, v) = &self.entries[i];
            out.push((k.clone(), v.clone()));
            i += 1;
        }
        proof {
            lemma_entries_map_same(out@, self.entries@);
            assert forall|a: int, b: int| 0 <= a < b < out@.len() implies (#[trigger] out@[a]).0@
                != (#[trigger] out@[b]).0@ by {
                assert(out@[a].0@ == self.entries@[a].0@);
                assert(out@[b].0@ == self.entries@[b].0@);
            }
        }
        out
    }

    /// Adds every entry of `other` whose key is not set here yet.
    pub fn absorb(&mut self, other: &StringMap)
        ensures
            final(self)@ == other@.union_prefer_right(old(self)@),
    {
        let ghost start = self@;
        let mut i: usize = 0;
        while i < other.entries.len()
            invariant
                0 <= i <= other.entries@.len(),
                self@ == entries_map(other.entries@.take(i as int)).union_prefer_right(start),
            decreases other.entries@.len() - i,
        {
            let (k, v) = &other.entries[i];
            if !self.contains_key(k.as_str()) {
                self.insert(k.clone(), v.clone());
            }
            proof {
                lemma_entries_map_take_step(other.entries@, i as int);
            }
            i += 1;
            proof {
                assert(self@ =~= entries_map(other.entries@.take(i as int)).union_prefer_right(
                    start,
                ));
            }
        }
        proof {
            assert(other.entries@.take(i as int) =~= other.entries@);
        }
    }
}

proof fn lemma_entries_map_len(s: Seq<(String, String)>)
    requires
        forall|i: int, j: int| 0 <= i < j < s.len() ==> (#[trigger] s[i]).0@ != (#[trigger] s[j]).0@,
    ensures
        entries_map(s).dom().finite(),
        entries_map(s).dom().len() == s.len(),
    decreases s.len(),
{
    if s.len() > 0 {
        let t = s.drop_first();
        assert forall|i: int, j: int| 0 <= i < j < t.len() implies (#[trigger] t[i]).0@ != (
        #[trigger] t[j]).0@ by {
            assert(s[i + 1] == t[i] && s[j + 1] == t[j]);
        }
        lemma_entries_map_len(t);
        lemma_entries_map_dom(t, s[0].0@);
        if entries_map(t).contains_key(s[0].0@) {
            let i = choose|i: int| 0 <= i < t.len() && t[i].0@ == s[0].0@;
            assert(s[i + 1] == t[i]);
        }
    }
}

proof fn lemma_entries_map_finite(s: Seq<(String, String)>)
    ensures
        entries_map(s).dom().finite(),
    decreases s.len(),
{
    if s.len() > 0 {
        lemma_entries_map_finite(s.drop_first());
    }
}

/// Taking one more entry adds that entry's key only if it is new.
proof fn lemma_entries_map_take_step(s: Seq<(String, String)>, i: int)
    requires
        0 <= i < s.len(),
    ensures
        entries_map(s.take(i + 1)) == if entries_map(s.take(i)).contains_key(s[i].0@) {
            entries_map(s.take(i))
        } else {
            entries_map(s.take(i)).insert(s[i].0@, s[i].1@)
        },
    decreases i,
{
    if i == 0 {
        assert(s.take(1).drop_first() =~= s.take(0));
        assert(entries_map(s.take(0)) =~= Map::empty());
        assert(entries_map(s.take(1)) =~= Map::<Seq<char>, Seq<char>>::empty().insert(
            s[0].0@,
            s[0].1@,
        ));
    } else {
        let t = s.drop_first();
        lemma_entries_map_take_step(t, i - 1);
        assert(s.take(i + 1).drop_first() =~= t.take(i));
        assert(s.take(i).drop_first() =~= t.take(i - 1));
        assert(s.take(i + 1)[0] == s[0]);
        assert(s.take(i)[0] == s[0]);
        assert(t[i - 1] == s[i]);
        assert(entries_map(s.take(i + 1)) =~= (if entries_map(s.take(i)).contains_key(s[i].0@) {
            entries_map(s.take(i))
        } else {
            entries_map(s.take(i)).insert(s[i].0@, s[i].1@)
        }));
    }
}

// ---------------------------------------------------------------------------
// Provider results
/// A non-fatal issue encountered while scanning.
#[derive(Debug, Clone, PartialEq)]
pub struct ProviderWarning {
    pub message: String,
    /// The `SoftwareItem::id` this warning relates to, if any.
    pub item_id: Option<String>,
    /// Free-form extra detail (e.g. the offending file path).
    pub context: Option<String>,
}

impl ProviderWarning {
    pub fn new(message: &str) -> (w: Self)
        ensures
            w.message@ == message@,
            w.item_id is None,
            w.context is None,
    {
        ProviderWarning { message: message.to_owned(), item_id: None, context: None }
    }

    pub fn for_item(self, item_id: &str) -> (w: Self)
        ensures
            w.message == self.message,
            w.item_id matches Some(i) && i@ == item_id@,
            w.context == self.context,
    {
        let mut w = self;
        w.item_id = Some(item_id.to_owned());
        w
    }

    pub fn with_context(self, context: &str) -> (w: Self)
        ensures
            w.message == self.message,
            w.item_id == self.item_id,
            w.context matches Some(c) && c@ == context@,
    {
        let mut w = self;
        w.context = Some(context.to_owned());
        w
    }
}

/// A fatal error that stopped a provider from completing its scan.
#[derive(Debug, Clone, PartialEq)]
pub enum ProviderError {
    CommandNotFound(String),
    Timeout(String),
    PermissionDenied(String),
    MalformedOutput(String),
    Cancelled(String),
    Other(String),
}

impl ProviderError {
    pub open spec fn spec_message(&self) -> Seq<char> {
        match self {
            ProviderError::CommandNotFound(m) => m@,
            ProviderError::Timeout(m) => m@,
            ProviderError::PermissionDenied(m) => m@,
            ProviderError::MalformedOutput(m) => m@,
            ProviderError::Cancelled(m) => m@,
            ProviderError::Other(m) => m@,
        }
    }

    pub fn message(&self) -> (m: &str)
        ensures
            m@ == self.spec_message(),
    {
        match self {
            ProviderError::CommandNotFound(m) => m.as_str(),
            ProviderError::Timeout(m) => m.as_str(),
            ProviderError::PermissionDenied(m) => m.as_str(),
            ProviderError::MalformedOutput(m) => m.as_str(),
            ProviderError::Cancelled(m) => m.as_str(),
            ProviderError::Other(m) => m.as_str(),
        }
    }
}

// ---------------------------------------------------------------------------
// Software items
/// A single piece of software discovered on the system, normalized across
/// whichever provider(s) found it. Timestamps are milliseconds since the
/// Unix epoch.
#[derive(Debug, PartialEq)]
pub struct SoftwareItem {
    /// Stable identifier, unique within a single scan (e.g. `apt:firefox`).
    pub id: String,
    pub package_name: String,
    pub display_name: String,
    pub description: Option<String>,
    pub version: Option<String>,
    pub architecture: Option<String>,
    pub category: SoftwareCategory,
    pub secondary_categories: Vec<SoftwareCategory>,
    pub package_manager: PackageManager,
    pub package_source: Option<String>,
    pub scope: InstallationScope,
    pub install_paths: Vec<String>,
    pub executable_paths: Vec<String>,
    pub desktop_file_paths: Vec<String>,
    pub icon_path: Option<String>,
    /// Debian package section (e.g. `libs`, `fonts`), when applicable.
    pub package_section: Option<String>,
    pub installed_size_bytes: Option<u64>,
    pub installed_at: Option<i64>,
    pub installation_reason: InstallationReason,
    pub dependencies: Vec<String>,
    pub reverse_dependencies: Vec<String>,
    pub update_available: bool,
    pub available_version: Option<String>,
    pub repository: Option<String>,
    pub homepage: Option<String>,
    pub license: Option<String>,
    pub classification_confidence: ClassificationConfidence,
    pub classification_reasons: Vec<String>,
    pub risk_level: SoftwareRiskLevel,
    pub metadata: StringMap,
    /// Item-level warnings that should not fail the whole item.
    pub warnings: Vec<String>,
}

/// The content of a [`SoftwareItem`], every text taken as its characters.
pub struct SoftwareItemView {
    pub id: Seq<char>,
    pub package_name: Seq<char>,
    pub display_name: Seq<char>,
    pub description: Option<Seq<char>>,
    pub version: Option<Seq<char>>,
    pub architecture: Option<Seq<char>>,
    pub category: SoftwareCategory,
    pub secondary_categories: Seq<SoftwareCategory>,
    pub package_manager: PackageManager,
    pub package_source: Option<Seq<char>>,
    pub scope: InstallationScope,
    pub install_paths: Seq<Seq<char>>,
    pub executable_paths: Seq<Seq<char>>,
    pub desktop_file_paths: Seq<Seq<char>>,
    pub icon_path: Option<Seq<char>>,
    pub package_section: Option<Seq<char>>,
    pub installed_size_bytes: Option<u64>,
    pub installed_at: Option<i64>,
    pub installation_reason: InstallationReason,
    pub dependencies: Seq<Seq<char>>,
    pub reverse_dependencies: Seq<Seq<char>>,
    pub update_available: bool,
    pub available_version: Option<Seq<char>>,
    pub repository: Option<Seq<char>>,
    pub homepage: Option<Seq<char>>,
    pub license: Option<Seq<char>>,
    pub classification_confidence: ClassificationConfidence,
    pub classification_reasons: Seq<Seq<char>>,
    pub risk_level: SoftwareRiskLevel,
    pub metadata: Map<Seq<char>, Seq<char>>,
    pub warnings: Seq<Seq<char>>,
}

impl View for SoftwareItem {
    type V = SoftwareItemView;

    open spec fn view(&self) -> SoftwareItemView {
        SoftwareItemView {
            id: self.id@,
            package_name: self.package_name@,
            display_name: self.display_name@,
            description: opt_view(self.description),
            version: opt_view(self.version),
            architecture: opt_view(self.architecture),
            category: self.category,
            secondary_categories: self.secondary_categories@,
            package_manager: self.package_manager,
            package_source: opt_view(self.package_source),
            scope: self.scope,
            install_paths: strs_view(self.install_paths@),
            executable_paths: strs_view(self.executable_paths@),
            desktop_file_paths: strs_view(self.desktop_file_paths@),
            icon_path: opt_view(self.icon_path),
            package_section: opt_view(self.package_section),
            installed_size_bytes: self.installed_size_bytes,
            installed_at: self.installed_at,
            installation_reason: self.installation_reason,
            dependencies: strs_view(self.dependencies@),
            reverse_dependencies: strs_view(self.reverse_dependencies@),
            update_available: self.update_available,
            available_version: opt_view(self.available_version),
            repository: opt_view(self.repository),
            homepage: opt_view(self.homepage),
            license: opt_view(self.license),
            classification_confidence: self.classification_confidence,
            classification_reasons: strs_view(self.classification_reasons@),
            risk_level: self.risk_level,
            metadata: self.metadata@,
            warnings: strs_view(self.warnings@),
        }
    }
}

/// The views of a list of items.
pub open spec fn items_view(s: Seq<SoftwareItem>) -> Seq<SoftwareItemView> {
    s.map_values(|i: SoftwareItem| i@)
}

/// A copy of an optional string.
pub fn clone_opt(o: &Option<String>) -> (r: Option<String>)
    ensures
        opt_view(r) == opt_view(*o),
{
    match o {
        Some(s) => Some(s.clone()),
        None => None,
    }
}

/// A copy of a list of strings.
pub fn clone_strings(v: &Vec<String>) -> (r: Vec<String>)
    ensures
        strs_view(r@) == strs_view(v@),
{
    let mut r: Vec<String> = Vec::new();
    let mut i: usize = 0;
    while i < v.len()
        invariant
            0 <= i <= v@.len(),
            r@.len() == i,
            forall|j: int| 0 <= j < i ==> (#[trigger] r@[j])@ == v@[j]@,
        decreases v@.len() - i,
    {
        let c = v[i].clone();
        r.push(c);
        i += 1;
    }
    proof {
        assert(strs_view(r@) =~= strs_view(v@));
    }
    r
}

/// A copy of a list of categories.
pub fn clone_categories(v: &Vec<SoftwareCategory>) -> (r: Vec<SoftwareCategory>)
    ensures
        r@ == v@,
{
    let mut r: Vec<SoftwareCategory> = Vec::new();
    let mut i: usize = 0;
    while i < v.len()
        invariant
            0 <= i <= v@.len(),
            r@ == v@.take(i as int),
        decreases v@.len() - i,
    {
        r.push(v[i]);
        i += 1;
        proof {
            assert(r@ =~= v@.take(i as int));
        }
    }
    proof {
        assert(v@.take(i as int) =~= v@);
    }
    r
}

impl Clone for SoftwareItem {
    fn clone(&self) -> (r: Self)
        ensures
            r@ == self@,
    {
        SoftwareItem {
            id: self.id.clone(),
            package_name: self.package_name.clone(),
            display_name: self.display_name.clone(),
            description: clone_opt(&self.description),
            version: clone_opt(&self.version),
            architecture: clone_opt(&self.architecture),
            category: self.category,
            secondary_categories: clone_categories(&self.secondary_categories),
            package_manager: self.package_manager,
            package_source: clone_opt(&self.package_source),
            scope: self.scope,
            install_paths: clone_strings(&self.install_paths),
            executable_paths: clone_strings(&self.executable_paths),
            desktop_file_paths: clone_strings(&self.desktop_file_paths),
            icon_path: clone_opt(&self.icon_path),
            package_section: clone_opt(&self.package_section),
            installed_size_bytes: self.installed_size_bytes,
            installed_at: self.installed_at,
            installation_reason: self.installation_reason,
            dependencies: clone_strings(&self.dependencies),
            reverse_dependencies: clone_strings(&self.reverse_dependencies),
            update_available: self.update_available,
            available_version: clone_opt(&self.available_version),
            repository: clone_opt(&self.repository),
            homepage: clone_opt(&self.homepage),
            license: clone_opt(&self.license),
            classification_confidence: self.classification_confidence,
            classification_reasons: clone_strings(&self.classification_reasons),
            risk_level: self.risk_level,
            metadata: self.metadata.clone(),
            warnings: clone_strings(&self.warnings),
        }
    }
}

/// Every field but the identifying ones is at its default.
pub open spec fn is_fresh(item: SoftwareItem) -> bool {
    &&& item.description is None
    &&& item.version is None
    &&& item.architecture is None
    &&& item.category == SoftwareCategory::Unclassified
    &&& item.secondary_categories@.len() == 0
    &&& item.package_source is None
    &&& item.scope == InstallationScope::Unknown
    &&& item.install_paths@.len() == 0
    &&& item.executable_paths@.len() == 0
    &&& item.desktop_file_paths@.len() == 0
    &&& item.icon_path is None
    &&& item.package_section is None
    &&& item.installed_size_bytes is None
    &&& item.installed_at is None
    &&& item.installation_reason == InstallationReason::Unknown
    &&& item.dependencies@.len() == 0
    &&& item.reverse_dependencies@.len() == 0
    &&& !item.update_available
    &&& item.available_version is None
    &&& item.repository is None
    &&& item.homepage is None
    &&& item.license is None
    &&& item.classification_confidence == ClassificationConfidence::Unknown
    &&& item.classification_reasons@.len() == 0
    &&& item.risk_level == SoftwareRiskLevel::Unknown
    &&& item.metadata@ == Map::<Seq<char>, Seq<char>>::empty()
    &&& item.warnings@.len() == 0
}

/// Domain-level validation failure for a [`SoftwareItem`].
#[derive(Debug, Clone, Copy, PartialEq, Eq)]
pub enum ValidationError {
    EmptyField(&'static str),
}

impl SoftwareItem {
    /// A minimal item with the identifying fields set and everything else defaulted.
    pub fn new(id: &str, package_name: &str, display_name: &str, package_manager: PackageManager) -> (item: Self)
        ensures
            item.id@ == id@,
            item.package_name@ == package_name@,
            item.display_name@ == display_name@,
            item.package_manager == package_manager,
            is_fresh(item),
    {
        SoftwareItem {
            id: id.to_owned(),
            package_name: package_name.to_owned(),
            display_name: display_name.to_owned(),
            description: None,
            version: None,
            architecture: None,
            category: SoftwareCategory::Unclassified,
            secondary_categories: Vec::new(),
            package_manager,
            package_source: None,
            scope: InstallationScope::Unknown,
            install_paths: Vec::new(),
            executable_paths: Vec::new(),
            desktop_file_paths: Vec::new(),
            icon_path: None,
            package_section: None,
            installed_size_bytes: None,
            installed_at: None,
            installation_reason: InstallationReason::Unknown,
            dependencies: Vec::new(),
            reverse_dependencies: Vec::new(),
            update_available: false,
            available_version: None,
            repository: None,
            homepage: None,
            license: None,
            classification_confidence: ClassificationConfidence::Unknown,
            classification_reasons: Vec::new(),
            risk_level: SoftwareRiskLevel::Unknown,
            metadata: StringMap::new(),
            warnings: Vec::new(),
        }
    }

    /// The shared floor every item must meet: non-blank id, package name and display name.
    pub fn validate(&self) -> (r: Result<(), ValidationError>)
        ensures
            trim(self.id@).len() == 0 ==> r == Err::<(), ValidationError>(
                ValidationError::EmptyField("id"),
            ),
            trim(self.id@).len() != 0 && trim(self.package_name@).len() == 0 ==> r == Err::<
                (),
                ValidationError,
            >(ValidationError::EmptyField("package_name")),
            trim(self.id@).len() != 0 && trim(self.package_name@).len() != 0 && trim(
                self.display_name@,
            ).len() == 0 ==> r == Err::<(), ValidationError>(
                ValidationError::EmptyField("display_name"),
            ),
            trim(self.id@).len() != 0 && trim(self.package_name@).len() != 0 && trim(
                self.display_name@,
            ).len() != 0 ==> r == Ok::<(), ValidationError>(()),
    {
        if is_blank(self.id.as_str()) {
            return Err(ValidationError::EmptyField("id"));
        }
        if is_blank(self.package_name.as_str()) {
            return Err(ValidationError::EmptyField("package_name"));
        }
        if is_blank(self.display_name.as_str()) {
            return Err(ValidationError::EmptyField("display_name"));
        }
        Ok(())
    }

    /// True when at least one secondary category is present.
    pub fn has_secondary_categories(&self) -> (b: bool)
        ensures
            b == (self.secondary_categories@.len() > 0),
    {
        self.secondary_categories.len() > 0
    }
}

/// `s.trim().is_empty()`.
pub fn is_blank(s: &str) -> (b: bool)
    ensures
        b == (trim(s@).len() == 0),
{
    let v = chars_of(s);
    let (a, b) = trim_range(&v, 0, v.len(), CharClass::Whitespace);
    proof {
        assert(v@.subrange(0, v@.len() as int) =~= s@);
    }
    a == b
}

impl Default for SoftwareItem {
    fn default() -> (item: Self)
        ensures
            item.id@.len() == 0,
            item.package_name@.len() == 0,
            item.display_name@.len() == 0,
            item.package_manager == PackageManager::Unknown,
            is_fresh(item),
    {
        proof {
            reveal_strlit("");
        }
        SoftwareItem::new("", "", "", PackageManager::Unknown)
    }
}

/// A set of items believed to be the same software installed through more
/// than one mechanism. Only ever surfaced for review, never acted on.
#[derive(Debug, Clone, PartialEq)]
pub struct DuplicateGroup {
    pub id: String,
    /// The ids of the items in this group, sorted.
    pub item_ids: Vec<String>,
    pub reason: String,
    pub confidence: ClassificationConfidence,
}

/// Aggregate view over a completed (or partially completed) inventory scan.
/// Each count list holds one entry per key that occurs.
#[derive(Debug, Clone, PartialEq)]
pub struct InventorySummary {
    pub status: InventoryStatus,
    pub total_items: usize,
    pub items_by_category: Vec<(SoftwareCategory, usize)>,
    pub items_by_package_manager: Vec<(PackageManager, usize)>,
    pub providers_with_warnings: Vec<String>,
    pub providers_with_errors: Vec<String>,
    pub duplicate_group_count: usize,
    pub last_scan_started_at: Option<i64>,
    pub last_scan_completed_at: Option<i64>,
    pub scan_duration_ms: Option<u64>,
}

impl InventorySummary {
    pub open spec fn spec_is_partial(&self) -> bool {
        self.status == InventoryStatus::CompletedWithWarnings || self.status
            == InventoryStatus::PartiallyFailed
    }

    pub fn is_partial(&self) -> (b: bool)
        ensures
            b == self.spec_is_partial(),
    {
        match self.status {
            InventoryStatus::CompletedWithWarnings | InventoryStatus::PartiallyFailed => true,
            _ => false,
        }
    }
}

impl Default for InventorySummary {
    fn default() -> (s: Self)
        ensures
            s.status == InventoryStatus::NotStarted,
            s.total_items == 0,
            s.items_by_category@.len() == 0,
            s.items_by_package_manager@.len() == 0,
            s.providers_with_warnings@.len() == 0,
            s.providers_with_errors@.len() == 0,
            s.duplicate_group_count == 0,
            s.last_scan_started_at is None,
            s.last_scan_completed_at is None,
            s.scan_duration_ms is None,
    {
        InventorySummary {
            status: InventoryStatus::NotStarted,
            total_items: 0,
            items_by_category: Vec::new(),
            items_by_package_manager: Vec::new(),
            providers_with_warnings: Vec::new(),
            providers_with_errors: Vec::new(),
            duplicate_group_count: 0,
            last_scan_started_at: None,
            last_scan_completed_at: None,
            scan_duration_ms: None,
        }
    }
}

/// The full result of a single provider's inventory scan. A failed scan
/// still carries whatever partial items and warnings it had.
#[derive(Debug, Clone, PartialEq)]
pub struct ProviderInventory {
    pub provider_id: String,
    pub status: ProviderStatus,
    pub items: Vec<SoftwareItem>,
    pub warnings: Vec<ProviderWarning>,
    pub error: Option<ProviderError>,
    pub started_at: i64,
    pub completed_at: Option<i64>,
    pub duration_ms: Option<u64>,
    pub provider_version: Option<String>,
}

/// Milliseconds from `start` to `end`, or 0 if `end` is earlier.
pub open spec fn elapsed_ms(start: i64, end: i64) -> int {
    if end - start < 0 {
        0
    } else {
        end - start
    }
}

pub fn elapsed_ms_exec(start: i64, end: i64) -> (d: u64)
    ensures
        d == elapsed_ms(start, end),
{
    if end < start {
        0
    } else {
        let d: i128 = (end as i128) - (start as i128);
        d as u64
    }
}

impl ProviderInventory {
    /// Begin recording a scan for `provider_id`, started at `started_at`.
    pub fn started(provider_id: &str, started_at: i64) -> (p: Self)
        ensures
            p.provider_id@ == provider_id@,
            p.status == ProviderStatus::NotRun,
            p.items@.len() == 0,
            p.warnings@.len() == 0,
            p.error is None,
            p.started_at == started_at,
            p.completed_at is None,
            p.duration_ms is None,
            p.provider_version is None,
    {
        ProviderInventory {
            provider_id: provider_id.to_owned(),
            status: ProviderStatus::NotRun,
            items: Vec::new(),
            warnings: Vec::new(),
            error: None,
            started_at,
            completed_at: None,
            duration_ms: None,
            provider_version: None,
        }
    }

    /// Marks the scan complete, computing `duration_ms` from `started_at`.
    pub fn finish(self, completed_at: i64, status: ProviderStatus) -> (p: Self)
        ensures
            p.duration_ms == Some(elapsed_ms(self.started_at, completed_at) as u64),
            p.completed_at == Some(completed_at),
            p.status == status,
            p.provider_id == self.provider_id,
            p.items == self.items,
            p.warnings == self.warnings,
            p.error == self.error,
            p.started_at == self.started_at,
            p.provider_version == self.provider_version,
    {
        let mut p = self;
        p.duration_ms = Some(elapsed_ms_exec(p.started_at, completed_at));
        p.completed_at = Some(completed_at);
        p.status = status;
        p
    }

    pub open spec fn spec_is_success(&self) -> bool {
        self.status == ProviderStatus::Success || self.status == ProviderStatus::PartialSuccess
    }

    pub fn is_success(&self) -> (b: bool)
        ensures
            b == self.spec_is_success(),
    {
        match self.status {
            ProviderStatus::Success | ProviderStatus::PartialSuccess => true,
            _ => false,
        }
    }
}

} // verus!
