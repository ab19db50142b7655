//! Classification: turns raw, provider-observed evidence about a software
//! item into a primary category, secondary categories, a confidence level,
//! and human-readable reasons. No I/O.
use vstd::prelude::*;

use crate::domain::{ClassificationConfidence, SoftwareCategory};
use crate::text::{
    ascii_lowercase, ascii_lowercase_range, chars_of, contains_in, contains_seq, ends_with,
    ends_with_exec, eq_ignore_ascii_case, range_eq_ignore_ascii_case,
};

verus! {

/// Raw, structured signals a provider observed about a package.
#[derive(Debug, Clone)]
pub struct Evidence {
    /// Compared case-insensitively; used only for the weakest, name-based rules.
    pub package_name: String,
    /// Debian package section (e.g. `"libs"`, `"fonts"`), if declared.
    pub debian_section: Option<String>,
    pub has_desktop_launcher: bool,
    /// The `Categories=` field from a `.desktop` file, if any.
    pub desktop_categories: Vec<String>,
    pub has_executables: bool,
    pub owns_shared_libraries: bool,
    pub owns_header_files: bool,
    pub owns_pkgconfig_files: bool,
    pub owns_font_files: bool,
    pub owns_firmware_files: bool,
    pub owns_kernel_module_files: bool,
    pub owns_systemd_unit_files: bool,
    pub owns_gtk_theme_files: bool,
    pub owns_icon_theme_files: bool,
    /// The package appears to own only documentation files.
    pub documentation_only: bool,
}

impl Default for Evidence {
    fn default() -> (e: Self)
        ensures
            e.package_name@.len() == 0,
            e.debian_section is None,
            !e.has_desktop_launcher,
            e.desktop_categories@.len() == 0,
            !e.has_executables,
            !e.owns_shared_libraries,
            !e.owns_header_files,
            !e.owns_pkgconfig_files,
            !e.owns_font_files,
            !e.owns_firmware_files,
            !e.owns_kernel_module_files,
            !e.owns_systemd_unit_files,
            !e.owns_gtk_theme_files,
            !e.owns_icon_theme_files,
            !e.documentation_only,
    {
        Evidence {
            package_name: String::new(),
            debian_section: None,
            has_desktop_launcher: false,
            desktop_categories: Vec::new(),
            has_executables: false,
            owns_shared_libraries: false,
            owns_header_files: false,
            owns_pkgconfig_files: false,
            owns_font_files: false,
            owns_firmware_files: false,
            owns_kernel_module_files: false,
            owns_systemd_unit_files: false,
            owns_gtk_theme_files: false,
            owns_icon_theme_files: false,
            documentation_only: false,
        }
    }
}

/// The outcome of classifying one item's evidence.
#[derive(Debug, Clone, PartialEq, Eq)]
pub struct ClassificationResult {
    pub category: SoftwareCategory,
    pub secondary_categories: Vec<SoftwareCategory>,
    pub confidence: ClassificationConfidence,
    pub reasons: Vec<String>,
}

impl Default for ClassificationResult {
    fn default() -> (r: Self)
        ensures
            r.category == SoftwareCategory::Unclassified,
            r.secondary_categories@.len() == 0,
            r.confidence == ClassificationConfidence::Unknown,
            r.reasons@.len() == 0,
    {
        ClassificationResult {
            category: SoftwareCategory::Unclassified,
            secondary_categories: Vec::new(),
            confidence: ClassificationConfidence::Unknown,
            reasons: Vec::new(),
        }
    }
}

/// One row of the rule table.
pub struct Rule {
    pub category: SoftwareCategory,
    pub confidence: ClassificationConfidence,
    pub reason: &'static str,
}

/// Number of rules in the table.
pub const RULE_COUNT: usize = 25;

/// The priority-ordered rule table, strongest evidence first.
pub open spec fn spec_rule(i: int) -> (SoftwareCategory, ClassificationConfidence, &'static str) {
    if i == 0 {
        (SoftwareCategory::Font, ClassificationConfidence::High, "Debian section is \"fonts\"")
    } else if i == 1 {
        (SoftwareCategory::Library, ClassificationConfidence::High, "Debian section is \"libs\"")
    } else if i == 2 {
        (
            SoftwareCategory::DevelopmentPackage,
            ClassificationConfidence::High,
            "Debian section is \"libdevel\" (development files for a library)",
        )
    } else if i == 3 {
        (
            SoftwareCategory::DevelopmentPackage,
            ClassificationConfidence::High,
            "Debian section is \"devel\"",
        )
    } else if i == 4 {
        (SoftwareCategory::Documentation, ClassificationConfidence::High, "Debian section is \"doc\"")
    } else if i == 5 {
        (
            SoftwareCategory::KernelComponent,
            ClassificationConfidence::High,
            "Debian section is \"kernel\"",
        )
    } else if i == 6 {
        (
            SoftwareCategory::LanguagePack,
            ClassificationConfidence::Medium,
            "Debian section is \"localization\"",
        )
    } else if i == 7 {
        (
            SoftwareCategory::Runtime,
            ClassificationConfidence::Medium,
            "Debian section is \"interpreters\"",
        )
    } else if i == 8 {
        (
            SoftwareCategory::Miscellaneous,
            ClassificationConfidence::Low,
            "Debian section is \"misc\" or \"metapackages\"",
        )
    } else if i == 9 {
        (
            SoftwareCategory::Firmware,
            ClassificationConfidence::High,
            "package owns files under /lib/firmware",
        )
    } else if i == 10 {
        (
            SoftwareCategory::KernelComponent,
            ClassificationConfidence::High,
            "package owns files under /lib/modules",
        )
    } else if i == 11 {
        (
            SoftwareCategory::SystemService,
            ClassificationConfidence::High,
            "package installs a systemd unit file",
        )
    } else if i == 12 {
        (
            SoftwareCategory::Theme,
            ClassificationConfidence::High,
            "package owns files under /usr/share/themes",
        )
    } else if i == 13 {
        (
            SoftwareCategory::IconPack,
            ClassificationConfidence::Medium,
            "package owns an icon theme under /usr/share/icons",
        )
    } else if i == 14 {
        (
            SoftwareCategory::DesktopComponent,
            ClassificationConfidence::Medium,
            "package provides a desktop launcher categorized as a system/settings component",
        )
    } else if i == 15 {
        (
            SoftwareCategory::Application,
            ClassificationConfidence::High,
            "package provides a desktop launcher",
        )
    } else if i == 16 {
        (
            SoftwareCategory::DevelopmentPackage,
            ClassificationConfidence::High,
            "package owns header files under /usr/include",
        )
    } else if i == 17 {
        (
            SoftwareCategory::DevelopmentPackage,
            ClassificationConfidence::Medium,
            "package owns pkg-config (.pc) files",
        )
    } else if i == 18 {
        (
            SoftwareCategory::Library,
            ClassificationConfidence::High,
            "package owns shared library (.so) files",
        )
    } else if i == 19 {
        (
            SoftwareCategory::DevelopmentPackage,
            ClassificationConfidence::Medium,
            "package name ends with \"-dev\"",
        )
    } else if i == 20 {
        (
            SoftwareCategory::Documentation,
            ClassificationConfidence::Medium,
            "package name ends with \"-doc\"",
        )
    } else if i == 21 {
        (
            SoftwareCategory::LanguagePack,
            ClassificationConfidence::Medium,
            "package name contains \"language-pack\"",
        )
    } else if i == 22 {
        (
            SoftwareCategory::Documentation,
            ClassificationConfidence::Medium,
            "package appears to contain only documentation files",
        )
    } else if i == 23 {
        (
            SoftwareCategory::CommandLineTool,
            ClassificationConfidence::Medium,
            "package installs executables without a desktop launcher",
        )
    } else {
        (
            SoftwareCategory::Driver,
            ClassificationConfidence::Low,
            "package name suggests a hardware driver",
        )
    }
}

pub fn rule(i: usize) -> (r: Rule)
    requires
        i < RULE_COUNT,
    ensures
        (r.category, r.confidence, r.reason) == spec_rule(i as int),
{
    let (category, confidence, reason) = if i == 0 {
        (SoftwareCategory::Font, ClassificationConfidence::High, "Debian section is \"fonts\"")
    } else if i == 1 {
        (SoftwareCategory::Library, ClassificationConfidence::High, "Debian section is \"libs\"")
    } else if i == 2 {
        (
            SoftwareCategory::DevelopmentPackage,
            ClassificationConfidence::High,
            "Debian section is \"libdevel\" (development files for a library)",
        )
    } else if i == 3 {
        (
            SoftwareCategory::DevelopmentPackage,
            ClassificationConfidence::High,
            "Debian section is \"devel\"",
        )
    } else if i == 4 {
        (SoftwareCategory::Documentation, ClassificationConfidence::High, "Debian section is \"doc\"")
    } else if i == 5 {
        (
            SoftwareCategory::KernelComponent,
            ClassificationConfidence::High,
            "Debian section is \"kernel\"",
        )
    } else if i == 6 {
        (
            SoftwareCategory::LanguagePack,
            ClassificationConfidence::Medium,
            "Debian section is \"localization\"",
        )
    } else if i == 7 {
        (
            SoftwareCategory::Runtime,
            ClassificationConfidence::Medium,
            "Debian section is \"interpreters\"",
        )
    } else if i == 8 {
        (
            SoftwareCategory::Miscellaneous,
            ClassificationConfidence::Low,
            "Debian section is \"misc\" or \"metapackages\"",
        )
    } else if i == 9 {
        (
            SoftwareCategory::Firmware,
            ClassificationConfidence::High,
            "package owns files under /lib/firmware",
        )
    } else if i == 10 {
        (
            SoftwareCategory::KernelComponent,
            ClassificationConfidence::High,
            "package owns files under /lib/modules",
        )
    } else if i == 11 {
        (
            SoftwareCategory::SystemService,
            ClassificationConfidence::High,
            "package installs a systemd unit file",
        )
    } else if i == 12 {
        (
            SoftwareCategory::Theme,
            ClassificationConfidence::High,
            "package owns files under /usr/share/themes",
        )
    } else if i == 13 {
        (
            SoftwareCategory::IconPack,
            ClassificationConfidence::Medium,
            "package owns an icon theme under /usr/share/icons",
        )
    } else if i == 14 {
        (
            SoftwareCategory::DesktopComponent,
            ClassificationConfidence::Medium,
            "package provides a desktop launcher categorized as a system/settings component",
        )
    } else if i == 15 {
        (
            SoftwareCategory::Application,
            ClassificationConfidence::High,
            "package provides a desktop launcher",
        )
    } else if i == 16 {
        (
            SoftwareCategory::DevelopmentPackage,
            ClassificationConfidence::High,
            "package owns header files under /usr/include",
        )
    } else if i == 17 {
        (
            SoftwareCategory::DevelopmentPackage,
            ClassificationConfidence::Medium,
            "package owns pkg-config (.pc) files",
        )
    } else if i == 18 {
        (
            SoftwareCategory::Library,
            ClassificationConfidence::High,
            "package owns shared library (.so) files",
        )
    } else if i == 19 {
        (
            SoftwareCategory::DevelopmentPackage,
            ClassificationConfidence::Medium,
            "package name ends with \"-dev\"",
        )
    } else if i == 20 {
        (
            SoftwareCategory::Documentation,
            ClassificationConfidence::Medium,
            "package name ends with \"-doc\"",
        )
    } else if i == 21 {
        (
            SoftwareCategory::LanguagePack,
            ClassificationConfidence::Medium,
            "package name contains \"language-pack\"",
        )
    } else if i == 22 {
        (
            SoftwareCategory::Documentation,
            ClassificationConfidence::Medium,
            "package appears to contain only documentation files",
        )
    } else if i == 23 {
        (
            SoftwareCategory::CommandLineTool,
            ClassificationConfidence::Medium,
            "package installs executables without a desktop launcher",
        )
    } else {
        (
            SoftwareCategory::Driver,
            ClassificationConfidence::Low,
            "package name suggests a hardware driver",
        )
    };
    Rule { category, confidence, reason }
}

/// The Debian section equals `expected`, ignoring ASCII case.
pub open spec fn section_is(e: Evidence, expected: &str) -> bool {
    e.debian_section matches Some(s) && eq_ignore_ascii_case(s@, expected@)
}

pub open spec fn name_lower(e: Evidence) -> Seq<char> {
    ascii_lowercase(e.package_name@)
}

/// Some desktop category equals one of `options`, ignoring ASCII case.
pub open spec fn desktop_category_in(e: Evidence, a: &str, b: &str) -> bool {
    exists|j: int|
        0 <= j < e.desktop_categories@.len() && (eq_ignore_ascii_case(
            #[trigger] e.desktop_categories@[j]@,
            a@,
        ) || eq_ignore_ascii_case(e.desktop_categories@[j]@, b@))
}

/// Whether rule `i` matches the evidence.
pub open spec fn rule_matches(i: int, e: Evidence) -> bool {
    if i == 0 {
        section_is(e, "fonts")
    } else if i == 1 {
        section_is(e, "libs")
    } else if i == 2 {
        section_is(e, "libdevel")
    } else if i == 3 {
        section_is(e, "devel")
    } else if i == 4 {
        section_is(e, "doc")
    } else if i == 5 {
        section_is(e, "kernel")
    } else if i == 6 {
        section_is(e, "localization")
    } else if i == 7 {
        section_is(e, "interpreters")
    } else if i == 8 {
        section_is(e, "misc") || section_is(e, "metapackages")
    } else if i == 9 {
        e.owns_firmware_files
    } else if i == 10 {
        e.owns_kernel_module_files
    } else if i == 11 {
        e.owns_systemd_unit_files
    } else if i == 12 {
        e.owns_gtk_theme_files
    } else if i == 13 {
        e.owns_icon_theme_files
    } else if i == 14 {
        e.has_desktop_launcher && desktop_category_in(e, "settings", "system")
    } else if i == 15 {
        e.has_desktop_launcher
    } else if i == 16 {
        e.owns_header_files
    } else if i == 17 {
        e.owns_pkgconfig_files
    } else if i == 18 {
        e.owns_shared_libraries
    } else if i == 19 {
        ends_with(name_lower(e), "-dev"@)
    } else if i == 20 {
        ends_with(name_lower(e), "-doc"@)
    } else if i == 21 {
        contains_seq(name_lower(e), "language-pack"@)
    } else if i == 22 {
        e.documentation_only
    } else if i == 23 {
        e.has_executables && !e.has_desktop_launcher
    } else {
        ends_with(name_lower(e), "-dkms"@) || contains_seq(name_lower(e), "driver"@)
    }
}

/// Corroborating evidence raises confidence one level, capped at `Certain`.
pub open spec fn spec_bump(c: ClassificationConfidence) -> ClassificationConfidence {
    match c {
        ClassificationConfidence::Unknown => ClassificationConfidence::Low,
        ClassificationConfidence::Low => ClassificationConfidence::Medium,
        ClassificationConfidence::Medium => ClassificationConfidence::High,
        _ => ClassificationConfidence::Certain,
    }
}

pub fn bump_confidence(c: ClassificationConfidence) -> (r: ClassificationConfidence)
    ensures
        r == spec_bump(c),
{
    match c {
        ClassificationConfidence::Unknown => ClassificationConfidence::Low,
        ClassificationConfidence::Low => ClassificationConfidence::Medium,
        ClassificationConfidence::Medium => ClassificationConfidence::High,
        ClassificationConfidence::High | ClassificationConfidence::Certain => {
            ClassificationConfidence::Certain
        },
    }
}

/// The state after applying the first `n` rules: primary (category,
/// confidence) if any rule matched, the secondary categories, the reasons.
pub open spec fn classify_upto(e: Evidence, n: int) -> (
    Option<(SoftwareCategory, ClassificationConfidence)>,
    Seq<SoftwareCategory>,
    Seq<Seq<char>>,
)
    decreases n,
{
    if n <= 0 {
        (None, Seq::empty(), Seq::empty())
    } else {
        let (p, sec, rs) = classify_upto(e, n - 1);
        let (cat, conf, reason) = spec_rule(n - 1);
        if !rule_matches(n - 1, e) {
            (p, sec, rs)
        } else {
            match p {
                None => (Some((cat, conf)), sec, rs.push(reason@)),
                Some((c, k)) => if c == cat {
                    (Some((c, spec_bump(k))), sec, rs.push(reason@))
                } else if sec.contains(cat) {
                    (p, sec, rs)
                } else {
                    (p, sec.push(cat), rs)
                },
            }
        }
    }
}

/// What `classify` returns for `e`: (category, secondary categories,
/// confidence, reasons).
pub open spec fn spec_classify(e: Evidence) -> (
    SoftwareCategory,
    Seq<SoftwareCategory>,
    ClassificationConfidence,
    Seq<Seq<char>>,
) {
    let (p, sec, rs) = classify_upto(e, RULE_COUNT as int);
    match p {
        Some((c, k)) => (c, sec, k, rs),
        None => (SoftwareCategory::Unclassified, Seq::empty(), ClassificationConfidence::Unknown, Seq::empty()),
    }
}

/// Evaluates rule `i` against the evidence; `name` is the ASCII-lowered package name.
fn rule_matches_exec(i: usize, e: &Evidence, name: &Vec<char>) -> (b: bool)
    requires
        i < RULE_COUNT,
        name@ == name_lower(*e),
    ensures
        b == rule_matches(i as int, *e),
{
    if i <= 8 {
        match &e.debian_section {
            None => false,
            Some(s) => {
                let v = chars_of(s.as_str());
                let n = v.len();
                proof {
                    assert(v@.subrange(0, n as int) =~= s@);
                }
                if i == 0 {
                    range_eq_ignore_ascii_case(&v, 0, n, "fonts")
                } else if i == 1 {
                    range_eq_ignore_ascii_case(&v, 0, n, "libs")
                } else if i == 2 {
                    range_eq_ignore_ascii_case(&v, 0, n, "libdevel")
                } else if i == 3 {
                    range_eq_ignore_ascii_case(&v, 0, n, "devel")
                } else if i == 4 {
                    range_eq_ignore_ascii_case(&v, 0, n, "doc")
                } else if i == 5 {
                    range_eq_ignore_ascii_case(&v, 0, n, "kernel")
                } else if i == 6 {
                    range_eq_ignore_ascii_case(&v, 0, n, "localization")
                } else if i == 7 {
                    range_eq_ignore_ascii_case(&v, 0, n, "interpreters")
                } else {
                    range_eq_ignore_ascii_case(&v, 0, n, "misc") || range_eq_ignore_ascii_case(
                        &v,
                        0,
                        n,
                        "metapackages",
                    )
                }
            },
        }
    } else if i == 9 {
        e.owns_firmware_files
    } else if i == 10 {
        e.owns_kernel_module_files
    } else if i == 11 {
        e.owns_systemd_unit_files
    } else if i == 12 {
        e.owns_gtk_theme_files
    } else if i == 13 {
        e.owns_icon_theme_files
    } else if i == 14 {
        e.has_desktop_launcher && desktop_categories_contains_any(e, "settings", "system")
    } else if i == 15 {
        e.has_desktop_launcher
    } else if i == 16 {
        e.owns_header_files
    } else if i == 17 {
        e.owns_pkgconfig_files
    } else if i == 18 {
        e.owns_shared_libraries
    } else if i == 19 {
        name_ends_with(name, "-dev")
    } else if i == 20 {
        name_ends_with(name, "-doc")
    } else if i == 21 {
        name_contains(name, "language-pack")
    } else if i == 22 {
        e.documentation_only
    } else if i == 23 {
        e.has_executables && !e.has_desktop_launcher
    } else {
        name_ends_with(name, "-dkms") || name_contains(name, "driver")
    }
}

fn name_ends_with(name: &Vec<char>, suffix: &str) -> (b: bool)
    ensures
        b == ends_with(name@, suffix@),
{
    let p = chars_of(suffix);
    proof {
        assert(name@.subrange(0, name@.len() as int) =~= name@);
    }
    ends_with_exec(name, 0, name.len(), &p)
}

fn name_contains(name: &Vec<char>, needle: &str) -> (b: bool)
    ensures
        b == contains_seq(name@, needle@),
{
    let p = chars_of(needle);
    proof {
        assert(name@.subrange(0, name@.len() as int) =~= name@);
    }
    contains_in(name, 0, name.len(), &p)
}

fn desktop_categories_contains_any(e: &Evidence, a: &str, b: &str) -> (r: bool)
    ensures
        r == desktop_category_in(*e, a, b),
{
    let mut j: usize = 0;
    while j < e.desktop_categories.len()
        invariant
            0 <= j <= e.desktop_categories@.len(),
            forall|k: int|
                0 <= k < j ==> !(eq_ignore_ascii_case(#[trigger] e.desktop_categories@[k]@, a@)
                    || eq_ignore_ascii_case(e.desktop_categories@[k]@, b@)),
        decreases e.desktop_categories@.len() - j,
    {
        let v = chars_of(e.desktop_categories[j].as_str());
        let n = v.len();
        proof {
            assert(v@.subrange(0, n as int) =~= e.desktop_categories@[j as int]@);
        }
        if range_eq_ignore_ascii_case(&v, 0, n, a) || range_eq_ignore_ascii_case(&v, 0, n, b) {
            return true;
        }
        j += 1;
    }
    false
}

fn contains_category(v: &Vec<SoftwareCategory>, c: SoftwareCategory) -> (b: bool)
    ensures
        b == v@.contains(c),
{
    let mut i: usize = 0;
    while i < v.len()
        invariant
            0 <= i <= v@.len(),
            forall|k: int| 0 <= k < i ==> v@[k] != c,
        decreases v@.len() - i,
    {
        if v[i] == c {
            assert(v@[i as int] == c);
            return true;
        }
        i += 1;
    }
    false
}

/// Classifies a single item's evidence. Never fails: evidence no rule
/// matches yields `Unclassified` with `Unknown` confidence and no reasons.
pub fn classify(evidence: &Evidence) -> (r: ClassificationResult)
    ensures
        ({
            let (cat, sec, conf, rs) = spec_classify(*evidence);
            &&& r.category == cat
            &&& r.secondary_categories@ == sec
            &&& r.confidence == conf
            &&& r.reasons@.len() == rs.len()
            &&& forall|i: int| 0 <= i < rs.len() ==> #[trigger] r.reasons@[i]@ == rs[i]
        }),
{
    let lowered = chars_of(evidence.package_name.as_str());
    let name = ascii_lowercase_range(&lowered, 0, lowered.len());
    proof {
        assert(lowered@.subrange(0, lowered@.len() as int) =~= evidence.package_name@);
    }
    let mut primary: Option<(SoftwareCategory, ClassificationConfidence)> = None;
    let mut secondary: Vec<SoftwareCategory> = Vec::new();
    let mut reasons: Vec<String> = Vec::new();
    let mut i: usize = 0;
    while i < RULE_COUNT
        invariant
            0 <= i <= RULE_COUNT,
            name@ == name_lower(*evidence),
            ({
                let (p, sec, rs) = classify_upto(*evidence, i as int);
                &&& primary == p
                &&& secondary@ == sec
                &&& reasons@.len() == rs.len()
                &&& forall|k: int| 0 <= k < rs.len() ==> #[trigger] reasons@[k]@ == rs[k]
            }),
        decreases RULE_COUNT - i,
    {
        let r = rule(i);
        if rule_matches_exec(i, evidence, &name) {
            match primary {
                None => {
                    primary = Some((r.category, r.confidence));
                    reasons.push(r.reason.to_owned());
                },
                Some((category, confidence)) => {
                    if category == r.category {
                        reasons.push(r.reason.to_owned());
                        primary = Some((category, bump_confidence(confidence)));
                    } else if !contains_category(&secondary, r.category) {
                        secondary.push(r.category);
                    }
                },
            }
        }
        i += 1;
    }
    match primary {
        Some((category, confidence)) => ClassificationResult {
            category,
            secondary_categories: secondary,
            confidence,
            reasons,
        },
        None => ClassificationResult::default(),
    }
}

// ---------------------------------------------------------------------------
// Laws of the classification engine
/// No rule table entry assigns `Unclassified`, nor `Unknown` confidence.
pub proof fn law_no_rule_gives_unclassified(i: int)
    ensures
        spec_rule(i).0 != SoftwareCategory::Unclassified,
        spec_rule(i).1 != ClassificationConfidence::Unknown,
{
}

/// Invariants of the partial classification after any prefix of the table.
pub proof fn lemma_classify_upto_shape(e: Evidence, n: int)
    ensures
        ({
            let (p, sec, rs) = classify_upto(e, n);
            &&& p is None <==> (forall|j: int| 0 <= j < n ==> !rule_matches(j, e))
            &&& p is None ==> sec.len() == 0 && rs.len() == 0
            &&& p matches Some(pc) ==> {
                &&& rs.len() >= 1
                &&& !sec.contains(pc.0)
                &&& pc.0 != SoftwareCategory::Unclassified
                &&& pc.1.spec_rank() >= spec_rule(first_match(e, n)).1.spec_rank()
                &&& pc.0 == spec_rule(first_match(e, n)).0
            }
            &&& forall|a: int, b: int| 0 <= a < b < sec.len() ==> sec[a] != sec[b]
        }),
    decreases n,
{
    if n > 0 {
        lemma_classify_upto_shape(e, n - 1);
        lemma_first_match_step(e, n);
        let (p, sec, rs) = classify_upto(e, n - 1);
        let (cat, conf, reason) = spec_rule(n - 1);
        if rule_matches(n - 1, e) {
            match p {
                None => {},
                Some((c, k)) => {
                    if c != cat && !sec.contains(cat) {
                        let s2 = sec.push(cat);
                        assert forall|a: int, b: int| 0 <= a < b < s2.len() implies s2[a]
                            != s2[b] by {
                            if b == s2.len() - 1 {
                                assert(sec[a] == s2[a]);
                            }
                        }
                        assert(!s2.contains(c)) by {
                            if s2.contains(c) {
                                let w = choose|w: int| 0 <= w < s2.len() && s2[w] == c;
                                if w < sec.len() {
                                    assert(sec[w] == c);
                                }
                            }
                        }
                    }
                },
            }
        }
    }
}

/// The index of the first rule among the first `n` that matches (or `n`).
pub open spec fn first_match(e: Evidence, n: int) -> int
    decreases n,
{
    if n <= 0 {
        0
    } else if first_match(e, n - 1) < n - 1 {
        first_match(e, n - 1)
    } else if rule_matches(n - 1, e) {
        n - 1
    } else {
        n
    }
}

proof fn lemma_first_match_step(e: Evidence, n: int)
    requires
        n > 0,
    ensures
        (forall|j: int| 0 <= j < n - 1 ==> !rule_matches(j, e)) ==> first_match(e, n - 1) == n
            - 1,
        (exists|j: int| 0 <= j < n - 1 && rule_matches(j, e)) ==> first_match(e, n - 1) < n - 1
            && rule_matches(first_match(e, n - 1), e),
    decreases n,
{
    if n > 1 {
        lemma_first_match_step(e, n - 1);
        if exists|j: int| 0 <= j < n - 1 && rule_matches(j, e) {
            if exists|j: int| 0 <= j < n - 2 && rule_matches(j, e) {
            } else {
                assert(rule_matches(n - 2, e));
            }
        }
    }
}

/// Law: evidence that matches no rule is `Unclassified` with `Unknown`
/// confidence, no secondary categories and no reasons; evidence that
/// matches some rule gets a real category and at least one reason.
pub proof fn law_unmatched_evidence_is_unclassified(e: Evidence)
    ensures
        (forall|j: int| 0 <= j < RULE_COUNT ==> !rule_matches(j, e)) ==> spec_classify(e) == (
            SoftwareCategory::Unclassified,
            Seq::<SoftwareCategory>::empty(),
            ClassificationConfidence::Unknown,
            Seq::<Seq<char>>::empty(),
        ),
        (exists|j: int| 0 <= j < RULE_COUNT && rule_matches(j, e)) ==> {
            &&& spec_classify(e).0 != SoftwareCategory::Unclassified
            &&& spec_classify(e).3.len() >= 1
            &&& spec_classify(e).2 != ClassificationConfidence::Unknown
        },
        (spec_classify(e).0 == SoftwareCategory::Unclassified) == (spec_classify(e).3.len() == 0),
        (spec_classify(e).3.len() == 0) == (spec_classify(e).2 == ClassificationConfidence::Unknown),
        spec_classify(e).3.len() == 0 ==> spec_classify(e).1.len() == 0,
{
    lemma_classify_upto_shape(e, RULE_COUNT as int);
    if exists|j: int| 0 <= j < RULE_COUNT && rule_matches(j, e) {
        let j = choose|j: int| 0 <= j < RULE_COUNT && rule_matches(j, e);
        assert(!(forall|k: int| 0 <= k < RULE_COUNT ==> !rule_matches(k, e)));
        law_no_rule_gives_unclassified(first_match(e, RULE_COUNT as int));
    } else {
        assert(forall|k: int| 0 <= k < RULE_COUNT ==> !rule_matches(k, e));
    }
}

/// Law: the primary category never also appears as a secondary category,
/// and secondary categories never repeat.
pub proof fn law_secondary_categories_are_distinct(e: Evidence)
    ensures
        !spec_classify(e).1.contains(spec_classify(e).0),
        forall|a: int, b: int|
            0 <= a < b < spec_classify(e).1.len() ==> spec_classify(e).1[a] != spec_classify(e).1[b],
{
    lemma_classify_upto_shape(e, RULE_COUNT as int);
}

/// Law: the first matching rule sets the primary category, and the final
/// confidence is never below that rule's own confidence (corroboration
/// only ever raises it).
pub proof fn law_first_matching_rule_decides(e: Evidence, j: int)
    requires
        0 <= j < RULE_COUNT,
        rule_matches(j, e),
        forall|k: int| 0 <= k < j ==> !rule_matches(k, e),
    ensures
        spec_classify(e).0 == spec_rule(j).0,
        spec_classify(e).2.spec_rank() >= spec_rule(j).1.spec_rank(),
{
    lemma_classify_upto_shape(e, RULE_COUNT as int);
    lemma_first_match_is(e, RULE_COUNT as int, j);
}

proof fn lemma_first_match_is(e: Evidence, n: int, j: int)
    requires
        0 <= j < n,
        rule_matches(j, e),
        forall|k: int| 0 <= k < j ==> !rule_matches(k, e),
    ensures
        first_match(e, n) == j,
    decreases n,
{
    if n - 1 > j {
        lemma_first_match_is(e, n - 1, j);
    } else {
        lemma_first_match_step(e, n);
    }
}

/// Two pieces of evidence that say the same thing up to ASCII case in the
/// package name, the Debian section and the desktop categories.
pub open spec fn same_up_to_ascii_case(a: Evidence, b: Evidence) -> bool {
    &&& ascii_lowercase(a.package_name@) == ascii_lowercase(b.package_name@)
    &&& match (a.debian_section, b.debian_section) {
        (Some(x), Some(y)) => ascii_lowercase(x@) == ascii_lowercase(y@),
        (None, None) => true,
        _ => false,
    }
    &&& a.desktop_categories@.len() == b.desktop_categories@.len()
    &&& forall|j: int|
        0 <= j < a.desktop_categories@.len() ==> ascii_lowercase(#[trigger] a.desktop_categories@[j]@)
            == ascii_lowercase(b.desktop_categories@[j]@)
    &&& a.has_desktop_launcher == b.has_desktop_launcher
    &&& a.has_executables == b.has_executables
    &&& a.owns_shared_libraries == b.owns_shared_libraries
    &&& a.owns_header_files == b.owns_header_files
    &&& a.owns_pkgconfig_files == b.owns_pkgconfig_files
    &&& a.owns_font_files == b.owns_font_files
    &&& a.owns_firmware_files == b.owns_firmware_files
    &&& a.owns_kernel_module_files == b.owns_kernel_module_files
    &&& a.owns_systemd_unit_files == b.owns_systemd_unit_files
    &&& a.owns_gtk_theme_files == b.owns_gtk_theme_files
    &&& a.owns_icon_theme_files == b.owns_icon_theme_files
    &&& a.documentation_only == b.documentation_only
}

proof fn lemma_classify_upto_case(a: Evidence, b: Evidence, n: int)
    requires
        same_up_to_ascii_case(a, b),
    ensures
        classify_upto(a, n) == classify_upto(b, n),
    decreases n,
{
    if n > 0 {
        lemma_classify_upto_case(a, b, n - 1);
        assert forall|x: &str, y: &str| desktop_category_in(a, x, y) == desktop_category_in(b, x, y) by {
            if desktop_category_in(a, x, y) {
                let j = choose|j: int|
                    0 <= j < a.desktop_categories@.len() && (eq_ignore_ascii_case(
                        #[trigger] a.desktop_categories@[j]@,
                        x@,
                    ) || eq_ignore_ascii_case(a.desktop_categories@[j]@, y@));
                assert(ascii_lowercase(a.desktop_categories@[j]@) == ascii_lowercase(b.desktop_categories@[j]@));
            }
            if desktop_category_in(b, x, y) {
                let j = choose|j: int|
                    0 <= j < b.desktop_categories@.len() && (eq_ignore_ascii_case(
                        #[trigger] b.desktop_categories@[j]@,
                        x@,
                    ) || eq_ignore_ascii_case(b.desktop_categories@[j]@, y@));
                assert(ascii_lowercase(a.desktop_categories@[j]@) == ascii_lowercase(b.desktop_categories@[j]@));
            }
        }
        assert forall|x: &str| section_is(a, x) == section_is(b, x) by {}
        assert(name_lower(a) == name_lower(b));
        assert(rule_matches(n - 1, a) == rule_matches(n - 1, b));
    }
}

/// Classification ignores ASCII case: evidence that differs only in the
/// case of its package name, Debian section or desktop categories (such as
/// the section `FONTS` for `fonts`) is classified the same.
pub proof fn law_classification_ignores_ascii_case(a: Evidence, b: Evidence)
    requires
        same_up_to_ascii_case(a, b),
    ensures
        spec_classify(a) == spec_classify(b),
{
    lemma_classify_upto_case(a, b, RULE_COUNT as int);
}

/// Two pieces of evidence that say the same thing: equal texts and flags.
pub open spec fn same_evidence(a: Evidence, b: Evidence) -> bool {
    &&& a.package_name@ == b.package_name@
    &&& crate::text::opt_view(a.debian_section) == crate::text::opt_view(b.debian_section)
    &&& crate::text::strs_view(a.desktop_categories@) == crate::text::strs_view(b.desktop_categories@)
    &&& a.has_desktop_launcher == b.has_desktop_launcher
    &&& a.has_executables == b.has_executables
    &&& a.owns_shared_libraries == b.owns_shared_libraries
    &&& a.owns_header_files == b.owns_header_files
    &&& a.owns_pkgconfig_files == b.owns_pkgconfig_files
    &&& a.owns_font_files == b.owns_font_files
    &&& a.owns_firmware_files == b.owns_firmware_files
    &&& a.owns_kernel_module_files == b.owns_kernel_module_files
    &&& a.owns_systemd_unit_files == b.owns_systemd_unit_files
    &&& a.owns_gtk_theme_files == b.owns_gtk_theme_files
    &&& a.owns_icon_theme_files == b.owns_icon_theme_files
    &&& a.documentation_only == b.documentation_only
}

/// Classification depends on what the evidence says, not on how it is held.
pub proof fn lemma_classify_same(a: Evidence, b: Evidence)
    requires
        same_evidence(a, b),
    ensures
        spec_classify(a) == spec_classify(b),
{
    lemma_classify_upto_same(a, b, RULE_COUNT as int);
}

proof fn lemma_classify_upto_same(a: Evidence, b: Evidence, n: int)
    requires
        same_evidence(a, b),
    ensures
        classify_upto(a, n) == classify_upto(b, n),
    decreases n,
{
    if n > 0 {
        lemma_classify_upto_same(a, b, n - 1);
        assert(a.desktop_categories@.len() == b.desktop_categories@.len()) by {
            assert(crate::text::strs_view(a.desktop_categories@).len() == a.desktop_categories@.len());
            assert(crate::text::strs_view(b.desktop_categories@).len() == b.desktop_categories@.len());
        }
        assert forall|j: int| 0 <= j < a.desktop_categories@.len() implies a.desktop_categories@[j]@
            == b.desktop_categories@[j]@ by {
            assert(crate::text::strs_view(a.desktop_categories@)[j] == a.desktop_categories@[j]@);
            assert(crate::text::strs_view(b.desktop_categories@)[j] == b.desktop_categories@[j]@);
        }
        assert forall|x: &str, y: &str| desktop_category_in(a, x, y) == desktop_category_in(b, x, y) by {
            if desktop_category_in(a, x, y) {
                let j = choose|j: int|
                    0 <= j < a.desktop_categories@.len() && (eq_ignore_ascii_case(
                        #[trigger] a.desktop_categories@[j]@,
                        x@,
                    ) || eq_ignore_ascii_case(a.desktop_categories@[j]@, y@));
                assert(b.desktop_categories@[j]@ == a.desktop_categories@[j]@);
            }
            if desktop_category_in(b, x, y) {
                let j = choose|j: int|
                    0 <= j < b.desktop_categories@.len() && (eq_ignore_ascii_case(
                        #[trigger] b.desktop_categories@[j]@,
                        x@,
                    ) || eq_ignore_ascii_case(b.desktop_categories@[j]@, y@));
                assert(b.desktop_categories@[j]@ == a.desktop_categories@[j]@);
            }
        }
        assert(rule_matches(n - 1, a) == rule_matches(n - 1, b));
    }
}

/// Law: a launcher filed under the desktop category "System" or "Settings"
/// (in any ASCII case) is a desktop component, unless stronger evidence
/// (a Debian section, firmware, kernel modules, systemd units, a GTK theme or
/// an icon theme) decides first.
pub proof fn law_system_launchers_are_desktop_components(e: Evidence, j: int)
    requires
        e.has_desktop_launcher,
        0 <= j < e.desktop_categories@.len(),
        eq_ignore_ascii_case(e.desktop_categories@[j]@, "System"@) || eq_ignore_ascii_case(
            e.desktop_categories@[j]@,
            "Settings"@,
        ),
        e.debian_section is None,
        !e.owns_firmware_files,
        !e.owns_kernel_module_files,
        !e.owns_systemd_unit_files,
        !e.owns_gtk_theme_files,
        !e.owns_icon_theme_files,
    ensures
        spec_classify(e).0 == SoftwareCategory::DesktopComponent,
{
    reveal_strlit("System");
    reveal_strlit("Settings");
    reveal_strlit("system");
    reveal_strlit("settings");
    assert(ascii_lowercase("System"@) =~= ascii_lowercase("system"@));
    assert(ascii_lowercase("Settings"@) =~= ascii_lowercase("settings"@));
    assert(desktop_category_in(e, "settings", "system"));
    assert(rule_matches(14, e));
    law_first_matching_rule_decides(e, 14);
}

} // verus!
