//! The AppImage provider: files in a few known directories that carry an
//! AppImage's name or signature. Detection reads only metadata and the
//! first bytes of a file; an AppImage is never run.
use vstd::prelude::*;

use crate::domain::{
    ClassificationConfidence, InstallationReason, InstallationScope, PackageManager,
    SoftwareCategory, SoftwareItem, SoftwareItemView, SoftwareRiskLevel,
};
use crate::providers::manual::path_extension_is_appimage;
use crate::providers::{
    extension_of, file_name_of, join_path, path_extension, path_file_name, path_joined,
    ProviderId, ProviderMetadata,
};
use crate::text::{
    ascii_lowercase, ascii_lowercase_range, chars_of, contains_in, contains_seq, ends_with,
    ends_with_exec, is_digit, joined, lines, line_ranges, push_joined, push_str,
    range_eq_ignore_ascii_case, starts_with, starts_with_exec, str_eq, string_of, strs_view,
    token_ranges, tokens, trim, trim_range, CharClass,
};

verus! {

/// How many bytes are read to look for the signature.
pub const SIGNATURE_BYTES: usize = 16;

/// Where the AppImage type marker `AI` starts.
pub const APPIMAGE_MAGIC_OFFSET: usize = 8;

/// Finds AppImages under the home directory and a few system directories.
pub struct AppImageProvider {
    /// The home directory to use in place of the user's.
    pub home_override: Option<String>,
}

impl AppImageProvider {
    pub fn new() -> (p: Self)
        ensures
            p.home_override is None,
    {
        AppImageProvider { home_override: None }
    }

    /// A provider that takes `home` as the home directory.
    pub fn with_home(home: &str) -> (p: Self)
        ensures
            p.home_override matches Some(h) && h@ == home@,
    {
        AppImageProvider { home_override: Some(home.to_owned()) }
    }

    pub fn id(&self) -> (id: ProviderId)
        ensures
            id.spec_str() == "appimage"@,
    {
        ProviderId::new("appimage")
    }

    pub fn metadata(&self) -> (m: ProviderMetadata)
        ensures
            m.id.spec_str() == "appimage"@,
            m.display_name@ == "AppImage"@,
            m.description@ == "AppImage files discovered in known locations, never executed."@,
    {
        ProviderMetadata {
            id: ProviderId::new("appimage"),
            display_name: "AppImage",
            description: "AppImage files discovered in known locations, never executed.",
        }
    }

    /// Looking at files needs no outside tool: always available.
    pub fn is_available(&self) -> (b: bool)
        ensures
            b,
    {
        true
    }
}

impl Default for AppImageProvider {
    fn default() -> (p: Self)
        ensures
            p.home_override is None,
    {
        AppImageProvider::new()
    }
}

// ---------------------------------------------------------------------------
// Where to look

/// The directories scanned (each at its top level only): `Applications`,
/// `.local/bin` and `Downloads` under the home directory when there is one,
/// then `/opt` and `/usr/local/bin`.
pub open spec fn spec_scan_roots(home: Option<Seq<char>>) -> Seq<(Seq<char>, InstallationScope)> {
    let system = seq![("/opt"@, InstallationScope::System), ("/usr/local/bin"@, InstallationScope::System)];
    match home {
        Some(h) => seq![
            (path_joined(h, "Applications"@), InstallationScope::User),
            (path_joined(h, ".local/bin"@), InstallationScope::User),
            (path_joined(h, "Downloads"@), InstallationScope::User),
        ] + system,
        None => system,
    }
}

pub open spec fn roots_view(s: Seq<(String, InstallationScope)>) -> Seq<(Seq<char>, InstallationScope)> {
    s.map_values(|p: (String, InstallationScope)| (p.0@, p.1))
}

/// The directories to scan, given the home directory.
pub fn scan_roots(home: Option<&str>) -> (roots: Vec<(String, InstallationScope)>)
    ensures
        roots_view(roots@) == spec_scan_roots(match home {
            Some(h) => Some(h@),
            None => None,
        }),
{
    let mut roots: Vec<(String, InstallationScope)> = Vec::new();
    match home {
        Some(h) => {
            roots.push((join_path(h, "Applications"), InstallationScope::User));
            roots.push((join_path(h, ".local/bin"), InstallationScope::User));
            roots.push((join_path(h, "Downloads"), InstallationScope::User));
        },
        None => {},
    }
    roots.push(("/opt".to_owned(), InstallationScope::System));
    roots.push(("/usr/local/bin".to_owned(), InstallationScope::System));
    proof {
        let want = spec_scan_roots(match home {
            Some(h) => Some(h@),
            None => None,
        });
        assert(roots_view(roots@) =~= want);
    }
    roots
}

/// Where desktop integration tools put the launchers they write.
pub fn integration_dir(home: Option<&str>) -> (d: Option<String>)
    ensures
        home is None ==> d is None,
        home matches Some(h) ==> d matches Some(x) && x@ == path_joined(h@, ".local/share/applications"@),
{
    match home {
        Some(h) => Some(join_path(h, ".local/share/applications")),
        None => None,
    }
}

// ---------------------------------------------------------------------------
// Detection

/// The first bytes of a file are an ELF header carrying the AppImage type
/// 1 or 2 marker (`AI` then the type byte, at offset 8). Fewer than eleven
/// bytes never match.
pub open spec fn spec_signature_matches(buf: Seq<u8>, read: int) -> bool {
    &&& read >= 11
    &&& buf[0] == 0x7f && buf[1] == 0x45 && buf[2] == 0x4c && buf[3] == 0x46
    &&& buf[8] == 0x41 && buf[9] == 0x49
    &&& (buf[10] == 1 || buf[10] == 2)
}

/// Whether the `read` bytes at the start of `buf` carry the AppImage signature.
pub fn signature_matches(buf: &Vec<u8>, read: usize) -> (b: bool)
    requires
        read <= buf@.len(),
    ensures
        b == spec_signature_matches(buf@, read as int),
{
    if read < APPIMAGE_MAGIC_OFFSET + 3 {
        return false;
    }
    let is_elf = buf[0] == 0x7f && buf[1] == 0x45 && buf[2] == 0x4c && buf[3] == 0x46;
    let marker = buf[8] == 0x41 && buf[9] == 0x49;
    let kind = buf[10];
    is_elf && marker && (kind == 1 || kind == 2)
}

/// Whether a file's name ends in `.AppImage`, in any ASCII case.
pub fn has_appimage_extension(path: &str) -> (b: bool)
    ensures
        b == path_extension_is_appimage(path@),
{
    match extension_of(path) {
        Some(ext) => {
            let v = chars_of(ext.as_str());
            proof {
                assert(v@.subrange(0, v@.len() as int) =~= v@);
            }
            range_eq_ignore_ascii_case(&v, 0, v.len(), "AppImage")
        },
        None => false,
    }
}

/// The signature is only read when the name or the executable bit already
/// suggests an AppImage.
pub fn should_read_signature(has_extension: bool, executable: bool) -> (b: bool)
    ensures
        b == (has_extension || executable),
{
    has_extension || executable
}

/// A file is a candidate with the `.AppImage` extension, or when it is
/// executable and carries the signature: the executable bit alone is never enough.
pub fn is_candidate(has_extension: bool, executable: bool, signature: bool) -> (b: bool)
    ensures
        b == (has_extension || (executable && signature)),
{
    has_extension || (executable && signature)
}

/// A file found to be an AppImage, with what was learned about it.
#[derive(Debug, Clone)]
pub struct Candidate {
    pub path: String,
    pub size_bytes: u64,
    /// Last modification, in ms since the epoch.
    pub modified_at: Option<i64>,
    pub executable: bool,
    pub signature_confirmed: bool,
    pub has_appimage_extension: bool,
}

// ---------------------------------------------------------------------------
// Display names

pub open spec fn is_sep(c: char) -> bool {
    c == '-' || c == '_'
}

/// Where the last `-` or `_` of `s` is.
pub open spec fn last_sep(s: Seq<char>) -> Option<int>
    decreases s.len(),
{
    if s.len() == 0 {
        None
    } else if is_sep(s.last()) {
        Some(s.len() - 1)
    } else {
        last_sep(s.drop_last())
    }
}

proof fn lemma_last_sep(s: Seq<char>)
    ensures
        last_sep(s) matches Some(i) ==> 0 <= i < s.len() && is_sep(s[i]) && forall|j: int| i < j < s.len() ==> !is_sep(#[trigger] s[j]),
        last_sep(s) is None ==> forall|j: int| 0 <= j < s.len() ==> !is_sep(#[trigger] s[j]),
    decreases s.len(),
{
    if s.len() > 0 && !is_sep(s.last()) {
        lemma_last_sep(s.drop_last());
        assert forall|j: int| 0 <= j < s.len() - 1 implies s.drop_last()[j] == s[j] by {}
    }
}

pub open spec fn arch_suffixes() -> Seq<Seq<char>> {
    seq!["x86_64"@, "x86"@, "amd64"@, "aarch64"@, "arm64"@, "i386"@, "i686"@]
}

/// `seg` without one leading `v` or `V`.
pub open spec fn version_part(seg: Seq<char>) -> Seq<char> {
    if seg.len() > 0 && (seg[0] == 'v' || seg[0] == 'V') {
        seg.subrange(1, seg.len() as int)
    } else {
        seg
    }
}

/// A digit, then only digits and dots.
pub open spec fn is_version_number(d: Seq<char>) -> bool {
    &&& d.len() > 0
    &&& is_digit(d[0])
    &&& forall|i: int| 0 <= i < d.len() ==> is_digit(#[trigger] d[i]) || d[i] == '.'
}

/// A trailing name segment that is an architecture (`x86_64`, `arm64`, ...,
/// in any ASCII case) or a version: an optional `v`, then a digit, then
/// only digits and dots.
pub open spec fn looks_like_version_or_arch(seg: Seq<char>) -> bool {
    &&& seg.len() > 0
    &&& (arch_suffixes().contains(ascii_lowercase(seg)) || is_version_number(version_part(seg)))
}

/// `stem` with trailing `-`/`_` segments that look like versions or
/// architectures cut off, one at a time, never down to nothing.
pub open spec fn trim_version_or_arch(stem: Seq<char>) -> Seq<char>
    decreases stem.len(),
{
    match last_sep(stem) {
        Some(i) => if 0 < i < stem.len() && looks_like_version_or_arch(stem.subrange(i + 1, stem.len() as int)) {
            trim_version_or_arch(stem.subrange(0, i))
        } else {
            stem
        },
        None => stem,
    }
}

pub open spec fn dash_to_space(c: char) -> char {
    if is_sep(c) {
        ' '
    } else {
        c
    }
}

/// The name without an `.AppImage` / `.appimage` ending.
pub open spec fn without_appimage_suffix(f: Seq<char>) -> Seq<char> {
    if ends_with(f, ".AppImage"@) || ends_with(f, ".appimage"@) {
        f.subrange(0, f.len() - 9)
    } else {
        f
    }
}

/// A readable name for an AppImage file: the extension, trailing versions
/// and architectures removed, `-` and `_` read as spaces and runs of
/// whitespace collapsed; the file name itself when nothing is left.
pub open spec fn spec_display_name(f: Seq<char>) -> Seq<char> {
    let cleaned = trim_version_or_arch(without_appimage_suffix(f));
    let toks = tokens(cleaned.map_values(|c: char| dash_to_space(c)));
    if toks.len() == 0 {
        f
    } else {
        joined(toks, " "@)
    }
}

fn last_sep_exec(v: &Vec<char>, end: usize) -> (r: Option<usize>)
    requires
        end <= v@.len(),
    ensures
        last_sep(v@.subrange(0, end as int)) == match r {
            Some(i) => Some(i as int),
            None => None::<int>,
        },
{
    let mut k = end;
    while k > 0
        invariant
            k <= end <= v@.len(),
            last_sep(v@.subrange(0, end as int)) == last_sep(v@.subrange(0, k as int)),
        decreases k,
    {
        let c = v[k - 1];
        proof {
            assert(v@.subrange(0, k as int).drop_last() =~= v@.subrange(0, k - 1));
            assert(v@.subrange(0, k as int).last() == c);
        }
        if c == '-' || c == '_' {
            return Some(k - 1);
        }
        k -= 1;
    }
    None
}

fn is_ascii_digit_char(c: char) -> (b: bool)
    ensures
        b == is_digit(c),
{
    '0' <= c && c <= '9'
}

fn looks_like_version_or_arch_exec(v: &Vec<char>, lo: usize, hi: usize) -> (b: bool)
    requires
        lo <= hi <= v@.len(),
    ensures
        b == looks_like_version_or_arch(v@.subrange(lo as int, hi as int)),
{
    let ghost seg = v@.subrange(lo as int, hi as int);
    if lo == hi {
        return false;
    }
    let lower = ascii_lowercase_range(v, lo, hi);
    let arches = ["x86_64", "x86", "amd64", "aarch64", "arm64", "i386", "i686"];
    let mut is_arch = false;
    let mut j: usize = 0;
    proof {
        reveal_strlit("x86_64");
        reveal_strlit("x86");
        reveal_strlit("amd64");
        reveal_strlit("aarch64");
        reveal_strlit("arm64");
        reveal_strlit("i386");
        reveal_strlit("i686");
        assert(arches@.map_values(|s: &str| s@) =~= arch_suffixes());
    }
    while j < 7
        invariant
            0 <= j <= 7,
            arches@.len() == 7,
            arches@.map_values(|s: &str| s@) == arch_suffixes(),
            lower@ == ascii_lowercase(seg),
            is_arch <==> exists|k: int| 0 <= k < j && arch_suffixes()[k] == lower@,
        decreases 7 - j,
    {
        let lv = crate::text::string_of_all(&lower);
        if str_eq(lv.as_str(), arches[j]) {
            proof {
                assert(arch_suffixes()[j as int] == arches@[j as int]@);
            }
            is_arch = true;
        } else {
            proof {
                assert(arch_suffixes()[j as int] == arches@[j as int]@);
            }
        }
        j += 1;
    }
    proof {
        if is_arch {
            let k = choose|k: int| 0 <= k < 7 && arch_suffixes()[k] == lower@;
            assert(arch_suffixes().contains(ascii_lowercase(seg)));
        } else {
            assert(!arch_suffixes().contains(ascii_lowercase(seg))) by {
                if arch_suffixes().contains(ascii_lowercase(seg)) {
                    let k = choose|k: int| 0 <= k < arch_suffixes().len() && arch_suffixes()[k] == ascii_lowercase(seg);
                    assert(arch_suffixes()[k] == lower@);
                }
            }
        }
    }
    if is_arch {
        return true;
    }
    let start = if v[lo] == 'v' || v[lo] == 'V' {
        lo + 1
    } else {
        lo
    };
    let ghost d = v@.subrange(start as int, hi as int);
    proof {
        assert(seg[0] == v@[lo as int]);
        if v[lo as int] == 'v' || v[lo as int] == 'V' {
            assert(seg.subrange(1, seg.len() as int) =~= d);
        } else {
            assert(seg =~= d);
        }
    }
    if start == hi {
        return false;
    }
    proof {
        assert(d.len() > 0 ==> d[0] == v@[start as int]);
    }
    if !is_ascii_digit_char(v[start]) {
        proof {
            assert(!is_digit(d[0]));
        }
        return false;
    }
    let mut i = start;
    while i < hi
        invariant
            lo <= start <= i <= hi <= v@.len(),
            lo < hi,
            d == v@.subrange(start as int, hi as int),
            seg == v@.subrange(lo as int, hi as int),
            !arch_suffixes().contains(ascii_lowercase(seg)),
            d == version_part(seg),
            d.len() > 0 && is_digit(d[0]),
            forall|k: int| 0 <= k < i - start ==> is_digit(#[trigger] d[k]) || d[k] == '.',
        decreases hi - i,
    {
        let c = v[i];
        proof {
            assert(d[i - start] == c);
        }
        if !(is_ascii_digit_char(c) || c == '.') {
            proof {
                assert(!(is_digit(d[i - start]) || d[i - start] == '.'));
            }
            return false;
        }
        i += 1;
    }
    proof {
        assert(d[0] == v@[start as int]);
    }
    true
}

fn trim_version_or_arch_exec(v: &Vec<char>, end: usize) -> (r: usize)
    requires
        end <= v@.len(),
    ensures
        r <= end,
        trim_version_or_arch(v@.subrange(0, end as int)) == v@.subrange(0, r as int),
{
    let mut e = end;
    loop
        invariant
            e <= end <= v@.len(),
            trim_version_or_arch(v@.subrange(0, end as int)) == trim_version_or_arch(v@.subrange(0, e as int)),
        decreases e,
    {
        let ghost cur = v@.subrange(0, e as int);
        match last_sep_exec(v, e) {
            Some(i) => {
                proof {
                    lemma_last_sep(cur);
                    assert(cur.subrange(i + 1, cur.len() as int) =~= v@.subrange(i + 1, e as int));
                    assert(cur.subrange(0, i as int) =~= v@.subrange(0, i as int));
                }
                if 0 < i && looks_like_version_or_arch_exec(v, i + 1, e) {
                    e = i;
                } else {
                    return e;
                }
            },
            None => {
                return e;
            },
        }
    }
}

/// The display name for an AppImage file called `filename`.
pub fn infer_display_name(filename: &str) -> (s: String)
    ensures
        s@ == spec_display_name(filename@),
{
    let v = chars_of(filename);
    let n = v.len();
    let upper = chars_of(".AppImage");
    let lower = chars_of(".appimage");
    proof {
        reveal_strlit(".AppImage");
        reveal_strlit(".appimage");
        assert(v@.subrange(0, n as int) =~= filename@);
    }
    let stem_end = if ends_with_exec(&v, 0, n, &upper) || ends_with_exec(&v, 0, n, &lower) {
        n - 9
    } else {
        n
    };
    proof {
        assert(v@.subrange(0, stem_end as int) =~= without_appimage_suffix(filename@));
    }
    let e = trim_version_or_arch_exec(&v, stem_end);
    let ghost cleaned = v@.subrange(0, e as int);
    let mut spaced: Vec<char> = Vec::new();
    let mut i: usize = 0;
    while i < e
        invariant
            0 <= i <= e <= v@.len(),
            cleaned == v@.subrange(0, e as int),
            spaced@ == cleaned.take(i as int).map_values(|c: char| dash_to_space(c)),
        decreases e - i,
    {
        let c = v[i];
        spaced.push(if c == '-' || c == '_' {
            ' '
        } else {
            c
        });
        proof {
            assert(spaced@ =~= cleaned.take(i + 1).map_values(|c: char| dash_to_space(c)));
        }
        i += 1;
    }
    proof {
        assert(cleaned.take(e as int) =~= cleaned);
        assert(spaced@.subrange(0, spaced@.len() as int) =~= spaced@);
    }
    let ranges = token_ranges(&spaced, 0, spaced.len());
    if ranges.len() == 0 {
        return filename.to_owned();
    }
    let ghost toks = tokens(spaced@);
    let mut parts: Vec<String> = Vec::new();
    let mut j: usize = 0;
    while j < ranges.len()
        invariant
            0 <= j <= ranges@.len() == toks.len(),
            toks == tokens(spaced@),
            spaced@.subrange(0, spaced@.len() as int) == spaced@,
            forall|k: int|
                0 <= k < ranges@.len() ==> {
                    &&& 0 <= (#[trigger] ranges@[k]).0 <= ranges@[k].1 <= spaced@.len()
                    &&& spaced@.subrange(ranges@[k].0 as int, ranges@[k].1 as int) == toks[k]
                },
            parts@.len() == j,
            forall|k: int| 0 <= k < j ==> #[trigger] parts@[k]@ == toks[k],
        decreases ranges@.len() - j,
    {
        let (a, b) = ranges[j];
        parts.push(string_of(&spaced, a, b));
        j += 1;
    }
    proof {
        assert(strs_view(parts@) =~= toks);
    }
    let mut s = String::new();
    push_joined(&mut s, &parts, " ");
    proof {
        assert(s@ =~= joined(toks, " "@));
    }
    s
}

// ---------------------------------------------------------------------------
// Desktop integration

/// What follows `Icon=` on the first line that starts with it.
pub open spec fn first_icon_line(ls: Seq<Seq<char>>) -> Option<Seq<char>>
    decreases ls.len(),
{
    if ls.len() == 0 {
        None
    } else if starts_with(ls[0], "Icon="@) {
        Some(ls[0].subrange(5, ls[0].len() as int))
    } else {
        first_icon_line(ls.subrange(1, ls.len() as int))
    }
}

/// The icon a launcher's text names: the first `Icon=` line's value,
/// trimmed, when that is not empty. The text is only scanned, not parsed.
pub open spec fn spec_icon_of(content: Seq<char>) -> Option<Seq<char>> {
    match first_icon_line(lines(content)) {
        Some(v) => if trim(v).len() > 0 {
            Some(trim(v))
        } else {
            None
        },
        None => None,
    }
}

fn icon_of(content: &str) -> (r: Option<String>)
    ensures
        crate::text::opt_view(r) == spec_icon_of(content@),
{
    let v = chars_of(content);
    proof {
        assert(v@.subrange(0, v@.len() as int) =~= content@);
    }
    let ls = line_ranges(&v, 0, v.len());
    let ghost ln = lines(content@);
    let prefix = chars_of("Icon=");
    proof {
        reveal_strlit("Icon=");
        assert(ln.subrange(0, ln.len() as int) =~= ln);
    }
    let mut j: usize = 0;
    while j < ls.len()
        invariant
            0 <= j <= ls@.len() == ln.len(),
            ln == lines(content@),
            prefix@ == "Icon="@,
            prefix@.len() == 5,
            forall|i: int|
                0 <= i < ls@.len() ==> {
                    &&& (#[trigger] ls@[i]).0 <= ls@[i].1 <= v@.len()
                    &&& v@.subrange(ls@[i].0 as int, ls@[i].1 as int) == ln[i]
                },
            first_icon_line(ln) == first_icon_line(ln.subrange(j as int, ln.len() as int)),
        decreases ls@.len() - j,
    {
        let (a, b) = ls[j];
        let ghost rest = ln.subrange(j as int, ln.len() as int);
        proof {
            assert(rest[0] == ln[j as int]);
            assert(rest.subrange(1, rest.len() as int) =~= ln.subrange(j + 1, ln.len() as int));
        }
        if starts_with_exec(&v, a, b, &prefix) {
            let (ta, tb) = trim_range(&v, a + 5, b, CharClass::Whitespace);
            proof {
                assert(v@.subrange(a + 5, b as int) =~= ln[j as int].subrange(5, ln[j as int].len() as int));
            }
            if ta < tb {
                return Some(string_of(&v, ta, tb));
            } else {
                return None;
            }
        }
        j += 1;
    }
    None
}

/// A launcher that starts an AppImage, as desktop integration tools write them.
#[derive(Debug, Clone)]
pub struct DesktopIntegration {
    pub desktop_file_path: String,
    pub icon: Option<String>,
}

/// The first listed `.desktop` file whose text mentions `target` (the
/// AppImage's path), with the icon it names. A file that could not be read
/// (`None`) is skipped.
pub open spec fn spec_find_integration(
    target: Seq<char>,
    entries: Seq<(Seq<char>, Option<Seq<char>>)>,
) -> Option<(Seq<char>, Option<Seq<char>>)>
    decreases entries.len(),
{
    if entries.len() == 0 {
        None
    } else {
        let (p, c) = entries[0];
        if path_extension(p) == Some("desktop"@) && (c matches Some(t) && contains_seq(t, target)) {
            Some((p, spec_icon_of(c->0)))
        } else {
            spec_find_integration(target, entries.subrange(1, entries.len() as int))
        }
    }
}

pub open spec fn listing_view(s: Seq<(String, Option<String>)>) -> Seq<(Seq<char>, Option<Seq<char>>)> {
    s.map_values(|e: (String, Option<String>)| (e.0@, crate::text::opt_view(e.1)))
}

pub open spec fn integration_view(d: Option<DesktopIntegration>) -> Option<(Seq<char>, Option<Seq<char>>)> {
    match d {
        Some(x) => Some((x.desktop_file_path@, crate::text::opt_view(x.icon))),
        None => None,
    }
}

/// Finds the launcher, among the listed files of the integration directory
/// (each with its text, or `None` where it could not be read), that starts `target`.
pub fn find_desktop_integration(target: &str, entries: &Vec<(String, Option<String>)>) -> (r: Option<DesktopIntegration>)
    ensures
        integration_view(r) == spec_find_integration(target@, listing_view(entries@)),
{
    let ghost es = listing_view(entries@);
    let t = chars_of(target);
    proof {
        assert(es.subrange(0, es.len() as int) =~= es);
        reveal_strlit("desktop");
    }
    let mut i: usize = 0;
    while i < entries.len()
        invariant
            0 <= i <= entries@.len(),
            es == listing_view(entries@),
            t@ == target@,
            spec_find_integration(target@, es) == spec_find_integration(target@, es.subrange(i as int, es.len() as int)),
        decreases entries@.len() - i,
    {
        let ghost rest = es.subrange(i as int, es.len() as int);
        proof {
            assert(rest[0] == es[i as int]);
            assert(rest.subrange(1, rest.len() as int) =~= es.subrange(i + 1, es.len() as int));
        }
        let is_desktop = match extension_of(entries[i].0.as_str()) {
            Some(ext) => str_eq(ext.as_str(), "desktop"),
            None => false,
        };
        if is_desktop {
            match &entries[i].1 {
                Some(content) => {
                    let v = chars_of(content.as_str());
                    proof {
                        assert(v@.subrange(0, v@.len() as int) =~= content@);
                    }
                    if contains_in(&v, 0, v.len(), &t) {
                        let icon = icon_of(content.as_str());
                        return Some(DesktopIntegration { desktop_file_path: entries[i].0.clone(), icon });
                    }
                },
                None => {},
            }
        }
        i += 1;
    }
    None
}

// ---------------------------------------------------------------------------
// Items

/// How far the evidence agrees: extension and signature are certain; the
/// extension on an executable file whose signature is inconclusive is high;
/// one weaker signal alone (the extension, or the signature) is medium.
pub open spec fn spec_confidence(has_extension: bool, signature: bool, executable: bool) -> ClassificationConfidence {
    if has_extension && signature {
        ClassificationConfidence::Certain
    } else if has_extension && executable {
        ClassificationConfidence::High
    } else {
        ClassificationConfidence::Medium
    }
}

/// Why a candidate was taken for an AppImage, strongest evidence first.
pub open spec fn spec_reasons(c: Candidate) -> Seq<Seq<char>> {
    let r0: Seq<Seq<char>> = if c.has_appimage_extension {
        seq!["filename has the .AppImage extension"@]
    } else {
        Seq::empty()
    };
    let r1 = if c.signature_confirmed {
        r0.push("file signature matches the AppImage magic bytes"@)
    } else {
        r0
    };
    if c.executable {
        r1.push("file has the executable permission bit set"@)
    } else {
        r1
    }
}

/// The item for an AppImage found in `scope`, with its launcher when one was found.
pub open spec fn appimage_item(
    c: Candidate,
    scope: InstallationScope,
    integration: Option<(Seq<char>, Option<Seq<char>>)>,
) -> SoftwareItemView {
    let filename = match path_file_name(c.path@) {
        Some(n) => n,
        None => Seq::empty(),
    };
    SoftwareItemView {
        id: "appimage:"@ + c.path@,
        package_name: filename,
        display_name: spec_display_name(filename),
        description: None,
        version: None,
        architecture: None,
        category: SoftwareCategory::Application,
        secondary_categories: Seq::empty(),
        package_manager: PackageManager::AppImage,
        package_source: None,
        scope: scope,
        install_paths: seq![c.path@],
        executable_paths: seq![c.path@],
        desktop_file_paths: match integration {
            Some((p, _)) => seq![p],
            None => Seq::empty(),
        },
        icon_path: match integration {
            Some((_, i)) => i,
            None => None,
        },
        package_section: None,
        installed_size_bytes: Some(c.size_bytes),
        installed_at: c.modified_at,
        installation_reason: InstallationReason::Unknown,
        dependencies: Seq::empty(),
        reverse_dependencies: Seq::empty(),
        update_available: false,
        available_version: None,
        repository: None,
        homepage: None,
        license: None,
        classification_confidence: spec_confidence(c.has_appimage_extension, c.signature_confirmed, c.executable),
        classification_reasons: spec_reasons(c),
        risk_level: SoftwareRiskLevel::Unknown,
        metadata: match integration {
            Some(_) => Map::<Seq<char>, Seq<char>>::empty().insert("desktop_integrated"@, "true"@),
            None => Map::empty(),
        },
        warnings: Seq::empty(),
    }
}

/// The item for one candidate.
pub fn build_item(candidate: &Candidate, scope: InstallationScope, integration: Option<DesktopIntegration>) -> (item: SoftwareItem)
    ensures
        item@ == appimage_item(*candidate, scope, integration_view(integration)),
{
    let filename = match file_name_of(candidate.path.as_str()) {
        Some(n) => n,
        None => String::new(),
    };
    let display = infer_display_name(filename.as_str());
    let confidence = if candidate.has_appimage_extension && candidate.signature_confirmed {
        ClassificationConfidence::Certain
    } else if candidate.has_appimage_extension && candidate.executable {
        ClassificationConfidence::High
    } else {
        ClassificationConfidence::Medium
    };
    let mut reasons: Vec<String> = Vec::new();
    if candidate.has_appimage_extension {
        reasons.push("filename has the .AppImage extension".to_owned());
    }
    if candidate.signature_confirmed {
        reasons.push("file signature matches the AppImage magic bytes".to_owned());
    }
    if candidate.executable {
        reasons.push("file has the executable permission bit set".to_owned());
    }
    let mut id = String::new();
    push_str(&mut id, "appimage:");
    push_str(&mut id, candidate.path.as_str());
    let mut item = SoftwareItem::new(id.as_str(), filename.as_str(), display.as_str(), PackageManager::AppImage);
    item.scope = scope;
    let mut install: Vec<String> = Vec::new();
    install.push(candidate.path.clone());
    item.install_paths = install;
    let mut exe: Vec<String> = Vec::new();
    exe.push(candidate.path.clone());
    item.executable_paths = exe;
    item.installed_size_bytes = Some(candidate.size_bytes);
    item.installed_at = candidate.modified_at;
    item.category = SoftwareCategory::Application;
    item.classification_confidence = confidence;
    item.classification_reasons = reasons;
    match integration {
        Some(found) => {
            let mut ds: Vec<String> = Vec::new();
            ds.push(found.desktop_file_path);
            item.desktop_file_paths = ds;
            item.metadata.insert("desktop_integrated".to_owned(), "true".to_owned());
            match found.icon {
                Some(icon) => {
                    item.icon_path = Some(icon);
                },
                None => {},
            }
        },
        None => {},
    }
    proof {
        let want = appimage_item(*candidate, scope, integration_view(integration));
        assert(item@.metadata =~= want.metadata);
        assert(item@.classification_reasons =~= want.classification_reasons);
        assert(item@.install_paths =~= want.install_paths);
        assert(item@.executable_paths =~= want.executable_paths);
        assert(item@.desktop_file_paths =~= want.desktop_file_paths);
        assert(item@.dependencies =~= want.dependencies);
        assert(item@.reverse_dependencies =~= want.reverse_dependencies);
        assert(item@.warnings =~= want.warnings);
        assert(item@.secondary_categories =~= want.secondary_categories);
    }
    item
}

} // verus!
