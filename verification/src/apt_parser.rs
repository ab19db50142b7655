//! Parsing of APT/dpkg command output, independent of running the commands.
use vstd::prelude::*;

use crate::domain::StringMap;
use crate::text::{
    appended, chars_of, decimal, lemma_appended_nothing, lemma_appended_push,
    lemma_appended_trans, lemma_split_nonempty, line_ranges, lines, opt_view, parse_u64,
    parse_u64_range, push_decimal, push_message, push_range, push_str, range_is, split,
    split_ranges, starts_with, starts_with_exec, str_eq, string_of, strs_view, token_ranges,
    tokens, trim, trim_both, trim_range, CharClass,
};

verus! {

/// Separates records in `dpkg-query` output.
pub const RECORD_SEPARATOR: char = '\u{1e}';

/// Separates fields within a `dpkg-query` record.
pub const FIELD_SEPARATOR: char = '\u{1f}';

/// The `dpkg-query --showformat` string for the batch inventory stage: the
/// ASCII unit/record separators cannot occur in a well-formed dpkg field.
pub const DPKG_QUERY_FORMAT: &'static str = "${Package}\u{1f}${Status}\u{1f}${Version}\u{1f}${Architecture}\u{1f}${Section}\u{1f}${Priority}\u{1f}${Installed-Size}\u{1f}${Maintainer}\u{1f}${Homepage}\u{1f}${binary:Summary}\u{1f}${Depends}\u{1e}";

/// Number of fields in a record.
pub const DPKG_FIELD_COUNT: usize = 11;

#[derive(Debug, Clone, PartialEq)]
pub struct DpkgRecord {
    pub package: String,
    pub version: String,
    pub architecture: String,
    pub section: Option<String>,
    pub priority: Option<String>,
    pub installed_size_kb: Option<u64>,
    pub maintainer: Option<String>,
    pub homepage: Option<String>,
    pub summary: Option<String>,
    pub dependencies: Vec<String>,
}

/// The text content of a [`DpkgRecord`].
pub struct DpkgRecordView {
    pub package: Seq<char>,
    pub version: Seq<char>,
    pub architecture: Seq<char>,
    pub section: Option<Seq<char>>,
    pub priority: Option<Seq<char>>,
    pub installed_size_kb: Option<u64>,
    pub maintainer: Option<Seq<char>>,
    pub homepage: Option<Seq<char>>,
    pub summary: Option<Seq<char>>,
    pub dependencies: Seq<Seq<char>>,
}

impl View for DpkgRecord {
    type V = DpkgRecordView;

    open spec fn view(&self) -> DpkgRecordView {
        DpkgRecordView {
            package: self.package@,
            version: self.version@,
            architecture: self.architecture@,
            section: opt_view(self.section),
            priority: opt_view(self.priority),
            installed_size_kb: self.installed_size_kb,
            maintainer: opt_view(self.maintainer),
            homepage: opt_view(self.homepage),
            summary: opt_view(self.summary),
            dependencies: strs_view(self.dependencies@),
        }
    }
}

/// A field's trimmed text, or `None` when that is empty.
pub open spec fn non_empty(f: Seq<char>) -> Option<Seq<char>> {
    if trim(f).len() == 0 {
        None
    } else {
        Some(trim(f))
    }
}

/// dpkg's Status field is "<want> <flag> <status>"; installed when the last word is `installed`.
pub open spec fn is_installed_status(status: Seq<char>) -> bool {
    tokens(status).len() > 0 && tokens(status).last() == "installed"@
}

/// The package a `Depends` group names: the first word of its first alternative.
pub open spec fn dependency_of(group: Seq<char>) -> Option<Seq<char>> {
    let t = tokens(split(group, CharClass::Exactly('|'))[0]);
    if t.len() > 0 {
        Some(t[0])
    } else {
        None
    }
}

pub open spec fn dependencies_upto(groups: Seq<Seq<char>>, n: int) -> Seq<Seq<char>>
    decreases n,
{
    if n <= 0 {
        Seq::empty()
    } else {
        match dependency_of(groups[n - 1]) {
            Some(d) => dependencies_upto(groups, n - 1).push(d),
            None => dependencies_upto(groups, n - 1),
        }
    }
}

/// A raw `Depends` field as plain package names, one per comma-separated
/// group, version constraints and later alternatives dropped.
pub open spec fn spec_parse_depends(field: Seq<char>) -> Seq<Seq<char>> {
    let groups = split(trim(field), CharClass::Exactly(','));
    dependencies_upto(groups, groups.len() as int)
}

pub open spec fn msg_wrong_field_count(index: nat, n: nat) -> Seq<char> {
    "dpkg-query record "@ + decimal(index) + " had "@ + decimal(n)
        + " fields, expected 11 fields; skipped"@
}

pub open spec fn msg_empty_package(index: nat) -> Seq<char> {
    "dpkg-query record "@ + decimal(index) + " had an empty package name; skipped"@
}

pub open spec fn msg_bad_size(package: Seq<char>, size: Seq<char>) -> Seq<char> {
    "package \""@ + package + "\" had a non-numeric Installed-Size (\""@ + size
        + "\"); left blank"@
}

/// What one raw record (the `index`-th piece between record separators)
/// contributes: a record, if any, and warnings.
pub open spec fn dpkg_record_step(raw: Seq<char>, index: nat) -> (
    Option<DpkgRecordView>,
    Seq<Seq<char>>,
) {
    let record = trim_both(raw, CharClass::Exactly('\n'));
    let f = split(record, CharClass::Exactly(FIELD_SEPARATOR));
    if record.len() == 0 {
        (None, Seq::empty())
    } else if f.len() != DPKG_FIELD_COUNT {
        (None, seq![msg_wrong_field_count(index, f.len())])
    } else if trim(f[0]).len() == 0 {
        (None, seq![msg_empty_package(index)])
    } else if !is_installed_status(trim(f[1])) {
        (None, Seq::empty())
    } else {
        let size = match non_empty(f[6]) {
            Some(t) => parse_u64(t),
            None => None,
        };
        let w = if non_empty(f[6]) is Some && size is None {
            seq![msg_bad_size(trim(f[0]), trim(f[6]))]
        } else {
            Seq::empty()
        };
        (
            Some(
                DpkgRecordView {
                    package: trim(f[0]),
                    version: trim(f[2]),
                    architecture: trim(f[3]),
                    section: non_empty(f[4]),
                    priority: non_empty(f[5]),
                    installed_size_kb: size,
                    maintainer: non_empty(f[7]),
                    homepage: non_empty(f[8]),
                    summary: non_empty(f[9]),
                    dependencies: spec_parse_depends(f[10]),
                },
            ),
            w,
        )
    }
}

pub open spec fn dpkg_upto(pieces: Seq<Seq<char>>, n: int) -> (
    Seq<DpkgRecordView>,
    Seq<Seq<char>>,
)
    decreases n,
{
    if n <= 0 {
        (Seq::empty(), Seq::empty())
    } else {
        let (rs, ws) = dpkg_upto(pieces, n - 1);
        let (r, w) = dpkg_record_step(pieces[n - 1], (n - 1) as nat);
        (
            match r {
                Some(x) => rs.push(x),
                None => rs,
            },
            ws + w,
        )
    }
}

/// The records and warnings `dpkg-query` output (in [`DPKG_QUERY_FORMAT`]) yields.
pub open spec fn spec_parse_dpkg_query(output: Seq<char>) -> (
    Seq<DpkgRecordView>,
    Seq<Seq<char>>,
) {
    let pieces = split(output, CharClass::Exactly(RECORD_SEPARATOR));
    dpkg_upto(pieces, pieces.len() as int)
}

// ---------------------------------------------------------------------------
pub(crate) fn trimmed_string(v: &Vec<char>, lo: usize, hi: usize) -> (s: String)
    requires
        lo <= hi <= v@.len(),
    ensures
        s@ == trim(v@.subrange(lo as int, hi as int)),
{
    let (a, b) = trim_range(v, lo, hi, CharClass::Whitespace);
    string_of(v, a, b)
}

pub(crate) fn non_empty_string(v: &Vec<char>, lo: usize, hi: usize) -> (s: Option<String>)
    requires
        lo <= hi <= v@.len(),
    ensures
        opt_view(s) == non_empty(v@.subrange(lo as int, hi as int)),
{
    let (a, b) = trim_range(v, lo, hi, CharClass::Whitespace);
    if a == b {
        None
    } else {
        Some(string_of(v, a, b))
    }
}

fn installed_status(v: &Vec<char>, lo: usize, hi: usize) -> (b: bool)
    requires
        lo <= hi <= v@.len(),
    ensures
        b == is_installed_status(v@.subrange(lo as int, hi as int)),
{
    let t = token_ranges(v, lo, hi);
    if t.len() == 0 {
        return false;
    }
    let (a, b) = t[t.len() - 1];
    range_is(v, a, b, "installed")
}

fn parse_depends_range(v: &Vec<char>, lo: usize, hi: usize) -> (deps: Vec<String>)
    requires
        lo <= hi <= v@.len(),
    ensures
        strs_view(deps@) == spec_parse_depends(v@.subrange(lo as int, hi as int)),
{
    let (a, b) = trim_range(v, lo, hi, CharClass::Whitespace);
    let groups = split_ranges(v, a, b, CharClass::Exactly(','));
    let ghost gs = split(trim(v@.subrange(lo as int, hi as int)), CharClass::Exactly(','));
    let mut deps: Vec<String> = Vec::new();
    let mut j: usize = 0;
    while j < groups.len()
        invariant
            0 <= j <= groups@.len() == gs.len(),
            a <= b <= v@.len(),
            gs == split(v@.subrange(a as int, b as int), CharClass::Exactly(',')),
            forall|i: int|
                0 <= i < groups@.len() ==> {
                    &&& a <= (#[trigger] groups@[i]).0 <= groups@[i].1 <= b
                    &&& v@.subrange(groups@[i].0 as int, groups@[i].1 as int) == gs[i]
                },
            strs_view(deps@) == dependencies_upto(gs, j as int),
        decreases groups@.len() - j,
    {
        let (ga, gb) = groups[j];
        let alts = split_ranges(v, ga, gb, CharClass::Exactly('|'));
        proof {
            lemma_split_nonempty(v@.subrange(ga as int, gb as int), CharClass::Exactly('|'));
        }
        let (aa, ab) = alts[0];
        let t = token_ranges(v, aa, ab);
        if t.len() > 0 {
            let (ta, tb) = t[0];
            let name = string_of(v, ta, tb);
            let ghost before = deps@;
            deps.push(name);
            proof {
                assert(strs_view(deps@) =~= strs_view(before).push(name@));
            }
        }
        j += 1;
    }
    deps
}

fn msg_wrong_field_count_exec(index: usize, n: usize) -> (m: String)
    ensures
        m@ == msg_wrong_field_count(index as nat, n as nat),
{
    let mut m = String::new();
    push_str(&mut m, "dpkg-query record ");
    push_decimal(&mut m, index as u64);
    push_str(&mut m, " had ");
    push_decimal(&mut m, n as u64);
    push_str(&mut m, " fields, expected 11 fields; skipped");
    proof {
        assert(m@ =~= msg_wrong_field_count(index as nat, n as nat));
    }
    m
}

fn msg_empty_package_exec(index: usize) -> (m: String)
    ensures
        m@ == msg_empty_package(index as nat),
{
    let mut m = String::new();
    push_str(&mut m, "dpkg-query record ");
    push_decimal(&mut m, index as u64);
    push_str(&mut m, " had an empty package name; skipped");
    proof {
        assert(m@ =~= msg_empty_package(index as nat));
    }
    m
}

fn msg_bad_size_exec(package: &String, size: &String) -> (m: String)
    ensures
        m@ == msg_bad_size(package@, size@),
{
    let mut m = String::new();
    push_str(&mut m, "package \"");
    push_str(&mut m, package.as_str());
    push_str(&mut m, "\" had a non-numeric Installed-Size (\"");
    push_str(&mut m, size.as_str());
    push_str(&mut m, "\"); left blank");
    proof {
        assert(m@ =~= msg_bad_size(package@, size@));
    }
    m
}

fn parse_dpkg_record(v: &Vec<char>, lo: usize, hi: usize, index: usize, warnings: &mut Vec<String>) -> (r: Option<DpkgRecord>)
    requires
        lo <= hi <= v@.len(),
    ensures
        ({
            let (sr, sw) = dpkg_record_step(v@.subrange(lo as int, hi as int), index as nat);
            &&& r matches Some(x) ==> sr == Some(x@)
            &&& r is None ==> sr is None
            &&& appended(old(warnings)@, final(warnings)@, sw)
        }),
{
    let ghost raw = v@.subrange(lo as int, hi as int);
    proof {
        lemma_appended_nothing(warnings@);
    }
    let (ra, rb) = trim_range(v, lo, hi, CharClass::Exactly('\n'));
    if ra == rb {
        return None;
    }
    let f = split_ranges(v, ra, rb, CharClass::Exactly(FIELD_SEPARATOR));
    if f.len() != DPKG_FIELD_COUNT {
        let m = msg_wrong_field_count_exec(index, f.len());
        push_message(warnings, m);
        return None;
    }
    let (pa, pb) = trim_range(v, f[0].0, f[0].1, CharClass::Whitespace);
    if pa == pb {
        let m = msg_empty_package_exec(index);
        push_message(warnings, m);
        return None;
    }
    let package = string_of(v, pa, pb);
    let (sa, sb) = trim_range(v, f[1].0, f[1].1, CharClass::Whitespace);
    if !installed_status(v, sa, sb) {
        return None;
    }
    let size_text = non_empty_string(v, f[6].0, f[6].1);
    let (za, zb) = trim_range(v, f[6].0, f[6].1, CharClass::Whitespace);
    let installed_size_kb = match &size_text {
        Some(_) => parse_u64_range(v, za, zb),
        None => None,
    };
    if size_text.is_some() && installed_size_kb.is_none() {
        let size_trimmed = string_of(v, za, zb);
        let m = msg_bad_size_exec(&package, &size_trimmed);
        push_message(warnings, m);
    }
    Some(
        DpkgRecord {
            package,
            version: trimmed_string(v, f[2].0, f[2].1),
            architecture: trimmed_string(v, f[3].0, f[3].1),
            section: non_empty_string(v, f[4].0, f[4].1),
            priority: non_empty_string(v, f[5].0, f[5].1),
            installed_size_kb,
            maintainer: non_empty_string(v, f[7].0, f[7].1),
            homepage: non_empty_string(v, f[8].0, f[8].1),
            summary: non_empty_string(v, f[9].0, f[9].1),
            dependencies: parse_depends_range(v, f[10].0, f[10].1),
        },
    )
}

/// Parses `dpkg-query` output produced with [`DPKG_QUERY_FORMAT`]. Records
/// not in the "installed" state are skipped silently; malformed records are
/// skipped with a warning, never a failure.
pub fn parse_dpkg_query(output: &str, warnings: &mut Vec<String>) -> (records: Vec<DpkgRecord>)
    ensures
        ({
            let (rs, ws) = spec_parse_dpkg_query(output@);
            &&& records@.len() == rs.len()
            &&& forall|i: int| 0 <= i < rs.len() ==> #[trigger] records@[i]@ == rs[i]
            &&& appended(old(warnings)@, final(warnings)@, ws)
        }),
{
    let v = chars_of(output);
    let pieces = split_ranges(&v, 0, v.len(), CharClass::Exactly(RECORD_SEPARATOR));
    let ghost ps = split(output@, CharClass::Exactly(RECORD_SEPARATOR));
    let ghost w0 = warnings@;
    proof {
        assert(v@.subrange(0, v@.len() as int) =~= output@);
        lemma_appended_nothing(w0);
    }
    let mut records: Vec<DpkgRecord> = Vec::new();
    let mut j: usize = 0;
    while j < pieces.len()
        invariant
            0 <= j <= pieces@.len() == ps.len(),
            ps == split(v@.subrange(0, v@.len() as int), CharClass::Exactly(RECORD_SEPARATOR)),
            forall|i: int|
                0 <= i < pieces@.len() ==> {
                    &&& (#[trigger] pieces@[i]).0 <= pieces@[i].1 <= v@.len()
                    &&& v@.subrange(pieces@[i].0 as int, pieces@[i].1 as int) == ps[i]
                },
            ({
                let (rs, ws) = dpkg_upto(ps, j as int);
                &&& records@.len() == rs.len()
                &&& forall|i: int| 0 <= i < rs.len() ==> #[trigger] records@[i]@ == rs[i]
                &&& appended(w0, warnings@, ws)
            }),
        decreases pieces@.len() - j,
    {
        let (a, b) = pieces[j];
        let ghost mid = warnings@;
        let r = parse_dpkg_record(&v, a, b, j, warnings);
        proof {
            let (rs, ws) = dpkg_upto(ps, j as int);
            let (sr, sw) = dpkg_record_step(ps[j as int], j as nat);
            lemma_appended_trans(w0, mid, warnings@, ws, sw);
        }
        match r {
            Some(x) => {
                records.push(x);
            },
            None => {},
        }
        j += 1;
    }
    records
}

// ---------------------------------------------------------------------------
/// A set of texts (package names), with no repeats.
#[derive(Debug, PartialEq, Eq)]
pub struct NameSet {
    names: Vec<String>,
}

impl View for NameSet {
    type V = Set<Seq<char>>;

    closed spec fn view(&self) -> Set<Seq<char>> {
        Set::new(|t: Seq<char>| exists|i: int| 0 <= i < self.names@.len() && self.names@[i]@ == t)
    }
}

impl NameSet {
    #[verifier::type_invariant]
    spec fn distinct(self) -> bool {
        forall|i: int, j: int|
            0 <= i < j < self.names@.len() ==> (#[trigger] self.names@[i])@
                != (#[trigger] self.names@[j])@
    }

    pub fn new() -> (s: NameSet)
        ensures
            s@ == Set::<Seq<char>>::empty(),
    {
        let s = NameSet { names: Vec::new() };
        proof {
            assert(s@ =~= Set::<Seq<char>>::empty());
        }
        s
    }

    fn position(&self, name: &str) -> (r: Option<usize>)
        ensures
            r matches Some(i) ==> i < self.names@.len() && self.names@[i as int]@ == name@,
            r is None ==> forall|j: int| 0 <= j < self.names@.len() ==> self.names@[j]@ != name@,
    {
        let mut i: usize = 0;
        while i < self.names.len()
            invariant
                0 <= i <= self.names@.len(),
                forall|j: int| 0 <= j < i ==> self.names@[j]@ != name@,
            decreases self.names@.len() - i,
        {
            if str_eq(self.names[i].as_str(), name) {
                return Some(i);
            }
            i += 1;
        }
        None
    }

    pub fn contains(&self, name: &str) -> (b: bool)
        ensures
            b == self@.contains(name@),
    {
        let r = self.position(name);
        proof {
            if r is Some {
                assert(self@.contains(name@));
            }
        }
        r.is_some()
    }

    /// Adds `name` if it is not present yet.
    pub fn insert(&mut self, name: String)
        ensures
            final(self)@ == old(self)@.insert(name@),
    {
        proof {
            use_type_invariant(&*self);
        }
        if self.position(name.as_str()).is_none() {
            let mut names: Vec<String> = Vec::new();
            std::mem::swap(&mut names, &mut self.names);
            let ghost before = names@;
            names.push(name);
            proof {
                assert forall|i: int, j: int| 0 <= i < j < names@.len() implies (
                #[trigger] names@[i])@ != (#[trigger] names@[j])@ by {
                    if j < before.len() {
                        assert(names@[i] == before[i] && names@[j] == before[j]);
                    } else {
                        assert(names@[i] == before[i]);
                    }
                }
            }
            self.names = names;
            proof {
                assert(self@ =~= old(self)@.insert(name@)) by {
                    assert forall|t: Seq<char>| #[trigger] self@.contains(t) implies old(
                        self,
                    )@.insert(name@).contains(t) by {
                        let i = choose|i: int| 0 <= i < self.names@.len() && self.names@[i]@ == t;
                        if i < before.len() {
                            assert(old(self).names@[i] == self.names@[i]);
                        }
                    }
                    assert forall|t: Seq<char>| old(self)@.insert(name@).contains(t) implies #[trigger] self@.contains(t) by {
                        if t == name@ {
                            assert(self.names@[before.len() as int]@ == t);
                        } else {
                            let i = choose|i: int| 0 <= i < old(self).names@.len() && old(self).names@[i]@ == t;
                            assert(self.names@[i] == old(self).names@[i]);
                        }
                    }
                }
            }
        } else {
            proof {
                assert(self@ =~= old(self)@.insert(name@));
            }
        }
    }

    /// The number of names.
    pub fn len(&self) -> (n: usize)
        ensures
            n == self@.len(),
    {
        proof {
            use_type_invariant(self);
            lemma_names_set_len(self.names@);
        }
        self.names.len()
    }

    pub fn is_empty(&self) -> (b: bool)
        ensures
            b == (self@.len() == 0),
    {
        let n = self.len();
        n == 0
    }
}

proof fn lemma_names_set_len(s: Seq<String>)
    requires
        forall|i: int, j: int| 0 <= i < j < s.len() ==> (#[trigger] s[i])@ != (#[trigger] s[j])@,
    ensures
        Set::new(|t: Seq<char>| exists|i: int| 0 <= i < s.len() && s[i]@ == t).finite(),
        Set::new(|t: Seq<char>| exists|i: int| 0 <= i < s.len() && s[i]@ == t).len() == s.len(),
    decreases s.len(),
{
    let whole = Set::new(|t: Seq<char>| exists|i: int| 0 <= i < s.len() && s[i]@ == t);
    if s.len() == 0 {
        assert(whole =~= Set::<Seq<char>>::empty());
    } else {
        let t = s.drop_last();
        assert forall|i: int, j: int| 0 <= i < j < t.len() implies (#[trigger] t[i])@ != (
        #[trigger] t[j])@ by {
            assert(s[i] == t[i] && s[j] == t[j]);
        }
        lemma_names_set_len(t);
        let part = Set::new(|x: Seq<char>| exists|i: int| 0 <= i < t.len() && t[i]@ == x);
        assert(whole =~= part.insert(s.last()@)) by {
            assert forall|x: Seq<char>| #[trigger] whole.contains(x) implies part.insert(
                s.last()@,
            ).contains(x) by {
                let i = choose|i: int| 0 <= i < s.len() && s[i]@ == x;
                if i < t.len() {
                    assert(t[i] == s[i]);
                }
            }
            assert forall|x: Seq<char>| part.insert(s.last()@).contains(x) implies #[trigger] whole.contains(x) by {
                if x != s.last()@ {
                    let i = choose|i: int| 0 <= i < t.len() && t[i]@ == x;
                    assert(s[i] == t[i]);
                } else {
                    assert(s[s.len() - 1]@ == x);
                }
            }
        }
        assert(!part.contains(s.last()@)) by {
            if part.contains(s.last()@) {
                let i = choose|i: int| 0 <= i < t.len() && t[i]@ == s.last()@;
                assert(s[i] == t[i]);
            }
        }
    }
}

/// The non-empty trimmed lines of `output`, as a set.
pub open spec fn spec_manual_packages(output: Seq<char>) -> Set<Seq<char>> {
    Set::new(
        |t: Seq<char>|
            t.len() > 0 && exists|i: int| 0 <= i < lines(output).len() && trim(lines(output)[i]) == t,
    )
}

/// Parses `apt-mark showmanual` output: one package name per line.
pub fn parse_manual_packages(output: &str) -> (names: NameSet)
    ensures
        names@ == spec_manual_packages(output@),
{
    let v = chars_of(output);
    let ls = line_ranges(&v, 0, v.len());
    let ghost ln = lines(output@);
    proof {
        assert(v@.subrange(0, v@.len() as int) =~= output@);
    }
    let mut names = NameSet::new();
    let mut j: usize = 0;
    while j < ls.len()
        invariant
            0 <= j <= ls@.len() == ln.len(),
            ln == lines(v@.subrange(0, v@.len() as int)),
            ln == lines(output@),
            forall|i: int|
                0 <= i < ls@.len() ==> {
                    &&& (#[trigger] ls@[i]).0 <= ls@[i].1 <= v@.len()
                    &&& v@.subrange(ls@[i].0 as int, ls@[i].1 as int) == ln[i]
                },
            names@ == Set::new(
                |t: Seq<char>| t.len() > 0 && exists|i: int| 0 <= i < j && trim(ln[i]) == t,
            ),
        decreases ls@.len() - j,
    {
        let (a, b) = ls[j];
        let (ta, tb) = trim_range(&v, a, b, CharClass::Whitespace);
        if ta < tb {
            let name = string_of(&v, ta, tb);
            names.insert(name);
        }
        j += 1;
        proof {
            assert(names@ =~= Set::new(
                |t: Seq<char>| t.len() > 0 && exists|i: int| 0 <= i < j && trim(ln[i]) == t,
            )) by {
                assert forall|t: Seq<char>| #[trigger] names@.contains(t) implies (t.len() > 0 && exists|i: int| 0 <= i < j && trim(ln[i]) == t) by {
                    if t == trim(ln[j - 1]) {
                    }
                }
            }
        }
    }
    proof {
        assert(names@ =~= spec_manual_packages(output@));
    }
    names
}

// ---------------------------------------------------------------------------
/// Package and available version on one `apt list --upgradable` line: the
/// text before the first `/` in the first word, and the second word.
pub open spec fn spec_upgradable_line(line: Seq<char>) -> Option<(Seq<char>, Seq<char>)> {
    let t = tokens(line);
    if t.len() < 2 {
        None
    } else {
        let package = split(t[0], CharClass::Exactly('/'))[0];
        if package.len() == 0 {
            None
        } else {
            Some((package, t[1]))
        }
    }
}

pub open spec fn msg_bad_upgradable_line(line: Seq<char>) -> Seq<char> {
    "could not parse \"apt list --upgradable\" line: \""@ + line + "\""@
}

/// Table and warnings after the first `n` lines.
pub open spec fn upgradable_upto(ls: Seq<Seq<char>>, n: int) -> (
    Map<Seq<char>, Seq<char>>,
    Seq<Seq<char>>,
)
    decreases n,
{
    if n <= 0 {
        (Map::empty(), Seq::empty())
    } else {
        let (m, ws) = upgradable_upto(ls, n - 1);
        let line = trim(ls[n - 1]);
        if line.len() == 0 || starts_with(line, "Listing..."@) {
            (m, ws)
        } else {
            match spec_upgradable_line(line) {
                Some((p, v)) => (m.insert(p, v), ws),
                None => (m, ws.push(msg_bad_upgradable_line(line))),
            }
        }
    }
}

pub open spec fn spec_parse_upgradable(output: Seq<char>) -> (
    Map<Seq<char>, Seq<char>>,
    Seq<Seq<char>>,
) {
    upgradable_upto(lines(output), lines(output).len() as int)
}

fn parse_upgradable_line(v: &Vec<char>, lo: usize, hi: usize) -> (r: Option<(String, String)>)
    requires
        lo <= hi <= v@.len(),
    ensures
        r matches Some((p, q)) ==> spec_upgradable_line(v@.subrange(lo as int, hi as int))
            == Some((p@, q@)),
        r is None ==> spec_upgradable_line(v@.subrange(lo as int, hi as int)) is None,
{
    let t = token_ranges(v, lo, hi);
    if t.len() < 2 {
        return None;
    }
    let (a0, b0) = t[0];
    let (a1, b1) = t[1];
    let parts = split_ranges(v, a0, b0, CharClass::Exactly('/'));
    proof {
        lemma_split_nonempty(v@.subrange(a0 as int, b0 as int), CharClass::Exactly('/'));
    }
    let (pa, pb) = parts[0];
    if pa == pb {
        return None;
    }
    Some((string_of(v, pa, pb), string_of(v, a1, b1)))
}

/// Parses `apt list --upgradable` output into a table from package name to
/// available version. Lines it cannot read are skipped with a warning.
pub fn parse_upgradable(output: &str, warnings: &mut Vec<String>) -> (table: StringMap)
    ensures
        table@ == spec_parse_upgradable(output@).0,
        appended(old(warnings)@, final(warnings)@, spec_parse_upgradable(output@).1),
{
    let v = chars_of(output);
    let ls = line_ranges(&v, 0, v.len());
    let ghost ln = lines(output@);
    let ghost w0 = warnings@;
    proof {
        assert(v@.subrange(0, v@.len() as int) =~= output@);
        lemma_appended_nothing(w0);
    }
    let listing = chars_of("Listing...");
    let mut table = StringMap::new();
    let mut j: usize = 0;
    while j < ls.len()
        invariant
            0 <= j <= ls@.len() == ln.len(),
            ln == lines(output@),
            listing@ == "Listing..."@,
            forall|i: int|
                0 <= i < ls@.len() ==> {
                    &&& (#[trigger] ls@[i]).0 <= ls@[i].1 <= v@.len()
                    &&& v@.subrange(ls@[i].0 as int, ls@[i].1 as int) == ln[i]
                },
            table@ == upgradable_upto(ln, j as int).0,
            appended(w0, warnings@, upgradable_upto(ln, j as int).1),
        decreases ls@.len() - j,
    {
        let (a, b) = ls[j];
        let (ta, tb) = trim_range(&v, a, b, CharClass::Whitespace);
        if ta < tb && !starts_with_exec(&v, ta, tb, &listing) {
            match parse_upgradable_line(&v, ta, tb) {
                Some((p, q)) => {
                    table.insert(p, q);
                },
                None => {
                    let mut m = String::new();
                    push_str(&mut m, "could not parse \"apt list --upgradable\" line: \"");
                    push_range(&mut m, &v, ta, tb);
                    push_str(&mut m, "\"");
                    proof {
                        assert(m@ =~= msg_bad_upgradable_line(v@.subrange(ta as int, tb as int)));
                        lemma_appended_push(w0, warnings@, upgradable_upto(ln, j as int).1, m);
                    }
                    warnings.push(m);
                },
            }
        }
        j += 1;
    }
    table
}

} // verus!
