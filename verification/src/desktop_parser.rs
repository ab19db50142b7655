//! Parsing of `.desktop` files. `Exec` is kept verbatim: it is only ever
//! shown, never split, unescaped or run.
use vstd::prelude::*;

use crate::domain::StringMap;
use crate::text::{
    appended, chars_of, ends_with, ends_with_exec, find_in, first_occurrence, lemma_appended_nothing,
    lemma_appended_push, lemma_split_nonempty, line_ranges, lines, opt_view, push_range, push_str,
    range_is, split, split_ranges, starts_with, starts_with_exec, string_of, strs_view, trim,
    trim_range, CharClass,
};

verus! {

/// The fields of a `[Desktop Entry]` section the inventory uses.
#[derive(Debug, Clone, PartialEq, Default)]
pub struct DesktopEntryRecord {
    pub name: String,
    pub generic_name: Option<String>,
    pub comment: Option<String>,
    pub exec_line: Option<String>,
    pub icon: Option<String>,
    pub categories: Vec<String>,
    pub no_display: bool,
    pub hidden: bool,
    pub terminal: bool,
    pub startup_wm_class: Option<String>,
}

pub struct DesktopEntryView {
    pub name: Seq<char>,
    pub generic_name: Option<Seq<char>>,
    pub comment: Option<Seq<char>>,
    pub exec_line: Option<Seq<char>>,
    pub icon: Option<Seq<char>>,
    pub categories: Seq<Seq<char>>,
    pub no_display: bool,
    pub hidden: bool,
    pub terminal: bool,
    pub startup_wm_class: Option<Seq<char>>,
}

impl View for DesktopEntryRecord {
    type V = DesktopEntryView;

    open spec fn view(&self) -> DesktopEntryView {
        DesktopEntryView {
            name: self.name@,
            generic_name: opt_view(self.generic_name),
            comment: opt_view(self.comment),
            exec_line: opt_view(self.exec_line),
            icon: opt_view(self.icon),
            categories: strs_view(self.categories@),
            no_display: self.no_display,
            hidden: self.hidden,
            terminal: self.terminal,
            startup_wm_class: opt_view(self.startup_wm_class),
        }
    }
}

/// The keys whose last value in the section is kept.
pub open spec fn is_kept_key(k: Seq<char>) -> bool {
    ||| k == "Name"@
    ||| k == "GenericName"@
    ||| k == "Comment"@
    ||| k == "Exec"@
    ||| k == "Icon"@
    ||| k == "StartupWMClass"@
    ||| k == "Type"@
    ||| k == "NoDisplay"@
    ||| k == "Hidden"@
    ||| k == "Terminal"@
}

/// The trimmed, non-empty pieces among `ps`.
pub open spec fn trimmed_non_empty(ps: Seq<Seq<char>>) -> Seq<Seq<char>>
    decreases ps.len(),
{
    if ps.len() == 0 {
        Seq::empty()
    } else if trim(ps.last()).len() == 0 {
        trimmed_non_empty(ps.drop_last())
    } else {
        trimmed_non_empty(ps.drop_last()).push(trim(ps.last()))
    }
}

/// A `Categories` value: its `;`-separated entries, trimmed, empty ones dropped.
pub open spec fn category_values(value: Seq<char>) -> Seq<Seq<char>> {
    trimmed_non_empty(split(value, CharClass::Exactly(';')))
}

/// The state of a scan over the lines of a `.desktop` file.
pub struct DesktopScan {
    pub in_section: bool,
    pub found: bool,
    pub fields: Map<Seq<char>, Seq<char>>,
    pub categories: Seq<Seq<char>>,
    pub warnings: Seq<Seq<char>>,
}

pub open spec fn msg_no_equals(source: Seq<char>, line: Seq<char>) -> Seq<char> {
    source + ": ignored malformed line (no \"=\"): \""@ + line + "\""@
}

pub open spec fn msg_no_section(source: Seq<char>) -> Seq<char> {
    source + ": no [Desktop Entry] section found; skipped"@
}

pub open spec fn msg_no_name(source: Seq<char>) -> Seq<char> {
    source + ": missing or empty Name key; skipped"@
}

/// A `key=value` line's effect: a kept key records its value, `Categories`
/// replaces the category list, any other key is ignored.
pub open spec fn assignment_result(st: DesktopScan, key: Seq<char>, value: Seq<char>) -> DesktopScan {
    if is_kept_key(key) {
        DesktopScan { fields: st.fields.insert(key, value), ..st }
    } else if key == "Categories"@ {
        DesktopScan { categories: category_values(value), ..st }
    } else {
        st
    }
}

/// One line's effect on the scan: blank lines and comments are ignored, a
/// `[...]` header opens or closes the target section, and inside it a
/// `key=value` line records a kept key or the category list; a line
/// without `=` there is reported.
#[verifier::opaque]
pub open spec fn desktop_step(st: DesktopScan, raw: Seq<char>, source: Seq<char>) -> DesktopScan {
    let line = trim(raw);
    if line.len() == 0 || line[0] == '#' {
        st
    } else if starts_with(line, "["@) && ends_with(line, "]"@) {
        let inside = line == "[Desktop Entry]"@;
        DesktopScan { in_section: inside, found: st.found || inside, ..st }
    } else if !st.in_section {
        st
    } else {
        match first_occurrence(line, "="@) {
            None => DesktopScan { warnings: st.warnings.push(msg_no_equals(source, line)), ..st },
            Some(i) => assignment_result(
                st,
                trim(line.subrange(0, i)),
                trim(line.subrange(i + 1, line.len() as int)),
            ),
        }
    }
}

/// The warnings one line adds: a line without `=` inside the section.
#[verifier::opaque]
pub open spec fn line_warnings(in_section: bool, raw: Seq<char>, source: Seq<char>) -> Seq<
    Seq<char>,
> {
    let line = trim(raw);
    if line.len() == 0 || line[0] == '#' {
        Seq::empty()
    } else if starts_with(line, "["@) && ends_with(line, "]"@) {
        Seq::empty()
    } else if !in_section {
        Seq::empty()
    } else if first_occurrence(line, "="@) is None {
        seq![msg_no_equals(source, line)]
    } else {
        Seq::empty()
    }
}

proof fn lemma_step_warnings(st: DesktopScan, raw: Seq<char>, source: Seq<char>)
    ensures
        desktop_step(st, raw, source).warnings == st.warnings + line_warnings(
            st.in_section,
            raw,
            source,
        ),
{
    reveal(desktop_step);
    reveal(line_warnings);
    assert(st.warnings + Seq::<Seq<char>>::empty() =~= st.warnings);
    let line = trim(raw);
    if first_occurrence(line, "="@) is None {
        assert(st.warnings + seq![msg_no_equals(source, line)] =~= st.warnings.push(
            msg_no_equals(source, line),
        ));
    }
}

pub open spec fn desktop_scan_upto(ls: Seq<Seq<char>>, n: int, source: Seq<char>) -> DesktopScan
    decreases n,
{
    if n <= 0 {
        DesktopScan {
            in_section: false,
            found: false,
            fields: Map::empty(),
            categories: Seq::empty(),
            warnings: Seq::empty(),
        }
    } else {
        desktop_step(desktop_scan_upto(ls, n - 1, source), ls[n - 1], source)
    }
}

pub open spec fn field(fields: Map<Seq<char>, Seq<char>>, k: Seq<char>) -> Option<Seq<char>> {
    if fields.contains_key(k) {
        Some(fields[k])
    } else {
        None
    }
}

pub open spec fn is_true(fields: Map<Seq<char>, Seq<char>>, k: Seq<char>) -> bool {
    fields.contains_key(k) && fields[k] == "true"@
}

/// The entry `content` describes, and the warnings for it: none without a
/// `[Desktop Entry]` section (warned), with a `Type` other than
/// `Application` (not warned) or without a non-empty `Name` (warned).
pub open spec fn spec_parse_desktop_entry(content: Seq<char>, source: Seq<char>) -> (
    Option<DesktopEntryView>,
    Seq<Seq<char>>,
) {
    let st = desktop_scan_upto(lines(content), lines(content).len() as int, source);
    let f = st.fields;
    if !st.found {
        (None, st.warnings.push(msg_no_section(source)))
    } else if f.contains_key("Type"@) && f["Type"@] != "Application"@ {
        (None, st.warnings)
    } else if !f.contains_key("Name"@) || f["Name"@].len() == 0 {
        (None, st.warnings.push(msg_no_name(source)))
    } else {
        (
            Some(
                DesktopEntryView {
                    name: f["Name"@],
                    generic_name: field(f, "GenericName"@),
                    comment: field(f, "Comment"@),
                    exec_line: field(f, "Exec"@),
                    icon: field(f, "Icon"@),
                    categories: st.categories,
                    no_display: is_true(f, "NoDisplay"@),
                    hidden: is_true(f, "Hidden"@),
                    terminal: is_true(f, "Terminal"@),
                    startup_wm_class: field(f, "StartupWMClass"@),
                },
            ),
            st.warnings,
        )
    }
}

fn kept_key(v: &Vec<char>, a: usize, b: usize) -> (r: bool)
    requires
        a <= b <= v@.len(),
    ensures
        r == is_kept_key(v@.subrange(a as int, b as int)),
{
    range_is(v, a, b, "Name") || range_is(v, a, b, "GenericName") || range_is(v, a, b, "Comment")
        || range_is(v, a, b, "Exec") || range_is(v, a, b, "Icon") || range_is(
        v,
        a,
        b,
        "StartupWMClass",
    ) || range_is(v, a, b, "Type") || range_is(v, a, b, "NoDisplay") || range_is(
        v,
        a,
        b,
        "Hidden",
    ) || range_is(v, a, b, "Terminal")
}

fn parse_categories(v: &Vec<char>, lo: usize, hi: usize) -> (r: Vec<String>)
    requires
        lo <= hi <= v@.len(),
    ensures
        strs_view(r@) == category_values(v@.subrange(lo as int, hi as int)),
{
    let parts = split_ranges(v, lo, hi, CharClass::Exactly(';'));
    let ghost ps = split(v@.subrange(lo as int, hi as int), CharClass::Exactly(';'));
    let mut r: Vec<String> = Vec::new();
    let mut j: usize = 0;
    while j < parts.len()
        invariant
            0 <= j <= parts@.len() == ps.len(),
            lo <= hi <= v@.len(),
            ps == split(v@.subrange(lo as int, hi as int), CharClass::Exactly(';')),
            forall|i: int|
                0 <= i < parts@.len() ==> {
                    &&& lo <= (#[trigger] parts@[i]).0 <= parts@[i].1 <= hi
                    &&& v@.subrange(parts@[i].0 as int, parts@[i].1 as int) == ps[i]
                },
            strs_view(r@) == trimmed_non_empty(ps.take(j as int)),
        decreases parts@.len() - j,
    {
        proof {
            assert(ps.take(j + 1).drop_last() =~= ps.take(j as int));
        }
        let (a, b) = trim_range(v, parts[j].0, parts[j].1, CharClass::Whitespace);
        if a < b {
            let ghost before = r@;
            r.push(string_of(v, a, b));
            proof {
                assert(strs_view(r@) =~= strs_view(before).push(v@.subrange(a as int, b as int)));
            }
        }
        j += 1;
    }
    proof {
        assert(ps.take(j as int) =~= ps);
    }
    r
}

fn field_value(fields: &StringMap, key: &str) -> (r: Option<String>)
    ensures
        opt_view(r) == field(fields@, key@),
{
    match fields.get(key) {
        Some(v) => Some(v.clone()),
        None => None,
    }
}

fn field_is_true(fields: &StringMap, key: &str) -> (r: bool)
    ensures
        r == is_true(fields@, key@),
{
    match fields.get(key) {
        Some(v) => crate::text::str_eq(v.as_str(), "true"),
        None => false,
    }
}

fn push_source_message(warnings: &mut Vec<String>, source: &str, tail: &str)
    ensures
        appended(old(warnings)@, final(warnings)@, seq![source@ + tail@]),
{
    let mut m = String::new();
    push_str(&mut m, source);
    push_str(&mut m, tail);
    crate::text::push_message(warnings, m);
}

/// The scan state as the parser holds it.
struct DesktopState {
    in_section: bool,
    found: bool,
    fields: StringMap,
    categories: Vec<String>,
}

impl DesktopState {
    spec fn matches(&self, st: DesktopScan) -> bool {
        &&& st.in_section == self.in_section
        &&& st.found == self.found
        &&& st.fields == self.fields@
        &&& st.categories == strs_view(self.categories@)
    }
}

/// Feeds the line `v[lo..hi]` to the scan.
#[verifier::rlimit(60)]
fn scan_line(
    st: &mut DesktopState,
    v: &Vec<char>,
    lo: usize,
    hi: usize,
    source: &str,
    warnings: &mut Vec<String>,
    Ghost(prev): Ghost<DesktopScan>,
)
    requires
        lo <= hi <= v@.len(),
        old(st).matches(prev),
    ensures
        final(st).matches(desktop_step(prev, v@.subrange(lo as int, hi as int), source@)),
        appended(
            old(warnings)@,
            final(warnings)@,
            line_warnings(prev.in_section, v@.subrange(lo as int, hi as int), source@),
        ),
{
    proof {
        lemma_appended_nothing(warnings@);
        reveal(desktop_step);
        reveal(line_warnings);
    }
    let (a, b) = trim_range(v, lo, hi, CharClass::Whitespace);
    if a == b || v[a] == '#' {
        return;
    }
    let open = chars_of("[");
    let close = chars_of("]");
    if starts_with_exec(v, a, b, &open) && ends_with_exec(v, a, b, &close) {
        st.in_section = range_is(v, a, b, "[Desktop Entry]");
        st.found = st.found || st.in_section;
        return;
    }
    if !st.in_section {
        return;
    }
    proof {
        crate::text::lemma_trim_idem(v@.subrange(lo as int, hi as int), CharClass::Whitespace);
    }
    scan_assignment(st, v, a, b, source, warnings, Ghost(prev));
}

proof fn lemma_step_in_section(st: DesktopScan, line: Seq<char>, source: Seq<char>)
    requires
        st.in_section,
        line.len() > 0,
        line[0] != '#',
        trim(line) == line,
        !(starts_with(line, "["@) && ends_with(line, "]"@)),
    ensures
        first_occurrence(line, "="@) matches Some(i) ==> {
            &&& desktop_step(st, line, source) == assignment_result(
                st,
                trim(line.subrange(0, i)),
                trim(line.subrange(i + 1, line.len() as int)),
            )
            &&& line_warnings(st.in_section, line, source) == Seq::<Seq<char>>::empty()
        },
        first_occurrence(line, "="@) is None ==> {
            &&& desktop_step(st, line, source) == (DesktopScan {
                warnings: st.warnings.push(msg_no_equals(source, line)),
                ..st
            })
            &&& line_warnings(st.in_section, line, source) == seq![msg_no_equals(source, line)]
        },
{
    reveal(desktop_step);
    reveal(line_warnings);
}

/// Feeds a trimmed line of the target section, `v[a..b]`, to the scan.
#[verifier::rlimit(60)]
fn scan_assignment(
    st: &mut DesktopState,
    v: &Vec<char>,
    a: usize,
    b: usize,
    source: &str,
    warnings: &mut Vec<String>,
    Ghost(prev): Ghost<DesktopScan>,
)
    requires
        a < b <= v@.len(),
        old(st).matches(prev),
        prev.in_section,
        trim(v@.subrange(a as int, b as int)) == v@.subrange(a as int, b as int),
        v@[a as int] != '#',
        !(starts_with(v@.subrange(a as int, b as int), "["@) && ends_with(
            v@.subrange(a as int, b as int),
            "]"@,
        )),
    ensures
        final(st).matches(desktop_step(prev, v@.subrange(a as int, b as int), source@)),
        appended(
            old(warnings)@,
            final(warnings)@,
            line_warnings(prev.in_section, v@.subrange(a as int, b as int), source@),
        ),
{
    let ghost line = v@.subrange(a as int, b as int);
    proof {
        lemma_appended_nothing(warnings@);
        lemma_step_in_section(prev, line, source@);
    }
    let eq = chars_of("=");
    proof {
        reveal_strlit("=");
    }
    match find_in(v, a, b, &eq) {
        None => {
            let mut m = String::new();
            push_str(&mut m, source);
            push_str(&mut m, ": ignored malformed line (no \"=\"): \"");
            push_range(&mut m, v, a, b);
            push_str(&mut m, "\"");
            proof {
                assert(m@ =~= msg_no_equals(source@, line));
            }
            crate::text::push_message(warnings, m);
        },
        Some(i) => {
            let (ka, kb) = trim_range(v, a, a + i, CharClass::Whitespace);
            let (va, vb) = trim_range(v, a + i + 1, b, CharClass::Whitespace);
            proof {
                assert(v@.subrange(a as int, a + i) =~= line.subrange(0, i as int));
                assert(v@.subrange(a + i + 1, b as int) =~= line.subrange(
                    i + 1,
                    line.len() as int,
                ));
                assert(v@.subrange(ka as int, kb as int) == trim(line.subrange(0, i as int)));
                assert(v@.subrange(va as int, vb as int) == trim(
                    line.subrange(i + 1, line.len() as int),
                ));
            }
            apply_assignment(st, v, ka, kb, va, vb, Ghost(prev));
            proof {
                assert(line_warnings(prev.in_section, line, source@) == Seq::<Seq<char>>::empty());
            }
        },
    }
}

fn apply_assignment(
    st: &mut DesktopState,
    v: &Vec<char>,
    ka: usize,
    kb: usize,
    va: usize,
    vb: usize,
    Ghost(prev): Ghost<DesktopScan>,
)
    requires
        ka <= kb <= v@.len(),
        va <= vb <= v@.len(),
        old(st).matches(prev),
    ensures
        final(st).matches(
            assignment_result(
                prev,
                v@.subrange(ka as int, kb as int),
                v@.subrange(va as int, vb as int),
            ),
        ),
{
    if kept_key(v, ka, kb) {
        let k = string_of(v, ka, kb);
        let x = string_of(v, va, vb);
        st.fields.insert(k, x);
    } else if range_is(v, ka, kb, "Categories") {
        st.categories = parse_categories(v, va, vb);
    }
}

/// Parses the `[Desktop Entry]` section of a `.desktop` file's contents;
/// `source` (usually the file's path) only labels the warnings.
pub fn parse_desktop_entry(content: &str, source: &str, warnings: &mut Vec<String>) -> (r: Option<
    DesktopEntryRecord,
>)
    ensures
        ({
            let (e, ws) = spec_parse_desktop_entry(content@, source@);
            &&& r matches Some(x) ==> e == Some(x@)
            &&& r is None ==> e is None
            &&& appended(old(warnings)@, final(warnings)@, ws)
        }),
{
    let v = chars_of(content);
    let ls = line_ranges(&v, 0, v.len());
    let ghost ln = lines(content@);
    let ghost w0 = warnings@;
    let ghost src = source@;
    proof {
        assert(v@.subrange(0, v@.len() as int) =~= content@);
        lemma_appended_nothing(w0);
    }
    let mut st = DesktopState {
        in_section: false,
        found: false,
        fields: StringMap::new(),
        categories: Vec::new(),
    };
    proof {
        assert(strs_view(st.categories@) =~= Seq::<Seq<char>>::empty());
    }
    let mut j: usize = 0;
    while j < ls.len()
        invariant
            0 <= j <= ls@.len() == ln.len(),
            ln == lines(content@),
            src == source@,
            forall|i: int|
                0 <= i < ls@.len() ==> {
                    &&& (#[trigger] ls@[i]).0 <= ls@[i].1 <= v@.len()
                    &&& v@.subrange(ls@[i].0 as int, ls@[i].1 as int) == ln[i]
                },
            st.matches(desktop_scan_upto(ln, j as int, src)),
            appended(w0, warnings@, desktop_scan_upto(ln, j as int, src).warnings),
        decreases ls@.len() - j,
    {
        let ghost prev = desktop_scan_upto(ln, j as int, src);
        let ghost mid = warnings@;
        scan_line(&mut st, &v, ls[j].0, ls[j].1, source, warnings, Ghost(prev));
        proof {
            lemma_step_warnings(prev, ln[j as int], src);
            crate::text::lemma_appended_trans(
                w0,
                mid,
                warnings@,
                prev.warnings,
                line_warnings(prev.in_section, ln[j as int], src),
            );
        }
        j += 1;
    }
    let ghost fin = desktop_scan_upto(ln, ln.len() as int, src);
    if !st.found {
        let ghost mid = warnings@;
        push_source_message(warnings, source, ": no [Desktop Entry] section found; skipped");
        proof {
            lemma_appended_one_more(w0, mid, warnings@, fin.warnings, msg_no_section(src));
        }
        return None;
    }
    match st.fields.get("Type") {
        Some(t) => {
            if !crate::text::str_eq(t.as_str(), "Application") {
                return None;
            }
        },
        None => {},
    }
    let name = match st.fields.get("Name") {
        Some(n) => {
            if n.as_str().is_empty() {
                None
            } else {
                Some(n.clone())
            }
        },
        None => None,
    };
    match name {
        None => {
            let ghost mid = warnings@;
            push_source_message(warnings, source, ": missing or empty Name key; skipped");
            proof {
                lemma_appended_one_more(w0, mid, warnings@, fin.warnings, msg_no_name(src));
            }
            None
        },
        Some(name) => {
            let generic_name = field_value(&st.fields, "GenericName");
            let comment = field_value(&st.fields, "Comment");
            let exec_line = field_value(&st.fields, "Exec");
            let icon = field_value(&st.fields, "Icon");
            let no_display = field_is_true(&st.fields, "NoDisplay");
            let hidden = field_is_true(&st.fields, "Hidden");
            let terminal = field_is_true(&st.fields, "Terminal");
            let startup_wm_class = field_value(&st.fields, "StartupWMClass");
            Some(
                DesktopEntryRecord {
                    name,
                    generic_name,
                    comment,
                    exec_line,
                    icon,
                    categories: st.categories,
                    no_display,
                    hidden,
                    terminal,
                    startup_wm_class,
                },
            )
        },
    }
}

proof fn lemma_appended_one_more(
    w0: Seq<String>,
    mid: Seq<String>,
    out: Seq<String>,
    added: Seq<Seq<char>>,
    m: Seq<char>,
)
    requires
        appended(w0, mid, added),
        appended(mid, out, seq![m]),
    ensures
        appended(w0, out, added.push(m)),
{
    crate::text::lemma_appended_trans(w0, mid, out, added, seq![m]);
    assert(added + seq![m] =~= added.push(m));
}

} // verus!
