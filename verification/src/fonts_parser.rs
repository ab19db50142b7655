//! Parsing of `fc-list` output, independent of running the command.
use vstd::prelude::*;

use crate::apt_parser::{non_empty, non_empty_string};
use crate::text::{
    appended, chars_of, decimal, lemma_appended_nothing, lemma_appended_trans, opt_view,
    push_decimal, push_message, push_range, push_str, split, split_ranges, string_of, trim,
    trim_both, trim_range, CharClass,
};

verus! {

/// Separates records in `fc-list` output.
pub const RECORD_SEPARATOR: char = '\u{1e}';

/// Separates fields within an `fc-list` record.
pub const FIELD_SEPARATOR: char = '\u{1f}';

/// The `fc-list --format` string: the ASCII unit/record separators cannot
/// occur in any font field.
pub const FC_LIST_FORMAT: &'static str = "%{file}\u{1f}%{family}\u{1f}%{style}\u{1f}%{fullname}\u{1f}%{fontformat}\u{1f}%{lang}\u{1e}";

/// Number of fields in a record.
pub const FC_LIST_FIELD_COUNT: usize = 6;

/// One font file as `fc-list` reports it.
#[derive(Debug, Clone, PartialEq)]
pub struct FontFileRecord {
    pub file: String,
    pub family: String,
    pub style: Option<String>,
    pub fullname: Option<String>,
    pub font_format: Option<String>,
    /// Raw fontconfig language-coverage list (e.g. `"en|fr|de"`), kept as is.
    pub language_coverage: Option<String>,
}

pub struct FontFileView {
    pub file: Seq<char>,
    pub family: Seq<char>,
    pub style: Option<Seq<char>>,
    pub fullname: Option<Seq<char>>,
    pub font_format: Option<Seq<char>>,
    pub language_coverage: Option<Seq<char>>,
}

impl View for FontFileRecord {
    type V = FontFileView;

    open spec fn view(&self) -> FontFileView {
        FontFileView {
            file: self.file@,
            family: self.family@,
            style: opt_view(self.style),
            fullname: opt_view(self.fullname),
            font_format: opt_view(self.font_format),
            language_coverage: opt_view(self.language_coverage),
        }
    }
}

pub open spec fn msg_wrong_field_count(index: nat, n: nat) -> Seq<char> {
    "fc-list record "@ + decimal(index) + " had "@ + decimal(n) + " fields, expected 6 fields; skipped"@
}

pub open spec fn msg_empty_file(index: nat) -> Seq<char> {
    "fc-list record "@ + decimal(index) + " had an empty file path; skipped"@
}

pub open spec fn msg_empty_family(index: nat, file: Seq<char>) -> Seq<char> {
    "fc-list record "@ + decimal(index) + " (\""@ + file + "\") had an empty family; skipped"@
}

/// What the `index`-th raw record contributes: a record, if any, and warnings.
pub open spec fn font_record_step(raw: Seq<char>, index: nat) -> (Option<FontFileView>, Seq<Seq<char>>) {
    let record = trim_both(raw, CharClass::Exactly('\n'));
    let f = split(record, CharClass::Exactly(FIELD_SEPARATOR));
    if record.len() == 0 {
        (None, Seq::empty())
    } else if f.len() != FC_LIST_FIELD_COUNT {
        (None, seq![msg_wrong_field_count(index, f.len())])
    } else if trim(f[0]).len() == 0 {
        (None, seq![msg_empty_file(index)])
    } else if trim(f[1]).len() == 0 {
        (None, seq![msg_empty_family(index, trim(f[0]))])
    } else {
        (
            Some(
                FontFileView {
                    file: trim(f[0]),
                    family: trim(f[1]),
                    style: non_empty(f[2]),
                    fullname: non_empty(f[3]),
                    font_format: non_empty(f[4]),
                    language_coverage: non_empty(f[5]),
                },
            ),
            Seq::empty(),
        )
    }
}

pub open spec fn fonts_upto(pieces: Seq<Seq<char>>, n: int) -> (Seq<FontFileView>, Seq<Seq<char>>)
    decreases n,
{
    if n <= 0 {
        (Seq::empty(), Seq::empty())
    } else {
        let (rs, ws) = fonts_upto(pieces, n - 1);
        let (r, w) = font_record_step(pieces[n - 1], (n - 1) as nat);
        (
            match r {
                Some(x) => rs.push(x),
                None => rs,
            },
            ws + w,
        )
    }
}

/// The records and warnings `fc-list` output (in [`FC_LIST_FORMAT`]) yields.
pub open spec fn spec_parse_fc_list(output: Seq<char>) -> (Seq<FontFileView>, Seq<Seq<char>>) {
    let pieces = split(output, CharClass::Exactly(RECORD_SEPARATOR));
    fonts_upto(pieces, pieces.len() as int)
}

fn counted_message(head: &str, index: usize, tail: &str) -> (m: String)
    ensures
        m@ == head@ + decimal(index as nat) + tail@,
{
    let mut m = String::new();
    push_str(&mut m, head);
    push_decimal(&mut m, index as u64);
    push_str(&mut m, tail);
    m
}

fn parse_font_record(v: &Vec<char>, lo: usize, hi: usize, index: usize, warnings: &mut Vec<String>) -> (r: Option<FontFileRecord>)
    requires
        lo <= hi <= v@.len(),
    ensures
        ({
            let (sr, sw) = font_record_step(v@.subrange(lo as int, hi as int), index as nat);
            &&& r matches Some(x) ==> sr == Some(x@)
            &&& r is None ==> sr is None
            &&& appended(old(warnings)@, final(warnings)@, sw)
        }),
{
    proof {
        lemma_appended_nothing(warnings@);
    }
    let (ra, rb) = trim_range(v, lo, hi, CharClass::Exactly('\n'));
    if ra == rb {
        return None;
    }
    let f = split_ranges(v, ra, rb, CharClass::Exactly(FIELD_SEPARATOR));
    if f.len() != FC_LIST_FIELD_COUNT {
        let mut m = counted_message("fc-list record ", index, " had ");
        push_decimal(&mut m, f.len() as u64);
        push_str(&mut m, " fields, expected 6 fields; skipped");
        proof {
            assert(m@ =~= msg_wrong_field_count(index as nat, f@.len() as nat));
        }
        push_message(warnings, m);
        return None;
    }
    let (fa, fb) = trim_range(v, f[0].0, f[0].1, CharClass::Whitespace);
    if fa == fb {
        let m = counted_message("fc-list record ", index, " had an empty file path; skipped");
        push_message(warnings, m);
        return None;
    }
    let (ga, gb) = trim_range(v, f[1].0, f[1].1, CharClass::Whitespace);
    if ga == gb {
        let mut m = counted_message("fc-list record ", index, " (\"");
        push_range(&mut m, v, fa, fb);
        push_str(&mut m, "\") had an empty family; skipped");
        proof {
            assert(m@ =~= msg_empty_family(index as nat, v@.subrange(fa as int, fb as int)));
        }
        push_message(warnings, m);
        return None;
    }
    Some(
        FontFileRecord {
            file: string_of(v, fa, fb),
            family: string_of(v, ga, gb),
            style: non_empty_string(v, f[2].0, f[2].1),
            fullname: non_empty_string(v, f[3].0, f[3].1),
            font_format: non_empty_string(v, f[4].0, f[4].1),
            language_coverage: non_empty_string(v, f[5].0, f[5].1),
        },
    )
}

/// Parses `fc-list` output produced with [`FC_LIST_FORMAT`]. Records with the
/// wrong field count, an empty file path or an empty family are skipped with
/// a warning, never a failure.
pub fn parse_fc_list(output: &str, warnings: &mut Vec<String>) -> (records: Vec<FontFileRecord>)
    ensures
        ({
            let (rs, ws) = spec_parse_fc_list(output@);
            &&& records@.len() == rs.len()
            &&& forall|i: int| 0 <= i < rs.len() ==> #[trigger] records@[i]@ == rs[i]
            &&& appended(old(warnings)@, final(warnings)@, ws)
        }),
{
    let v = chars_of(output);
    let pieces = split_ranges(&v, 0, v.len(), CharClass::Exactly(RECORD_SEPARATOR));
    let ghost ps = split(output@, CharClass::Exactly(RECORD_SEPARATOR));
    let ghost w0 = warnings@;
    proof {
        assert(v@.subrange(0, v@.len() as int) =~= output@);
        lemma_appended_nothing(w0);
    }
    let mut records: Vec<FontFileRecord> = Vec::new();
    let mut j: usize = 0;
    while j < pieces.len()
        invariant
            0 <= j <= pieces@.len() == ps.len(),
            ps == split(v@.subrange(0, v@.len() as int), CharClass::Exactly(RECORD_SEPARATOR)),
            forall|i: int|
                0 <= i < pieces@.len() ==> {
                    &&& (#[trigger] pieces@[i]).0 <= pieces@[i].1 <= v@.len()
                    &&& v@.subrange(pieces@[i].0 as int, pieces@[i].1 as int) == ps[i]
                },
            ({
                let (rs, ws) = fonts_upto(ps, j as int);
                &&& records@.len() == rs.len()
                &&& forall|i: int| 0 <= i < rs.len() ==> #[trigger] records@[i]@ == rs[i]
                &&& appended(w0, warnings@, ws)
            }),
        decreases pieces@.len() - j,
    {
        let (a, b) = pieces[j];
        let ghost mid = warnings@;
        let r = parse_font_record(&v, a, b, j, warnings);
        proof {
            let (rs, ws) = fonts_upto(ps, j as int);
            let (sr, sw) = font_record_step(ps[j as int], j as nat);
            lemma_appended_trans(w0, mid, warnings@, ws, sw);
        }
        match r {
            Some(x) => {
                records.push(x);
            },
            None => {},
        }
        j += 1;
    }
    records
}

} // verus!
