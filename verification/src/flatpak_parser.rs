//! Parsing of `flatpak list` output and of Flatpak's human-readable sizes.
use vstd::prelude::*;

use crate::text::{
    appended, ascii_lowercase, chars_of, decimal, decimal_value, digit_value, is_digit,
    lemma_appended_nothing, lemma_appended_trans, lemma_split_nonempty, line_ranges, lines,
    opt_view, push_decimal, push_message, push_range, push_str, range_eq_ignore_ascii_case,
    split, split_ranges, string_of, trim, trim_end, trim_end_range, trim_range, CharClass,
};

verus! {

/// The `--columns` list the inventory asks `flatpak list` for.
pub const FLATPAK_COLUMNS: &'static str = "application,name,version,branch,arch,origin,size";

/// Number of tab-separated fields per line.
pub const FLATPAK_FIELD_COUNT: usize = 7;

// ---------------------------------------------------------------------------
// Sizes

pub open spec fn pow10(n: nat) -> nat
    decreases n,
{
    if n == 0 {
        1
    } else {
        10 * pow10((n - 1) as nat)
    }
}

pub open spec fn is_numeric(c: char) -> bool {
    is_digit(c) || c == '.'
}

/// The number of leading digits and dots of `s`.
pub open spec fn numeric_prefix_len(s: Seq<char>) -> nat
    decreases s.len(),
{
    if s.len() > 0 && is_numeric(s[0]) {
        1 + numeric_prefix_len(s.drop_first())
    } else {
        0
    }
}

/// The multiplier a (lowercased) unit stands for: decimal SI units as
/// GLib prints them, and binary units defensively.
pub open spec fn unit_multiplier(u: Seq<char>) -> Option<nat> {
    if u == "b"@ || u == "byte"@ || u == "bytes"@ {
        Some(1)
    } else if u == "kb"@ {
        Some(1000)
    } else if u == "mb"@ {
        Some(1000000)
    } else if u == "gb"@ {
        Some(1000000000)
    } else if u == "tb"@ {
        Some(1000000000000)
    } else if u == "kib"@ {
        Some(1024)
    } else if u == "mib"@ {
        Some(1048576)
    } else if u == "gib"@ {
        Some(1073741824)
    } else {
        None
    }
}

/// The integer and fraction digits of a run of digits and dots, when it
/// writes a number: at most one dot and at least one digit.
pub open spec fn number_parts(number: Seq<char>) -> Option<(Seq<char>, Seq<char>)> {
    let p = split(number, CharClass::Exactly('.'));
    if p.len() == 1 && p[0].len() > 0 {
        Some((p[0], Seq::empty()))
    } else if p.len() == 2 && p[0].len() + p[1].len() > 0 {
        Some((p[0], p[1]))
    } else {
        None
    }
}

/// `n * m`, rounded half up to a whole number and capped at `u64::MAX`,
/// where `n` is written by the digits `whole` `.` `frac`.
pub open spec fn scaled_round(whole: Seq<char>, frac: Seq<char>, m: nat) -> u64 {
    let d = pow10(frac.len());
    let n = decimal_value(whole) * d + decimal_value(frac);
    let r = (2 * n * m + d) / (2 * d);
    if r > u64::MAX {
        u64::MAX
    } else {
        r as u64
    }
}

/// The byte count a size such as `"312.5 MB"` stands for: the leading
/// number times its unit, rounded to a whole number of bytes; `None` when
/// the number or the unit is not recognized.
pub open spec fn spec_human_size(input: Seq<char>) -> Option<u64> {
    let t = trim(input);
    let k = numeric_prefix_len(t);
    if k == t.len() {
        None
    } else {
        match number_parts(t.take(k as int)) {
            None => None,
            Some((whole, frac)) => match unit_multiplier(ascii_lowercase(trim(t.skip(k as int)))) {
                None => None,
                Some(m) => Some(scaled_round(whole, frac, m)),
            },
        }
    }
}

proof fn lemma_numeric_prefix(s: Seq<char>)
    ensures
        numeric_prefix_len(s) <= s.len(),
        forall|i: int| 0 <= i < numeric_prefix_len(s) ==> is_numeric(#[trigger] s[i]),
        numeric_prefix_len(s) < s.len() ==> !is_numeric(s[numeric_prefix_len(s) as int]),
    decreases s.len(),
{
    if s.len() > 0 && is_numeric(s[0]) {
        lemma_numeric_prefix(s.drop_first());
        assert forall|i: int| 0 <= i < numeric_prefix_len(s) implies is_numeric(#[trigger] s[i]) by {
            if i > 0 {
                assert(s[i] == s.drop_first()[i - 1]);
            }
        }
    }
}

/// `decimal_value` read from the front: a leading digit is worth its place.
proof fn lemma_decimal_front(s: Seq<char>)
    requires
        s.len() > 0,
    ensures
        decimal_value(s) == digit_value(s[0]) * pow10((s.len() - 1) as nat) + decimal_value(
            s.drop_first(),
        ),
    decreases s.len(),
{
    if s.len() == 1 {
        assert(s.drop_first() =~= Seq::<char>::empty());
        assert(s.drop_last() =~= Seq::<char>::empty());
        assert(decimal_value(s) == decimal_value(s.drop_last()) * 10 + digit_value(s.last()));
        assert(pow10(0) == 1);
        assert(s.last() == s[0]);
    } else {
        assert(pow10((s.len() - 1) as nat) == 10 * pow10((s.len() - 2) as nat));
        lemma_decimal_front(s.drop_last());
        assert(s.drop_last().drop_first() =~= s.drop_first().drop_last());
        assert(s.drop_last()[0] == s[0]);
        assert(s.drop_first().last() == s.last());
        let a = digit_value(s[0]);
        let p = pow10((s.len() - 2) as nat);
        let r = decimal_value(s.drop_first().drop_last());
        assert(decimal_value(s) == (a * p + r) * 10 + digit_value(s.last()));
        assert((a * p + r) * 10 + digit_value(s.last()) == a * (10 * p) + (r * 10 + digit_value(
            s.last(),
        ))) by (nonlinear_arith);
    }
}

proof fn lemma_pow10_pos(n: nat)
    ensures
        pow10(n) >= 1,
    decreases n,
{
    if n > 0 {
        lemma_pow10_pos((n - 1) as nat);
    }
}

/// One step of multiplying the fraction digits by `m` from the right:
/// with `carry * p + rest == s_next * m` for the digits after `d`, the
/// new carry and remainder account for `d` too.
proof fn lemma_horner_step(d: int, m: int, carry: int, rest: int, s_next: int, p: int, lead: int, carry2: int)
    requires
        carry * p + rest == s_next * m,
        d * m + carry == carry2 * 10 + lead,
    ensures
        carry2 * (10 * p) + (lead * p + rest) == (d * p + s_next) * m,
{
    assert(carry2 * (10 * p) + (lead * p + rest) == (d * p + s_next) * m) by (nonlinear_arith)
        requires
            carry * p + rest == s_next * m,
            d * m + carry == carry2 * 10 + lead,
    ;
}

/// The rounding of the whole product: `I * m + carry`, plus one when the
/// remainder is at least half of `d`.
proof fn lemma_round_total(i: int, f: int, m: int, d: int, carry: int, rest: int, up: int)
    requires
        d >= 1,
        0 <= rest < d,
        carry * d + rest == f * m,
        up == (if 2 * rest >= d { 1int } else { 0int }),
    ensures
        (2 * (i * d + f) * m + d) / (2 * d) == i * m + carry + up,
{
    let x = 2 * (i * d + f) * m + d;
    let q = i * m + carry + up;
    let r = if up == 1 { 2 * rest - d } else { 2 * rest + d };
    assert(x == q * (2 * d) + r) by (nonlinear_arith)
        requires
            carry * d + rest == f * m,
            x == 2 * (i * d + f) * m + d,
            q == i * m + carry + up,
            up == 0 || up == 1,
            up == 1 ==> r == 2 * rest - d,
            up == 0 ==> r == 2 * rest + d,
    ;
    vstd::arithmetic::div_mod::lemma_fundamental_div_mod_converse(x, 2 * d, q, r);
}

proof fn lemma_round_at_least(n: int, m: int, d: int, i: int)
    requires
        d >= 1,
        m >= 1,
        n >= i * d,
        i >= 0,
    ensures
        (2 * n * m + d) / (2 * d) >= i * m,
{
    let x = 2 * n * m + d;
    let q = x / (2 * d);
    vstd::arithmetic::div_mod::lemma_fundamental_div_mod(x, 2 * d);
    let r = x % (2 * d);
    assert(0 <= r < 2 * d) by {
        vstd::arithmetic::div_mod::lemma_mod_bound(x, 2 * d);
    }
    assert(q >= i * m) by (nonlinear_arith)
        requires
            x == (2 * d) * q + r,
            0 <= r < 2 * d,
            x == 2 * n * m + d,
            n >= i * d,
            m >= 1,
            d >= 1,
    ;
}

/// `v[lo..hi]`, all digits, times `m` rounded as [`scaled_round`] says,
/// with the integer digits `v[ia..ib]`.
fn scaled_round_exec(v: &Vec<char>, ia: usize, ib: usize, fa: usize, fb: usize, m: u64) -> (r: u64)
    requires
        ia <= ib <= v@.len(),
        fa <= fb <= v@.len(),
        forall|j: int| ia <= j < ib ==> is_digit(#[trigger] v@[j]),
        forall|j: int| fa <= j < fb ==> is_digit(#[trigger] v@[j]),
        1 <= m <= 1000000000000,
    ensures
        r == scaled_round(v@.subrange(ia as int, ib as int), v@.subrange(fa as int, fb as int), m as nat),
{
    let ghost frac = v@.subrange(fa as int, fb as int);
    let ghost whole = v@.subrange(ia as int, ib as int);
    // The fraction digits times m, from the right.
    let mut carry: u64 = 0;
    let mut lead: u64 = 0;
    let ghost mut rest: int = 0;
    let ghost mut below: int = 0;
    let mut i = fb;
    proof {
        assert(v@.subrange(fb as int, fb as int) =~= Seq::<char>::empty());
        assert(decimal_value(v@.subrange(fb as int, fb as int)) == 0);
        assert(pow10(0) == 1);
    }
    while i > fa
        invariant
            fa <= i <= fb <= v@.len(),
            forall|j: int| fa <= j < fb ==> is_digit(#[trigger] v@[j]),
            1 <= m <= 1000000000000,
            carry < m,
            0 <= rest < pow10((fb - i) as nat),
            carry * pow10((fb - i) as nat) + rest == decimal_value(v@.subrange(i as int, fb as int)) * m,
            i < fb ==> lead <= 9 && 0 <= below < pow10((fb - i - 1) as nat) && rest == lead * pow10(
                (fb - i - 1) as nat,
            ) + below,
        decreases i,
    {
        let c = v[i - 1];
        let d: u64 = (c as u32 - '0' as u32) as u64;
        proof {
            assert(is_digit(v@[i - 1]));
            lemma_decimal_front(v@.subrange(i - 1, fb as int));
            assert(v@.subrange(i - 1, fb as int).drop_first() =~= v@.subrange(i as int, fb as int));
            assert(d == digit_value(v@[i - 1]));
            assert(d * m <= 9 * 1000000000000) by (nonlinear_arith)
                requires
                    d <= 9,
                    m <= 1000000000000,
            ;
        }
        let t = d * m + carry;
        let ghost p = pow10((fb - i) as nat);
        let ghost s_next = decimal_value(v@.subrange(i as int, fb as int));
        proof {
            lemma_horner_step(d as int, m as int, carry as int, rest, s_next as int, p as int, (t % 10) as int, (t / 10) as int);
            assert(d <= 9);
            assert(d * m <= 9 * m) by (nonlinear_arith)
                requires
                    d <= 9,
            ;
            assert(t < 10 * m);
            assert((t % 10) * p + rest < 10 * p) by (nonlinear_arith)
                requires
                    t % 10 <= 9,
                    rest < p,
            ;
        }
        lead = t % 10;
        carry = t / 10;
        proof {
            below = rest;
            rest = lead * p + rest;
        }
        i -= 1;
    }
    // The integer digits, stopping once past u64::MAX.
    let mut acc: u64 = 0;
    let mut j = ia;
    let mut saturated = false;
    proof {
        assert(v@.subrange(ia as int, ia as int) =~= Seq::<char>::empty());
    }
    while j < ib
        invariant
            ia <= j <= ib <= v@.len(),
            forall|k: int| ia <= k < ib ==> is_digit(#[trigger] v@[k]),
            !saturated ==> acc == decimal_value(v@.subrange(ia as int, j as int)),
            saturated ==> decimal_value(v@.subrange(ia as int, ib as int)) > u64::MAX,
        decreases ib - j,
    {
        let c = v[j];
        let d: u64 = (c as u32 - '0' as u32) as u64;
        proof {
            assert(is_digit(v@[j as int]));
            assert(v@.subrange(ia as int, j + 1).drop_last() =~= v@.subrange(ia as int, j as int));
        }
        if saturated {
        } else if acc > (u64::MAX - d) / 10 {
            proof {
                let s = v@.subrange(ia as int, ib as int);
                assert(s.take(j - ia + 1) =~= v@.subrange(ia as int, j + 1));
                crate::text::lemma_decimal_value_grows(s, j - ia + 1);
                assert(decimal_value(v@.subrange(ia as int, j + 1)) == acc * 10 + d);
                assert(acc * 10 + d > u64::MAX) by (nonlinear_arith)
                    requires
                        acc > (u64::MAX - d) / 10,
                        d <= 9,
                ;
            }
            saturated = true;
        } else {
            acc = acc * 10 + d;
        }
        j += 1;
    }
    let ghost dd = pow10(frac.len());
    proof {
        lemma_pow10_pos(frac.len());
        assert(v@.subrange(i as int, fb as int) == frac);
        assert((fb - i) as nat == frac.len());
    }
    if saturated {
        proof {
            let n = decimal_value(whole) * dd + decimal_value(frac);
            assert(n >= decimal_value(whole) * dd);
            lemma_round_at_least(n as int, m as int, dd as int, decimal_value(whole) as int);
            assert(decimal_value(whole) * m >= decimal_value(whole)) by (nonlinear_arith)
                requires
                    m >= 1,
            ;
        }
        return u64::MAX;
    }
    proof {
        assert(v@.subrange(ia as int, j as int) == whole);
    }
    let up: u64 = if fb > fa && lead >= 5 { 1 } else { 0 };
    proof {
        if fb > fa {
            let q = pow10((frac.len() - 1) as nat);
            assert(dd == 10 * q);
            if lead >= 5 {
                assert(2 * rest >= dd) by (nonlinear_arith)
                    requires
                        rest == lead * q + below,
                        lead >= 5,
                        below >= 0,
                        dd == 10 * q,
                ;
            } else {
                assert(2 * rest < dd) by (nonlinear_arith)
                    requires
                        rest == lead * q + below,
                        lead <= 4,
                        below < q,
                        dd == 10 * q,
                ;
            }
        } else {
            assert(dd == 1);
            assert(rest == 0);
        }
        lemma_round_total(acc as int, decimal_value(frac) as int, m as int, dd as int, carry as int, rest, up as int);
    }
    proof {
        assert((acc as u128) * (m as u128) <= 18446744073709551615u128 * 1000000000000u128) by (
        nonlinear_arith)
            requires
                acc <= 18446744073709551615u64,
                m <= 1000000000000u64,
        ;
    }
    let total: u128 = (acc as u128) * (m as u128) + (carry as u128) + (up as u128);
    if total > u64::MAX as u128 {
        u64::MAX
    } else {
        total as u64
    }
}

fn unit_multiplier_exec(u: &Vec<char>) -> (r: Option<u64>)
    ensures
        r matches Some(m) ==> unit_multiplier(u@) == Some(m as nat) && 1 <= m <= 1000000000000,
        r is None ==> unit_multiplier(u@) is None,
{
    let n = u.len();
    if crate::text::range_is(u, 0, n, "b") || crate::text::range_is(u, 0, n, "byte")
        || crate::text::range_is(u, 0, n, "bytes") {
        proof {
            assert(u@.subrange(0, n as int) =~= u@);
        }
        return Some(1);
    }
    proof {
        assert(u@.subrange(0, n as int) =~= u@);
    }
    if crate::text::range_is(u, 0, n, "kb") {
        Some(1000)
    } else if crate::text::range_is(u, 0, n, "mb") {
        Some(1000000)
    } else if crate::text::range_is(u, 0, n, "gb") {
        Some(1000000000)
    } else if crate::text::range_is(u, 0, n, "tb") {
        Some(1000000000000)
    } else if crate::text::range_is(u, 0, n, "kib") {
        Some(1024)
    } else if crate::text::range_is(u, 0, n, "mib") {
        Some(1048576)
    } else if crate::text::range_is(u, 0, n, "gib") {
        Some(1073741824)
    } else {
        None
    }
}

/// Reads Flatpak's human-readable size column (e.g. `"312.5 MB"`) as a
/// byte count: GLib prints decimal SI units (1 MB = 1,000,000 bytes), and
/// binary units are read too. The figure is rounded to a whole byte, so it
/// is an approximation of the real size; anything unrecognized gives `None`.
pub fn parse_human_size(input: &str) -> (r: Option<u64>)
    ensures
        r == spec_human_size(input@),
{
    let v = chars_of(input);
    let (a, b) = trim_range(&v, 0, v.len(), CharClass::Whitespace);
    let ghost t = v@.subrange(a as int, b as int);
    proof {
        assert(v@.subrange(0, v@.len() as int) =~= input@);
        lemma_numeric_prefix(t);
    }
    let mut k = a;
    while k < b && (('0' <= v[k] && v[k] <= '9') || v[k] == '.')
        invariant
            a <= k <= b <= v@.len(),
            t == v@.subrange(a as int, b as int),
            numeric_prefix_len(t) <= t.len(),
            forall|i: int| 0 <= i < numeric_prefix_len(t) ==> is_numeric(#[trigger] t[i]),
            numeric_prefix_len(t) < t.len() ==> !is_numeric(t[numeric_prefix_len(t) as int]),
            k - a <= numeric_prefix_len(t),
        decreases b - k,
    {
        proof {
            if k - a == numeric_prefix_len(t) {
                assert(t[k - a] == v@[k as int]);
            }
        }
        k += 1;
    }
    proof {
        if k < b {
            assert(t[k - a] == v@[k as int]);
        }
        assert(k - a == numeric_prefix_len(t));
    }
    if k == b {
        return None;
    }
    let parts = split_ranges(&v, a, k, CharClass::Exactly('.'));
    let ghost number = v@.subrange(a as int, k as int);
    proof {
        assert(number =~= t.take((k - a) as int));
        crate::text::lemma_split_pieces_avoid(number, CharClass::Exactly('.'));
    }
    let (wa, wb, fa, fb) = if parts.len() == 1 && parts[0].0 < parts[0].1 {
        (parts[0].0, parts[0].1, k, k)
    } else if parts.len() == 2 && (parts[0].0 < parts[0].1 || parts[1].0 < parts[1].1) {
        (parts[0].0, parts[0].1, parts[1].0, parts[1].1)
    } else {
        return None;
    };
    proof {
        assert(v@.subrange(k as int, k as int) =~= Seq::<char>::empty());
        let p = split(number, CharClass::Exactly('.'));
        assert forall|j: int| wa <= j < wb implies is_digit(#[trigger] v@[j]) by {
            assert(v@[j] == p[0][j - wa]);
            assert(v@[j] == t[j - a]);
        }
        assert forall|j: int| fa <= j < fb implies is_digit(#[trigger] v@[j]) by {
            assert(v@[j] == p[1][j - fa]);
            assert(v@[j] == t[j - a]);
        }
    }
    let (ua, ub) = trim_range(&v, k, b, CharClass::Whitespace);
    let unit = crate::text::ascii_lowercase_range(&v, ua, ub);
    proof {
        assert(v@.subrange(k as int, b as int) =~= t.skip((k - a) as int));
    }
    match unit_multiplier_exec(&unit) {
        None => None,
        Some(m) => Some(scaled_round_exec(&v, wa, wb, fa, fb, m)),
    }
}

// ---------------------------------------------------------------------------
// `flatpak list`

/// One installed Flatpak application or runtime.
#[derive(Debug, Clone, PartialEq)]
pub struct FlatpakRecord {
    pub application: String,
    pub name: Option<String>,
    pub version: Option<String>,
    pub branch: Option<String>,
    pub arch: Option<String>,
    pub origin: Option<String>,
    pub installed_size_bytes: Option<u64>,
}

pub struct FlatpakView {
    pub application: Seq<char>,
    pub name: Option<Seq<char>>,
    pub version: Option<Seq<char>>,
    pub branch: Option<Seq<char>>,
    pub arch: Option<Seq<char>>,
    pub origin: Option<Seq<char>>,
    pub installed_size_bytes: Option<u64>,
}

impl View for FlatpakRecord {
    type V = FlatpakView;

    open spec fn view(&self) -> FlatpakView {
        FlatpakView {
            application: self.application@,
            name: opt_view(self.name),
            version: opt_view(self.version),
            branch: opt_view(self.branch),
            arch: opt_view(self.arch),
            origin: opt_view(self.origin),
            installed_size_bytes: self.installed_size_bytes,
        }
    }
}

/// A column's trimmed text, or `None` when that is empty or `-`.
pub open spec fn flat_non_empty(f: Seq<char>) -> Option<Seq<char>> {
    if trim(f).len() == 0 || trim(f) == "-"@ {
        None
    } else {
        Some(trim(f))
    }
}

pub open spec fn msg_wrong_field_count(index: nat, n: nat) -> Seq<char> {
    "flatpak list line "@ + decimal(index) + " had "@ + decimal(n) + " fields, expected 7 fields; skipped"@
}

pub open spec fn msg_empty_application(index: nat) -> Seq<char> {
    "flatpak list line "@ + decimal(index) + " had an empty application id; skipped"@
}

pub open spec fn msg_bad_size(size: Seq<char>, application: Seq<char>) -> Seq<char> {
    "could not parse installed size \""@ + size + "\" for \""@ + application + "\"; left blank"@
}

/// What the `index`-th line contributes: a record, if any, and warnings.
pub open spec fn flatpak_line_step(raw: Seq<char>, index: nat) -> (Option<FlatpakView>, Seq<Seq<char>>) {
    let line = trim_end(raw, CharClass::Exactly('\r'));
    let f = split(line, CharClass::Exactly('\t'));
    if trim(line).len() == 0 {
        (None, Seq::empty())
    } else if f.len() != FLATPAK_FIELD_COUNT {
        (None, seq![msg_wrong_field_count(index, f.len())])
    } else if trim(f[0]).len() == 0 {
        (None, seq![msg_empty_application(index)])
    } else {
        let size = match flat_non_empty(f[6]) {
            Some(t) => spec_human_size(t),
            None => None,
        };
        (
            Some(
                FlatpakView {
                    application: trim(f[0]),
                    name: flat_non_empty(f[1]),
                    version: flat_non_empty(f[2]),
                    branch: flat_non_empty(f[3]),
                    arch: flat_non_empty(f[4]),
                    origin: flat_non_empty(f[5]),
                    installed_size_bytes: size,
                },
            ),
            if flat_non_empty(f[6]) is Some && size is None {
                seq![msg_bad_size(trim(f[6]), trim(f[0]))]
            } else {
                Seq::empty()
            },
        )
    }
}

pub open spec fn flatpak_upto(ls: Seq<Seq<char>>, n: int) -> (Seq<FlatpakView>, Seq<Seq<char>>)
    decreases n,
{
    if n <= 0 {
        (Seq::empty(), Seq::empty())
    } else {
        let (rs, ws) = flatpak_upto(ls, n - 1);
        let (r, w) = flatpak_line_step(ls[n - 1], (n - 1) as nat);
        (
            match r {
                Some(x) => rs.push(x),
                None => rs,
            },
            ws + w,
        )
    }
}

/// The records and warnings `flatpak list` output (in [`FLATPAK_COLUMNS`]) yields.
pub open spec fn spec_parse_flatpak_list(output: Seq<char>) -> (Seq<FlatpakView>, Seq<Seq<char>>) {
    flatpak_upto(lines(output), lines(output).len() as int)
}

fn flat_non_empty_string(v: &Vec<char>, lo: usize, hi: usize) -> (r: Option<String>)
    requires
        lo <= hi <= v@.len(),
    ensures
        opt_view(r) == flat_non_empty(v@.subrange(lo as int, hi as int)),
{
    let (a, b) = trim_range(v, lo, hi, CharClass::Whitespace);
    if a == b || crate::text::range_is(v, a, b, "-") {
        None
    } else {
        Some(string_of(v, a, b))
    }
}

fn line_message(head: &str, index: usize, tail: &str) -> (m: String)
    ensures
        m@ == head@ + decimal(index as nat) + tail@,
{
    let mut m = String::new();
    push_str(&mut m, head);
    push_decimal(&mut m, index as u64);
    push_str(&mut m, tail);
    m
}

fn parse_flatpak_line(v: &Vec<char>, lo: usize, hi: usize, index: usize, warnings: &mut Vec<String>) -> (r: Option<FlatpakRecord>)
    requires
        lo <= hi <= v@.len(),
    ensures
        ({
            let (sr, sw) = flatpak_line_step(v@.subrange(lo as int, hi as int), index as nat);
            &&& r matches Some(x) ==> sr == Some(x@)
            &&& r is None ==> sr is None
            &&& appended(old(warnings)@, final(warnings)@, sw)
        }),
{
    proof {
        lemma_appended_nothing(warnings@);
    }
    let e = trim_end_range(v, lo, hi, CharClass::Exactly('\r'));
    let (ta, tb) = trim_range(v, lo, e, CharClass::Whitespace);
    if ta == tb {
        return None;
    }
    let f = split_ranges(v, lo, e, CharClass::Exactly('\t'));
    if f.len() != FLATPAK_FIELD_COUNT {
        let mut m = line_message("flatpak list line ", index, " had ");
        push_decimal(&mut m, f.len() as u64);
        push_str(&mut m, " fields, expected 7 fields; skipped");
        proof {
            assert(m@ =~= msg_wrong_field_count(index as nat, f@.len() as nat));
        }
        push_message(warnings, m);
        return None;
    }
    let (aa, ab) = trim_range(v, f[0].0, f[0].1, CharClass::Whitespace);
    if aa == ab {
        let m = line_message("flatpak list line ", index, " had an empty application id; skipped");
        push_message(warnings, m);
        return None;
    }
    let size_text = flat_non_empty_string(v, f[6].0, f[6].1);
    let installed_size_bytes = match &size_text {
        Some(t) => parse_human_size(t.as_str()),
        None => None,
    };
    if size_text.is_some() && installed_size_bytes.is_none() {
        let (sa, sb) = trim_range(v, f[6].0, f[6].1, CharClass::Whitespace);
        let mut m = String::new();
        push_str(&mut m, "could not parse installed size \"");
        push_range(&mut m, v, sa, sb);
        push_str(&mut m, "\" for \"");
        push_range(&mut m, v, aa, ab);
        push_str(&mut m, "\"; left blank");
        proof {
            assert(m@ =~= msg_bad_size(v@.subrange(sa as int, sb as int), v@.subrange(aa as int, ab as int)));
        }
        push_message(warnings, m);
    }
    Some(
        FlatpakRecord {
            application: string_of(v, aa, ab),
            name: flat_non_empty_string(v, f[1].0, f[1].1),
            version: flat_non_empty_string(v, f[2].0, f[2].1),
            branch: flat_non_empty_string(v, f[3].0, f[3].1),
            arch: flat_non_empty_string(v, f[4].0, f[4].1),
            origin: flat_non_empty_string(v, f[5].0, f[5].1),
            installed_size_bytes,
        },
    )
}

/// Parses `flatpak list --columns=application,name,version,branch,arch,origin,size`
/// output. Lines with the wrong field count or an empty application id are
/// skipped with a warning, never a failure.
pub fn parse_flatpak_list(output: &str, warnings: &mut Vec<String>) -> (records: Vec<FlatpakRecord>)
    ensures
        ({
            let (rs, ws) = spec_parse_flatpak_list(output@);
            &&& records@.len() == rs.len()
            &&& forall|i: int| 0 <= i < rs.len() ==> #[trigger] records@[i]@ == rs[i]
            &&& appended(old(warnings)@, final(warnings)@, ws)
        }),
{
    let v = chars_of(output);
    let ls = line_ranges(&v, 0, v.len());
    let ghost ln = lines(output@);
    let ghost w0 = warnings@;
    proof {
        assert(v@.subrange(0, v@.len() as int) =~= output@);
        lemma_appended_nothing(w0);
    }
    let mut records: Vec<FlatpakRecord> = Vec::new();
    let mut j: usize = 0;
    while j < ls.len()
        invariant
            0 <= j <= ls@.len() == ln.len(),
            ln == lines(output@),
            forall|i: int|
                0 <= i < ls@.len() ==> {
                    &&& (#[trigger] ls@[i]).0 <= ls@[i].1 <= v@.len()
                    &&& v@.subrange(ls@[i].0 as int, ls@[i].1 as int) == ln[i]
                },
            ({
                let (rs, ws) = flatpak_upto(ln, j as int);
                &&& records@.len() == rs.len()
                &&& forall|i: int| 0 <= i < rs.len() ==> #[trigger] records@[i]@ == rs[i]
                &&& appended(w0, warnings@, ws)
            }),
        decreases ls@.len() - j,
    {
        let ghost mid = warnings@;
        let r = parse_flatpak_line(&v, ls[j].0, ls[j].1, j, warnings);
        proof {
            let (rs, ws) = flatpak_upto(ln, j as int);
            let (sr, sw) = flatpak_line_step(ln[j as int], j as nat);
            lemma_appended_trans(w0, mid, warnings@, ws, sw);
        }
        match r {
            Some(x) => {
                records.push(x);
            },
            None => {},
        }
        j += 1;
    }
    records
}

} // verus!
