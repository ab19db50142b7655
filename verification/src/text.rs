//! Character-level text handling shared by every parser: the meaning of
//! `trim`, `split`, `lines` and `split_whitespace` over sequences of chars,
//! with executable versions that work on index ranges of a `Vec<char>`.
use vstd::prelude::*;

verus! {

/// Unicode `White_Space`, the property `char::is_whitespace` and `str::trim` use.
pub open spec fn is_ws(c: char) -> bool {
    ||| ('\t' <= c && c <= '\r')
    ||| c == ' '
    ||| c == '\u{85}'
    ||| c == '\u{A0}'
    ||| c == '\u{1680}'
    ||| ('\u{2000}' <= c && c <= '\u{200A}')
    ||| c == '\u{2028}'
    ||| c == '\u{2029}'
    ||| c == '\u{202F}'
    ||| c == '\u{205F}'
    ||| c == '\u{3000}'
}

pub fn is_whitespace(c: char) -> (b: bool)
    ensures
        b == is_ws(c),
{
    ('\t' <= c && c <= '\r') || c == ' ' || c == '\u{85}' || c == '\u{A0}' || c == '\u{1680}'
        || ('\u{2000}' <= c && c <= '\u{200A}') || c == '\u{2028}' || c == '\u{2029}' || c
        == '\u{202F}' || c == '\u{205F}' || c == '\u{3000}'
}

/// A set of characters used as separators or trimmed away.
#[derive(Clone, Copy)]
pub enum CharClass {
    Whitespace,
    Exactly(char),
}

pub open spec fn in_class(k: CharClass, c: char) -> bool {
    match k {
        CharClass::Whitespace => is_ws(c),
        CharClass::Exactly(x) => c == x,
    }
}

pub fn class_has(k: CharClass, c: char) -> (b: bool)
    ensures
        b == in_class(k, c),
{
    match k {
        CharClass::Whitespace => is_whitespace(c),
        CharClass::Exactly(x) => c == x,
    }
}

pub open spec fn trim_start(s: Seq<char>, k: CharClass) -> Seq<char>
    decreases s.len(),
{
    if s.len() > 0 && in_class(k, s[0]) {
        trim_start(s.drop_first(), k)
    } else {
        s
    }
}

pub open spec fn trim_end(s: Seq<char>, k: CharClass) -> Seq<char>
    decreases s.len(),
{
    if s.len() > 0 && in_class(k, s.last()) {
        trim_end(s.drop_last(), k)
    } else {
        s
    }
}

/// `str::trim` (for `Whitespace`) and `str::trim_matches(c)` (for `Exactly(c)`).
pub open spec fn trim_both(s: Seq<char>, k: CharClass) -> Seq<char> {
    trim_end(trim_start(s, k), k)
}

pub open spec fn trim(s: Seq<char>) -> Seq<char> {
    trim_both(s, CharClass::Whitespace)
}

/// `str::split(c)` (for `Exactly(c)`), or splitting at every whitespace char.
pub open spec fn split(s: Seq<char>, k: CharClass) -> Seq<Seq<char>>
    decreases s.len(),
{
    if s.len() == 0 {
        seq![Seq::<char>::empty()]
    } else {
        let r = split(s.drop_last(), k);
        if in_class(k, s.last()) {
            r.push(Seq::<char>::empty())
        } else {
            r.update(r.len() - 1, r.last().push(s.last()))
        }
    }
}

/// Drops the empty pieces.
pub open spec fn non_empty_pieces(ps: Seq<Seq<char>>) -> Seq<Seq<char>>
    decreases ps.len(),
{
    if ps.len() == 0 {
        ps
    } else if ps.last().len() == 0 {
        non_empty_pieces(ps.drop_last())
    } else {
        non_empty_pieces(ps.drop_last()).push(ps.last())
    }
}

/// `str::split_whitespace`.
pub open spec fn tokens(s: Seq<char>) -> Seq<Seq<char>> {
    non_empty_pieces(split(s, CharClass::Whitespace))
}

pub open spec fn strip_cr(t: Seq<char>) -> Seq<char> {
    if t.len() > 0 && t.last() == '\r' {
        t.drop_last()
    } else {
        t
    }
}

/// `str::lines`: pieces between `\n`s, a `\r` right before a `\n` dropped,
/// and no empty piece after a final `\n`.
pub open spec fn lines(s: Seq<char>) -> Seq<Seq<char>> {
    let p = split(s, CharClass::Exactly('\n'));
    let body = p.drop_last().map_values(|t: Seq<char>| strip_cr(t));
    if p.last().len() == 0 {
        body
    } else {
        body.push(p.last())
    }
}

/// `p` occurs in `s` starting at index `i`.
pub open spec fn occurs_at(s: Seq<char>, p: Seq<char>, i: int) -> bool {
    0 <= i && i + p.len() <= s.len() && s.subrange(i, i + p.len()) == p
}

pub open spec fn contains_seq(s: Seq<char>, p: Seq<char>) -> bool {
    exists|i: int| occurs_at(s, p, i)
}

pub open spec fn starts_with(s: Seq<char>, p: Seq<char>) -> bool {
    occurs_at(s, p, 0)
}

pub open spec fn ends_with(s: Seq<char>, p: Seq<char>) -> bool {
    occurs_at(s, p, s.len() - p.len())
}

/// The first index at which `p` occurs in `s`, if any.
#[verifier::opaque]
pub open spec fn first_occurrence(s: Seq<char>, p: Seq<char>) -> Option<int> {
    if contains_seq(s, p) {
        Some(choose|i: int| occurs_at(s, p, i) && forall|j: int| 0 <= j < i ==> !occurs_at(s, p, j))
    } else {
        None
    }
}

pub open spec fn ascii_lower(c: char) -> char {
    if 'A' <= c && c <= 'Z' {
        ((c as u32) + 32) as char
    } else {
        c
    }
}

/// `str::to_ascii_lowercase`.
pub open spec fn ascii_lowercase(s: Seq<char>) -> Seq<char> {
    s.map_values(|c: char| ascii_lower(c))
}

/// `str::eq_ignore_ascii_case`.
pub open spec fn eq_ignore_ascii_case(a: Seq<char>, b: Seq<char>) -> bool {
    ascii_lowercase(a) == ascii_lowercase(b)
}

pub open spec fn is_digit(c: char) -> bool {
    '0' <= c && c <= '9'
}

pub open spec fn digit_value(c: char) -> nat {
    ((c as u32) - ('0' as u32)) as nat
}

/// The number written by the decimal digits `s`.
pub open spec fn decimal_value(s: Seq<char>) -> nat
    decreases s.len(),
{
    if s.len() == 0 {
        0
    } else {
        decimal_value(s.drop_last()) * 10 + digit_value(s.last())
    }
}

pub open spec fn all_digits(s: Seq<char>) -> bool {
    forall|i: int| 0 <= i < s.len() ==> is_digit(#[trigger] s[i])
}

/// What `str::parse::<u64>` accepts: an optional `+`, then at least one
/// decimal digit, with a value that fits in a `u64`.
pub open spec fn parse_u64(s: Seq<char>) -> Option<u64> {
    let d = if s.len() > 0 && s[0] == '+' {
        s.drop_first()
    } else {
        s
    };
    if d.len() > 0 && all_digits(d) && decimal_value(d) <= u64::MAX {
        Some(decimal_value(d) as u64)
    } else {
        None
    }
}

/// The decimal digits of `n`, as `format!("{n}")` writes them.
pub open spec fn decimal(n: nat) -> Seq<char>
    decreases n,
{
    if n < 10 {
        seq![digit_char(n)]
    } else {
        decimal(n / 10).push(digit_char(n % 10))
    }
}

pub open spec fn digit_char(d: nat) -> char {
    ((48 + d) as u8) as char
}

// ---------------------------------------------------------------------------
// Lemmas
pub proof fn lemma_split_nonempty(s: Seq<char>, k: CharClass)
    ensures
        split(s, k).len() >= 1,
    decreases s.len(),
{
    if s.len() > 0 {
        lemma_split_nonempty(s.drop_last(), k);
    }
}

pub proof fn lemma_trim_start_step(v: Seq<char>, a: int, b: int, k: CharClass)
    requires
        0 <= a < b <= v.len(),
        in_class(k, v[a]),
    ensures
        trim_start(v.subrange(a, b), k) == trim_start(v.subrange(a + 1, b), k),
{
    assert(v.subrange(a, b).drop_first() =~= v.subrange(a + 1, b));
}

pub proof fn lemma_trim_end_step(v: Seq<char>, a: int, b: int, k: CharClass)
    requires
        0 <= a < b <= v.len(),
        in_class(k, v[b - 1]),
    ensures
        trim_end(v.subrange(a, b), k) == trim_end(v.subrange(a, b - 1), k),
{
    assert(v.subrange(a, b).drop_last() =~= v.subrange(a, b - 1));
}

pub proof fn lemma_trim_start_first(s: Seq<char>, k: CharClass)
    ensures
        trim_start(s, k).len() <= s.len(),
        trim_start(s, k).len() == 0 || !in_class(k, trim_start(s, k)[0]),
    decreases s.len(),
{
    if s.len() > 0 && in_class(k, s[0]) {
        lemma_trim_start_first(s.drop_first(), k);
    }
}

pub proof fn lemma_trim_end_prefix(s: Seq<char>, k: CharClass)
    ensures
        trim_end(s, k).len() <= s.len(),
        trim_end(s, k) == s.subrange(0, trim_end(s, k).len() as int),
        trim_end(s, k).len() == 0 || !in_class(k, trim_end(s, k).last()),
    decreases s.len(),
{
    if s.len() > 0 && in_class(k, s.last()) {
        lemma_trim_end_prefix(s.drop_last(), k);
        let t = trim_end(s.drop_last(), k);
        assert(s.drop_last().subrange(0, t.len() as int) =~= s.subrange(0, t.len() as int));
    } else {
        assert(s.subrange(0, s.len() as int) =~= s);
    }
}

/// Trimming twice trims no more than once.
pub proof fn lemma_trim_idem(s: Seq<char>, k: CharClass)
    ensures
        trim_both(trim_both(s, k), k) == trim_both(s, k),
{
    let u = trim_start(s, k);
    let t = trim_end(u, k);
    lemma_trim_start_first(s, k);
    lemma_trim_end_prefix(u, k);
    if t.len() > 0 {
        assert(t[0] == u[0]);
        assert(trim_start(t, k) == t);
        assert(trim_end(t, k) == t);
    } else {
        assert(trim_start(t, k) == t);
        assert(trim_end(t, k) == t);
    }
}

/// No piece of a split holds a separator.
pub proof fn lemma_split_pieces_avoid(s: Seq<char>, k: CharClass)
    ensures
        forall|i: int, j: int|
            0 <= i < split(s, k).len() && 0 <= j < split(s, k)[i].len() ==> !in_class(
                k,
                #[trigger] split(s, k)[i][j],
            ),
    decreases s.len(),
{
    if s.len() > 0 {
        lemma_split_pieces_avoid(s.drop_last(), k);
        lemma_split_nonempty(s.drop_last(), k);
        let r = split(s.drop_last(), k);
        assert forall|i: int, j: int|
            0 <= i < split(s, k).len() && 0 <= j < split(s, k)[i].len() implies !in_class(
            k,
            #[trigger] split(s, k)[i][j],
        ) by {
            if in_class(k, s.last()) {
                if i < r.len() {
                    assert(split(s, k)[i] == r[i]);
                }
            } else {
                if i < r.len() - 1 {
                    assert(split(s, k)[i] == r[i]);
                } else {
                    assert(split(s, k)[i] == r.last().push(s.last()));
                    if j < r.last().len() {
                        assert(split(s, k)[i][j] == r[r.len() - 1][j]);
                    }
                }
            }
        }
    }
}

// ---------------------------------------------------------------------------
// Executable helpers

/// The characters of `s`, in order.
pub fn chars_of(s: &str) -> (v: Vec<char>)
    ensures
        v@ == s@,
{
    let mut v: Vec<char> = Vec::new();
    for c in it: s.chars()
        invariant
            v@ == it.seq().take(it.index() as int),
    {
        v.push(c);
    }
    proof {
        assert(v@ =~= s@);
    }
    v
}

/// `String::push`: appends one char.
#[verifier::external_body]
pub(crate) fn push_char(s: &mut String, c: char)
    ensures
        final(s)@ == old(s)@.push(c),
{
    s.push(c);
}

/// The string made of `v[lo..hi]`.
pub fn string_of(v: &Vec<char>, lo: usize, hi: usize) -> (s: String)
    requires
        lo <= hi <= v@.len(),
    ensures
        s@ == v@.subrange(lo as int, hi as int),
{
    let mut s = String::new();
    let mut i = lo;
    while i < hi
        invariant
            lo <= i <= hi <= v@.len(),
            s@ == v@.subrange(lo as int, i as int),
        decreases hi - i,
    {
        push_char(&mut s, v[i]);
        i += 1;
        proof {
            assert(s@ =~= v@.subrange(lo as int, i as int));
        }
    }
    s
}

/// The string made of all of `v`.
pub fn string_of_all(v: &Vec<char>) -> (s: String)
    ensures
        s@ == v@,
{
    let s = string_of(v, 0, v.len());
    proof {
        assert(v@.subrange(0, v@.len() as int) =~= v@);
    }
    s
}

/// Appends `v[lo..hi]` to `s`.
pub fn push_range(s: &mut String, v: &Vec<char>, lo: usize, hi: usize)
    requires
        lo <= hi <= v@.len(),
    ensures
        final(s)@ == old(s)@ + v@.subrange(lo as int, hi as int),
{
    let ghost start = s@;
    let mut i = lo;
    while i < hi
        invariant
            lo <= i <= hi <= v@.len(),
            s@ == start + v@.subrange(lo as int, i as int),
        decreases hi - i,
    {
        push_char(s, v[i]);
        i += 1;
        proof {
            assert(s@ =~= start + v@.subrange(lo as int, i as int));
        }
    }
}

/// Appends the characters of `t` to `s`.
pub fn push_str(s: &mut String, t: &str)
    ensures
        final(s)@ == old(s)@ + t@,
{
    let v = chars_of(t);
    push_range(s, &v, 0, v.len());
    proof {
        assert(v@.subrange(0, v@.len() as int) =~= v@);
    }
}

/// `[lo, hi)` narrowed to `trim_both(v[lo..hi], k)`.
pub fn trim_range(v: &Vec<char>, lo: usize, hi: usize, k: CharClass) -> (r: (usize, usize))
    requires
        lo <= hi <= v@.len(),
    ensures
        lo <= r.0 <= r.1 <= hi,
        v@.subrange(r.0 as int, r.1 as int) == trim_both(v@.subrange(lo as int, hi as int), k),
{
    let mut a = lo;
    while a < hi && class_has(k, v[a])
        invariant
            lo <= a <= hi <= v@.len(),
            trim_start(v@.subrange(lo as int, hi as int), k) == trim_start(
                v@.subrange(a as int, hi as int),
                k,
            ),
        decreases hi - a,
    {
        proof {
            lemma_trim_start_step(v@, a as int, hi as int, k);
        }
        a += 1;
    }
    assert(trim_start(v@.subrange(a as int, hi as int), k) == v@.subrange(a as int, hi as int));
    let mut b = hi;
    while b > a && class_has(k, v[b - 1])
        invariant
            lo <= a <= b <= hi <= v@.len(),
            trim_end(v@.subrange(a as int, hi as int), k) == trim_end(
                v@.subrange(a as int, b as int),
                k,
            ),
        decreases b - a,
    {
        proof {
            lemma_trim_end_step(v@, a as int, b as int, k);
        }
        b -= 1;
    }
    (a, b)
}

/// `[lo, hi)` with trailing chars of class `k` dropped (`str::trim_end_matches`).
pub fn trim_end_range(v: &Vec<char>, lo: usize, hi: usize, k: CharClass) -> (b: usize)
    requires
        lo <= hi <= v@.len(),
    ensures
        lo <= b <= hi,
        v@.subrange(lo as int, b as int) == trim_end(v@.subrange(lo as int, hi as int), k),
{
    let mut b = hi;
    while b > lo && class_has(k, v[b - 1])
        invariant
            lo <= b <= hi <= v@.len(),
            trim_end(v@.subrange(lo as int, hi as int), k) == trim_end(
                v@.subrange(lo as int, b as int),
                k,
            ),
        decreases b - lo,
    {
        proof {
            lemma_trim_end_step(v@, lo as int, b as int, k);
        }
        b -= 1;
    }
    b
}

/// The pieces of `v[lo..hi]` split at every char of class `k`, as ranges.
pub fn split_ranges(v: &Vec<char>, lo: usize, hi: usize, k: CharClass) -> (r: Vec<(usize, usize)>)
    requires
        lo <= hi <= v@.len(),
    ensures
        r@.len() == split(v@.subrange(lo as int, hi as int), k).len(),
        forall|i: int|
            0 <= i < r@.len() ==> {
                &&& lo <= (#[trigger] r@[i]).0 <= r@[i].1 <= hi
                &&& v@.subrange(r@[i].0 as int, r@[i].1 as int) == split(
                    v@.subrange(lo as int, hi as int),
                    k,
                )[i]
            },
{
    let mut done: Vec<(usize, usize)> = Vec::new();
    let mut start = lo;
    let mut i = lo;
    proof {
        assert(v@.subrange(lo as int, lo as int) =~= Seq::<char>::empty());
    }
    while i < hi
        invariant
            lo <= start <= i <= hi <= v@.len(),
            split(v@.subrange(lo as int, i as int), k).len() == done@.len() + 1,
            split(v@.subrange(lo as int, i as int), k).last() == v@.subrange(start as int, i as int),
            forall|j: int|
                0 <= j < done@.len() ==> {
                    &&& lo <= (#[trigger] done@[j]).0 <= done@[j].1 <= i
                    &&& v@.subrange(done@[j].0 as int, done@[j].1 as int) == split(
                        v@.subrange(lo as int, i as int),
                        k,
                    )[j]
                },
        decreases hi - i,
    {
        let ghost prev = split(v@.subrange(lo as int, i as int), k);
        proof {
            assert(v@.subrange(lo as int, i + 1).drop_last() =~= v@.subrange(lo as int, i as int));
            assert(v@.subrange(lo as int, i + 1).last() == v@[i as int]);
        }
        if class_has(k, v[i]) {
            done.push((start, i));
            start = i + 1;
            i += 1;
            proof {
                assert(v@.subrange(start as int, i as int) =~= Seq::<char>::empty());
            }
        } else {
            i += 1;
            proof {
                assert(v@.subrange(start as int, i as int) =~= v@.subrange(
                    start as int,
                    i - 1,
                ).push(v@[i - 1]));
            }
        }
    }
    done.push((start, hi));
    done
}

/// The non-empty pieces of `v[lo..hi]` between whitespace (`str::split_whitespace`).
pub fn token_ranges(v: &Vec<char>, lo: usize, hi: usize) -> (r: Vec<(usize, usize)>)
    requires
        lo <= hi <= v@.len(),
    ensures
        r@.len() == tokens(v@.subrange(lo as int, hi as int)).len(),
        forall|i: int|
            0 <= i < r@.len() ==> {
                &&& lo <= (#[trigger] r@[i]).0 <= r@[i].1 <= hi
                &&& v@.subrange(r@[i].0 as int, r@[i].1 as int) == tokens(
                    v@.subrange(lo as int, hi as int),
                )[i]
            },
{
    let pieces = split_ranges(v, lo, hi, CharClass::Whitespace);
    let ghost ps = split(v@.subrange(lo as int, hi as int), CharClass::Whitespace);
    let mut out: Vec<(usize, usize)> = Vec::new();
    let mut j: usize = 0;
    while j < pieces.len()
        invariant
            0 <= j <= pieces@.len() == ps.len(),
            lo <= hi <= v@.len(),
            ps == split(v@.subrange(lo as int, hi as int), CharClass::Whitespace),
            forall|i: int|
                0 <= i < pieces@.len() ==> {
                    &&& lo <= (#[trigger] pieces@[i]).0 <= pieces@[i].1 <= hi
                    &&& v@.subrange(pieces@[i].0 as int, pieces@[i].1 as int) == ps[i]
                },
            out@.len() == non_empty_pieces(ps.take(j as int)).len(),
            forall|i: int|
                0 <= i < out@.len() ==> {
                    &&& lo <= (#[trigger] out@[i]).0 <= out@[i].1 <= hi
                    &&& v@.subrange(out@[i].0 as int, out@[i].1 as int) == non_empty_pieces(
                        ps.take(j as int),
                    )[i]
                },
        decreases pieces@.len() - j,
    {
        let (a, b) = pieces[j];
        proof {
            assert(ps.take(j + 1).drop_last() =~= ps.take(j as int));
            assert(ps.take(j + 1).last() == ps[j as int]);
        }
        if a < b {
            out.push((a, b));
        }
        j += 1;
    }
    proof {
        assert(ps.take(j as int) =~= ps);
    }
    out
}

/// The lines of `v[lo..hi]` (`str::lines`), as ranges.
pub fn line_ranges(v: &Vec<char>, lo: usize, hi: usize) -> (r: Vec<(usize, usize)>)
    requires
        lo <= hi <= v@.len(),
    ensures
        r@.len() == lines(v@.subrange(lo as int, hi as int)).len(),
        forall|i: int|
            0 <= i < r@.len() ==> {
                &&& lo <= (#[trigger] r@[i]).0 <= r@[i].1 <= hi
                &&& v@.subrange(r@[i].0 as int, r@[i].1 as int) == lines(
                    v@.subrange(lo as int, hi as int),
                )[i]
            },
{
    let pieces = split_ranges(v, lo, hi, CharClass::Exactly('\n'));
    let ghost ps = split(v@.subrange(lo as int, hi as int), CharClass::Exactly('\n'));
    proof {
        lemma_split_nonempty(v@.subrange(lo as int, hi as int), CharClass::Exactly('\n'));
    }
    let n = pieces.len();
    let mut out: Vec<(usize, usize)> = Vec::new();
    let mut j: usize = 0;
    while j + 1 < n
        invariant
            0 <= j <= n - 1,
            n == pieces@.len() == ps.len() >= 1,
            lo <= hi <= v@.len(),
            forall|i: int|
                0 <= i < pieces@.len() ==> {
                    &&& lo <= (#[trigger] pieces@[i]).0 <= pieces@[i].1 <= hi
                    &&& v@.subrange(pieces@[i].0 as int, pieces@[i].1 as int) == ps[i]
                },
            out@.len() == j,
            forall|i: int|
                0 <= i < j ==> {
                    &&& lo <= (#[trigger] out@[i]).0 <= out@[i].1 <= hi
                    &&& v@.subrange(out@[i].0 as int, out@[i].1 as int) == strip_cr(ps[i])
                },
        decreases n - j,
    {
        let (a, b) = pieces[j];
        if a < b && v[b - 1] == '\r' {
            out.push((a, b - 1));
            proof {
                assert(v@.subrange(a as int, b - 1) =~= v@.subrange(a as int, b as int).drop_last());
            }
        } else {
            out.push((a, b));
        }
        j += 1;
    }
    let (a, b) = pieces[n - 1];
    if a < b {
        out.push((a, b));
    }
    proof {
        let body = ps.drop_last().map_values(|t: Seq<char>| strip_cr(t));
        assert(body.len() == n - 1);
        assert forall|i: int| 0 <= i < n - 1 implies body[i] == strip_cr(ps[i]) by {}
    }
    out
}

/// `v[lo..hi] == p`.
pub fn range_eq(v: &Vec<char>, lo: usize, hi: usize, p: &Vec<char>) -> (b: bool)
    requires
        lo <= hi <= v@.len(),
    ensures
        b == (v@.subrange(lo as int, hi as int) == p@),
{
    if hi - lo != p.len() {
        return false;
    }
    let mut i: usize = 0;
    while i < p.len()
        invariant
            lo <= hi <= v@.len(),
            hi - lo == p@.len(),
            0 <= i <= p@.len(),
            forall|j: int| 0 <= j < i ==> v@[lo + j] == p@[j],
        decreases p@.len() - i,
    {
        if v[lo + i] != p[i] {
            assert(v@.subrange(lo as int, hi as int)[i as int] != p@[i as int]);
            return false;
        }
        i += 1;
    }
    assert(v@.subrange(lo as int, hi as int) =~= p@);
    true
}

/// `v[lo..hi]` equals the text `t`.
pub fn range_is(v: &Vec<char>, lo: usize, hi: usize, t: &str) -> (b: bool)
    requires
        lo <= hi <= v@.len(),
    ensures
        b == (v@.subrange(lo as int, hi as int) == t@),
{
    let p = chars_of(t);
    range_eq(v, lo, hi, &p)
}

/// Whether `p` occurs in `v[lo..hi]` at offset `i` (relative to `lo`).
pub fn occurs_at_exec(v: &Vec<char>, lo: usize, hi: usize, p: &Vec<char>, i: usize) -> (b: bool)
    requires
        lo <= hi <= v@.len(),
    ensures
        b == occurs_at(v@.subrange(lo as int, hi as int), p@, i as int),
{
    if i > hi - lo || p.len() > hi - lo - i {
        return false;
    }
    let r = range_eq(v, lo + i, lo + i + p.len(), p);
    proof {
        assert(v@.subrange(lo as int, hi as int).subrange(i as int, i + p@.len()) =~= v@.subrange(
            lo + i,
            lo + i + p@.len(),
        ));
    }
    r
}

pub proof fn lemma_first_occurrence_is(s: Seq<char>, p: Seq<char>, i: int)
    requires
        occurs_at(s, p, i),
        forall|j: int| 0 <= j < i ==> !occurs_at(s, p, j),
    ensures
        first_occurrence(s, p) == Some(i),
{
    reveal(first_occurrence);
    let w = choose|w: int| occurs_at(s, p, w) && forall|j: int| 0 <= j < w ==> !occurs_at(s, p, j);
    assert(occurs_at(s, p, w) && forall|j: int| 0 <= j < w ==> !occurs_at(s, p, j));
    if w < i {
        assert(!occurs_at(s, p, w));
    } else if w > i {
        assert(!occurs_at(s, p, i));
    }
}

pub proof fn lemma_no_occurrence(s: Seq<char>, p: Seq<char>)
    requires
        forall|j: int| 0 <= j <= s.len() - p.len() ==> !occurs_at(s, p, j),
    ensures
        first_occurrence(s, p) is None,
        !contains_seq(s, p),
{
    reveal(first_occurrence);
    if contains_seq(s, p) {
        let w = choose|w: int| occurs_at(s, p, w);
        assert(occurs_at(s, p, w));
    }
}

/// The first offset (relative to `lo`) at which `p` occurs in `v[lo..hi]`.
pub fn find_in(v: &Vec<char>, lo: usize, hi: usize, p: &Vec<char>) -> (r: Option<usize>)
    requires
        lo <= hi <= v@.len(),
    ensures
        r matches Some(i) ==> first_occurrence(v@.subrange(lo as int, hi as int), p@) == Some(
            i as int,
        ),
        r matches Some(i) ==> occurs_at(v@.subrange(lo as int, hi as int), p@, i as int),
        r is None ==> first_occurrence(v@.subrange(lo as int, hi as int), p@) is None,
        r is None <==> !contains_seq(v@.subrange(lo as int, hi as int), p@),
{
    let ghost s = v@.subrange(lo as int, hi as int);
    if p.len() > hi - lo {
        proof {
            lemma_no_occurrence(s, p@);
        }
        return None;
    }
    let last = hi - lo - p.len();
    let mut i: usize = 0;
    loop
        invariant
            lo <= hi <= v@.len(),
            last == hi - lo - p@.len(),
            s == v@.subrange(lo as int, hi as int),
            0 <= i <= last,
            forall|j: int| 0 <= j < i ==> !occurs_at(s, p@, j),
        ensures
            forall|j: int| 0 <= j <= last ==> !occurs_at(s, p@, j),
        decreases last - i,
    {
        if occurs_at_exec(v, lo, hi, p, i) {
            proof {
                lemma_first_occurrence_is(s, p@, i as int);
            }
            return Some(i);
        }
        if i == last {
            break;
        }
        i += 1;
    }
    proof {
        lemma_no_occurrence(s, p@);
    }
    None
}

/// Whether `p` occurs anywhere in `v[lo..hi]`.
pub fn contains_in(v: &Vec<char>, lo: usize, hi: usize, p: &Vec<char>) -> (b: bool)
    requires
        lo <= hi <= v@.len(),
    ensures
        b == contains_seq(v@.subrange(lo as int, hi as int), p@),
{
    let r = find_in(v, lo, hi, p);
    r.is_some()
}

pub fn starts_with_exec(v: &Vec<char>, lo: usize, hi: usize, p: &Vec<char>) -> (b: bool)
    requires
        lo <= hi <= v@.len(),
    ensures
        b == starts_with(v@.subrange(lo as int, hi as int), p@),
{
    occurs_at_exec(v, lo, hi, p, 0)
}

pub fn ends_with_exec(v: &Vec<char>, lo: usize, hi: usize, p: &Vec<char>) -> (b: bool)
    requires
        lo <= hi <= v@.len(),
    ensures
        b == ends_with(v@.subrange(lo as int, hi as int), p@),
{
    if p.len() > hi - lo {
        return false;
    }
    occurs_at_exec(v, lo, hi, p, hi - lo - p.len())
}

pub fn ascii_lower_char(c: char) -> (d: char)
    ensures
        d == ascii_lower(c),
{
    if 'A' <= c && c <= 'Z' {
        let n: u8 = (c as u8) + 32;
        n as char
    } else {
        c
    }
}

/// `v[lo..hi]` with ASCII letters lowered.
pub fn ascii_lowercase_range(v: &Vec<char>, lo: usize, hi: usize) -> (r: Vec<char>)
    requires
        lo <= hi <= v@.len(),
    ensures
        r@ == ascii_lowercase(v@.subrange(lo as int, hi as int)),
{
    let mut r: Vec<char> = Vec::new();
    let mut i = lo;
    while i < hi
        invariant
            lo <= i <= hi <= v@.len(),
            r@ == ascii_lowercase(v@.subrange(lo as int, i as int)),
        decreases hi - i,
    {
        let c = ascii_lower_char(v[i]);
        r.push(c);
        i += 1;
        proof {
            assert(r@ =~= ascii_lowercase(v@.subrange(lo as int, i as int)));
        }
    }
    r
}

/// `v[lo..hi].eq_ignore_ascii_case(t)`.
pub fn range_eq_ignore_ascii_case(v: &Vec<char>, lo: usize, hi: usize, t: &str) -> (b: bool)
    requires
        lo <= hi <= v@.len(),
    ensures
        b == eq_ignore_ascii_case(v@.subrange(lo as int, hi as int), t@),
{
    let a = ascii_lowercase_range(v, lo, hi);
    let tv = chars_of(t);
    let b = ascii_lowercase_range(&tv, 0, tv.len());
    proof {
        assert(tv@.subrange(0, tv@.len() as int) =~= t@);
        assert(a@.subrange(0, a@.len() as int) =~= a@);
    }
    range_eq(&a, 0, a.len(), &b)
}

/// `a == b` for string slices.
pub fn str_eq(a: &str, b: &str) -> (r: bool)
    ensures
        r == (a@ == b@),
{
    let av = chars_of(a);
    let bv = chars_of(b);
    proof {
        assert(av@.subrange(0, av@.len() as int) =~= av@);
    }
    range_eq(&av, 0, av.len(), &bv)
}

/// The text of an optional string.
pub open spec fn opt_view(o: Option<String>) -> Option<Seq<char>> {
    match o {
        Some(s) => Some(s@),
        None => None,
    }
}

/// The texts of a list of strings.
pub open spec fn strs_view(v: Seq<String>) -> Seq<Seq<char>> {
    v.map_values(|s: String| s@)
}

/// `out` is `before` with strings of texts `added` appended.
pub open spec fn appended(before: Seq<String>, out: Seq<String>, added: Seq<Seq<char>>) -> bool {
    &&& out.len() == before.len() + added.len()
    &&& forall|i: int| 0 <= i < before.len() ==> #[trigger] out[i] == before[i]
    &&& forall|i: int| 0 <= i < added.len() ==> #[trigger] out[before.len() + i]@ == added[i]
}

pub proof fn lemma_appended_push(before: Seq<String>, out: Seq<String>, added: Seq<Seq<char>>, s: String)
    requires
        appended(before, out, added),
    ensures
        appended(before, out.push(s), added.push(s@)),
{
    let o2 = out.push(s);
    let a2 = added.push(s@);
    assert forall|i: int| 0 <= i < a2.len() implies #[trigger] o2[before.len() + i]@ == a2[i] by {
        if i < added.len() {
            assert(o2[before.len() + i] == out[before.len() + i]);
        }
    }
    assert forall|i: int| 0 <= i < before.len() implies #[trigger] o2[i] == before[i] by {
        assert(o2[i] == out[i]);
    }
}

pub proof fn lemma_appended_nothing(before: Seq<String>)
    ensures
        appended(before, before, Seq::empty()),
{
}

pub proof fn lemma_decimal_value_step(s: Seq<char>, i: int)
    requires
        0 <= i < s.len(),
    ensures
        decimal_value(s.take(i + 1)) == decimal_value(s.take(i)) * 10 + digit_value(s[i]),
{
    assert(s.take(i + 1).drop_last() =~= s.take(i));
}

pub proof fn lemma_decimal_value_grows(s: Seq<char>, i: int)
    requires
        0 <= i <= s.len(),
    ensures
        decimal_value(s) >= decimal_value(s.take(i)),
    decreases s.len() - i,
{
    if i < s.len() {
        lemma_decimal_value_step(s, i);
        lemma_decimal_value_grows(s, i + 1);
    } else {
        assert(s.take(i) =~= s);
    }
}

/// `v[lo..hi].parse::<u64>()`.
pub fn parse_u64_range(v: &Vec<char>, lo: usize, hi: usize) -> (r: Option<u64>)
    requires
        lo <= hi <= v@.len(),
    ensures
        r == parse_u64(v@.subrange(lo as int, hi as int)),
{
    let ghost s = v@.subrange(lo as int, hi as int);
    let mut start = lo;
    if lo < hi && v[lo] == '+' {
        start = lo + 1;
    }
    let ghost d = v@.subrange(start as int, hi as int);
    proof {
        if lo < hi && v@[lo as int] == '+' {
            assert(d =~= s.drop_first());
        } else {
            assert(d =~= s);
        }
    }
    if start == hi {
        return None;
    }
    let mut acc: u64 = 0;
    let mut i = start;
    while i < hi
        invariant
            lo <= start <= i <= hi <= v@.len(),
            d == v@.subrange(start as int, hi as int),
            s == v@.subrange(lo as int, hi as int),
            d == (if s.len() > 0 && s[0] == '+' { s.drop_first() } else { s }),
            d.len() > 0,
            all_digits(d.take(i - start)),
            acc == decimal_value(d.take(i - start)),
        decreases hi - i,
    {
        let c = v[i];
        proof {
            lemma_decimal_value_step(d, i - start);
            assert(d[i - start] == c);
        }
        if !('0' <= c && c <= '9') {
            proof {
                assert(!is_digit(d[i - start]));
                assert(!all_digits(d));
            }
            return None;
        }
        let dig: u64 = (c as u32 - '0' as u32) as u64;
        assert(dig == digit_value(d[i - start]));
        if acc > (u64::MAX - dig) / 10 {
            proof {
                assert(decimal_value(d.take(i - start + 1)) > u64::MAX) by (nonlinear_arith)
                    requires
                        acc > (u64::MAX - dig) / 10,
                        decimal_value(d.take(i - start + 1)) == acc * 10 + dig,
                ;
                lemma_decimal_value_grows(d, i - start + 1);
                assert(decimal_value(d) > u64::MAX);
            }
            return None;
        }
        acc = acc * 10 + dig;
        i += 1;
        proof {
            assert forall|j: int| 0 <= j < i - start implies is_digit(#[trigger] d.take(i - start)[j]) by {
                if j < i - start - 1 {
                    assert(d.take(i - start)[j] == d.take(i - start - 1)[j]);
                }
            }
        }
    }
    proof {
        assert(d.take(i - start) =~= d);
    }
    Some(acc)
}

/// Appends the decimal digits of `n`.
pub fn push_decimal(s: &mut String, n: u64)
    ensures
        final(s)@ == old(s)@ + decimal(n as nat),
    decreases n,
{
    if n >= 10 {
        push_decimal(s, n / 10);
    }
    let d: u8 = (n % 10) as u8;
    let c: char = (48u8 + d) as char;
    push_char(s, c);
    proof {
        assert(c == digit_char((n % 10) as nat));
        if n >= 10 {
            assert(old(s)@ + decimal((n / 10) as nat) + seq![c] =~= old(s)@ + decimal(n as nat));
        } else {
            assert(old(s)@.push(c) =~= old(s)@ + decimal(n as nat));
        }
    }
}

pub proof fn lemma_appended_trans(
    a: Seq<String>,
    b: Seq<String>,
    c: Seq<String>,
    x: Seq<Seq<char>>,
    y: Seq<Seq<char>>,
)
    requires
        appended(a, b, x),
        appended(b, c, y),
    ensures
        appended(a, c, x + y),
{
    assert forall|i: int| 0 <= i < (x + y).len() implies #[trigger] c[a.len() + i]@ == (x + y)[i] by {
        if i < x.len() {
            assert(c[a.len() + i] == b[a.len() + i]);
        } else {
            assert(c[b.len() + (i - x.len())]@ == y[i - x.len()]);
        }
    }
    assert forall|i: int| 0 <= i < a.len() implies #[trigger] c[i] == a[i] by {
        assert(c[i] == b[i]);
    }
}

/// Appends `m` to `warnings`.
pub fn push_message(warnings: &mut Vec<String>, m: String)
    ensures
        appended(old(warnings)@, final(warnings)@, seq![m@]),
{
    let ghost before = warnings@;
    warnings.push(m);
    proof {
        lemma_appended_nothing(before);
        lemma_appended_push(before, before, Seq::empty(), m);
        assert(Seq::<Seq<char>>::empty().push(m@) =~= seq![m@]);
    }
}

// ---------------------------------------------------------------------------
// Ordering and case folding

/// `a <= b` in the order `str`'s `Ord` uses: UTF-8 bytes compared in turn,
/// which is the order of the chars' code points, a prefix first.
pub open spec fn lex_le(a: Seq<char>, b: Seq<char>) -> bool
    decreases a.len(),
{
    if a.len() == 0 {
        true
    } else if b.len() == 0 {
        false
    } else if (a[0] as u32) < (b[0] as u32) {
        true
    } else if a[0] == b[0] {
        lex_le(a.drop_first(), b.drop_first())
    } else {
        false
    }
}

/// `a <= b` for two char sequences, in [`lex_le`]'s order.
pub fn lex_le_exec(a: &Vec<char>, b: &Vec<char>) -> (r: bool)
    ensures
        r == lex_le(a@, b@),
{
    let mut i: usize = 0;
    proof {
        assert(a@.skip(0) =~= a@);
        assert(b@.skip(0) =~= b@);
    }
    while i < a.len() && i < b.len() && a[i] == b[i]
        invariant
            0 <= i <= a@.len(),
            i <= b@.len(),
            lex_le(a@, b@) == lex_le(a@.skip(i as int), b@.skip(i as int)),
        decreases a@.len() - i,
    {
        proof {
            assert(a@.skip(i as int).drop_first() =~= a@.skip(i + 1));
            assert(b@.skip(i as int).drop_first() =~= b@.skip(i + 1));
        }
        i += 1;
    }
    if i == a.len() {
        true
    } else if i == b.len() {
        false
    } else {
        (a[i] as u32) < (b[i] as u32)
    }
}

/// What `str::to_lowercase` returns for a text: its Unicode lowercase
/// mapping, which depends on the text alone.
pub uninterp spec fn lowercase(s: Seq<char>) -> Seq<char>;

/// `str::to_lowercase`.
#[verifier::external_body]
pub(crate) fn to_lowercase(s: &str) -> (r: String)
    ensures
        r@ == lowercase(s@),
{
    s.to_lowercase()
}

/// [`lex_le`] is total.
pub proof fn lemma_lex_total(a: Seq<char>, b: Seq<char>)
    ensures
        lex_le(a, b) || lex_le(b, a),
    decreases a.len(),
{
    if a.len() > 0 && b.len() > 0 && a[0] == b[0] {
        lemma_lex_total(a.drop_first(), b.drop_first());
    } else if a.len() > 0 && b.len() > 0 {
        vstd::utf8::char_u32_cast(a[0], a[0] as u32);
        vstd::utf8::char_u32_cast(b[0], b[0] as u32);
        assert((a[0] as u32) != (b[0] as u32));
    }
}

/// [`lex_le`] is transitive.
pub proof fn lemma_lex_trans(a: Seq<char>, b: Seq<char>, c: Seq<char>)
    requires
        lex_le(a, b),
        lex_le(b, c),
    ensures
        lex_le(a, c),
    decreases a.len(),
{
    if a.len() > 0 && b.len() > 0 && c.len() > 0 && a[0] == b[0] && b[0] == c[0] {
        lemma_lex_trans(a.drop_first(), b.drop_first(), c.drop_first());
    }
}

// ---------------------------------------------------------------------------
// Byte offsets into UTF-8 text

/// The number of UTF-8 bytes of `s`, what `str::len` returns.
pub open spec fn byte_len(s: Seq<char>) -> nat {
    vstd::utf8::encode_utf8(s).len()
}

/// The number of UTF-8 bytes of one char.
pub open spec fn char_width(c: char) -> nat {
    vstd::utf8::encode_scalar(c as u32).len()
}

pub proof fn lemma_encode_concat(a: Seq<char>, b: Seq<char>)
    ensures
        vstd::utf8::encode_utf8(a + b) == vstd::utf8::encode_utf8(a) + vstd::utf8::encode_utf8(b),
    decreases a.len(),
{
    if a.len() == 0 {
        assert(a + b =~= b);
        assert(vstd::utf8::encode_utf8(a) + vstd::utf8::encode_utf8(b) =~= vstd::utf8::encode_utf8(b));
    } else {
        lemma_encode_concat(a.drop_first(), b);
        assert((a + b).drop_first() =~= a.drop_first() + b);
        assert((a + b)[0] == a[0]);
        assert(vstd::utf8::encode_utf8(a + b) =~= vstd::utf8::encode_scalar(a[0] as u32) + (
        vstd::utf8::encode_utf8(a.drop_first()) + vstd::utf8::encode_utf8(b)));
    }
}

pub proof fn lemma_byte_len_step(s: Seq<char>, k: int)
    requires
        0 <= k < s.len(),
    ensures
        byte_len(s.take(k + 1)) == byte_len(s.take(k)) + char_width(s[k]),
{
    assert(s.take(k + 1) =~= s.take(k) + seq![s[k]]);
    lemma_encode_concat(s.take(k), seq![s[k]]);
    let one = seq![s[k]];
    assert(one.drop_first() =~= Seq::<char>::empty());
    assert(vstd::utf8::encode_utf8(one.drop_first()) =~= Seq::<u8>::empty());
    assert(vstd::utf8::encode_utf8(one) =~= vstd::utf8::encode_scalar(one[0] as u32));
}

pub proof fn lemma_byte_len_grows(s: Seq<char>, j: int, k: int)
    requires
        0 <= j <= k <= s.len(),
    ensures
        byte_len(s.take(j)) + (k - j) <= byte_len(s.take(k)),
    decreases k - j,
{
    if j < k {
        lemma_byte_len_step(s, k - 1);
        lemma_byte_len_grows(s, j, k - 1);
    }
}

/// The number of UTF-8 bytes of `c`.
pub fn char_width_exec(c: char) -> (w: usize)
    ensures
        w == char_width(c),
        1 <= w <= 4,
{
    let u = c as u32;
    if u <= 0x7F {
        1
    } else if u <= 0x7FF {
        2
    } else if u <= 0xFFFF {
        3
    } else {
        4
    }
}

/// The char index whose UTF-8 offset in `s` is `b`, if `b` falls on a char boundary.
pub open spec fn char_index_at_byte(s: Seq<char>, b: int) -> Option<int> {
    if exists|k: int| 0 <= k <= s.len() && byte_len(s.take(k)) == b {
        Some(choose|k: int| 0 <= k <= s.len() && byte_len(s.take(k)) == b)
    } else {
        None
    }
}

pub proof fn lemma_char_index_unique(s: Seq<char>, j: int, k: int)
    requires
        0 <= j <= s.len(),
        0 <= k <= s.len(),
        byte_len(s.take(j)) == byte_len(s.take(k)),
    ensures
        j == k,
{
    if j < k {
        lemma_byte_len_grows(s, j, k);
    } else if k < j {
        lemma_byte_len_grows(s, k, j);
    }
}

/// The char index at byte offset `b` of `v`, or `None` off a boundary.
pub fn char_index_at_byte_exec(v: &Vec<char>, b: usize) -> (r: Option<usize>)
    ensures
        r matches Some(k) ==> char_index_at_byte(v@, b as int) == Some(k as int) && k <= v@.len(),
        r is None ==> char_index_at_byte(v@, b as int) is None,
{
    let mut k: usize = 0;
    let mut off: usize = 0;
    proof {
        assert(v@.take(0) =~= Seq::<char>::empty());
    }
    while k < v.len() && off < b
        invariant
            0 <= k <= v@.len(),
            off == byte_len(v@.take(k as int)),
            off <= b || k == 0,
            forall|j: int| 0 <= j < k ==> byte_len(#[trigger] v@.take(j)) < b,
        decreases v@.len() - k,
    {
        proof {
            lemma_byte_len_step(v@, k as int);
        }
        let w = char_width_exec(v[k]);
        if w > b - off {
            proof {
                assert forall|j: int| 0 <= j <= v@.len() implies byte_len(#[trigger] v@.take(j)) != b by {
                    if j > k {
                        lemma_byte_len_grows(v@, k + 1, j);
                    }
                }
            }
            return None;
        }
        off = off + w;
        k += 1;
    }
    if off == b {
        proof {
            assert(0 <= k <= v@.len() && byte_len(v@.take(k as int)) == b);
            let c = choose|j: int| 0 <= j <= v@.len() && byte_len(v@.take(j)) == b;
            lemma_char_index_unique(v@, c, k as int);
        }
        Some(k)
    } else {
        proof {
            assert forall|j: int| 0 <= j <= v@.len() implies byte_len(#[trigger] v@.take(j)) != b by {
                if j > k {
                    lemma_byte_len_grows(v@, k as int, j);
                }
            }
        }
        None
    }
}

/// Whether the UTF-8 length of `v` fits in a `usize`.
pub fn byte_len_fits(v: &Vec<char>) -> (b: bool)
    ensures
        b == (byte_len(v@) <= usize::MAX),
{
    let mut k: usize = 0;
    let mut off: usize = 0;
    proof {
        assert(v@.take(0) =~= Seq::<char>::empty());
        assert(v@.take(v@.len() as int) =~= v@);
    }
    while k < v.len()
        invariant
            0 <= k <= v@.len(),
            off == byte_len(v@.take(k as int)),
            v@.take(v@.len() as int) == v@,
        decreases v@.len() - k,
    {
        proof {
            lemma_byte_len_step(v@, k as int);
        }
        let w = char_width_exec(v[k]);
        if w > usize::MAX - off {
            proof {
                lemma_byte_len_grows(v@, k + 1, v@.len() as int);
            }
            return false;
        }
        off = off + w;
        k += 1;
    }
    true
}

/// The UTF-8 length of `v`.
pub fn byte_len_exec(s: &str) -> (n: usize)
    requires
        byte_len(s@) <= usize::MAX,
    ensures
        n == byte_len(s@),
{
    s.len()
}

// ---------------------------------------------------------------------------
// Joining

/// `parts` separated by `sep`.
pub open spec fn joined(parts: Seq<Seq<char>>, sep: Seq<char>) -> Seq<char>
    decreases parts.len(),
{
    if parts.len() == 0 {
        Seq::empty()
    } else if parts.len() == 1 {
        parts[0]
    } else {
        joined(parts.drop_last(), sep) + sep + parts.last()
    }
}

pub fn push_joined(s: &mut String, parts: &Vec<String>, sep: &str)
    ensures
        final(s)@ == old(s)@ + joined(strs_view(parts@), sep@),
{
    let ghost start = s@;
    let mut i: usize = 0;
    proof {
        assert(start + joined(strs_view(parts@.take(0)), sep@) =~= start);
    }
    while i < parts.len()
        invariant
            0 <= i <= parts@.len(),
            s@ == start + joined(strs_view(parts@.take(i as int)), sep@),
        decreases parts@.len() - i,
    {
        proof {
            assert(strs_view(parts@.take(i + 1)).drop_last() =~= strs_view(parts@.take(i as int)));
            assert(strs_view(parts@.take(i + 1)).last() == parts@[i as int]@);
        }
        if i > 0 {
            push_str(s, sep);
        }
        push_str(s, parts[i].as_str());
        i += 1;
        proof {
            assert(s@ =~= start + joined(strs_view(parts@.take(i as int)), sep@));
        }
    }
    proof {
        assert(parts@.take(i as int) =~= parts@);
    }
}

} // verus!
