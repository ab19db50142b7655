//! Cross-manager duplicate detection: the same software installed through
//! more than one package manager. Groups are only reported, never acted on.
use vstd::prelude::*;

use crate::domain::{
    items_view, ClassificationConfidence, DuplicateGroup, PackageManager, SoftwareItem,
    SoftwareItemView,
};
use crate::text::{
    chars_of, decimal, lemma_lex_total, lemma_lex_trans, lex_le, lex_le_exec, lowercase, push_decimal, push_str, str_eq,
    string_of_all, strs_view, to_lowercase,
};

verus! {

/// What `char::is_alphanumeric` says of a char (Unicode `Alphabetic` or `Numeric`).
pub uninterp spec fn alphanumeric(c: char) -> bool;

/// `char::is_alphanumeric`.
#[verifier::external_body]
fn is_alphanumeric(c: char) -> (b: bool)
    ensures
        b == alphanumeric(c),
{
    c.is_alphanumeric()
}

/// The alphanumeric chars of `s`, in order.
pub open spec fn keep_alphanumeric(s: Seq<char>) -> Seq<char>
    decreases s.len(),
{
    if s.len() == 0 {
        s
    } else if alphanumeric(s.last()) {
        keep_alphanumeric(s.drop_last()).push(s.last())
    } else {
        keep_alphanumeric(s.drop_last())
    }
}

/// The key duplicates are matched by: the name lowercased, with everything
/// but letters and digits dropped.
pub open spec fn normalized(name: Seq<char>) -> Seq<char> {
    keep_alphanumeric(lowercase(name))
}

/// `name` lowercased, keeping only letters and digits.
pub fn normalize_name(name: &str) -> (r: String)
    ensures
        r@ == normalized(name@),
{
    let lower = chars_of(to_lowercase(name).as_str());
    let mut kept: Vec<char> = Vec::new();
    let mut i: usize = 0;
    while i < lower.len()
        invariant
            0 <= i <= lower@.len(),
            kept@ == keep_alphanumeric(lower@.take(i as int)),
        decreases lower@.len() - i,
    {
        proof {
            assert(lower@.take(i + 1).drop_last() =~= lower@.take(i as int));
        }
        if is_alphanumeric(lower[i]) {
            kept.push(lower[i]);
        }
        i += 1;
    }
    proof {
        assert(lower@.take(i as int) =~= lower@);
    }
    string_of_all(&kept)
}

// ---------------------------------------------------------------------------
// Sorting by a text key

/// `s` (already ordered) with `x` placed after every element whose key is not greater.
pub open spec fn insert_by<T>(s: Seq<T>, x: T, key: spec_fn(T) -> Seq<char>) -> Seq<T>
    decreases s.len(),
{
    if s.len() == 0 {
        seq![x]
    } else if lex_le(key(s.last()), key(x)) {
        s.push(x)
    } else {
        insert_by(s.drop_last(), x, key).push(s.last())
    }
}

/// The stable sort of `s` by `key`.
pub open spec fn sorted_by<T>(s: Seq<T>, key: spec_fn(T) -> Seq<char>) -> Seq<T>
    decreases s.len(),
{
    if s.len() == 0 {
        s
    } else {
        insert_by(sorted_by(s.drop_last(), key), s.last(), key)
    }
}

/// Inserting adds the item to what the sequence holds.
pub proof fn lemma_insert_by_multiset<T>(s: Seq<T>, x: T, key: spec_fn(T) -> Seq<char>)
    ensures
        insert_by(s, x, key).to_multiset() =~= s.to_multiset().insert(x),
    decreases s.len(),
{
    broadcast use vstd::seq_lib::group_to_multiset_ensures;
    if s.len() == 0 {
        assert(seq![x] =~= Seq::<T>::empty().push(x));
    } else if !lex_le(key(s.last()), key(x)) {
        lemma_insert_by_multiset(s.drop_last(), x, key);
        assert(s.drop_last().push(s.last()) =~= s);
    }
}

/// Sorting neither loses nor adds anything.
pub proof fn lemma_sorted_by_multiset<T>(s: Seq<T>, key: spec_fn(T) -> Seq<char>)
    ensures
        sorted_by(s, key).to_multiset() =~= s.to_multiset(),
    decreases s.len(),
{
    broadcast use vstd::seq_lib::group_to_multiset_ensures;
    if s.len() > 0 {
        lemma_sorted_by_multiset(s.drop_last(), key);
        lemma_insert_by_multiset(sorted_by(s.drop_last(), key), s.last(), key);
        assert(s.drop_last().push(s.last()) =~= s);
    }
}

pub proof fn lemma_insert_by_at<T>(s: Seq<T>, x: T, key: spec_fn(T) -> Seq<char>, pos: int)
    requires
        0 <= pos <= s.len(),
        forall|j: int| pos <= j < s.len() ==> !lex_le(key(#[trigger] s[j]), key(x)),
        pos == 0 || lex_le(key(s[pos - 1]), key(x)),
    ensures
        insert_by(s, x, key) == s.insert(pos, x),
    decreases s.len(),
{
    if s.len() == 0 {
        assert(s.insert(pos, x) =~= seq![x]);
    } else if lex_le(key(s.last()), key(x)) {
        assert(pos == s.len()) by {
            if pos < s.len() {
                assert(!lex_le(key(s[s.len() - 1]), key(x)));
            }
        }
        assert(s.insert(pos, x) =~= s.push(x));
    } else {
        let t = s.drop_last();
        assert forall|j: int| pos <= j < t.len() implies !lex_le(key(#[trigger] t[j]), key(x)) by {
            assert(t[j] == s[j]);
        }
        if pos > 0 {
            assert(t[pos - 1] == s[pos - 1]);
        }
        lemma_insert_by_at(t, x, key, pos);
        assert(t.insert(pos, x).push(s.last()) =~= s.insert(pos, x));
    }
}

pub open spec fn text_key() -> spec_fn(Seq<char>) -> Seq<char> {
    |t: Seq<char>| t
}

/// `v`'s strings in [`lex_le`] order.
pub fn sort_strings(v: &Vec<String>) -> (r: Vec<String>)
    ensures
        strs_view(r@) == sorted_by(strs_view(v@), text_key()),
{
    let mut out: Vec<String> = Vec::new();
    let mut keys: Vec<Vec<char>> = Vec::new();
    let mut i: usize = 0;
    proof {
        assert(strs_view(v@.take(0)) =~= Seq::<Seq<char>>::empty());
    }
    while i < v.len()
        invariant
            0 <= i <= v@.len(),
            keys@.len() == out@.len(),
            forall|j: int| 0 <= j < keys@.len() ==> (#[trigger] keys@[j])@ == out@[j]@,
            strs_view(out@) == sorted_by(strs_view(v@.take(i as int)), text_key()),
        decreases v@.len() - i,
    {
        let x = v[i].clone();
        let k = chars_of(x.as_str());
        let mut pos = out.len();
        while pos > 0 && !lex_le_exec(&keys[pos - 1], &k)
            invariant
                0 <= pos <= out@.len() == keys@.len(),
                forall|j: int| 0 <= j < keys@.len() ==> (#[trigger] keys@[j])@ == out@[j]@,
                k@ == x@,
                forall|j: int| pos <= j < out@.len() ==> !lex_le(#[trigger] out@[j]@, k@),
            decreases pos,
        {
            pos -= 1;
        }
        proof {
            let s = strs_view(out@);
            assert forall|j: int| pos <= j < s.len() implies !lex_le(
                text_key()(#[trigger] s[j]),
                text_key()(x@),
            ) by {
                assert(s[j] == out@[j]@);
            }
            if pos > 0 {
                assert(s[pos - 1] == out@[pos - 1]@);
            }
            lemma_insert_by_at(s, x@, text_key(), pos as int);
            assert(strs_view(v@.take(i + 1)).drop_last() =~= strs_view(v@.take(i as int)));
            assert(strs_view(v@.take(i + 1)).last() == x@);
        }
        let ghost before = out@;
        let ghost kbefore = keys@;
        out.insert(pos, x);
        keys.insert(pos, k);
        proof {
            assert(strs_view(out@) =~= strs_view(before).insert(pos as int, x@));
            assert forall|j: int| 0 <= j < keys@.len() implies (#[trigger] keys@[j])@ == out@[j]@ by {
                if j < pos {
                    assert(keys@[j] == kbefore[j] && out@[j] == before[j]);
                } else if j > pos {
                    assert(keys@[j] == kbefore[j - 1] && out@[j] == before[j - 1]);
                }
            }
        }
        i += 1;
    }
    proof {
        assert(v@.take(i as int) =~= v@);
    }
    out
}

// ---------------------------------------------------------------------------
// Groups

pub struct DuplicateGroupView {
    pub id: Seq<char>,
    pub item_ids: Seq<Seq<char>>,
    pub reason: Seq<char>,
    pub confidence: ClassificationConfidence,
}

impl View for DuplicateGroup {
    type V = DuplicateGroupView;

    open spec fn view(&self) -> DuplicateGroupView {
        DuplicateGroupView {
            id: self.id@,
            item_ids: strs_view(self.item_ids@),
            reason: self.reason@,
            confidence: self.confidence,
        }
    }
}

/// The distinct non-empty normalized display names of `s`, in first-occurrence order.
pub open spec fn name_keys(s: Seq<SoftwareItemView>) -> Seq<Seq<char>>
    decreases s.len(),
{
    if s.len() == 0 {
        Seq::empty()
    } else {
        let k = normalized(s.last().display_name);
        if k.len() == 0 || name_keys(s.drop_last()).contains(k) {
            name_keys(s.drop_last())
        } else {
            name_keys(s.drop_last()).push(k)
        }
    }
}

/// The items of `s` whose normalized display name is `key`, in order.
pub open spec fn members(s: Seq<SoftwareItemView>, key: Seq<char>) -> Seq<SoftwareItemView>
    decreases s.len(),
{
    if s.len() == 0 {
        Seq::empty()
    } else if normalized(s.last().display_name) == key {
        members(s.drop_last(), key).push(s.last())
    } else {
        members(s.drop_last(), key)
    }
}

/// The distinct package managers of `g`, in first-occurrence order.
pub open spec fn managers_of(g: Seq<SoftwareItemView>) -> Seq<PackageManager>
    decreases g.len(),
{
    if g.len() == 0 {
        Seq::empty()
    } else if managers_of(g.drop_last()).contains(g.last().package_manager) {
        managers_of(g.drop_last())
    } else {
        managers_of(g.drop_last()).push(g.last().package_manager)
    }
}

/// The ids of `g`, in order.
pub open spec fn ids_of(g: Seq<SoftwareItemView>) -> Seq<Seq<char>> {
    g.map_values(|it: SoftwareItemView| it.id)
}

pub open spec fn duplicate_reason(count: nat, key: Seq<char>, managers: nat) -> Seq<char> {
    decimal(count) + " items share the normalized display name \""@ + key + "\" across "@
        + decimal(managers) + " different package managers"@
}

/// The group reported for `key`: its members when there are at least two of
/// them under at least two package managers.
pub open spec fn group_for(s: Seq<SoftwareItemView>, key: Seq<char>) -> Option<DuplicateGroupView> {
    let g = members(s, key);
    let m = managers_of(g);
    if g.len() < 2 || m.len() < 2 {
        None
    } else {
        Some(
            DuplicateGroupView {
                id: "dup:"@ + key,
                item_ids: sorted_by(ids_of(g), text_key()),
                reason: duplicate_reason(g.len(), key, m.len()),
                confidence: ClassificationConfidence::Medium,
            },
        )
    }
}

pub open spec fn groups_upto(s: Seq<SoftwareItemView>, keys: Seq<Seq<char>>, n: int) -> Seq<DuplicateGroupView>
    decreases n,
{
    if n <= 0 {
        Seq::empty()
    } else {
        match group_for(s, keys[n - 1]) {
            Some(g) => groups_upto(s, keys, n - 1).push(g),
            None => groups_upto(s, keys, n - 1),
        }
    }
}

pub open spec fn group_id_key() -> spec_fn(DuplicateGroupView) -> Seq<char> {
    |g: DuplicateGroupView| g.id
}

/// Every reported group, ordered by id.
pub open spec fn spec_detect_duplicates(s: Seq<SoftwareItemView>) -> Seq<DuplicateGroupView> {
    let keys = name_keys(s);
    sorted_by(groups_upto(s, keys, keys.len() as int), group_id_key())
}

pub open spec fn groups_view(v: Seq<DuplicateGroup>) -> Seq<DuplicateGroupView> {
    v.map_values(|g: DuplicateGroup| g@)
}

fn has_manager_in(v: &Vec<PackageManager>, x: PackageManager) -> (b: bool)
    ensures
        b == v@.contains(x),
{
    let mut i: usize = 0;
    while i < v.len()
        invariant
            0 <= i <= v@.len(),
            forall|j: int| 0 <= j < i ==> v@[j] != x,
        decreases v@.len() - i,
    {
        if v[i] == x {
            return true;
        }
        i += 1;
    }
    false
}

fn has_text(v: &Vec<String>, x: &String) -> (b: bool)
    ensures
        b == strs_view(v@).contains(x@),
{
    let mut i: usize = 0;
    while i < v.len()
        invariant
            0 <= i <= v@.len(),
            forall|j: int| 0 <= j < i ==> v@[j]@ != x@,
        decreases v@.len() - i,
    {
        if str_eq(v[i].as_str(), x.as_str()) {
            proof {
                assert(strs_view(v@)[i as int] == x@);
            }
            return true;
        }
        i += 1;
    }
    proof {
        if strs_view(v@).contains(x@) {
            let k = choose|k: int| 0 <= k < strs_view(v@).len() && strs_view(v@)[k] == x@;
            assert(v@[k]@ == x@);
        }
    }
    false
}

/// The group for `key`, built from the normalized names `norms` of `items`.
fn build_group(items: &Vec<SoftwareItem>, norms: &Vec<String>, key: &String) -> (r: Option<DuplicateGroup>)
    requires
        norms@.len() == items@.len(),
        forall|i: int| 0 <= i < items@.len() ==> (#[trigger] norms@[i])@ == normalized(items@[i].display_name@),
    ensures
        r matches Some(g) ==> group_for(items_view(items@), key@) == Some(g@),
        r is None ==> group_for(items_view(items@), key@) is None,
{
    let ghost s = items_view(items@);
    let mut ids: Vec<String> = Vec::new();
    let mut managers: Vec<PackageManager> = Vec::new();
    let mut count: usize = 0;
    let mut i: usize = 0;
    proof {
        assert(s.take(0) =~= Seq::<SoftwareItemView>::empty());
    }
    while i < items.len()
        invariant
            0 <= i <= items@.len() == norms@.len(),
            s == items_view(items@),
            forall|k: int| 0 <= k < items@.len() ==> (#[trigger] norms@[k])@ == normalized(items@[k].display_name@),
            count == members(s.take(i as int), key@).len(),
            count <= i,
            strs_view(ids@) == ids_of(members(s.take(i as int), key@)),
            managers@ == managers_of(members(s.take(i as int), key@)),
        decreases items@.len() - i,
    {
        proof {
            assert(s.take(i + 1).drop_last() =~= s.take(i as int));
            assert(s.take(i + 1).last() == items@[i as int]@);
        }
        if str_eq(norms[i].as_str(), key.as_str()) {
            let ghost g0 = members(s.take(i as int), key@);
            let ghost before = ids@;
            ids.push(items[i].id.clone());
            count += 1;
            proof {
                let g1 = members(s.take(i + 1), key@);
                assert(g1 == g0.push(items@[i as int]@));
                assert(g1.drop_last() =~= g0);
                assert(strs_view(ids@) =~= strs_view(before).push(items@[i as int].id@));
                assert(ids_of(g1) =~= ids_of(g0).push(items@[i as int]@.id));
            }
            if !has_manager_in(&managers, items[i].package_manager) {
                managers.push(items[i].package_manager);
            }
        }
        i += 1;
    }
    proof {
        assert(s.take(i as int) =~= s);
    }
    if count < 2 || managers.len() < 2 {
        return None;
    }
    let mut id = String::new();
    push_str(&mut id, "dup:");
    push_str(&mut id, key.as_str());
    let mut reason = String::new();
    push_decimal(&mut reason, count as u64);
    push_str(&mut reason, " items share the normalized display name \"");
    push_str(&mut reason, key.as_str());
    push_str(&mut reason, "\" across ");
    push_decimal(&mut reason, managers.len() as u64);
    push_str(&mut reason, " different package managers");
    proof {
        assert(reason@ =~= duplicate_reason(count as nat, key@, managers@.len()));
    }
    let item_ids = sort_strings(&ids);
    Some(DuplicateGroup { id, item_ids, reason, confidence: ClassificationConfidence::Medium })
}

/// `v`'s groups ordered by id.
fn sort_groups(v: Vec<DuplicateGroup>) -> (r: Vec<DuplicateGroup>)
    ensures
        groups_view(r@) == sorted_by(groups_view(v@), group_id_key()),
{
    let mut out: Vec<DuplicateGroup> = Vec::new();
    let mut keys: Vec<Vec<char>> = Vec::new();
    let mut i: usize = 0;
    proof {
        assert(groups_view(v@.take(0)) =~= Seq::<DuplicateGroupView>::empty());
    }
    while i < v.len()
        invariant
            0 <= i <= v@.len(),
            keys@.len() == out@.len(),
            forall|j: int| 0 <= j < keys@.len() ==> (#[trigger] keys@[j])@ == out@[j].id@,
            groups_view(out@) == sorted_by(groups_view(v@.take(i as int)), group_id_key()),
        decreases v@.len() - i,
    {
        let x = DuplicateGroup {
            id: v[i].id.clone(),
            item_ids: crate::domain::clone_strings(&v[i].item_ids),
            reason: v[i].reason.clone(),
            confidence: v[i].confidence,
        };
        let k = chars_of(x.id.as_str());
        let mut pos = out.len();
        while pos > 0 && !lex_le_exec(&keys[pos - 1], &k)
            invariant
                0 <= pos <= out@.len() == keys@.len(),
                forall|j: int| 0 <= j < keys@.len() ==> (#[trigger] keys@[j])@ == out@[j].id@,
                k@ == x.id@,
                forall|j: int| pos <= j < out@.len() ==> !lex_le((#[trigger] out@[j]).id@, k@),
            decreases pos,
        {
            pos -= 1;
        }
        proof {
            let s = groups_view(out@);
            assert forall|j: int| pos <= j < s.len() implies !lex_le(
                group_id_key()(#[trigger] s[j]),
                group_id_key()(x@),
            ) by {
                assert(s[j] == out@[j]@);
            }
            if pos > 0 {
                assert(s[pos - 1] == out@[pos - 1]@);
            }
            lemma_insert_by_at(s, x@, group_id_key(), pos as int);
            assert(groups_view(v@.take(i + 1)).drop_last() =~= groups_view(v@.take(i as int)));
            assert(groups_view(v@.take(i + 1)).last() == x@);
        }
        let ghost before = out@;
        let ghost kbefore = keys@;
        out.insert(pos, x);
        keys.insert(pos, k);
        proof {
            assert(groups_view(out@) =~= groups_view(before).insert(pos as int, x@));
            assert forall|j: int| 0 <= j < keys@.len() implies (#[trigger] keys@[j])@ == out@[j].id@ by {
                if j < pos {
                    assert(keys@[j] == kbefore[j] && out@[j] == before[j]);
                } else if j > pos {
                    assert(keys@[j] == kbefore[j - 1] && out@[j] == before[j - 1]);
                }
            }
        }
        i += 1;
    }
    proof {
        assert(v@.take(i as int) =~= v@);
    }
    out
}

/// Groups items by normalized display name and reports every group that
/// spans more than one package manager, ordered by group id. Matching is an
/// exact comparison of the normalized names, never a fuzzy one.
pub fn detect_duplicates(items: &Vec<SoftwareItem>) -> (r: Vec<DuplicateGroup>)
    ensures
        groups_view(r@) == spec_detect_duplicates(items_view(items@)),
{
    let ghost s = items_view(items@);
    let mut norms: Vec<String> = Vec::new();
    let mut keys: Vec<String> = Vec::new();
    let mut i: usize = 0;
    proof {
        assert(s.take(0) =~= Seq::<SoftwareItemView>::empty());
    }
    while i < items.len()
        invariant
            0 <= i <= items@.len(),
            s == items_view(items@),
            norms@.len() == i,
            forall|k: int| 0 <= k < i ==> (#[trigger] norms@[k])@ == normalized(items@[k].display_name@),
            strs_view(keys@) == name_keys(s.take(i as int)),
        decreases items@.len() - i,
    {
        proof {
            assert(s.take(i + 1).drop_last() =~= s.take(i as int));
            assert(s.take(i + 1).last() == items@[i as int]@);
        }
        let k = normalize_name(items[i].display_name.as_str());
        if !k.as_str().is_empty() && !has_text(&keys, &k) {
            let ghost before = keys@;
            keys.push(k.clone());
            proof {
                assert(strs_view(keys@) =~= strs_view(before).push(k@));
            }
        }
        norms.push(k);
        i += 1;
    }
    proof {
        assert(s.take(i as int) =~= s);
    }
    let mut groups: Vec<DuplicateGroup> = Vec::new();
    let mut j: usize = 0;
    while j < keys.len()
        invariant
            0 <= j <= keys@.len(),
            s == items_view(items@),
            norms@.len() == items@.len(),
            forall|k: int| 0 <= k < items@.len() ==> (#[trigger] norms@[k])@ == normalized(items@[k].display_name@),
            strs_view(keys@) == name_keys(s),
            groups_view(groups@) == groups_upto(s, name_keys(s), j as int),
        decreases keys@.len() - j,
    {
        proof {
            assert(strs_view(keys@)[j as int] == keys@[j as int]@);
        }
        match build_group(items, &norms, &keys[j]) {
            Some(g) => {
                let ghost before = groups@;
                groups.push(g);
                proof {
                    assert(groups_view(groups@) =~= groups_view(before).push(g@));
                }
            },
            None => {},
        }
        j += 1;
    }
    sort_groups(groups)
}

// ---------------------------------------------------------------------------
// Laws

/// Sorting only reorders: every element of the result is an element of the input.
pub proof fn lemma_sorted_by_members<T>(s: Seq<T>, key: spec_fn(T) -> Seq<char>)
    ensures
        sorted_by(s, key).len() == s.len(),
        forall|i: int| 0 <= i < sorted_by(s, key).len() ==> #[trigger] s.contains(sorted_by(s, key)[i]),
    decreases s.len(),
{
    if s.len() > 0 {
        let p = s.drop_last();
        lemma_sorted_by_members(p, key);
        lemma_insert_by_members(sorted_by(p, key), s.last(), key);
        assert forall|i: int| 0 <= i < sorted_by(s, key).len() implies #[trigger] s.contains(sorted_by(s, key)[i]) by {
            let e = sorted_by(s, key)[i];
            if e == s.last() {
                assert(s[s.len() - 1] == e);
            } else {
                let j = choose|j: int| 0 <= j < sorted_by(p, key).len() && sorted_by(p, key)[j] == e;
                assert(p.contains(e));
                let k = choose|k: int| 0 <= k < p.len() && p[k] == e;
                assert(s[k] == e);
            }
        }
    }
}

proof fn lemma_insert_by_members<T>(s: Seq<T>, x: T, key: spec_fn(T) -> Seq<char>)
    ensures
        insert_by(s, x, key).len() == s.len() + 1,
        forall|i: int| 0 <= i < insert_by(s, x, key).len() ==> #[trigger] insert_by(s, x, key)[i] == x
            || s.contains(insert_by(s, x, key)[i]),
    decreases s.len(),
{
    if s.len() > 0 && !lex_le(key(s.last()), key(x)) {
        let p = s.drop_last();
        lemma_insert_by_members(p, x, key);
        assert forall|i: int| 0 <= i < insert_by(s, x, key).len() implies #[trigger] insert_by(s, x, key)[i] == x
            || s.contains(insert_by(s, x, key)[i]) by {
            if i == insert_by(s, x, key).len() - 1 {
                assert(s[s.len() - 1] == insert_by(s, x, key)[i]);
            } else {
                let e = insert_by(s, x, key)[i];
                assert(e == insert_by(p, x, key)[i]);
                if e != x {
                    let k = choose|k: int| 0 <= k < p.len() && p[k] == e;
                    assert(s[k] == e);
                }
            }
        }
    } else if s.len() > 0 {
        assert forall|i: int| 0 <= i < insert_by(s, x, key).len() implies #[trigger] insert_by(s, x, key)[i] == x
            || s.contains(insert_by(s, x, key)[i]) by {
            if i < s.len() {
                assert(s[i] == insert_by(s, x, key)[i]);
            }
        }
    }
}

/// Sorting by a text key puts the keys in [`lex_le`] order.
pub proof fn lemma_sorted_by_ordered<T>(s: Seq<T>, key: spec_fn(T) -> Seq<char>)
    ensures
        forall|i: int, j: int|
            0 <= i < j < sorted_by(s, key).len() ==> lex_le(key(#[trigger] sorted_by(s, key)[i]), key(#[trigger] sorted_by(s, key)[j])),
    decreases s.len(),
{
    if s.len() > 0 {
        lemma_sorted_by_ordered(s.drop_last(), key);
        lemma_insert_by_ordered(sorted_by(s.drop_last(), key), s.last(), key);
    }
}

proof fn lemma_insert_by_ordered<T>(s: Seq<T>, x: T, key: spec_fn(T) -> Seq<char>)
    requires
        forall|i: int, j: int| 0 <= i < j < s.len() ==> lex_le(key(#[trigger] s[i]), key(#[trigger] s[j])),
    ensures
        forall|i: int, j: int|
            0 <= i < j < insert_by(s, x, key).len() ==> lex_le(key(#[trigger] insert_by(s, x, key)[i]), key(#[trigger] insert_by(s, x, key)[j])),
    decreases s.len(),
{
    let r = insert_by(s, x, key);
    lemma_insert_by_members(s, x, key);
    if s.len() == 0 {
    } else if lex_le(key(s.last()), key(x)) {
        assert forall|i: int, j: int| 0 <= i < j < r.len() implies lex_le(key(#[trigger] r[i]), key(#[trigger] r[j])) by {
            if j == s.len() {
                if i < s.len() - 1 {
                    lemma_lex_trans(key(s[i]), key(s.last()), key(x));
                }
                assert(r[i] == s[i]);
            } else {
                assert(r[i] == s[i] && r[j] == s[j]);
            }
        }
    } else {
        let p = s.drop_last();
        assert forall|i: int, j: int| 0 <= i < j < p.len() implies lex_le(key(#[trigger] p[i]), key(#[trigger] p[j])) by {
            assert(p[i] == s[i] && p[j] == s[j]);
        }
        lemma_insert_by_ordered(p, x, key);
        lemma_insert_by_members(p, x, key);
        lemma_lex_total(key(s.last()), key(x));
        assert forall|i: int, j: int| 0 <= i < j < r.len() implies lex_le(key(#[trigger] r[i]), key(#[trigger] r[j])) by {
            if j == r.len() - 1 {
                assert(r[j] == s.last());
                let e = insert_by(p, x, key)[i];
                assert(r[i] == e);
                if e == x {
                } else {
                    let k = choose|k: int| 0 <= k < p.len() && p[k] == e;
                    assert(s[k] == e);
                }
            } else {
                assert(r[i] == insert_by(p, x, key)[i] && r[j] == insert_by(p, x, key)[j]);
            }
        }
    }
}

/// Every reported group is for a non-empty normalized name and has at least
/// two items under at least two package managers (so items of one manager,
/// or with an empty name, are never grouped), and the groups come ordered by id.
pub proof fn law_duplicate_groups(s: Seq<SoftwareItemView>)
    ensures
        forall|i: int, j: int|
            0 <= i < j < spec_detect_duplicates(s).len() ==> lex_le(
                (#[trigger] spec_detect_duplicates(s)[i]).id,
                (#[trigger] spec_detect_duplicates(s)[j]).id,
            ),
        forall|i: int|
            0 <= i < spec_detect_duplicates(s).len() ==> {
                let g = #[trigger] spec_detect_duplicates(s)[i];
                exists|key: Seq<char>|
                    {
                        &&& key.len() > 0
                        &&& g.id == "dup:"@ + key
                        &&& members(s, key).len() >= 2
                        &&& managers_of(members(s, key)).len() >= 2
                        &&& g.item_ids == sorted_by(ids_of(members(s, key)), text_key())
                    }
            },
{
    let keys = name_keys(s);
    let u = groups_upto(s, keys, keys.len() as int);
    lemma_sorted_by_ordered(u, group_id_key());
    lemma_sorted_by_members(u, group_id_key());
    assert forall|i: int| 0 <= i < spec_detect_duplicates(s).len() implies {
        let g = #[trigger] spec_detect_duplicates(s)[i];
        exists|key: Seq<char>|
            {
                &&& key.len() > 0
                &&& g.id == "dup:"@ + key
                &&& members(s, key).len() >= 2
                &&& managers_of(members(s, key)).len() >= 2
                &&& g.item_ids == sorted_by(ids_of(members(s, key)), text_key())
            }
    } by {
        let g = spec_detect_duplicates(s)[i];
        assert(u.contains(g));
        lemma_name_keys_nonempty(s);
        lemma_groups_upto_from(s, keys, keys.len() as int, g);
    }
}

proof fn lemma_name_keys_nonempty(s: Seq<SoftwareItemView>)
    ensures
        forall|i: int| 0 <= i < name_keys(s).len() ==> (#[trigger] name_keys(s)[i]).len() > 0,
    decreases s.len(),
{
    if s.len() > 0 {
        lemma_name_keys_nonempty(s.drop_last());
        let p = name_keys(s.drop_last());
        let k = normalized(s.last().display_name);
        if !(k.len() == 0 || p.contains(k)) {
            assert forall|i: int| 0 <= i < p.push(k).len() implies (#[trigger] p.push(k)[i]).len() > 0 by {
                if i < p.len() {
                    assert(p.push(k)[i] == p[i]);
                }
            }
        }
    }
}

proof fn lemma_groups_upto_from(s: Seq<SoftwareItemView>, keys: Seq<Seq<char>>, n: int, g: DuplicateGroupView)
    requires
        groups_upto(s, keys, n).contains(g),
        n <= keys.len(),
        forall|i: int| 0 <= i < keys.len() ==> (#[trigger] keys[i]).len() > 0,
    ensures
        exists|key: Seq<char>| group_for(s, key) == Some(g),
        exists|key: Seq<char>|
            {
                &&& key.len() > 0
                &&& g.id == "dup:"@ + key
                &&& members(s, key).len() >= 2
                &&& managers_of(members(s, key)).len() >= 2
                &&& g.item_ids == sorted_by(ids_of(members(s, key)), text_key())
            },
    decreases n,
{
    if n > 0 {
        match group_for(s, keys[n - 1]) {
            Some(h) => {
                if h == g {
                    let key = keys[n - 1];
                    assert(group_for(s, key) == Some(g));
                } else {
                    let k = choose|k: int| 0 <= k < groups_upto(s, keys, n).len() && groups_upto(s, keys, n)[k] == g;
                    assert(groups_upto(s, keys, n - 1)[k] == g);
                    lemma_groups_upto_from(s, keys, n - 1, g);
                }
            },
            None => {
                lemma_groups_upto_from(s, keys, n - 1, g);
            },
        }
    }
}

proof fn lemma_key_listed(s: Seq<SoftwareItemView>, key: Seq<char>)
    requires
        key.len() > 0,
        members(s, key).len() > 0,
    ensures
        name_keys(s).contains(key),
    decreases s.len(),
{
    let p = s.drop_last();
    if members(p, key).len() > 0 {
        lemma_key_listed(p, key);
        let k = choose|k: int| 0 <= k < name_keys(p).len() && name_keys(p)[k] == key;
        let n = normalized(s.last().display_name);
        if !(n.len() == 0 || name_keys(p).contains(n)) {
            assert(name_keys(s)[k] == key);
        }
    } else {
        assert(normalized(s.last().display_name) == key);
        if !name_keys(p).contains(key) {
            assert(name_keys(s)[name_keys(s).len() - 1] == key);
        }
    }
}

proof fn lemma_group_collected(s: Seq<SoftwareItemView>, keys: Seq<Seq<char>>, n: int, i: int, g: DuplicateGroupView)
    requires
        0 <= i < n <= keys.len(),
        group_for(s, keys[i]) == Some(g),
    ensures
        groups_upto(s, keys, n).contains(g),
    decreases n,
{
    if i < n - 1 {
        lemma_group_collected(s, keys, n - 1, i, g);
        let u = groups_upto(s, keys, n - 1);
        let k = choose|k: int| 0 <= k < u.len() && u[k] == g;
        match group_for(s, keys[n - 1]) {
            Some(h) => {
                assert(u.push(h)[k] == g);
            },
            None => {},
        }
    } else {
        let u = groups_upto(s, keys, n - 1);
        assert(u.push(g)[u.len() as int] == g);
    }
}

proof fn lemma_all_groups_medium(s: Seq<SoftwareItemView>, keys: Seq<Seq<char>>, n: int)
    ensures
        forall|i: int| 0 <= i < groups_upto(s, keys, n).len() ==> (#[trigger] groups_upto(s, keys, n)[i]).confidence
            == ClassificationConfidence::Medium,
    decreases n,
{
    if n > 0 {
        lemma_all_groups_medium(s, keys, n - 1);
        let u = groups_upto(s, keys, n - 1);
        match group_for(s, keys[n - 1]) {
            Some(h) => {
                assert forall|i: int| 0 <= i < u.push(h).len() implies (#[trigger] u.push(h)[i]).confidence
                    == ClassificationConfidence::Medium by {
                    if i < u.len() {
                        assert(u.push(h)[i] == u[i]);
                    }
                }
            },
            None => {},
        }
    }
}

/// No duplicate goes unreported: every non-empty normalized display name
/// shared by two or more items under two or more package managers gets its
/// group (id `dup:` and the name, its items' ids sorted), and every group
/// is reported with medium confidence.
pub proof fn law_every_cross_manager_name_is_grouped(s: Seq<SoftwareItemView>, key: Seq<char>)
    ensures
        key.len() > 0 && members(s, key).len() >= 2 && managers_of(members(s, key)).len() >= 2 ==> {
            &&& group_for(s, key) is Some
            &&& spec_detect_duplicates(s).contains(group_for(s, key)->0)
            &&& group_for(s, key)->0.id == "dup:"@ + key
            &&& group_for(s, key)->0.item_ids == sorted_by(ids_of(members(s, key)), text_key())
        },
        forall|i: int| 0 <= i < spec_detect_duplicates(s).len() ==> (#[trigger] spec_detect_duplicates(s)[i]).confidence
            == ClassificationConfidence::Medium,
{
    broadcast use vstd::seq_lib::group_to_multiset_ensures;
    let keys = name_keys(s);
    let u = groups_upto(s, keys, keys.len() as int);
    lemma_sorted_by_multiset(u, group_id_key());
    lemma_sorted_by_members(u, group_id_key());
    lemma_all_groups_medium(s, keys, keys.len() as int);
    assert forall|i: int| 0 <= i < spec_detect_duplicates(s).len() implies (#[trigger] spec_detect_duplicates(s)[i]).confidence
        == ClassificationConfidence::Medium by {
        assert(spec_detect_duplicates(s) == sorted_by(u, group_id_key()));
        assert(u.contains(sorted_by(u, group_id_key())[i]));
        let k = choose|k: int| 0 <= k < u.len() && u[k] == spec_detect_duplicates(s)[i];
        assert(u[k].confidence == ClassificationConfidence::Medium);
    }
    if key.len() > 0 && members(s, key).len() >= 2 && managers_of(members(s, key)).len() >= 2 {
        lemma_key_listed(s, key);
        let i = choose|i: int| 0 <= i < keys.len() && keys[i] == key;
        let g = group_for(s, key)->0;
        lemma_group_collected(s, keys, keys.len() as int, i, g);
        assert(u.to_multiset().count(g) > 0);
        assert(spec_detect_duplicates(s).to_multiset().count(g) > 0);
    }
}

/// The ids listed in a group come in [`lex_le`] order.
pub proof fn law_group_item_ids_sorted(ids: Seq<Seq<char>>)
    ensures
        forall|i: int, j: int|
            0 <= i < j < sorted_by(ids, text_key()).len() ==> lex_le(
                #[trigger] sorted_by(ids, text_key())[i],
                #[trigger] sorted_by(ids, text_key())[j],
            ),
{
    lemma_sorted_by_ordered(ids, text_key());
}

} // verus!
