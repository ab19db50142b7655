//! What is kept between scans: how two scans' items differ, and which
//! schema migrations a database still needs. The database itself is the
//! program's part.
use vstd::prelude::*;

use crate::domain::{items_view, SoftwareItem, SoftwareItemView};
use crate::text::{opt_view, str_eq};

verus! {

/// An item whose version differs between the previous scan and the latest.
#[derive(Debug, Clone, PartialEq)]
pub struct VersionChange {
    pub id: String,
    pub display_name: String,
    pub previous_version: Option<String>,
    pub current_version: Option<String>,
}

pub struct VersionChangeView {
    pub id: Seq<char>,
    pub display_name: Seq<char>,
    pub previous_version: Option<Seq<char>>,
    pub current_version: Option<Seq<char>>,
}

impl View for VersionChange {
    type V = VersionChangeView;

    open spec fn view(&self) -> VersionChangeView {
        VersionChangeView {
            id: self.id@,
            display_name: self.display_name@,
            previous_version: opt_view(self.previous_version),
            current_version: opt_view(self.current_version),
        }
    }
}

/// What changed between the two latest scans.
#[derive(Debug, Clone)]
pub struct ScanDiff {
    pub new_items: Vec<SoftwareItem>,
    pub removed_items: Vec<SoftwareItem>,
    pub version_changed: Vec<VersionChange>,
}

pub open spec fn has_id(s: Seq<SoftwareItemView>, id: Seq<char>) -> bool {
    exists|j: int| 0 <= j < s.len() && (#[trigger] s[j]).id == id
}

/// The items of `a` whose ids `b` does not have, in order.
pub open spec fn missing_from(a: Seq<SoftwareItemView>, b: Seq<SoftwareItemView>) -> Seq<SoftwareItemView>
    decreases a.len(),
{
    if a.len() == 0 {
        a
    } else if !has_id(b, a.last().id) {
        missing_from(a.drop_last(), b).push(a.last())
    } else {
        missing_from(a.drop_last(), b)
    }
}

/// The last item of `s` with the given id: the one an id-keyed table
/// built from `s` keeps.
pub open spec fn last_with_id(s: Seq<SoftwareItemView>, id: Seq<char>) -> Option<SoftwareItemView>
    decreases s.len(),
{
    if s.len() == 0 {
        None
    } else if s.last().id == id {
        Some(s.last())
    } else {
        last_with_id(s.drop_last(), id)
    }
}

/// The version changes, in the latest scan's order: each latest item whose
/// id the previous scan has, with a version other than the previous one's.
pub open spec fn version_changes(latest: Seq<SoftwareItemView>, previous: Seq<SoftwareItemView>) -> Seq<VersionChangeView>
    decreases latest.len(),
{
    if latest.len() == 0 {
        Seq::empty()
    } else {
        let rest = version_changes(latest.drop_last(), previous);
        let it = latest.last();
        match last_with_id(previous, it.id) {
            Some(p) => if p.version != it.version {
                rest.push(
                    VersionChangeView {
                        id: it.id,
                        display_name: it.display_name,
                        previous_version: p.version,
                        current_version: it.version,
                    },
                )
            } else {
                rest
            },
            None => rest,
        }
    }
}

fn last_with_id_exec(s: &Vec<SoftwareItem>, id: &str) -> (r: Option<usize>)
    ensures
        match r {
            Some(j) => j < s@.len() && last_with_id(items_view(s@), id@) == Some(s@[j as int]@),
            None => last_with_id(items_view(s@), id@) is None,
        },
{
    let ghost v = items_view(s@);
    let mut k = s.len();
    proof {
        assert(v.take(k as int) =~= v);
    }
    while k > 0
        invariant
            k <= s@.len(),
            v == items_view(s@),
            last_with_id(v, id@) == last_with_id(v.take(k as int), id@),
        decreases k,
    {
        proof {
            assert(v.take(k as int).drop_last() =~= v.take(k - 1));
            assert(v.take(k as int).last() == s@[k - 1]@);
        }
        if str_eq(s[k - 1].id.as_str(), id) {
            return Some(k - 1);
        }
        k -= 1;
    }
    None
}

fn has_id_exec(s: &Vec<SoftwareItem>, id: &str) -> (b: bool)
    ensures
        b == has_id(items_view(s@), id@),
{
    let ghost v = items_view(s@);
    let mut i: usize = 0;
    while i < s.len()
        invariant
            0 <= i <= s@.len(),
            v == items_view(s@),
            forall|j: int| 0 <= j < i ==> (#[trigger] v[j]).id != id@,
        decreases s@.len() - i,
    {
        if str_eq(s[i].id.as_str(), id) {
            proof {
                assert(v[i as int].id == id@);
            }
            return true;
        }
        i += 1;
    }
    false
}

fn missing_items(a: &Vec<SoftwareItem>, b: &Vec<SoftwareItem>) -> (r: Vec<SoftwareItem>)
    ensures
        items_view(r@) == missing_from(items_view(a@), items_view(b@)),
{
    let ghost av = items_view(a@);
    let mut out: Vec<SoftwareItem> = Vec::new();
    let mut i: usize = 0;
    while i < a.len()
        invariant
            0 <= i <= a@.len(),
            av == items_view(a@),
            items_view(out@) == missing_from(av.take(i as int), items_view(b@)),
        decreases a@.len() - i,
    {
        proof {
            assert(av.take(i + 1).drop_last() =~= av.take(i as int));
            assert(av.take(i + 1).last() == a@[i as int]@);
        }
        if !has_id_exec(b, a[i].id.as_str()) {
            let ghost before = out@;
            let x = a[i].clone();
            let ghost xv = x@;
            out.push(x);
            proof {
                assert(items_view(out@) =~= items_view(before).push(xv));
            }
        }
        i += 1;
    }
    proof {
        assert(av.take(i as int) =~= av);
    }
    out
}

fn same_version(a: &Option<String>, b: &Option<String>) -> (r: bool)
    ensures
        r == (opt_view(*a) == opt_view(*b)),
{
    match (a, b) {
        (Some(x), Some(y)) => str_eq(x.as_str(), y.as_str()),
        (None, None) => true,
        _ => false,
    }
}

pub open spec fn changes_view(v: Seq<VersionChange>) -> Seq<VersionChangeView> {
    v.map_values(|c: VersionChange| c@)
}

/// How the latest scan's items differ from the previous scan's: the new
/// ones (ids the previous scan lacks), the removed ones (ids the latest
/// lacks), each in its scan's order, and the version changes.
pub fn diff_scans(latest: &Vec<SoftwareItem>, previous: &Vec<SoftwareItem>) -> (d: ScanDiff)
    ensures
        items_view(d.new_items@) == missing_from(items_view(latest@), items_view(previous@)),
        items_view(d.removed_items@) == missing_from(items_view(previous@), items_view(latest@)),
        changes_view(d.version_changed@) == version_changes(items_view(latest@), items_view(previous@)),
{
    let new_items = missing_items(latest, previous);
    let removed_items = missing_items(previous, latest);
    let ghost lv = items_view(latest@);
    let ghost pv = items_view(previous@);
    let mut changes: Vec<VersionChange> = Vec::new();
    let mut i: usize = 0;
    while i < latest.len()
        invariant
            0 <= i <= latest@.len(),
            lv == items_view(latest@),
            pv == items_view(previous@),
            changes_view(changes@) == version_changes(lv.take(i as int), pv),
        decreases latest@.len() - i,
    {
        proof {
            assert(lv.take(i + 1).drop_last() =~= lv.take(i as int));
            assert(lv.take(i + 1).last() == latest@[i as int]@);
        }
        let it = &latest[i];
        match last_with_id_exec(previous, it.id.as_str()) {
            Some(j) => {
                if !same_version(&previous[j].version, &it.version) {
                    let c = VersionChange {
                        id: it.id.clone(),
                        display_name: it.display_name.clone(),
                        previous_version: crate::domain::clone_opt(&previous[j].version),
                        current_version: crate::domain::clone_opt(&it.version),
                    };
                    let ghost before = changes@;
                    let ghost cv = c@;
                    changes.push(c);
                    proof {
                        assert(changes_view(changes@) =~= changes_view(before).push(cv));
                    }
                }
            },
            None => {},
        }
        i += 1;
    }
    proof {
        assert(lv.take(i as int) =~= lv);
    }
    ScanDiff { new_items, removed_items, version_changed: changes }
}

/// Items whose ids all occur in `b` are missing from nothing.
proof fn lemma_nothing_missing(a: Seq<SoftwareItemView>, b: Seq<SoftwareItemView>)
    requires
        forall|i: int| 0 <= i < a.len() ==> has_id(b, #[trigger] a[i].id),
    ensures
        missing_from(a, b).len() == 0,
    decreases a.len(),
{
    if a.len() > 0 {
        assert(has_id(b, a[a.len() - 1].id));
        assert forall|i: int| 0 <= i < a.drop_last().len() implies has_id(b, #[trigger] a.drop_last()[i].id) by {
            assert(a.drop_last()[i] == a[i]);
        }
        lemma_nothing_missing(a.drop_last(), b);
    }
}

/// With ids that do not repeat, the last item with `s[k]`'s id is `s[k]`.
proof fn lemma_last_with_own_id(s: Seq<SoftwareItemView>, k: int)
    requires
        0 <= k < s.len(),
        forall|i: int, j: int| 0 <= i < j < s.len() ==> (#[trigger] s[i]).id != (#[trigger] s[j]).id,
    ensures
        last_with_id(s, s[k].id) == Some(s[k]),
    decreases s.len(),
{
    if k < s.len() - 1 {
        assert(s[k].id != s[s.len() - 1].id);
        assert(s.drop_last()[k] == s[k]);
        assert forall|i: int, j: int| 0 <= i < j < s.drop_last().len() implies (#[trigger] s.drop_last()[i]).id
            != (#[trigger] s.drop_last()[j]).id by {
            assert(s.drop_last()[i] == s[i] && s.drop_last()[j] == s[j]);
        }
        lemma_last_with_own_id(s.drop_last(), k);
    }
}

/// No version changes between a prefix of a scan with unique ids and the scan itself.
proof fn lemma_no_changes_against_self(s: Seq<SoftwareItemView>, n: int)
    requires
        0 <= n <= s.len(),
        forall|i: int, j: int| 0 <= i < j < s.len() ==> (#[trigger] s[i]).id != (#[trigger] s[j]).id,
    ensures
        version_changes(s.take(n), s).len() == 0,
    decreases n,
{
    if n > 0 {
        let t = s.take(n);
        assert(t.drop_last() =~= s.take(n - 1));
        assert(t.last() == s[n - 1]);
        lemma_last_with_own_id(s, n - 1);
        lemma_no_changes_against_self(s, n - 1);
    }
}

/// What the diff calls new (or removed) is exactly the latest (or previous)
/// scan's items whose id the other scan lacks, in their scan's order.
pub proof fn law_diff_new_items_are_those_with_unseen_ids(a: Seq<SoftwareItemView>, b: Seq<SoftwareItemView>, x: SoftwareItemView)
    ensures
        missing_from(a, b).contains(x) <==> (a.contains(x) && !has_id(b, x.id)),
    decreases a.len(),
{
    if a.len() > 0 {
        let p = a.drop_last();
        law_diff_new_items_are_those_with_unseen_ids(p, b, x);
        assert(p.push(a.last()) =~= a);
        if a.contains(x) && !p.contains(x) {
            let k = choose|k: int| 0 <= k < a.len() && a[k] == x;
            if k < p.len() {
                assert(p[k] == x);
            }
        }
        if p.contains(x) {
            let k = choose|k: int| 0 <= k < p.len() && p[k] == x;
            assert(a[k] == x);
        }
        if !has_id(b, a.last().id) {
            let m = missing_from(p, b);
            assert(missing_from(a, b) == m.push(a.last()));
            if m.contains(x) {
                let k = choose|k: int| 0 <= k < m.len() && m[k] == x;
                assert(m.push(a.last())[k] == x);
            }
            if m.push(a.last()).contains(x) && !m.contains(x) {
                let k = choose|k: int| 0 <= k < m.len() + 1 && m.push(a.last())[k] == x;
                if k < m.len() {
                    assert(m[k] == x);
                }
            }
            assert(m.push(a.last())[m.len() as int] == a.last());
        }
    }
}

/// A scan compared with itself shows nothing new and nothing removed and,
/// as long as no id repeats (as in a merged scan), no version change.
pub proof fn law_diff_with_itself_is_empty(s: Seq<SoftwareItemView>)
    ensures
        missing_from(s, s).len() == 0,
        (forall|i: int, j: int| 0 <= i < j < s.len() ==> (#[trigger] s[i]).id != (#[trigger] s[j]).id)
            ==> version_changes(s, s).len() == 0,
{
    assert forall|i: int| 0 <= i < s.len() implies has_id(s, #[trigger] s[i].id) by {
        assert(s[i].id == s[i].id);
    }
    lemma_nothing_missing(s, s);
    if forall|i: int, j: int| 0 <= i < j < s.len() ==> (#[trigger] s[i]).id != (#[trigger] s[j]).id {
        lemma_no_changes_against_self(s, s.len() as int);
        assert(s.take(s.len() as int) =~= s);
    }
}

/// Which migrations a database at schema version `current` still needs, out
/// of `count`: the 0-based indices from `current` up, or none when it is
/// current already (or a version this program does not know is stored).
pub fn pending_migrations(current: i64, count: usize) -> (r: (usize, usize))
    ensures
        current < 0 || current >= count ==> r.0 == r.1,
        0 <= current < count ==> r == (current as usize, count),
{
    if current < 0 || current as u64 >= count as u64 {
        (count, count)
    } else {
        (current as usize, count)
    }
}

} // verus!
