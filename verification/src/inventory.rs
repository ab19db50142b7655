//! Turning the providers' results into one inventory: the items merged by
//! id, the cross-manager duplicate groups and the summary of the scan.
use vstd::prelude::*;

use crate::domain::{
    elapsed_ms, elapsed_ms_exec, items_view, DuplicateGroup, InventoryStatus, InventorySummary,
    PackageManager, ProviderInventory, ProviderStatus, SoftwareCategory, SoftwareItem,
    SoftwareItemView,
};
use crate::duplicates::{detect_duplicates, groups_view, spec_detect_duplicates};
use crate::merge::{merge_by_id, spec_merge_by_id};
use crate::text::strs_view;

verus! {

/// Everything one full inventory scan produced.
pub struct ScanResult {
    pub items: Vec<SoftwareItem>,
    pub duplicate_groups: Vec<DuplicateGroup>,
    pub summary: InventorySummary,
    pub provider_results: Vec<ProviderInventory>,
}

// ---------------------------------------------------------------------------
// Counting

/// The distinct categories of `s`, in first-occurrence order.
pub open spec fn categories_in(s: Seq<SoftwareItemView>) -> Seq<SoftwareCategory>
    decreases s.len(),
{
    if s.len() == 0 {
        Seq::empty()
    } else if categories_in(s.drop_last()).contains(s.last().category) {
        categories_in(s.drop_last())
    } else {
        categories_in(s.drop_last()).push(s.last().category)
    }
}

/// How many items of `s` have category `c`.
pub open spec fn count_category(s: Seq<SoftwareItemView>, c: SoftwareCategory) -> nat
    decreases s.len(),
{
    if s.len() == 0 {
        0
    } else {
        count_category(s.drop_last(), c) + if s.last().category == c {
            1nat
        } else {
            0nat
        }
    }
}

/// The distinct package managers of `s`, in first-occurrence order.
pub open spec fn managers_in(s: Seq<SoftwareItemView>) -> Seq<PackageManager>
    decreases s.len(),
{
    if s.len() == 0 {
        Seq::empty()
    } else if managers_in(s.drop_last()).contains(s.last().package_manager) {
        managers_in(s.drop_last())
    } else {
        managers_in(s.drop_last()).push(s.last().package_manager)
    }
}

/// How many items of `s` are under package manager `m`.
pub open spec fn count_manager(s: Seq<SoftwareItemView>, m: PackageManager) -> nat
    decreases s.len(),
{
    if s.len() == 0 {
        0
    } else {
        count_manager(s.drop_last(), m) + if s.last().package_manager == m {
            1nat
        } else {
            0nat
        }
    }
}

/// One `(category, count)` entry per category that occurs, first-occurrence order.
pub open spec fn category_counts(s: Seq<SoftwareItemView>) -> Seq<(SoftwareCategory, usize)> {
    categories_in(s).map_values(|c: SoftwareCategory| (c, count_category(s, c) as usize))
}

/// One `(manager, count)` entry per package manager that occurs, first-occurrence order.
pub open spec fn manager_counts(s: Seq<SoftwareItemView>) -> Seq<(PackageManager, usize)> {
    managers_in(s).map_values(|m: PackageManager| (m, count_manager(s, m) as usize))
}

proof fn lemma_count_category_le(s: Seq<SoftwareItemView>, c: SoftwareCategory)
    ensures
        count_category(s, c) <= s.len(),
    decreases s.len(),
{
    if s.len() > 0 {
        lemma_count_category_le(s.drop_last(), c);
    }
}

proof fn lemma_count_manager_le(s: Seq<SoftwareItemView>, m: PackageManager)
    ensures
        count_manager(s, m) <= s.len(),
    decreases s.len(),
{
    if s.len() > 0 {
        lemma_count_manager_le(s.drop_last(), m);
    }
}


proof fn lemma_categories_distinct(s: Seq<SoftwareItemView>)
    ensures
        forall|i: int, j: int| 0 <= i < j < categories_in(s).len() ==> categories_in(s)[i] != categories_in(s)[j],
    decreases s.len(),
{
    if s.len() > 0 {
        lemma_categories_distinct(s.drop_last());
        let p = categories_in(s.drop_last());
        let x = s.last().category;
        if !p.contains(x) {
            assert forall|i: int, j: int| 0 <= i < j < categories_in(s).len() implies categories_in(s)[i] != categories_in(s)[j] by {
                if j == categories_in(s).len() - 1 {
                    if p[i] == x {
                        assert(p.contains(x));
                    }
                } else {
                    assert(categories_in(s)[i] == p[i] && categories_in(s)[j] == p[j]);
                }
            }
        }
    }
}

proof fn lemma_managers_distinct(s: Seq<SoftwareItemView>)
    ensures
        forall|i: int, j: int| 0 <= i < j < managers_in(s).len() ==> managers_in(s)[i] != managers_in(s)[j],
    decreases s.len(),
{
    if s.len() > 0 {
        lemma_managers_distinct(s.drop_last());
        let p = managers_in(s.drop_last());
        let x = s.last().package_manager;
        if !p.contains(x) {
            assert forall|i: int, j: int| 0 <= i < j < managers_in(s).len() implies managers_in(s)[i] != managers_in(s)[j] by {
                if j == managers_in(s).len() - 1 {
                    if p[i] == x {
                        assert(p.contains(x));
                    }
                } else {
                    assert(managers_in(s)[i] == p[i] && managers_in(s)[j] == p[j]);
                }
            }
        }
    }
}

fn count_by_category(items: &Vec<SoftwareItem>) -> (r: Vec<(SoftwareCategory, usize)>)
    ensures
        r@ == category_counts(items_view(items@)),
{
    let ghost s = items_view(items@);
    let mut r: Vec<(SoftwareCategory, usize)> = Vec::new();
    let mut i: usize = 0;
    proof {
        assert(s.take(0) =~= Seq::<SoftwareItemView>::empty());
        assert(category_counts(s.take(0)) =~= r@);
    }
    while i < items.len()
        invariant
            0 <= i <= items@.len(),
            s == items_view(items@),
            r@ == category_counts(s.take(i as int)),
        decreases items@.len() - i,
    {
        let ghost p = s.take(i as int);
        let ghost q = s.take(i + 1);
        let c = items[i].category;
        proof {
            assert(q.drop_last() =~= p);
            assert(q.last().category == c);
            lemma_count_category_le(p, c);
        }
        let mut k: usize = 0;
        while k < r.len() && r[k].0 != c
            invariant
                0 <= k <= r@.len(),
                r@ == category_counts(p),
                forall|j: int| 0 <= j < k ==> r@[j].0 != c,
            decreases r@.len() - k,
        {
            k += 1;
        }
        if k < r.len() {
            proof {
                assert(categories_in(p)[k as int] == c);
                assert(categories_in(q) == categories_in(p));
                assert(count_category(p, c) <= p.len());
            }
            let n = r[k].1;
            r.set(k, (c, n + 1));
            proof {
                assert forall|j: int| 0 <= j < r@.len() implies #[trigger] r@[j] == category_counts(q)[j] by {
                    if j != k {
                        assert(categories_in(p)[j] != c) by {
                            lemma_categories_distinct(p);
                        }
                    }
                }
                assert(r@ =~= category_counts(q));
            }
        } else {
            proof {
                assert(!categories_in(p).contains(c)) by {
                    if categories_in(p).contains(c) {
                        let j = choose|j: int| 0 <= j < categories_in(p).len() && categories_in(p)[j] == c;
                        assert(r@[j].0 == c);
                    }
                }
                lemma_count_absent_category(p, c);
                assert forall|j: int| 0 <= j < r@.len() implies #[trigger] r@[j] == category_counts(q)[j] by {
                    assert(categories_in(p)[j] != c);
                }
            }
            let ghost before = r@;
            r.push((c, 1));
            proof {
                assert(r@ =~= category_counts(q));
            }
        }
        i += 1;
    }
    proof {
        assert(s.take(i as int) =~= s);
    }
    r
}

proof fn lemma_count_absent_category(s: Seq<SoftwareItemView>, c: SoftwareCategory)
    requires
        !categories_in(s).contains(c),
    ensures
        count_category(s, c) == 0,
    decreases s.len(),
{
    if s.len() > 0 {
        let p = s.drop_last();
        if categories_in(p).contains(c) {
            let j = choose|j: int| 0 <= j < categories_in(p).len() && categories_in(p)[j] == c;
            if categories_in(p).contains(s.last().category) {
                assert(categories_in(s)[j] == c);
            } else {
                assert(categories_in(s)[j] == c);
            }
        }
        if s.last().category == c {
            if categories_in(p).contains(c) {
            } else {
                assert(categories_in(s)[categories_in(s).len() - 1] == c);
            }
        }
        lemma_count_absent_category(p, c);
    }
}

fn count_by_manager(items: &Vec<SoftwareItem>) -> (r: Vec<(PackageManager, usize)>)
    ensures
        r@ == manager_counts(items_view(items@)),
{
    let ghost s = items_view(items@);
    let mut r: Vec<(PackageManager, usize)> = Vec::new();
    let mut i: usize = 0;
    proof {
        assert(s.take(0) =~= Seq::<SoftwareItemView>::empty());
        assert(manager_counts(s.take(0)) =~= r@);
    }
    while i < items.len()
        invariant
            0 <= i <= items@.len(),
            s == items_view(items@),
            r@ == manager_counts(s.take(i as int)),
        decreases items@.len() - i,
    {
        let ghost p = s.take(i as int);
        let ghost q = s.take(i + 1);
        let c = items[i].package_manager;
        proof {
            assert(q.drop_last() =~= p);
            assert(q.last().package_manager == c);
            lemma_count_manager_le(p, c);
        }
        let mut k: usize = 0;
        while k < r.len() && r[k].0 != c
            invariant
                0 <= k <= r@.len(),
                r@ == manager_counts(p),
                forall|j: int| 0 <= j < k ==> r@[j].0 != c,
            decreases r@.len() - k,
        {
            k += 1;
        }
        if k < r.len() {
            proof {
                assert(managers_in(p)[k as int] == c);
                assert(managers_in(q) == managers_in(p));
                assert(count_manager(p, c) <= p.len());
            }
            let n = r[k].1;
            r.set(k, (c, n + 1));
            proof {
                assert forall|j: int| 0 <= j < r@.len() implies #[trigger] r@[j] == manager_counts(q)[j] by {
                    if j != k {
                        assert(managers_in(p)[j] != c) by {
                            lemma_managers_distinct(p);
                        }
                    }
                }
                assert(r@ =~= manager_counts(q));
            }
        } else {
            proof {
                assert(!managers_in(p).contains(c)) by {
                    if managers_in(p).contains(c) {
                        let j = choose|j: int| 0 <= j < managers_in(p).len() && managers_in(p)[j] == c;
                        assert(r@[j].0 == c);
                    }
                }
                lemma_count_absent_manager(p, c);
                assert forall|j: int| 0 <= j < r@.len() implies #[trigger] r@[j] == manager_counts(q)[j] by {
                    assert(managers_in(p)[j] != c);
                }
            }
            r.push((c, 1));
            proof {
                assert(r@ =~= manager_counts(q));
            }
        }
        i += 1;
    }
    proof {
        assert(s.take(i as int) =~= s);
    }
    r
}

proof fn lemma_count_absent_manager(s: Seq<SoftwareItemView>, m: PackageManager)
    requires
        !managers_in(s).contains(m),
    ensures
        count_manager(s, m) == 0,
    decreases s.len(),
{
    if s.len() > 0 {
        let p = s.drop_last();
        if managers_in(p).contains(m) {
            let j = choose|j: int| 0 <= j < managers_in(p).len() && managers_in(p)[j] == m;
            assert(managers_in(s)[j] == m);
        }
        if s.last().package_manager == m && !managers_in(p).contains(m) {
            assert(managers_in(s)[managers_in(s).len() - 1] == m);
        }
        lemma_count_absent_manager(p, m);
    }
}

// ---------------------------------------------------------------------------
// Summary

/// The ids of the providers among `rs` that reported warnings, in order.
pub open spec fn providers_warning(rs: Seq<ProviderInventory>) -> Seq<Seq<char>>
    decreases rs.len(),
{
    if rs.len() == 0 {
        Seq::empty()
    } else if rs.last().warnings@.len() > 0 {
        providers_warning(rs.drop_last()).push(rs.last().provider_id@)
    } else {
        providers_warning(rs.drop_last())
    }
}

/// The ids of the providers among `rs` that ended with an error, in order.
pub open spec fn providers_erring(rs: Seq<ProviderInventory>) -> Seq<Seq<char>>
    decreases rs.len(),
{
    if rs.len() == 0 {
        Seq::empty()
    } else if rs.last().error is Some {
        providers_erring(rs.drop_last()).push(rs.last().provider_id@)
    } else {
        providers_erring(rs.drop_last())
    }
}

/// The overall status: failed when providers failed and none succeeded,
/// partially failed when some failed, completed with warnings when one was
/// degraded (partial success, timeout) or warned, else completed.
pub open spec fn summary_status(rs: Seq<ProviderInventory>) -> InventoryStatus {
    let any_succeeded = exists|i: int| 0 <= i < rs.len() && rs[i].spec_is_success();
    let any_failed = exists|i: int| 0 <= i < rs.len() && rs[i].status == ProviderStatus::Failed;
    let any_degraded = exists|i: int|
        0 <= i < rs.len() && (rs[i].status == ProviderStatus::PartialSuccess || rs[i].status
            == ProviderStatus::TimedOut);
    if any_failed && !any_succeeded {
        InventoryStatus::Failed
    } else if any_failed {
        InventoryStatus::PartiallyFailed
    } else if any_degraded || providers_warning(rs).len() > 0 {
        InventoryStatus::CompletedWithWarnings
    } else {
        InventoryStatus::Completed
    }
}

fn provider_lists(rs: &Vec<ProviderInventory>) -> (r: (Vec<String>, Vec<String>))
    ensures
        strs_view(r.0@) == providers_warning(rs@),
        strs_view(r.1@) == providers_erring(rs@),
{
    let mut w: Vec<String> = Vec::new();
    let mut e: Vec<String> = Vec::new();
    let mut i: usize = 0;
    proof {
        assert(rs@.take(0) =~= Seq::<ProviderInventory>::empty());
    }
    while i < rs.len()
        invariant
            0 <= i <= rs@.len(),
            strs_view(w@) == providers_warning(rs@.take(i as int)),
            strs_view(e@) == providers_erring(rs@.take(i as int)),
        decreases rs@.len() - i,
    {
        proof {
            assert(rs@.take(i + 1).drop_last() =~= rs@.take(i as int));
        }
        if rs[i].warnings.len() > 0 {
            let ghost before = w@;
            w.push(rs[i].provider_id.clone());
            proof {
                assert(strs_view(w@) =~= strs_view(before).push(rs@[i as int].provider_id@));
            }
        }
        if rs[i].error.is_some() {
            let ghost before = e@;
            e.push(rs[i].provider_id.clone());
            proof {
                assert(strs_view(e@) =~= strs_view(before).push(rs@[i as int].provider_id@));
            }
        }
        i += 1;
    }
    proof {
        assert(rs@.take(i as int) =~= rs@);
    }
    (w, e)
}

fn status_of(rs: &Vec<ProviderInventory>, any_warnings: bool) -> (st: InventoryStatus)
    requires
        any_warnings == (providers_warning(rs@).len() > 0),
    ensures
        st == summary_status(rs@),
{
    let mut any_succeeded = false;
    let mut any_failed = false;
    let mut any_degraded = false;
    let mut i: usize = 0;
    while i < rs.len()
        invariant
            0 <= i <= rs@.len(),
            any_succeeded == exists|j: int| 0 <= j < i && rs@[j].spec_is_success(),
            any_failed == exists|j: int| 0 <= j < i && rs@[j].status == ProviderStatus::Failed,
            any_degraded == exists|j: int|
                0 <= j < i && (rs@[j].status == ProviderStatus::PartialSuccess || rs@[j].status
                    == ProviderStatus::TimedOut),
        decreases rs@.len() - i,
    {
        if rs[i].is_success() {
            any_succeeded = true;
        }
        match rs[i].status {
            ProviderStatus::Failed => {
                any_failed = true;
            },
            ProviderStatus::PartialSuccess | ProviderStatus::TimedOut => {
                any_degraded = true;
            },
            _ => {},
        }
        i += 1;
    }
    if any_failed && !any_succeeded {
        InventoryStatus::Failed
    } else if any_failed {
        InventoryStatus::PartiallyFailed
    } else if any_degraded || any_warnings {
        InventoryStatus::CompletedWithWarnings
    } else {
        InventoryStatus::Completed
    }
}

/// The summary of a scan over `items` (already merged) and `groups`, from
/// the providers' results and the scan's start and end (ms since the epoch).
pub fn build_summary(
    provider_results: &Vec<ProviderInventory>,
    items: &Vec<SoftwareItem>,
    duplicate_groups: &Vec<DuplicateGroup>,
    started_at: i64,
    completed_at: i64,
) -> (s: InventorySummary)
    ensures
        s.status == summary_status(provider_results@),
        s.total_items == items@.len(),
        s.items_by_category@ == category_counts(items_view(items@)),
        s.items_by_package_manager@ == manager_counts(items_view(items@)),
        count_total(s.items_by_category@) == s.total_items,
        count_total(s.items_by_package_manager@) == s.total_items,
        strs_view(s.providers_with_warnings@) == providers_warning(provider_results@),
        strs_view(s.providers_with_errors@) == providers_erring(provider_results@),
        s.duplicate_group_count == duplicate_groups@.len(),
        s.last_scan_started_at == Some(started_at),
        s.last_scan_completed_at == Some(completed_at),
        s.scan_duration_ms == Some(elapsed_ms(started_at, completed_at) as u64),
{
    let items_by_category = count_by_category(items);
    let items_by_package_manager = count_by_manager(items);
    let (providers_with_warnings, providers_with_errors) = provider_lists(provider_results);
    let status = status_of(provider_results, providers_with_warnings.len() > 0);
    let total_items = items.len();
    proof {
        assert(items_view(items@).len() == total_items);
        law_summary_counts_add_up(items_view(items@));
    }
    InventorySummary {
        status,
        total_items,
        items_by_category,
        items_by_package_manager,
        providers_with_warnings,
        providers_with_errors,
        duplicate_group_count: duplicate_groups.len(),
        last_scan_started_at: Some(started_at),
        last_scan_completed_at: Some(completed_at),
        scan_duration_ms: Some(elapsed_ms_exec(started_at, completed_at)),
    }
}

/// The items of every provider's result, in provider order.
pub open spec fn all_items(rs: Seq<ProviderInventory>) -> Seq<SoftwareItemView>
    decreases rs.len(),
{
    if rs.len() == 0 {
        Seq::empty()
    } else {
        all_items(rs.drop_last()) + items_view(rs.last().items@)
    }
}

/// Combines the providers' results into the scan's result: every item
/// merged by id, the duplicate groups among the merged items and the summary.
pub fn assemble_scan(provider_results: Vec<ProviderInventory>, started_at: i64, completed_at: i64) -> (r: ScanResult)
    ensures
        items_view(r.items@) == spec_merge_by_id(all_items(provider_results@)),
        groups_view(r.duplicate_groups@) == spec_detect_duplicates(items_view(r.items@)),
        r.summary.status == summary_status(provider_results@),
        r.summary.total_items == r.items@.len(),
        r.summary.items_by_category@ == category_counts(items_view(r.items@)),
        r.summary.items_by_package_manager@ == manager_counts(items_view(r.items@)),
        strs_view(r.summary.providers_with_warnings@) == providers_warning(provider_results@),
        strs_view(r.summary.providers_with_errors@) == providers_erring(provider_results@),
        r.summary.duplicate_group_count == r.duplicate_groups@.len(),
        r.summary.last_scan_started_at == Some(started_at),
        r.summary.last_scan_completed_at == Some(completed_at),
        r.summary.scan_duration_ms == Some(elapsed_ms(started_at, completed_at) as u64),
        r.provider_results == provider_results,
{
    let mut flat: Vec<SoftwareItem> = Vec::new();
    let mut i: usize = 0;
    proof {
        assert(provider_results@.take(0) =~= Seq::<ProviderInventory>::empty());
        assert(items_view(flat@) =~= Seq::<SoftwareItemView>::empty());
    }
    while i < provider_results.len()
        invariant
            0 <= i <= provider_results@.len(),
            items_view(flat@) == all_items(provider_results@.take(i as int)),
        decreases provider_results@.len() - i,
    {
        proof {
            assert(provider_results@.take(i + 1).drop_last() =~= provider_results@.take(i as int));
        }
        let ghost before = items_view(flat@);
        let mut j: usize = 0;
        proof {
            assert(items_view(provider_results@[i as int].items@.take(0)) =~= Seq::<SoftwareItemView>::empty());
            assert(before + Seq::<SoftwareItemView>::empty() =~= before);
        }
        while j < provider_results[i].items.len()
            invariant
                0 <= i < provider_results@.len(),
                0 <= j <= provider_results@[i as int].items@.len(),
                items_view(flat@) == before + items_view(provider_results@[i as int].items@.take(j as int)),
            decreases provider_results@[i as int].items@.len() - j,
        {
            let ghost f0 = flat@;
            let x = provider_results[i].items[j].clone();
            flat.push(x);
            proof {
                let more = provider_results@[i as int].items@;
                assert(items_view(more.take(j + 1)) =~= items_view(more.take(j as int)).push(x@));
                assert(items_view(flat@) =~= items_view(f0).push(x@));
            }
            j += 1;
        }
        proof {
            let more = provider_results@[i as int].items@;
            assert(more.take(j as int) =~= more);
        }
        i += 1;
    }
    proof {
        assert(provider_results@.take(i as int) =~= provider_results@);
    }
    let merged = merge_by_id(flat);
    let duplicate_groups = detect_duplicates(&merged);
    let summary = build_summary(&provider_results, &merged, &duplicate_groups, started_at, completed_at);
    ScanResult { items: merged, duplicate_groups, summary, provider_results }
}

// ---------------------------------------------------------------------------
// Laws

/// The per-category counts add up to the number of items.
pub proof fn law_category_counts_total(s: Seq<SoftwareItemView>)
    ensures
        sum_counts(categories_in(s), s) == s.len(),
{
    lemma_sum_counts(s);
}

/// The total of `count_category(s, c)` over the categories `cs`.
pub open spec fn sum_counts(cs: Seq<SoftwareCategory>, s: Seq<SoftwareItemView>) -> nat
    decreases cs.len(),
{
    if cs.len() == 0 {
        0
    } else {
        sum_counts(cs.drop_last(), s) + count_category(s, cs.last())
    }
}

proof fn lemma_sum_counts(s: Seq<SoftwareItemView>)
    ensures
        sum_counts(categories_in(s), s) == s.len(),
    decreases s.len(),
{
    if s.len() > 0 {
        let p = s.drop_last();
        let x = s.last().category;
        lemma_sum_counts(p);
        if categories_in(p).contains(x) {
            lemma_categories_distinct(p);
            lemma_sum_counts_has(categories_in(p), p, s, x);
            assert(categories_in(s) == categories_in(p));
        } else {
            lemma_sum_counts_lacks(categories_in(p), p, s, x);
        }
    }
}

/// Adding an item whose category is listed once in `cs` adds one to the total.
proof fn lemma_sum_counts_has(cs: Seq<SoftwareCategory>, p: Seq<SoftwareItemView>, s: Seq<SoftwareItemView>, x: SoftwareCategory)
    requires
        s.len() > 0,
        p == s.drop_last(),
        x == s.last().category,
        cs.contains(x),
        forall|i: int, j: int| 0 <= i < j < cs.len() ==> cs[i] != cs[j],
    ensures
        sum_counts(cs, s) == sum_counts(cs, p) + 1,
    decreases cs.len(),
{
    let c = cs.last();
    let q = cs.drop_last();
    assert forall|i: int, j: int| 0 <= i < j < q.len() implies q[i] != q[j] by {
        assert(q[i] == cs[i] && q[j] == cs[j]);
    }
    if c == x {
        assert(!q.contains(x)) by {
            if q.contains(x) {
                let k = choose|k: int| 0 <= k < q.len() && q[k] == x;
                assert(cs[k] == cs[cs.len() - 1]);
            }
        }
        lemma_sum_counts_same(q, p, s, x);
    } else {
        let k = choose|k: int| 0 <= k < cs.len() && cs[k] == x;
        assert(q.contains(x)) by {
            assert(k < q.len());
            assert(q[k] == x);
        }
        lemma_sum_counts_has(q, p, s, x);
    }
}

/// Categories other than `x` count the same with or without the last item.
proof fn lemma_sum_counts_same(cs: Seq<SoftwareCategory>, p: Seq<SoftwareItemView>, s: Seq<SoftwareItemView>, x: SoftwareCategory)
    requires
        s.len() > 0,
        p == s.drop_last(),
        x == s.last().category,
        !cs.contains(x),
    ensures
        sum_counts(cs, s) == sum_counts(cs, p),
    decreases cs.len(),
{
    if cs.len() > 0 {
        assert(cs.last() != x) by {
            assert(cs[cs.len() - 1] == cs.last());
        }
        assert(!cs.drop_last().contains(x)) by {
            if cs.drop_last().contains(x) {
                let k = choose|k: int| 0 <= k < cs.drop_last().len() && cs.drop_last()[k] == x;
                assert(cs[k] == x);
            }
        }
        lemma_sum_counts_same(cs.drop_last(), p, s, x);
    }
}

proof fn lemma_sum_counts_lacks(cs: Seq<SoftwareCategory>, p: Seq<SoftwareItemView>, s: Seq<SoftwareItemView>, x: SoftwareCategory)
    requires
        s.len() > 0,
        p == s.drop_last(),
        x == s.last().category,
        !cs.contains(x),
        cs == categories_in(p),
    ensures
        sum_counts(categories_in(s), s) == sum_counts(cs, p) + 1,
{
    lemma_sum_counts_same(cs, p, s, x);
    lemma_count_absent_category(p, x);
    assert(categories_in(s) == cs.push(x));
    assert(categories_in(s).drop_last() =~= cs);
}

/// The per-manager counts add up to the number of items.
pub proof fn law_manager_counts_total(s: Seq<SoftwareItemView>)
    ensures
        sum_manager_counts(managers_in(s), s) == s.len(),
{
    lemma_sum_manager_counts(s);
}

/// The total of `count_manager(s, c)` over the managers `cs`.
pub open spec fn sum_manager_counts(cs: Seq<PackageManager>, s: Seq<SoftwareItemView>) -> nat
    decreases cs.len(),
{
    if cs.len() == 0 {
        0
    } else {
        sum_manager_counts(cs.drop_last(), s) + count_manager(s, cs.last())
    }
}

proof fn lemma_sum_manager_counts(s: Seq<SoftwareItemView>)
    ensures
        sum_manager_counts(managers_in(s), s) == s.len(),
    decreases s.len(),
{
    if s.len() > 0 {
        let p = s.drop_last();
        let x = s.last().package_manager;
        lemma_sum_manager_counts(p);
        if managers_in(p).contains(x) {
            lemma_managers_distinct(p);
            lemma_sum_manager_counts_has(managers_in(p), p, s, x);
            assert(managers_in(s) == managers_in(p));
        } else {
            lemma_sum_manager_counts_lacks(managers_in(p), p, s, x);
        }
    }
}

/// Adding an item whose manager is listed once in `cs` adds one to the total.
proof fn lemma_sum_manager_counts_has(cs: Seq<PackageManager>, p: Seq<SoftwareItemView>, s: Seq<SoftwareItemView>, x: PackageManager)
    requires
        s.len() > 0,
        p == s.drop_last(),
        x == s.last().package_manager,
        cs.contains(x),
        forall|i: int, j: int| 0 <= i < j < cs.len() ==> cs[i] != cs[j],
    ensures
        sum_manager_counts(cs, s) == sum_manager_counts(cs, p) + 1,
    decreases cs.len(),
{
    let c = cs.last();
    let q = cs.drop_last();
    assert forall|i: int, j: int| 0 <= i < j < q.len() implies q[i] != q[j] by {
        assert(q[i] == cs[i] && q[j] == cs[j]);
    }
    if c == x {
        assert(!q.contains(x)) by {
            if q.contains(x) {
                let k = choose|k: int| 0 <= k < q.len() && q[k] == x;
                assert(cs[k] == cs[cs.len() - 1]);
            }
        }
        lemma_sum_manager_counts_same(q, p, s, x);
    } else {
        let k = choose|k: int| 0 <= k < cs.len() && cs[k] == x;
        assert(q.contains(x)) by {
            assert(k < q.len());
            assert(q[k] == x);
        }
        lemma_sum_manager_counts_has(q, p, s, x);
    }
}

/// Managers other than `x` count the same with or without the last item.
proof fn lemma_sum_manager_counts_same(cs: Seq<PackageManager>, p: Seq<SoftwareItemView>, s: Seq<SoftwareItemView>, x: PackageManager)
    requires
        s.len() > 0,
        p == s.drop_last(),
        x == s.last().package_manager,
        !cs.contains(x),
    ensures
        sum_manager_counts(cs, s) == sum_manager_counts(cs, p),
    decreases cs.len(),
{
    if cs.len() > 0 {
        assert(cs.last() != x) by {
            assert(cs[cs.len() - 1] == cs.last());
        }
        assert(!cs.drop_last().contains(x)) by {
            if cs.drop_last().contains(x) {
                let k = choose|k: int| 0 <= k < cs.drop_last().len() && cs.drop_last()[k] == x;
                assert(cs[k] == x);
            }
        }
        lemma_sum_manager_counts_same(cs.drop_last(), p, s, x);
    }
}

proof fn lemma_sum_manager_counts_lacks(cs: Seq<PackageManager>, p: Seq<SoftwareItemView>, s: Seq<SoftwareItemView>, x: PackageManager)
    requires
        s.len() > 0,
        p == s.drop_last(),
        x == s.last().package_manager,
        !cs.contains(x),
        cs == managers_in(p),
    ensures
        sum_manager_counts(managers_in(s), s) == sum_manager_counts(cs, p) + 1,
{
    lemma_sum_manager_counts_same(cs, p, s, x);
    lemma_count_absent_manager(p, x);
    assert(managers_in(s) == cs.push(x));
    assert(managers_in(s).drop_last() =~= cs);
}

/// The total of the counts in a list of `(key, count)` entries.
pub open spec fn count_total<K>(ps: Seq<(K, usize)>) -> nat
    decreases ps.len(),
{
    if ps.len() == 0 {
        0
    } else {
        count_total(ps.drop_last()) + ps.last().1 as nat
    }
}

/// The category counts list, taken over the categories `cs`, totals `sum_counts(cs, s)`.
proof fn lemma_category_list_total(cs: Seq<SoftwareCategory>, s: Seq<SoftwareItemView>)
    requires
        s.len() <= usize::MAX,
    ensures
        count_total(cs.map_values(|c: SoftwareCategory| (c, count_category(s, c) as usize)))
            == sum_counts(cs, s),
    decreases cs.len(),
{
    if cs.len() > 0 {
        let f = |c: SoftwareCategory| (c, count_category(s, c) as usize);
        lemma_category_list_total(cs.drop_last(), s);
        lemma_count_category_le(s, cs.last());
        assert(cs.map_values(f).drop_last() =~= cs.drop_last().map_values(f));
    }
}

/// The manager counts list, taken over the managers `cs`, totals `sum_manager_counts(cs, s)`.
proof fn lemma_manager_list_total(cs: Seq<PackageManager>, s: Seq<SoftwareItemView>)
    requires
        s.len() <= usize::MAX,
    ensures
        count_total(cs.map_values(|m: PackageManager| (m, count_manager(s, m) as usize)))
            == sum_manager_counts(cs, s),
    decreases cs.len(),
{
    if cs.len() > 0 {
        let f = |m: PackageManager| (m, count_manager(s, m) as usize);
        lemma_manager_list_total(cs.drop_last(), s);
        lemma_count_manager_le(s, cs.last());
        assert(cs.map_values(f).drop_last() =~= cs.drop_last().map_values(f));
    }
}

/// The counts of a summary's per-category list, and those of its per-manager
/// list, each add up to the number of items.
pub proof fn law_summary_counts_add_up(s: Seq<SoftwareItemView>)
    requires
        s.len() <= usize::MAX,
    ensures
        count_total(category_counts(s)) == s.len(),
        count_total(manager_counts(s)) == s.len(),
{
    lemma_category_list_total(categories_in(s), s);
    lemma_sum_counts(s);
    lemma_manager_list_total(managers_in(s), s);
    lemma_sum_manager_counts(s);
}

} // verus!
