//! Listing items: which pass a request's filters, in which order, and which
//! page is served; looking one item up; the providers worth reporting.
use vstd::prelude::*;

use crate::commands::{
    CommandError, ListSoftwareItemsRequest, ListSoftwareItemsResponse, ProviderStatusResponse,
    ProviderWarningsResponse, SortDirection, SortField, MAX_PAGE_SIZE,
};
use crate::domain::{
    items_view, ClassificationConfidence, InstallationReason, InstallationScope, PackageManager,
    ProviderInventory, SoftwareCategory, SoftwareItem, SoftwareItemView,
};
use crate::providers::ProviderMetadata;
use crate::text::{
    chars_of, contains_in, contains_seq, decimal, lex_le, lex_le_exec, lowercase, occurs_at, opt_view,
    push_decimal, push_str, str_eq, string_of, to_lowercase, trim, trim_range, CharClass,
};
use crate::tui::app::{has_category, has_manager, has_reason, has_scope};

verus! {

// ---------------------------------------------------------------------------
// Paging

pub open spec fn msg_bad_page_size() -> Seq<char> {
    "pageSize must be between 1 and "@ + decimal(MAX_PAGE_SIZE as nat)
}

/// The page and page size a request asks for (1 and 50 by default): page 0
/// is refused first, then a page size outside 1..=500.
pub fn page_request(page: Option<u32>, page_size: Option<u32>) -> (r: Result<(u32, u32), CommandError>)
    ensures
        ({
            let p = match page {
                Some(p) => p,
                None => 1,
            };
            let s = match page_size {
                Some(s) => s,
                None => 50,
            };
            &&& p == 0 ==> (r matches Err(e) && e.kind@ == "invalidRequest"@ && e.message@ == "page must be >= 1"@)
            &&& (p != 0 && !(1 <= s <= MAX_PAGE_SIZE)) ==> (r matches Err(e) && e.kind@ == "invalidRequest"@
                && e.message@ == msg_bad_page_size())
            &&& (p != 0 && 1 <= s <= MAX_PAGE_SIZE) ==> r == Ok::<(u32, u32), CommandError>((p, s))
        }),
{
    let p = match page {
        Some(p) => p,
        None => 1,
    };
    let s = match page_size {
        Some(s) => s,
        None => 50,
    };
    if p == 0 {
        proof {
            reveal_strlit("page must be >= 1");
        }
        return Err(CommandError::invalid_request("page must be >= 1".to_owned()));
    }
    if s == 0 || s > MAX_PAGE_SIZE {
        let mut m = String::new();
        push_str(&mut m, "pageSize must be between 1 and ");
        push_decimal(&mut m, MAX_PAGE_SIZE as u64);
        proof {
            assert(m@ =~= msg_bad_page_size());
        }
        return Err(CommandError::invalid_request(m));
    }
    Ok((p, s))
}

/// The items on 1-based page `page` of `page_size` items each.
pub open spec fn page_of<T>(s: Seq<T>, page: nat, page_size: nat) -> Seq<T> {
    let start = (page - 1) * page_size;
    if start >= s.len() {
        Seq::empty()
    } else if start + page_size >= s.len() {
        s.subrange(start, s.len() as int)
    } else {
        s.subrange(start, start + page_size)
    }
}

/// One page of `items`.
pub fn paginate(items: &Vec<SoftwareItem>, page: u32, page_size: u32) -> (r: Vec<SoftwareItem>)
    requires
        page >= 1,
    ensures
        items_view(r@) == page_of(items_view(items@), page as nat, page_size as nat),
{
    let ghost s = items_view(items@);
    let n = items.len();
    let start: usize = match ((page - 1) as usize).checked_mul(page_size as usize) {
        Some(v) => v,
        None => n,
    };
    let mut out: Vec<SoftwareItem> = Vec::new();
    if start >= n {
        proof {
            assert(items_view(out@) =~= page_of(s, page as nat, page_size as nat));
        }
        return out;
    }
    let end = if n - start <= page_size as usize {
        n
    } else {
        start + page_size as usize
    };
    let mut i = start;
    while i < end
        invariant
            start <= i <= end <= n == items@.len(),
            s == items_view(items@),
            out@.len() == i - start,
            forall|j: int| 0 <= j < i - start ==> (#[trigger] out@[j])@ == s[start + j],
        decreases end - i,
    {
        out.push(items[i].clone());
        i += 1;
    }
    proof {
        assert(items_view(out@) =~= page_of(s, page as nat, page_size as nat));
    }
    out
}

// ---------------------------------------------------------------------------
// Filters

pub open spec fn desc_or_empty(d: Option<Seq<char>>) -> Seq<char> {
    match d {
        Some(x) => x,
        None => Seq::empty(),
    }
}

/// The search: a blank (or absent) one matches everything; otherwise the
/// lowercased trimmed text must occur in the lowercased display name,
/// package name and description, joined by spaces.
pub open spec fn search_matches(it: SoftwareItemView, search: Option<Seq<char>>) -> bool {
    match search {
        None => true,
        Some(s) => trim(s).len() == 0 || contains_seq(
            lowercase(it.display_name) + " "@ + lowercase(it.package_name) + " "@ + lowercase(desc_or_empty(it.description)),
            lowercase(trim(s)),
        ),
    }
}

/// An absent or empty list allows everything; otherwise `x` must be in it.
pub open spec fn allows<T>(list: Option<Vec<T>>, x: T) -> bool {
    match list {
        None => true,
        Some(v) => v@.len() == 0 || v@.contains(x),
    }
}

/// Whether an item passes every filter of the request.
pub open spec fn spec_matches_filters(it: SoftwareItemView, r: ListSoftwareItemsRequest) -> bool {
    &&& search_matches(it, opt_view(r.search))
    &&& allows(r.categories, it.category)
    &&& allows(r.package_managers, it.package_manager)
    &&& allows(r.scopes, it.scope)
    &&& allows(r.installation_reasons, it.installation_reason)
    &&& (r.update_available_only == Some(true) ==> it.update_available)
    &&& (r.min_confidence matches Some(m) ==> it.classification_confidence.spec_rank() >= m.spec_rank())
}

fn search_matches_exec(item: &SoftwareItem, search: &Option<String>) -> (b: bool)
    ensures
        b == search_matches(item@, opt_view(*search)),
{
    match search {
        None => true,
        Some(s) => {
            let v = chars_of(s.as_str());
            proof {
                assert(v@.subrange(0, v@.len() as int) =~= s@);
            }
            let (a, b) = trim_range(&v, 0, v.len(), CharClass::Whitespace);
            if a == b {
                return true;
            }
            let trimmed = string_of(&v, a, b);
            let needle = to_lowercase(trimmed.as_str());
            let mut hay = String::new();
            let d = to_lowercase(item.display_name.as_str());
            let p = to_lowercase(item.package_name.as_str());
            let c = match &item.description {
                Some(x) => to_lowercase(x.as_str()),
                None => to_lowercase(""),
            };
            push_str(&mut hay, d.as_str());
            push_str(&mut hay, " ");
            push_str(&mut hay, p.as_str());
            push_str(&mut hay, " ");
            push_str(&mut hay, c.as_str());
            let hv = chars_of(hay.as_str());
            let nv = chars_of(needle.as_str());
            proof {
                assert(hv@.subrange(0, hv@.len() as int) =~= hv@);
                assert(""@ =~= Seq::<char>::empty()) by {
                    reveal_strlit("");
                }
                assert(hay@ =~= lowercase(item@.display_name) + " "@ + lowercase(item@.package_name) + " "@
                    + lowercase(desc_or_empty(item@.description)));
            }
            contains_in(&hv, 0, hv.len(), &nv)
        },
    }
}

/// Whether `item` passes every filter of `request`.
pub fn matches_filters(item: &SoftwareItem, request: &ListSoftwareItemsRequest) -> (b: bool)
    ensures
        b == spec_matches_filters(item@, *request),
{
    if !search_matches_exec(item, &request.search) {
        return false;
    }
    match &request.categories {
        Some(v) => {
            if v.len() > 0 && !has_category(v, item.category) {
                return false;
            }
        },
        None => {},
    }
    match &request.package_managers {
        Some(v) => {
            if v.len() > 0 && !has_manager(v, item.package_manager) {
                return false;
            }
        },
        None => {},
    }
    match &request.scopes {
        Some(v) => {
            if v.len() > 0 && !has_scope(v, item.scope) {
                return false;
            }
        },
        None => {},
    }
    match &request.installation_reasons {
        Some(v) => {
            if v.len() > 0 && !has_reason(v, item.installation_reason) {
                return false;
            }
        },
        None => {},
    }
    if request.update_available_only == Some(true) && !item.update_available {
        return false;
    }
    match request.min_confidence {
        Some(m) => {
            if item.classification_confidence.rank() < m.rank() {
                return false;
            }
        },
        None => {},
    }
    true
}

/// The items that pass every filter, in order.
pub open spec fn spec_filter_items(s: Seq<SoftwareItemView>, r: ListSoftwareItemsRequest) -> Seq<SoftwareItemView>
    decreases s.len(),
{
    if s.len() == 0 {
        s
    } else if spec_matches_filters(s.last(), r) {
        spec_filter_items(s.drop_last(), r).push(s.last())
    } else {
        spec_filter_items(s.drop_last(), r)
    }
}

pub fn filter_items(items: &Vec<SoftwareItem>, request: &ListSoftwareItemsRequest) -> (r: Vec<SoftwareItem>)
    ensures
        items_view(r@) == spec_filter_items(items_view(items@), *request),
{
    let ghost s = items_view(items@);
    let mut out: Vec<SoftwareItem> = Vec::new();
    let mut i: usize = 0;
    while i < items.len()
        invariant
            0 <= i <= items@.len(),
            s == items_view(items@),
            items_view(out@) == spec_filter_items(s.take(i as int), *request),
        decreases items@.len() - i,
    {
        proof {
            assert(s.take(i + 1).drop_last() =~= s.take(i as int));
            assert(s.take(i + 1).last() == items@[i as int]@);
        }
        if matches_filters(&items[i], request) {
            let ghost before = out@;
            let x = items[i].clone();
            let ghost xv = x@;
            out.push(x);
            proof {
                assert(items_view(out@) =~= items_view(before).push(xv));
            }
        }
        i += 1;
    }
    proof {
        assert(s.take(i as int) =~= s);
    }
    out
}

// ---------------------------------------------------------------------------
// Sorting

/// What items are ordered by: a number first, then a text. Text fields use
/// the number 0; number fields the empty text.
pub open spec fn list_key(f: SortField, it: SoftwareItemView) -> (int, Seq<char>) {
    match f {
        SortField::DisplayName => (0, lowercase(it.display_name)),
        SortField::Category => (0, it.category.spec_name()),
        SortField::PackageManager => (0, it.package_manager.spec_name()),
        SortField::Version => (0, desc_or_empty(it.version)),
        SortField::InstalledSize => (
            match it.installed_size_bytes {
                Some(n) => n as int,
                None => 0,
            },
            Seq::empty(),
        ),
        SortField::Confidence => (it.classification_confidence.spec_rank() as int, Seq::empty()),
    }
}

/// `a` orders strictly before `b`.
pub open spec fn key_lt(a: (int, Seq<char>), b: (int, Seq<char>)) -> bool {
    a.0 < b.0 || (a.0 == b.0 && !lex_le(b.1, a.1))
}

/// `x`, placed after `e` in the input, has to move in front of it.
pub open spec fn goes_before(x: (int, Seq<char>), e: (int, Seq<char>), d: SortDirection) -> bool {
    match d {
        SortDirection::Ascending => key_lt(x, e),
        SortDirection::Descending => key_lt(e, x),
    }
}

pub open spec fn list_insert(s: Seq<SoftwareItemView>, x: SoftwareItemView, f: SortField, d: SortDirection) -> Seq<SoftwareItemView>
    decreases s.len(),
{
    if s.len() == 0 {
        seq![x]
    } else if goes_before(list_key(f, x), list_key(f, s.last()), d) {
        list_insert(s.drop_last(), x, f, d).push(s.last())
    } else {
        s.push(x)
    }
}

/// The stable sort of `s` by `f` in direction `d`: items that compare equal
/// keep their order, in either direction.
pub open spec fn list_sorted(s: Seq<SoftwareItemView>, f: SortField, d: SortDirection) -> Seq<SoftwareItemView>
    decreases s.len(),
{
    if s.len() == 0 {
        s
    } else {
        list_insert(list_sorted(s.drop_last(), f, d), s.last(), f, d)
    }
}

proof fn lemma_list_insert_at(s: Seq<SoftwareItemView>, x: SoftwareItemView, f: SortField, d: SortDirection, pos: int)
    requires
        0 <= pos <= s.len(),
        forall|j: int| pos <= j < s.len() ==> goes_before(list_key(f, x), list_key(f, #[trigger] s[j]), d),
        pos == 0 || !goes_before(list_key(f, x), list_key(f, s[pos - 1]), d),
    ensures
        list_insert(s, x, f, d) == s.insert(pos, x),
    decreases s.len(),
{
    if s.len() == 0 {
        assert(s.insert(pos, x) =~= seq![x]);
    } else if goes_before(list_key(f, x), list_key(f, s.last()), d) {
        let t = s.drop_last();
        assert(pos < s.len()) by {
            if pos == s.len() {
                assert(s[pos - 1] == s.last());
            }
        }
        assert forall|j: int| pos <= j < t.len() implies goes_before(list_key(f, x), list_key(f, #[trigger] t[j]), d) by {
            assert(t[j] == s[j]);
        }
        if pos > 0 {
            assert(t[pos - 1] == s[pos - 1]);
        }
        lemma_list_insert_at(t, x, f, d, pos);
        assert(t.insert(pos, x).push(s.last()) =~= s.insert(pos, x));
    } else {
        assert(pos == s.len()) by {
            if pos < s.len() {
                assert(goes_before(list_key(f, x), list_key(f, s[s.len() - 1]), d));
            }
        }
        assert(s.insert(pos, x) =~= s.push(x));
    }
}

/// A key, executable: the number and the text's characters.
fn list_key_exec(f: SortField, item: &SoftwareItem) -> (k: (u64, Vec<char>))
    ensures
        (k.0 as int, k.1@) == list_key(f, item@),
{
    match f {
        SortField::DisplayName => {
            let l = to_lowercase(item.display_name.as_str());
            (0, chars_of(l.as_str()))
        },
        SortField::Category => (0, chars_of(item.category.name())),
        SortField::PackageManager => (0, chars_of(item.package_manager.name())),
        SortField::Version => match &item.version {
            Some(v) => (0, chars_of(v.as_str())),
            None => (0, Vec::new()),
        },
        SortField::InstalledSize => match item.installed_size_bytes {
            Some(n) => (n, Vec::new()),
            None => (0, Vec::new()),
        },
        SortField::Confidence => (item.classification_confidence.rank() as u64, Vec::new()),
    }
}

fn key_lt_exec(a: &(u64, Vec<char>), b: &(u64, Vec<char>)) -> (r: bool)
    ensures
        r == key_lt((a.0 as int, a.1@), (b.0 as int, b.1@)),
{
    a.0 < b.0 || (a.0 == b.0 && !lex_le_exec(&b.1, &a.1))
}

fn goes_before_exec(x: &(u64, Vec<char>), e: &(u64, Vec<char>), d: SortDirection) -> (r: bool)
    ensures
        r == goes_before((x.0 as int, x.1@), (e.0 as int, e.1@), d),
{
    match d {
        SortDirection::Ascending => key_lt_exec(x, e),
        SortDirection::Descending => key_lt_exec(e, x),
    }
}

/// `items`, stably sorted by `f` in direction `d`.
pub fn sort_items(items: Vec<SoftwareItem>, f: SortField, d: SortDirection) -> (r: Vec<SoftwareItem>)
    ensures
        items_view(r@) == list_sorted(items_view(items@), f, d),
{
    let ghost s = items_view(items@);
    let mut out: Vec<SoftwareItem> = Vec::new();
    let mut keys: Vec<(u64, Vec<char>)> = Vec::new();
    let mut i: usize = 0;
    proof {
        assert(items_view(out@) =~= list_sorted(s.take(0), f, d));
    }
    while i < items.len()
        invariant
            0 <= i <= items@.len(),
            s == items_view(items@),
            keys@.len() == out@.len(),
            forall|j: int| 0 <= j < keys@.len() ==> ((#[trigger] keys@[j]).0 as int, keys@[j].1@) == list_key(f, out@[j]@),
            items_view(out@) == list_sorted(s.take(i as int), f, d),
        decreases items@.len() - i,
    {
        let x = items[i].clone();
        let k = list_key_exec(f, &x);
        let mut pos = out.len();
        while pos > 0 && goes_before_exec(&k, &keys[pos - 1], d)
            invariant
                0 <= pos <= out@.len() == keys@.len(),
                forall|j: int| 0 <= j < keys@.len() ==> ((#[trigger] keys@[j]).0 as int, keys@[j].1@) == list_key(f, out@[j]@),
                (k.0 as int, k.1@) == list_key(f, x@),
                forall|j: int| pos <= j < out@.len() ==> goes_before(list_key(f, x@), list_key(f, (#[trigger] out@[j])@), d),
            decreases pos,
        {
            pos -= 1;
        }
        proof {
            let sv = items_view(out@);
            assert forall|j: int| pos <= j < sv.len() implies goes_before(list_key(f, x@), list_key(f, #[trigger] sv[j]), d) by {
                assert(sv[j] == out@[j]@);
            }
            if pos > 0 {
                assert(sv[pos - 1] == out@[pos - 1]@);
            }
            lemma_list_insert_at(sv, x@, f, d, pos as int);
            assert(s.take(i + 1).drop_last() =~= s.take(i as int));
            assert(s.take(i + 1).last() == x@);
        }
        let ghost before = out@;
        let ghost kbefore = keys@;
        let ghost xv = x@;
        out.insert(pos, x);
        keys.insert(pos, k);
        proof {
            assert(items_view(out@) =~= items_view(before).insert(pos as int, xv));
            assert forall|j: int| 0 <= j < keys@.len() implies ((#[trigger] keys@[j]).0 as int, keys@[j].1@) == list_key(f, out@[j]@) by {
                if j < pos {
                    assert(keys@[j] == kbefore[j] && out@[j] == before[j]);
                } else if j > pos {
                    assert(keys@[j] == kbefore[j - 1] && out@[j] == before[j - 1]);
                }
            }
        }
        i += 1;
    }
    proof {
        assert(s.take(i as int) =~= s);
    }
    out
}

// ---------------------------------------------------------------------------
// Commands

pub open spec fn spec_sort_field(r: ListSoftwareItemsRequest) -> SortField {
    match r.sort_by {
        Some(f) => f,
        None => SortField::DisplayName,
    }
}

pub open spec fn spec_sort_direction(r: ListSoftwareItemsRequest) -> SortDirection {
    match r.sort_direction {
        Some(d) => d,
        None => SortDirection::Ascending,
    }
}

/// The `list_software_items` command over the latest scan's items: the page
/// is checked, the items filtered, sorted (by display name, ascending,
/// unless asked otherwise) and cut to the page; the total counts every item
/// that passed the filters.
pub fn list_software_items(all_items: &Vec<SoftwareItem>, request: &ListSoftwareItemsRequest) -> (r: Result<ListSoftwareItemsResponse, CommandError>)
    ensures
        ({
            let p = match request.page {
                Some(p) => p,
                None => 1,
            };
            let s = match request.page_size {
                Some(s) => s,
                None => 50,
            };
            &&& (p == 0 || !(1 <= s <= MAX_PAGE_SIZE)) ==> (r matches Err(e) && e.kind@ == "invalidRequest"@)
            &&& (p != 0 && 1 <= s <= MAX_PAGE_SIZE) ==> (r matches Ok(resp) && {
                let kept = spec_filter_items(items_view(all_items@), *request);
                &&& resp.total_count == kept.len()
                &&& resp.page == p
                &&& resp.page_size == s
                &&& items_view(resp.items@) == page_of(
                    list_sorted(kept, spec_sort_field(*request), spec_sort_direction(*request)),
                    p as nat,
                    s as nat,
                )
            })
        }),
{
    let (page, page_size) = match page_request(request.page, request.page_size) {
        Ok(ps) => ps,
        Err(e) => {
            return Err(e);
        },
    };
    let kept = filter_items(all_items, request);
    let field = match request.sort_by {
        Some(f) => f,
        None => SortField::DisplayName,
    };
    let direction = match request.sort_direction {
        Some(d) => d,
        None => SortDirection::Ascending,
    };
    let sorted = sort_items(kept, field, direction);
    let total_count = sorted.len();
    proof {
        lemma_list_sorted_len(spec_filter_items(items_view(all_items@), *request), field, direction);
        assert(items_view(sorted@).len() == sorted@.len());
    }
    let items = paginate(&sorted, page, page_size);
    proof {
        assert(field == spec_sort_field(*request));
        assert(direction == spec_sort_direction(*request));
        assert(items_view(sorted@) == list_sorted(spec_filter_items(items_view(all_items@), *request), field, direction));
        assert(spec_filter_items(items_view(all_items@), *request).len() == total_count);
    }
    Ok(ListSoftwareItemsResponse { items, total_count, page, page_size })
}

proof fn lemma_list_insert_len(s: Seq<SoftwareItemView>, x: SoftwareItemView, f: SortField, d: SortDirection)
    ensures
        list_insert(s, x, f, d).len() == s.len() + 1,
    decreases s.len(),
{
    if s.len() > 0 && goes_before(list_key(f, x), list_key(f, s.last()), d) {
        lemma_list_insert_len(s.drop_last(), x, f, d);
    }
}

/// Sorting keeps the number of items.
pub proof fn lemma_list_sorted_len(s: Seq<SoftwareItemView>, f: SortField, d: SortDirection)
    ensures
        list_sorted(s, f, d).len() == s.len(),
    decreases s.len(),
{
    if s.len() > 0 {
        lemma_list_sorted_len(s.drop_last(), f, d);
        lemma_list_insert_len(list_sorted(s.drop_last(), f, d), s.last(), f, d);
    }
}

/// No item of `s` has to move in front of an earlier one.
pub open spec fn listing_ordered(s: Seq<SoftwareItemView>, f: SortField, d: SortDirection) -> bool {
    forall|i: int, j: int|
        0 <= i < j < s.len() ==> !goes_before(list_key(f, #[trigger] s[j]), list_key(f, #[trigger] s[i]), d)
}

/// `key_lt` never holds both ways.
proof fn lemma_key_lt_asym(a: (int, Seq<char>), b: (int, Seq<char>))
    ensures
        !(key_lt(a, b) && key_lt(b, a)),
{
    crate::text::lemma_lex_total(a.1, b.1);
}

/// "Not strictly before" chains.
proof fn lemma_key_not_lt_trans(a: (int, Seq<char>), b: (int, Seq<char>), c: (int, Seq<char>))
    requires
        !key_lt(b, a),
        !key_lt(c, b),
    ensures
        !key_lt(c, a),
{
    crate::text::lemma_lex_total(a.1, b.1);
    crate::text::lemma_lex_total(b.1, c.1);
    crate::text::lemma_lex_total(a.1, c.1);
    if a.0 == b.0 && b.0 == c.0 {
        if lex_le(a.1, b.1) && lex_le(b.1, c.1) {
            crate::text::lemma_lex_trans(a.1, b.1, c.1);
        }
    }
}

proof fn lemma_goes_before_asym(a: (int, Seq<char>), b: (int, Seq<char>), d: SortDirection)
    ensures
        !(goes_before(a, b, d) && goes_before(b, a, d)),
{
    lemma_key_lt_asym(a, b);
}

proof fn lemma_not_goes_before_trans(x: (int, Seq<char>), l: (int, Seq<char>), e: (int, Seq<char>), d: SortDirection)
    requires
        !goes_before(x, l, d),
        !goes_before(l, e, d),
    ensures
        !goes_before(x, e, d),
{
    match d {
        SortDirection::Ascending => lemma_key_not_lt_trans(e, l, x),
        SortDirection::Descending => lemma_key_not_lt_trans(x, l, e),
    }
}

/// Inserting adds `x` to the items and keeps an ordered sequence ordered.
proof fn lemma_list_insert_ordered(s: Seq<SoftwareItemView>, x: SoftwareItemView, f: SortField, d: SortDirection)
    ensures
        list_insert(s, x, f, d).to_multiset() =~= s.to_multiset().insert(x),
        listing_ordered(s, f, d) ==> listing_ordered(list_insert(s, x, f, d), f, d),
    decreases s.len(),
{
    broadcast use vstd::seq_lib::group_to_multiset_ensures;
    if s.len() == 0 {
        assert(seq![x] =~= Seq::<SoftwareItemView>::empty().push(x));
    } else {
        let t = s.drop_last();
        let l = s.last();
        assert(t.push(l) =~= s);
        if goes_before(list_key(f, x), list_key(f, l), d) {
            lemma_list_insert_ordered(t, x, f, d);
            let u = list_insert(t, x, f, d);
            if listing_ordered(s, f, d) {
                assert forall|i: int, j: int| 0 <= i < j < t.len() implies !goes_before(
                    list_key(f, #[trigger] t[j]),
                    list_key(f, #[trigger] t[i]),
                    d,
                ) by {
                    assert(t[i] == s[i] && t[j] == s[j]);
                }
                assert forall|k: int| 0 <= k < u.len() implies !goes_before(
                    list_key(f, l),
                    list_key(f, #[trigger] u[k]),
                    d,
                ) by {
                    assert(u.to_multiset().count(u[k]) > 0);
                    assert(t.to_multiset().insert(x).count(u[k]) > 0);
                    if u[k] == x {
                        lemma_goes_before_asym(list_key(f, x), list_key(f, l), d);
                    } else {
                        assert(t.to_multiset().count(u[k]) > 0);
                        assert(t.contains(u[k]));
                        let m = choose|m: int| 0 <= m < t.len() && t[m] == u[k];
                        assert(s[m] == t[m] && s[s.len() - 1] == l);
                    }
                }
                let r = u.push(l);
                assert forall|i: int, j: int| 0 <= i < j < r.len() implies !goes_before(
                    list_key(f, #[trigger] r[j]),
                    list_key(f, #[trigger] r[i]),
                    d,
                ) by {
                    if j < u.len() {
                        assert(r[i] == u[i] && r[j] == u[j]);
                    } else {
                        assert(r[i] == u[i] && r[j] == l);
                    }
                }
            }
        } else {
            if listing_ordered(s, f, d) {
                let r = s.push(x);
                assert forall|i: int, j: int| 0 <= i < j < r.len() implies !goes_before(
                    list_key(f, #[trigger] r[j]),
                    list_key(f, #[trigger] r[i]),
                    d,
                ) by {
                    if j < s.len() {
                        assert(r[i] == s[i] && r[j] == s[j]);
                    } else if i == s.len() - 1 {
                        assert(r[i] == l && r[j] == x);
                    } else {
                        assert(r[i] == s[i] && r[j] == x);
                        assert(!goes_before(list_key(f, l), list_key(f, s[i]), d));
                        lemma_not_goes_before_trans(list_key(f, x), list_key(f, l), list_key(f, s[i]), d);
                    }
                }
            }
        }
    }
}

/// The listing's sort puts every item in order (none has to move in front
/// of an earlier one, in either direction) and loses or adds none.
pub proof fn law_sorted_listing_is_ordered(s: Seq<SoftwareItemView>, f: SortField, d: SortDirection)
    ensures
        listing_ordered(list_sorted(s, f, d), f, d),
        list_sorted(s, f, d).to_multiset() =~= s.to_multiset(),
    decreases s.len(),
{
    broadcast use vstd::seq_lib::group_to_multiset_ensures;
    if s.len() > 0 {
        law_sorted_listing_is_ordered(s.drop_last(), f, d);
        lemma_list_insert_ordered(list_sorted(s.drop_last(), f, d), s.last(), f, d);
        assert(s.drop_last().push(s.last()) =~= s);
    }
}

/// The items of `s` whose sort key is `k`, in order.
pub open spec fn with_key(s: Seq<SoftwareItemView>, f: SortField, k: (int, Seq<char>)) -> Seq<SoftwareItemView>
    decreases s.len(),
{
    if s.len() == 0 {
        s
    } else if list_key(f, s.last()) == k {
        with_key(s.drop_last(), f, k).push(s.last())
    } else {
        with_key(s.drop_last(), f, k)
    }
}

proof fn lemma_list_insert_with_key(
    t: Seq<SoftwareItemView>,
    x: SoftwareItemView,
    f: SortField,
    d: SortDirection,
    k: (int, Seq<char>),
)
    ensures
        with_key(list_insert(t, x, f, d), f, k) == (if list_key(f, x) == k {
            with_key(t, f, k).push(x)
        } else {
            with_key(t, f, k)
        }),
    decreases t.len(),
{
    if t.len() == 0 {
        assert(seq![x].drop_last() =~= t);
        assert(seq![x].last() == x);
    } else {
        let l = t.last();
        if goes_before(list_key(f, x), list_key(f, l), d) {
            let u = list_insert(t.drop_last(), x, f, d);
            lemma_list_insert_with_key(t.drop_last(), x, f, d, k);
            assert(u.push(l).drop_last() =~= u);
            assert(u.push(l).last() == l);
            crate::text::lemma_lex_total(list_key(f, x).1, list_key(f, x).1);
        } else {
            assert(t.push(x).drop_last() =~= t);
            assert(t.push(x).last() == x);
        }
    }
}

/// The listing's sort is stable: the items of any one sort key come out in
/// the order they went in, in either direction.
pub proof fn law_sorted_listing_is_stable(s: Seq<SoftwareItemView>, f: SortField, d: SortDirection, k: (int, Seq<char>))
    ensures
        with_key(list_sorted(s, f, d), f, k) == with_key(s, f, k),
    decreases s.len(),
{
    if s.len() > 0 {
        law_sorted_listing_is_stable(s.drop_last(), f, d, k);
        lemma_list_insert_with_key(list_sorted(s.drop_last(), f, d), s.last(), f, d, k);
    }
}

/// The first item whose id is `id`.
pub open spec fn first_with_id(s: Seq<SoftwareItemView>, id: Seq<char>) -> Option<SoftwareItemView>
    decreases s.len(),
{
    if s.len() == 0 {
        None
    } else if s[0].id == id {
        Some(s[0])
    } else {
        first_with_id(s.subrange(1, s.len() as int), id)
    }
}

/// The `get_software_item` command: the id is trimmed and must not be
/// empty; the answer is the first item with that id, if any.
pub fn get_software_item(items: &Vec<SoftwareItem>, id: &str) -> (r: Result<Option<SoftwareItem>, CommandError>)
    ensures
        trim(id@).len() == 0 ==> (r matches Err(e) && e.kind@ == "invalidRequest"@ && e.message@ == "id must not be empty"@),
        trim(id@).len() > 0 ==> (r matches Ok(found) && match found {
            Some(x) => first_with_id(items_view(items@), trim(id@)) == Some(x@),
            None => first_with_id(items_view(items@), trim(id@)) is None,
        }),
{
    let v = chars_of(id);
    proof {
        assert(v@.subrange(0, v@.len() as int) =~= id@);
    }
    let (a, b) = trim_range(&v, 0, v.len(), CharClass::Whitespace);
    if a == b {
        proof {
            reveal_strlit("id must not be empty");
        }
        return Err(CommandError::invalid_request("id must not be empty".to_owned()));
    }
    let wanted = string_of(&v, a, b);
    let ghost s = items_view(items@);
    proof {
        assert(s.subrange(0, s.len() as int) =~= s);
    }
    let mut i: usize = 0;
    while i < items.len()
        invariant
            0 <= i <= items@.len(),
            s == items_view(items@),
            wanted@ == trim(id@),
            trim(id@).len() > 0,
            first_with_id(s, trim(id@)) == first_with_id(s.subrange(i as int, s.len() as int), trim(id@)),
        decreases items@.len() - i,
    {
        let ghost rest = s.subrange(i as int, s.len() as int);
        proof {
            assert(rest[0] == items@[i as int]@);
            assert(rest.subrange(1, rest.len() as int) =~= s.subrange(i + 1, s.len() as int));
        }
        if str_eq(items[i].id.as_str(), wanted.as_str()) {
            return Ok(Some(items[i].clone()));
        }
        i += 1;
    }
    Ok(None)
}

/// The providers of the latest scan worth reporting: those with warnings or an error, in order.
pub open spec fn reported(rs: Seq<ProviderInventory>) -> Seq<ProviderInventory>
    decreases rs.len(),
{
    if rs.len() == 0 {
        rs
    } else if rs.last().warnings@.len() > 0 || rs.last().error is Some {
        reported(rs.drop_last()).push(rs.last())
    } else {
        reported(rs.drop_last())
    }
}

/// The `list_provider_warnings` command over the latest scan's provider results.
pub fn provider_warnings(results: Vec<ProviderInventory>) -> (r: Vec<ProviderWarningsResponse>)
    ensures
        r@.len() == reported(results@).len(),
        forall|i: int|
            0 <= i < r@.len() ==> {
                let p = #[trigger] reported(results@)[i];
                &&& r@[i].provider_id == p.provider_id
                &&& r@[i].warnings == p.warnings
                &&& r@[i].error == p.error
            },
{
    let ghost all = results@;
    let n = results.len();
    let mut rest = results;
    let mut out: Vec<ProviderWarningsResponse> = Vec::new();
    let mut i: usize = 0;
    proof {
        assert(rest@ =~= all.subrange(0, all.len() as int));
    }
    while rest.len() > 0
        invariant
            i + rest@.len() == all.len(),
            all.len() <= usize::MAX,
            rest@ == all.subrange(i as int, all.len() as int),
            out@.len() == reported(all.take(i as int)).len(),
            forall|k: int|
                0 <= k < out@.len() ==> {
                    let p = #[trigger] reported(all.take(i as int))[k];
                    &&& out@[k].provider_id == p.provider_id
                    &&& out@[k].warnings == p.warnings
                    &&& out@[k].error == p.error
                },
        decreases rest@.len(),
    {
        let p = rest.remove(0);
        proof {
            assert(p == all[i as int]);
            assert(all.take(i + 1).drop_last() =~= all.take(i as int));
            assert(all.take(i + 1).last() == all[i as int]);
            assert(rest@ =~= all.subrange(i + 1, all.len() as int));
        }
        if p.warnings.len() > 0 || p.error.is_some() {
            out.push(ProviderWarningsResponse { provider_id: p.provider_id, warnings: p.warnings, error: p.error });
        }
        i += 1;
    }
    proof {
        assert(all.take(i as int) =~= all);
    }
    out
}

/// The `get_provider_status` command: one entry per provider, with its
/// metadata and whether it is available, in order.
pub fn provider_statuses(details: &Vec<(ProviderMetadata, bool)>) -> (r: Vec<ProviderStatusResponse>)
    ensures
        r@.len() == details@.len(),
        forall|i: int|
            0 <= i < r@.len() ==> {
                &&& (#[trigger] r@[i]).id@ == details@[i].0.id.spec_str()
                &&& r@[i].display_name@ == details@[i].0.display_name@
                &&& r@[i].description@ == details@[i].0.description@
                &&& r@[i].available == details@[i].1
            },
{
    let mut out: Vec<ProviderStatusResponse> = Vec::new();
    let mut i: usize = 0;
    while i < details.len()
        invariant
            0 <= i <= details@.len(),
            out@.len() == i,
            forall|k: int|
                0 <= k < i ==> {
                    &&& (#[trigger] out@[k]).id@ == details@[k].0.id.spec_str()
                    &&& out@[k].display_name@ == details@[k].0.display_name@
                    &&& out@[k].description@ == details@[k].0.description@
                    &&& out@[k].available == details@[k].1
                },
        decreases details@.len() - i,
    {
        let (m, available) = &details[i];
        out.push(ProviderStatusResponse {
            id: m.id.as_str().to_owned(),
            display_name: m.display_name.to_owned(),
            description: m.description.to_owned(),
            available: *available,
        });
        i += 1;
    }
    out
}

// ---------------------------------------------------------------------------
// Laws

proof fn lemma_filter_members(s: Seq<SoftwareItemView>, r: ListSoftwareItemsRequest)
    ensures
        forall|i: int| 0 <= i < spec_filter_items(s, r).len() ==> spec_matches_filters(#[trigger] spec_filter_items(s, r)[i], r),
    decreases s.len(),
{
    if s.len() > 0 {
        lemma_filter_members(s.drop_last(), r);
        let p = spec_filter_items(s.drop_last(), r);
        assert forall|i: int| 0 <= i < spec_filter_items(s, r).len() implies spec_matches_filters(
            #[trigger] spec_filter_items(s, r)[i],
            r,
        ) by {
            if i < p.len() {
                assert(spec_filter_items(s, r)[i] == p[i]);
            }
        }
    }
}

proof fn lemma_list_insert_members(s: Seq<SoftwareItemView>, x: SoftwareItemView, f: SortField, d: SortDirection)
    ensures
        forall|i: int| 0 <= i < list_insert(s, x, f, d).len() ==> #[trigger] list_insert(s, x, f, d)[i] == x
            || s.contains(list_insert(s, x, f, d)[i]),
    decreases s.len(),
{
    lemma_list_insert_len(s, x, f, d);
    if s.len() > 0 && goes_before(list_key(f, x), list_key(f, s.last()), d) {
        let p = s.drop_last();
        lemma_list_insert_members(p, x, f, d);
        lemma_list_insert_len(p, x, f, d);
        assert forall|i: int| 0 <= i < list_insert(s, x, f, d).len() implies #[trigger] list_insert(s, x, f, d)[i] == x
            || s.contains(list_insert(s, x, f, d)[i]) by {
            let e = list_insert(s, x, f, d)[i];
            if i == list_insert(s, x, f, d).len() - 1 {
                assert(s[s.len() - 1] == e);
            } else {
                assert(e == list_insert(p, x, f, d)[i]);
                if e != x {
                    let k = choose|k: int| 0 <= k < p.len() && p[k] == e;
                    assert(s[k] == e);
                }
            }
        }
    } else if s.len() > 0 {
        assert forall|i: int| 0 <= i < list_insert(s, x, f, d).len() implies #[trigger] list_insert(s, x, f, d)[i] == x
            || s.contains(list_insert(s, x, f, d)[i]) by {
            if i < s.len() {
                assert(s[i] == list_insert(s, x, f, d)[i]);
            }
        }
    }
}

proof fn lemma_list_sorted_members(s: Seq<SoftwareItemView>, f: SortField, d: SortDirection)
    ensures
        forall|i: int| 0 <= i < list_sorted(s, f, d).len() ==> #[trigger] s.contains(list_sorted(s, f, d)[i]),
    decreases s.len(),
{
    if s.len() > 0 {
        let p = s.drop_last();
        lemma_list_sorted_members(p, f, d);
        lemma_list_insert_members(list_sorted(p, f, d), s.last(), f, d);
        assert forall|i: int| 0 <= i < list_sorted(s, f, d).len() implies #[trigger] s.contains(list_sorted(s, f, d)[i]) by {
            let e = list_sorted(s, f, d)[i];
            if e == s.last() {
                assert(s[s.len() - 1] == e);
            } else {
                assert(list_sorted(p, f, d).contains(e));
                let j = choose|j: int| 0 <= j < list_sorted(p, f, d).len() && list_sorted(p, f, d)[j] == e;
                assert(p.contains(list_sorted(p, f, d)[j]));
                let k = choose|k: int| 0 <= k < p.len() && p[k] == e;
                assert(s[k] == e);
            }
        }
    }
}

/// A served page holds at most `page_size` items, each of which passes
/// every filter of the request and is one of the scanned items.
pub proof fn law_listed_items_pass_filters(
    s: Seq<SoftwareItemView>,
    r: ListSoftwareItemsRequest,
    page: nat,
    page_size: nat,
)
    requires
        page >= 1,
    ensures
        ({
            let listed = page_of(
                list_sorted(spec_filter_items(s, r), spec_sort_field(r), spec_sort_direction(r)),
                page,
                page_size,
            );
            &&& listed.len() <= page_size
            &&& forall|i: int| 0 <= i < listed.len() ==> spec_matches_filters(#[trigger] listed[i], r) && s.contains(listed[i])
        }),
{
    let kept = spec_filter_items(s, r);
    let f = spec_sort_field(r);
    let d = spec_sort_direction(r);
    let sorted = list_sorted(kept, f, d);
    let listed = page_of(sorted, page, page_size);
    lemma_filter_members(s, r);
    lemma_filter_subset(s, r);
    lemma_list_sorted_members(kept, f, d);
    let start = (page - 1) * page_size;
    assert(start >= 0) by (nonlinear_arith)
        requires
            page >= 1,
            page_size >= 0,
            start == (page - 1) * page_size,
    ;
    assert forall|i: int| 0 <= i < listed.len() implies spec_matches_filters(#[trigger] listed[i], r) && s.contains(listed[i]) by {
        assert(listed[i] == sorted[start + i]);
        assert(kept.contains(sorted[start + i]));
        let k = choose|k: int| 0 <= k < kept.len() && kept[k] == sorted[start + i];
        assert(s.contains(kept[k]));
    }
}

proof fn lemma_filter_subset(s: Seq<SoftwareItemView>, r: ListSoftwareItemsRequest)
    ensures
        forall|i: int| 0 <= i < spec_filter_items(s, r).len() ==> #[trigger] s.contains(spec_filter_items(s, r)[i]),
    decreases s.len(),
{
    if s.len() > 0 {
        let p = s.drop_last();
        lemma_filter_subset(p, r);
        assert forall|i: int| 0 <= i < spec_filter_items(s, r).len() implies #[trigger] s.contains(spec_filter_items(s, r)[i]) by {
            if i < spec_filter_items(p, r).len() {
                assert(spec_filter_items(s, r)[i] == spec_filter_items(p, r)[i]);
                assert(p.contains(spec_filter_items(p, r)[i]));
                let k = choose|k: int| 0 <= k < p.len() && p[k] == spec_filter_items(p, r)[i];
                assert(s[k] == p[k]);
            } else {
                assert(s[s.len() - 1] == s.last());
            }
        }
    }
}

/// Law: the search ignores case the way it lowers its haystack, so the
/// needle is lowered too: an item is always found by a query whose trimmed
/// text is its own display name, package name or description, whatever
/// their case; a blank or absent query finds every item.
pub proof fn law_search_finds_an_item_by_its_own_name(it: SoftwareItemView, q: Seq<char>)
    ensures
        trim(q) == it.display_name || trim(q) == it.package_name || it.description == Some(trim(q))
            ==> search_matches(it, Some(q)),
        trim(q).len() == 0 ==> search_matches(it, Some(q)),
        search_matches(it, None),
{
    let d = lowercase(it.display_name);
    let p = lowercase(it.package_name);
    let c = lowercase(desc_or_empty(it.description));
    let hay = d + " "@ + p + " "@ + c;
    if trim(q).len() > 0 {
        if trim(q) == it.display_name {
            assert(hay.subrange(0, d.len() as int) =~= d);
            assert(occurs_at(hay, lowercase(trim(q)), 0));
        } else if trim(q) == it.package_name {
            let k: int = (d.len() + " "@.len()) as int;
            assert(hay.subrange(k, k + p.len()) =~= p);
            assert(occurs_at(hay, lowercase(trim(q)), k));
        } else if it.description == Some(trim(q)) {
            let k: int = (hay.len() - c.len()) as int;
            assert(hay.subrange(k, k + c.len()) =~= c);
            assert(occurs_at(hay, lowercase(trim(q)), k));
        }
    }
}

} // verus!
