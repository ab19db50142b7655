//! State of the terminal browser: the inventory, which of its items the
//! active search and filters keep and in what order, the page and the
//! selection, the search text being edited and the scan status line.
use vstd::prelude::*;

use crate::domain::{
    items_view, ClassificationConfidence, InstallationReason, InstallationScope, PackageManager,
    SoftwareCategory, SoftwareItem, SoftwareItemView,
};
use crate::text::{
    char_index_at_byte, char_index_at_byte_exec, chars_of, contains_in, contains_seq, lex_le,
    lex_le_exec, lowercase, string_of_all, to_lowercase,
};

verus! {

#[derive(Debug, Clone, Copy, PartialEq, Eq, Structural)]
pub enum SortField {
    Name,
    Category,
    Manager,
    Version,
}

#[derive(Debug, Clone, Copy, PartialEq, Eq, Structural)]
pub enum SortOrder {
    Ascending,
    Descending,
}

/// The filter panel's tabs, in the order Left/Right walks them.
#[derive(Debug, Clone, Copy, PartialEq, Eq, Structural)]
pub enum FilterDimension {
    Category,
    Manager,
    Scope,
    Reason,
    Confidence,
    UpdateAvailable,
}

impl FilterDimension {
    pub open spec fn spec_next(self) -> FilterDimension {
        match self {
            FilterDimension::Category => FilterDimension::Manager,
            FilterDimension::Manager => FilterDimension::Scope,
            FilterDimension::Scope => FilterDimension::Reason,
            FilterDimension::Reason => FilterDimension::Confidence,
            FilterDimension::Confidence => FilterDimension::UpdateAvailable,
            FilterDimension::UpdateAvailable => FilterDimension::Category,
        }
    }

    pub open spec fn spec_prev(self) -> FilterDimension {
        match self {
            FilterDimension::Category => FilterDimension::UpdateAvailable,
            FilterDimension::Manager => FilterDimension::Category,
            FilterDimension::Scope => FilterDimension::Manager,
            FilterDimension::Reason => FilterDimension::Scope,
            FilterDimension::Confidence => FilterDimension::Reason,
            FilterDimension::UpdateAvailable => FilterDimension::Confidence,
        }
    }

    pub open spec fn spec_label(self) -> Seq<char> {
        match self {
            FilterDimension::Category => "Category"@,
            FilterDimension::Manager => "Manager"@,
            FilterDimension::Scope => "Scope"@,
            FilterDimension::Reason => "Reason"@,
            FilterDimension::Confidence => "Confidence"@,
            FilterDimension::UpdateAvailable => "Updates"@,
        }
    }

    /// How many values the tab lists.
    pub open spec fn spec_value_count(self) -> nat {
        match self {
            FilterDimension::Category => SoftwareCategory::spec_all().len(),
            FilterDimension::Manager => PackageManager::spec_all().len(),
            FilterDimension::Scope => InstallationScope::spec_all().len(),
            FilterDimension::Reason => InstallationReason::spec_all().len(),
            FilterDimension::Confidence => ClassificationConfidence::spec_all().len(),
            FilterDimension::UpdateAvailable => 3,
        }
    }

    pub fn next(self) -> (d: Self)
        ensures
            d == self.spec_next(),
    {
        match self {
            FilterDimension::Category => FilterDimension::Manager,
            FilterDimension::Manager => FilterDimension::Scope,
            FilterDimension::Scope => FilterDimension::Reason,
            FilterDimension::Reason => FilterDimension::Confidence,
            FilterDimension::Confidence => FilterDimension::UpdateAvailable,
            FilterDimension::UpdateAvailable => FilterDimension::Category,
        }
    }

    pub fn prev(self) -> (d: Self)
        ensures
            d == self.spec_prev(),
    {
        match self {
            FilterDimension::Category => FilterDimension::UpdateAvailable,
            FilterDimension::Manager => FilterDimension::Category,
            FilterDimension::Scope => FilterDimension::Manager,
            FilterDimension::Reason => FilterDimension::Scope,
            FilterDimension::Confidence => FilterDimension::Reason,
            FilterDimension::UpdateAvailable => FilterDimension::Confidence,
        }
    }

    pub fn label(self) -> (s: &'static str)
        ensures
            s@ == self.spec_label(),
    {
        match self {
            FilterDimension::Category => "Category",
            FilterDimension::Manager => "Manager",
            FilterDimension::Scope => "Scope",
            FilterDimension::Reason => "Reason",
            FilterDimension::Confidence => "Confidence",
            FilterDimension::UpdateAvailable => "Updates",
        }
    }

    pub fn value_count(self) -> (n: usize)
        ensures
            n == self.spec_value_count(),
    {
        match self {
            FilterDimension::Category => SoftwareCategory::all().len(),
            FilterDimension::Manager => PackageManager::all().len(),
            FilterDimension::Scope => InstallationScope::all().len(),
            FilterDimension::Reason => InstallationReason::all().len(),
            FilterDimension::Confidence => ClassificationConfidence::all().len(),
            FilterDimension::UpdateAvailable => 3,
        }
    }
}

/// Which items the update filter keeps.
#[derive(Debug, Clone, Copy, PartialEq, Eq, Structural)]
pub enum UpdateFilter {
    Any,
    Available,
    NotAvailable,
}

impl UpdateFilter {
    pub open spec fn spec_cycle(self) -> UpdateFilter {
        match self {
            UpdateFilter::Any => UpdateFilter::Available,
            UpdateFilter::Available => UpdateFilter::NotAvailable,
            UpdateFilter::NotAvailable => UpdateFilter::Any,
        }
    }

    pub open spec fn spec_label(self) -> Seq<char> {
        match self {
            UpdateFilter::Any => "Any"@,
            UpdateFilter::Available => "Available"@,
            UpdateFilter::NotAvailable => "Not Available"@,
        }
    }

    /// Whether an item whose update flag is `available` passes.
    pub open spec fn admits(self, available: bool) -> bool {
        match self {
            UpdateFilter::Any => true,
            UpdateFilter::Available => available,
            UpdateFilter::NotAvailable => !available,
        }
    }

    pub fn cycle(self) -> (u: Self)
        ensures
            u == self.spec_cycle(),
    {
        match self {
            UpdateFilter::Any => UpdateFilter::Available,
            UpdateFilter::Available => UpdateFilter::NotAvailable,
            UpdateFilter::NotAvailable => UpdateFilter::Any,
        }
    }

    pub fn label(self) -> (s: &'static str)
        ensures
            s@ == self.spec_label(),
    {
        match self {
            UpdateFilter::Any => "Any",
            UpdateFilter::Available => "Available",
            UpdateFilter::NotAvailable => "Not Available",
        }
    }
}

// ---------------------------------------------------------------------------
// Search, filter and sort, as functions of items

/// The case-insensitive search: the lowercased query occurs in the
/// lowercased display name, package name or description.
pub open spec fn matches_search(it: SoftwareItemView, query: Seq<char>) -> bool {
    let q = lowercase(query);
    ||| contains_seq(lowercase(it.display_name), q)
    ||| contains_seq(lowercase(it.package_name), q)
    ||| (it.description matches Some(d) && contains_seq(lowercase(d), q))
}

/// The text items are ordered by under `f`.
pub open spec fn sort_key(f: SortField, it: SoftwareItemView) -> Seq<char> {
    match f {
        SortField::Name => it.display_name,
        SortField::Category => it.category.spec_name(),
        SortField::Manager => it.package_manager.spec_name(),
        SortField::Version => match it.version {
            Some(v) => v,
            None => Seq::empty(),
        },
    }
}

/// `s` (already ordered) with `x` placed after every element whose key is not greater.
pub open spec fn sort_insert(s: Seq<SoftwareItemView>, x: SoftwareItemView, f: SortField) -> Seq<
    SoftwareItemView,
>
    decreases s.len(),
{
    if s.len() == 0 {
        seq![x]
    } else if lex_le(sort_key(f, s.last()), sort_key(f, x)) {
        s.push(x)
    } else {
        sort_insert(s.drop_last(), x, f).push(s.last())
    }
}

/// The stable sort of `s` by [`sort_key`]: items with equal keys keep their order.
pub open spec fn sort_items(s: Seq<SoftwareItemView>, f: SortField) -> Seq<SoftwareItemView>
    decreases s.len(),
{
    if s.len() == 0 {
        s
    } else {
        sort_insert(sort_items(s.drop_last(), f), s.last(), f)
    }
}

proof fn lemma_sort_insert_at(s: Seq<SoftwareItemView>, x: SoftwareItemView, f: SortField, pos: int)
    requires
        0 <= pos <= s.len(),
        forall|j: int| pos <= j < s.len() ==> !lex_le(sort_key(f, #[trigger] s[j]), sort_key(f, x)),
        pos == 0 || lex_le(sort_key(f, s[pos - 1]), sort_key(f, x)),
    ensures
        sort_insert(s, x, f) == s.insert(pos, x),
    decreases s.len(),
{
    if s.len() == 0 {
        assert(s.insert(pos, x) =~= seq![x]);
    } else if lex_le(sort_key(f, s.last()), sort_key(f, x)) {
        assert(pos == s.len()) by {
            if pos < s.len() {
                assert(!lex_le(sort_key(f, s[s.len() - 1]), sort_key(f, x)));
            }
        }
        assert(s.insert(pos, x) =~= s.push(x));
    } else {
        let t = s.drop_last();
        assert(pos < s.len());
        assert forall|j: int| pos <= j < t.len() implies !lex_le(
            sort_key(f, #[trigger] t[j]),
            sort_key(f, x),
        ) by {
            assert(t[j] == s[j]);
        }
        if pos > 0 {
            assert(t[pos - 1] == s[pos - 1]);
        }
        lemma_sort_insert_at(t, x, f, pos);
        assert(t.insert(pos, x).push(s.last()) =~= s.insert(pos, x));
    }
}

/// The key of `item` under `f`, as chars.
fn sort_key_exec(f: SortField, item: &SoftwareItem) -> (k: Vec<char>)
    ensures
        k@ == sort_key(f, item@),
{
    match f {
        SortField::Name => chars_of(item.display_name.as_str()),
        SortField::Category => chars_of(item.category.name()),
        SortField::Manager => chars_of(item.package_manager.name()),
        SortField::Version => match &item.version {
            Some(v) => chars_of(v.as_str()),
            None => Vec::new(),
        },
    }
}

/// The items of `items`, stably sorted by `f`.
pub fn sort_by_field(items: &Vec<SoftwareItem>, f: SortField) -> (r: Vec<SoftwareItem>)
    ensures
        items_view(r@) == sort_items(items_view(items@), f),
{
    let mut out: Vec<SoftwareItem> = Vec::new();
    let mut keys: Vec<Vec<char>> = Vec::new();
    let mut i: usize = 0;
    while i < items.len()
        invariant
            0 <= i <= items@.len(),
            keys@.len() == out@.len(),
            forall|j: int| 0 <= j < keys@.len() ==> (#[trigger] keys@[j])@ == sort_key(f, out@[j]@),
            items_view(out@) == sort_items(items_view(items@.take(i as int)), f),
        decreases items@.len() - i,
    {
        let x = items[i].clone();
        let k = sort_key_exec(f, &x);
        let mut pos = out.len();
        while pos > 0 && !lex_le_exec(&keys[pos - 1], &k)
            invariant
                0 <= pos <= out@.len() == keys@.len(),
                forall|j: int| 0 <= j < keys@.len() ==> (#[trigger] keys@[j])@ == sort_key(f, out@[j]@),
                k@ == sort_key(f, x@),
                forall|j: int|
                    pos <= j < out@.len() ==> !lex_le(sort_key(f, #[trigger] out@[j]@), k@),
            decreases pos,
        {
            pos -= 1;
        }
        proof {
            let s = items_view(out@);
            assert forall|j: int| pos <= j < s.len() implies !lex_le(
                sort_key(f, #[trigger] s[j]),
                sort_key(f, x@),
            ) by {
                assert(s[j] == out@[j]@);
            }
            if pos > 0 {
                assert(s[pos - 1] == out@[pos - 1]@);
            }
            lemma_sort_insert_at(s, x@, f, pos as int);
            assert(items_view(items@.take(i + 1)).drop_last() =~= items_view(items@.take(i as int)));
            assert(items_view(items@.take(i + 1)).last() == x@);
        }
        let ghost before = out@;
        let ghost kbefore = keys@;
        out.insert(pos, x);
        keys.insert(pos, k);
        proof {
            assert(items_view(out@) =~= items_view(before).insert(pos as int, x@));
            assert forall|j: int| 0 <= j < keys@.len() implies (#[trigger] keys@[j])@ == sort_key(
                f,
                out@[j]@,
            ) by {
                if j < pos {
                    assert(keys@[j] == kbefore[j] && out@[j] == before[j]);
                } else if j > pos {
                    assert(keys@[j] == kbefore[j - 1] && out@[j] == before[j - 1]);
                }
            }
        }
        i += 1;
    }
    proof {
        assert(items@.take(i as int) =~= items@);
    }
    out
}

/// The items of `items` in reverse order.
pub fn reversed_items(items: &Vec<SoftwareItem>) -> (r: Vec<SoftwareItem>)
    ensures
        items_view(r@) == items_view(items@).reverse(),
{
    let mut out: Vec<SoftwareItem> = Vec::new();
    let mut i: usize = items.len();
    while i > 0
        invariant
            0 <= i <= items@.len(),
            out@.len() == items@.len() - i,
            forall|j: int| 0 <= j < out@.len() ==> (#[trigger] out@[j])@ == items@[items@.len() - 1 - j]@,
        decreases i,
    {
        i -= 1;
        out.push(items[i].clone());
    }
    proof {
        assert(items_view(out@) =~= items_view(items@).reverse());
    }
    out
}

// ---------------------------------------------------------------------------
// Filter sets

/// `s` with every occurrence of `x` removed, order kept.
pub open spec fn without<T>(s: Seq<T>, x: T) -> Seq<T>
    decreases s.len(),
{
    if s.len() == 0 {
        s
    } else if s.last() == x {
        without(s.drop_last(), x)
    } else {
        without(s.drop_last(), x).push(s.last())
    }
}

/// A filter list after toggling `x`: removed where present, appended where absent.
pub open spec fn toggled<T>(s: Seq<T>, x: T) -> Seq<T> {
    if s.contains(x) {
        without(s, x)
    } else {
        s.push(x)
    }
}

pub(crate) fn has_category(v: &Vec<SoftwareCategory>, x: SoftwareCategory) -> (b: bool)
    ensures
        b == v@.contains(x),
{
    let mut i: usize = 0;
    while i < v.len()
        invariant
            0 <= i <= v@.len(),
            forall|j: int| 0 <= j < i ==> v@[j] != x,
        decreases v@.len() - i,
    {
        if v[i] == x {
            return true;
        }
        i += 1;
    }
    false
}

fn toggle_category(v: &Vec<SoftwareCategory>, x: SoftwareCategory) -> (r: Vec<SoftwareCategory>)
    ensures
        r@ == toggled(v@, x),
{
    if !has_category(v, x) {
        let mut r = v.clone();
        r.push(x);
        proof {
            assert(r@ =~= v@.push(x));
        }
        return r;
    }
    let mut r: Vec<SoftwareCategory> = Vec::new();
    let mut i: usize = 0;
    while i < v.len()
        invariant
            0 <= i <= v@.len(),
            r@ == without(v@.take(i as int), x),
        decreases v@.len() - i,
    {
        proof {
            assert(v@.take(i + 1).drop_last() =~= v@.take(i as int));
        }
        if v[i] != x {
            r.push(v[i]);
        }
        i += 1;
    }
    proof {
        assert(v@.take(i as int) =~= v@);
    }
    r
}

pub(crate) fn has_manager(v: &Vec<PackageManager>, x: PackageManager) -> (b: bool)
    ensures
        b == v@.contains(x),
{
    let mut i: usize = 0;
    while i < v.len()
        invariant
            0 <= i <= v@.len(),
            forall|j: int| 0 <= j < i ==> v@[j] != x,
        decreases v@.len() - i,
    {
        if v[i] == x {
            return true;
        }
        i += 1;
    }
    false
}

fn toggle_manager(v: &Vec<PackageManager>, x: PackageManager) -> (r: Vec<PackageManager>)
    ensures
        r@ == toggled(v@, x),
{
    if !has_manager(v, x) {
        let mut r = v.clone();
        r.push(x);
        proof {
            assert(r@ =~= v@.push(x));
        }
        return r;
    }
    let mut r: Vec<PackageManager> = Vec::new();
    let mut i: usize = 0;
    while i < v.len()
        invariant
            0 <= i <= v@.len(),
            r@ == without(v@.take(i as int), x),
        decreases v@.len() - i,
    {
        proof {
            assert(v@.take(i + 1).drop_last() =~= v@.take(i as int));
        }
        if v[i] != x {
            r.push(v[i]);
        }
        i += 1;
    }
    proof {
        assert(v@.take(i as int) =~= v@);
    }
    r
}

pub(crate) fn has_scope(v: &Vec<InstallationScope>, x: InstallationScope) -> (b: bool)
    ensures
        b == v@.contains(x),
{
    let mut i: usize = 0;
    while i < v.len()
        invariant
            0 <= i <= v@.len(),
            forall|j: int| 0 <= j < i ==> v@[j] != x,
        decreases v@.len() - i,
    {
        if v[i] == x {
            return true;
        }
        i += 1;
    }
    false
}

fn toggle_scope(v: &Vec<InstallationScope>, x: InstallationScope) -> (r: Vec<InstallationScope>)
    ensures
        r@ == toggled(v@, x),
{
    if !has_scope(v, x) {
        let mut r = v.clone();
        r.push(x);
        proof {
            assert(r@ =~= v@.push(x));
        }
        return r;
    }
    let mut r: Vec<InstallationScope> = Vec::new();
    let mut i: usize = 0;
    while i < v.len()
        invariant
            0 <= i <= v@.len(),
            r@ == without(v@.take(i as int), x),
        decreases v@.len() - i,
    {
        proof {
            assert(v@.take(i + 1).drop_last() =~= v@.take(i as int));
        }
        if v[i] != x {
            r.push(v[i]);
        }
        i += 1;
    }
    proof {
        assert(v@.take(i as int) =~= v@);
    }
    r
}

pub(crate) fn has_reason(v: &Vec<InstallationReason>, x: InstallationReason) -> (b: bool)
    ensures
        b == v@.contains(x),
{
    let mut i: usize = 0;
    while i < v.len()
        invariant
            0 <= i <= v@.len(),
            forall|j: int| 0 <= j < i ==> v@[j] != x,
        decreases v@.len() - i,
    {
        if v[i] == x {
            return true;
        }
        i += 1;
    }
    false
}

fn toggle_reason(v: &Vec<InstallationReason>, x: InstallationReason) -> (r: Vec<InstallationReason>)
    ensures
        r@ == toggled(v@, x),
{
    if !has_reason(v, x) {
        let mut r = v.clone();
        r.push(x);
        proof {
            assert(r@ =~= v@.push(x));
        }
        return r;
    }
    let mut r: Vec<InstallationReason> = Vec::new();
    let mut i: usize = 0;
    while i < v.len()
        invariant
            0 <= i <= v@.len(),
            r@ == without(v@.take(i as int), x),
        decreases v@.len() - i,
    {
        proof {
            assert(v@.take(i + 1).drop_last() =~= v@.take(i as int));
        }
        if v[i] != x {
            r.push(v[i]);
        }
        i += 1;
    }
    proof {
        assert(v@.take(i as int) =~= v@);
    }
    r
}

pub(crate) fn has_confidence(v: &Vec<ClassificationConfidence>, x: ClassificationConfidence) -> (b: bool)
    ensures
        b == v@.contains(x),
{
    let mut i: usize = 0;
    while i < v.len()
        invariant
            0 <= i <= v@.len(),
            forall|j: int| 0 <= j < i ==> v@[j] != x,
        decreases v@.len() - i,
    {
        if v[i] == x {
            return true;
        }
        i += 1;
    }
    false
}

fn toggle_confidence(v: &Vec<ClassificationConfidence>, x: ClassificationConfidence) -> (r: Vec<ClassificationConfidence>)
    ensures
        r@ == toggled(v@, x),
{
    if !has_confidence(v, x) {
        let mut r = v.clone();
        r.push(x);
        proof {
            assert(r@ =~= v@.push(x));
        }
        return r;
    }
    let mut r: Vec<ClassificationConfidence> = Vec::new();
    let mut i: usize = 0;
    while i < v.len()
        invariant
            0 <= i <= v@.len(),
            r@ == without(v@.take(i as int), x),
        decreases v@.len() - i,
    {
        proof {
            assert(v@.take(i + 1).drop_last() =~= v@.take(i as int));
        }
        if v[i] != x {
            r.push(v[i]);
        }
        i += 1;
    }
    proof {
        assert(v@.take(i as int) =~= v@);
    }
    r
}

// ---------------------------------------------------------------------------
// The browser state

/// What the terminal browser shows and edits. `filtered_items` is what the
/// search, the filters and the sort select from `all_items`; `search_query`
/// is edited at the byte offset `cursor_position`.
#[derive(Debug, Clone)]
pub struct App {
    pub all_items: Vec<SoftwareItem>,
    pub filtered_items: Vec<SoftwareItem>,
    pub selected_index: usize,
    pub search_query: String,
    pub page_size: usize,
    pub current_page: usize,
    pub scroll_offset: usize,
    pub category_filters: Vec<SoftwareCategory>,
    pub manager_filters: Vec<PackageManager>,
    pub scope_filters: Vec<InstallationScope>,
    pub reason_filters: Vec<InstallationReason>,
    pub confidence_filters: Vec<ClassificationConfidence>,
    pub update_filter: UpdateFilter,
    pub sort_field: SortField,
    pub sort_order: SortOrder,
    pub search_focused: bool,
    pub cursor_position: usize,
    pub detail_view_visible: bool,
    pub filter_panel_visible: bool,
    pub filter_dimension: FilterDimension,
    pub filter_cursor: usize,
    pub is_scanning: bool,
    pub scan_progress: u16,
    pub scan_message: Option<String>,
}

/// The items of `all_items` that `app`'s search and filters keep, in order.
pub open spec fn kept_items(app: App, s: Seq<SoftwareItemView>) -> Seq<SoftwareItemView>
    decreases s.len(),
{
    if s.len() == 0 {
        s
    } else if app.keeps(s.last()) {
        kept_items(app, s.drop_last()).push(s.last())
    } else {
        kept_items(app, s.drop_last())
    }
}

impl App {
    /// Whether the search and every active filter keep `it`.
    pub open spec fn keeps(self, it: SoftwareItemView) -> bool {
        &&& (self.search_query@.len() == 0 || matches_search(it, self.search_query@))
        &&& (self.category_filters@.len() == 0 || self.category_filters@.contains(it.category))
        &&& (self.manager_filters@.len() == 0 || self.manager_filters@.contains(
            it.package_manager,
        ))
        &&& (self.scope_filters@.len() == 0 || self.scope_filters@.contains(it.scope))
        &&& (self.reason_filters@.len() == 0 || self.reason_filters@.contains(
            it.installation_reason,
        ))
        &&& (self.confidence_filters@.len() == 0 || self.confidence_filters@.contains(
            it.classification_confidence,
        ))
        &&& self.update_filter.admits(it.update_available)
    }

    /// What `filtered_items` holds once the filters are applied: the kept
    /// items sorted by `sort_field`, reversed when descending.
    pub open spec fn spec_filtered(self) -> Seq<SoftwareItemView> {
        let sorted = sort_items(kept_items(self, items_view(self.all_items@)), self.sort_field);
        if self.sort_order == SortOrder::Descending {
            sorted.reverse()
        } else {
            sorted
        }
    }

    /// `filtered_items` is up to date with the search, filters and sort.
    pub open spec fn is_consistent(self) -> bool {
        items_view(self.filtered_items@) == self.spec_filtered()
    }

    pub open spec fn spec_total_pages(self) -> int {
        (self.filtered_items@.len() + self.page_size - 1) / (self.page_size as int)
    }

    /// A browser over `items`, nothing filtered out yet, on the first page.
    pub fn new(items: Vec<SoftwareItem>) -> (app: Self)
        ensures
            items_view(app.all_items@) == items_view(items@),
            items_view(app.filtered_items@) == items_view(items@),
            app.selected_index == 0,
            app.search_query@.len() == 0,
            app.page_size == 20,
            app.current_page == 0,
            app.scroll_offset == 0,
            app.category_filters@.len() == 0,
            app.manager_filters@.len() == 0,
            app.scope_filters@.len() == 0,
            app.reason_filters@.len() == 0,
            app.confidence_filters@.len() == 0,
            app.update_filter == UpdateFilter::Any,
            app.sort_field == SortField::Name,
            app.sort_order == SortOrder::Ascending,
            !app.search_focused,
            app.cursor_position == 0,
            !app.detail_view_visible,
            !app.filter_panel_visible,
            app.filter_dimension == FilterDimension::Category,
            app.filter_cursor == 0,
            !app.is_scanning,
            app.scan_progress == 0,
            app.scan_message is None,
    {
        let all_items = clone_items(&items);
        App {
            all_items,
            filtered_items: items,
            selected_index: 0,
            search_query: String::new(),
            page_size: 20,
            current_page: 0,
            scroll_offset: 0,
            category_filters: Vec::new(),
            manager_filters: Vec::new(),
            scope_filters: Vec::new(),
            reason_filters: Vec::new(),
            confidence_filters: Vec::new(),
            update_filter: UpdateFilter::Any,
            sort_field: SortField::Name,
            sort_order: SortOrder::Ascending,
            search_focused: false,
            cursor_position: 0,
            detail_view_visible: false,
            filter_panel_visible: false,
            filter_dimension: FilterDimension::Category,
            filter_cursor: 0,
            is_scanning: false,
            scan_progress: 0,
            scan_message: None,
        }
    }

    /// Whether the search and the filters keep `item`.
    fn keeps_exec(&self, item: &SoftwareItem, lowered_query: &Vec<char>) -> (b: bool)
        requires
            lowered_query@ == lowercase(self.search_query@),
        ensures
            b == self.keeps(item@),
    {
        if !self.search_query.as_str().is_empty() {
            let dn = chars_of(to_lowercase(item.display_name.as_str()).as_str());
            let pn = chars_of(to_lowercase(item.package_name.as_str()).as_str());
            proof {
                assert(dn@.subrange(0, dn@.len() as int) =~= dn@);
                assert(pn@.subrange(0, pn@.len() as int) =~= pn@);
            }
            let mut found = contains_in(&dn, 0, dn.len(), lowered_query) || contains_in(
                &pn,
                0,
                pn.len(),
                lowered_query,
            );
            if !found {
                match &item.description {
                    Some(d) => {
                        let dv = chars_of(to_lowercase(d.as_str()).as_str());
                        proof {
                            assert(dv@.subrange(0, dv@.len() as int) =~= dv@);
                        }
                        found = contains_in(&dv, 0, dv.len(), lowered_query);
                    },
                    None => {},
                }
            }
            if !found {
                return false;
            }
        }
        if self.category_filters.len() != 0 && !has_category(&self.category_filters, item.category) {
            return false;
        }
        if self.manager_filters.len() != 0 && !has_manager(&self.manager_filters, item.package_manager) {
            return false;
        }
        if self.scope_filters.len() != 0 && !has_scope(&self.scope_filters, item.scope) {
            return false;
        }
        if self.reason_filters.len() != 0 && !has_reason(&self.reason_filters, item.installation_reason) {
            return false;
        }
        if self.confidence_filters.len() != 0 && !has_confidence(
            &self.confidence_filters,
            item.classification_confidence,
        ) {
            return false;
        }
        match self.update_filter {
            UpdateFilter::Available => item.update_available,
            UpdateFilter::NotAvailable => !item.update_available,
            UpdateFilter::Any => true,
        }
    }

    /// The filtered, sorted list the current settings select.
    fn compute_filtered(&self) -> (r: Vec<SoftwareItem>)
        ensures
            items_view(r@) == self.spec_filtered(),
    {
        let lowered = chars_of(to_lowercase(self.search_query.as_str()).as_str());
        let mut kept: Vec<SoftwareItem> = Vec::new();
        let mut i: usize = 0;
        while i < self.all_items.len()
            invariant
                0 <= i <= self.all_items@.len(),
                lowered@ == lowercase(self.search_query@),
                items_view(kept@) == kept_items(*self, items_view(self.all_items@.take(i as int))),
            decreases self.all_items@.len() - i,
        {
            proof {
                assert(items_view(self.all_items@.take(i + 1)).drop_last() =~= items_view(
                    self.all_items@.take(i as int),
                ));
                assert(items_view(self.all_items@.take(i + 1)).last() == self.all_items@[i as int]@);
            }
            if self.keeps_exec(&self.all_items[i], &lowered) {
                let ghost before = kept@;
                kept.push(self.all_items[i].clone());
                proof {
                    assert(items_view(kept@) =~= items_view(before).push(self.all_items@[i as int]@));
                }
            }
            i += 1;
        }
        proof {
            assert(self.all_items@.take(i as int) =~= self.all_items@);
        }
        let sorted = sort_by_field(&kept, self.sort_field);
        match self.sort_order {
            SortOrder::Descending => reversed_items(&sorted),
            SortOrder::Ascending => sorted,
        }
    }

    /// Recomputes `filtered_items` from the search, the filters and the sort.
    pub fn apply_filters(&mut self)
        ensures
            final(self).is_consistent(),
            *final(self) == (App { filtered_items: final(self).filtered_items, ..*old(self) }),
    {
        let r = self.compute_filtered();
        self.filtered_items = r;
        proof {
            lemma_kept_same(*old(self), *self, items_view(self.all_items@));
        }
    }
}

pub(crate) proof fn lemma_kept_same(a: App, b: App, s: Seq<SoftwareItemView>)
    requires
        forall|it: SoftwareItemView| a.keeps(it) == b.keeps(it),
    ensures
        kept_items(a, s) == kept_items(b, s),
    decreases s.len(),
{
    if s.len() > 0 {
        lemma_kept_same(a, b, s.drop_last());
    }
}

/// A copy of a list of items.
pub fn clone_items(v: &Vec<SoftwareItem>) -> (r: Vec<SoftwareItem>)
    ensures
        items_view(r@) == items_view(v@),
{
    let mut r: Vec<SoftwareItem> = Vec::new();
    let mut i: usize = 0;
    while i < v.len()
        invariant
            0 <= i <= v@.len(),
            r@.len() == i,
            forall|j: int| 0 <= j < i ==> (#[trigger] r@[j])@ == v@[j]@,
        decreases v@.len() - i,
    {
        r.push(v[i].clone());
        i += 1;
    }
    proof {
        assert(items_view(r@) =~= items_view(v@));
    }
    r
}

impl App {
    fn update_page_for_selection(&mut self)
        requires
            old(self).page_size > 0,
        ensures
            *final(self) == (App {
                current_page: (old(self).selected_index / old(self).page_size) as usize,
                scroll_offset: (old(self).selected_index % old(self).page_size) as usize,
                ..*old(self)
            }),
    {
        self.current_page = self.selected_index / self.page_size;
        self.scroll_offset = self.selected_index % self.page_size;
    }

    /// Moves the selection down one item, wrapping to the first.
    pub fn select_next(&mut self)
        requires
            old(self).filtered_items@.len() > 0 ==> old(self).page_size > 0
                && old(self).selected_index < usize::MAX,
        ensures
            old(self).filtered_items@.len() == 0 ==> *final(self) == *old(self),
            old(self).filtered_items@.len() > 0 ==> ({
                let sel = ((old(self).selected_index + 1) % (old(self).filtered_items@.len() as int)) as usize;
                *final(self) == (App {
                    selected_index: sel,
                    current_page: (sel / old(self).page_size) as usize,
                    scroll_offset: (sel % old(self).page_size) as usize,
                    ..*old(self)
                })
            }),
    {
        if self.filtered_items.len() > 0 {
            self.selected_index = (self.selected_index + 1) % self.filtered_items.len();
            self.update_page_for_selection();
        }
    }

    /// Moves the selection up one item, wrapping to the last.
    pub fn select_previous(&mut self)
        requires
            old(self).filtered_items@.len() > 0 ==> old(self).page_size > 0,
        ensures
            old(self).filtered_items@.len() == 0 ==> *final(self) == *old(self),
            old(self).filtered_items@.len() > 0 ==> ({
                let sel = if old(self).selected_index == 0 {
                    (old(self).filtered_items@.len() - 1) as usize
                } else {
                    (old(self).selected_index - 1) as usize
                };
                *final(self) == (App {
                    selected_index: sel,
                    current_page: (sel / old(self).page_size) as usize,
                    scroll_offset: (sel % old(self).page_size) as usize,
                    ..*old(self)
                })
            }),
    {
        if self.filtered_items.len() > 0 {
            if self.selected_index == 0 {
                self.selected_index = self.filtered_items.len() - 1;
            } else {
                self.selected_index -= 1;
            }
            self.update_page_for_selection();
        }
    }

    /// The number of pages the filtered items fill.
    pub fn total_pages(&self) -> (n: usize)
        requires
            self.page_size > 0,
            self.filtered_items@.len() + self.page_size - 1 <= usize::MAX,
        ensures
            n == self.spec_total_pages(),
    {
        (self.filtered_items.len() + (self.page_size - 1)) / self.page_size
    }

    /// The number of items the filters keep.
    pub fn item_count(&self) -> (n: usize)
        ensures
            n == self.filtered_items@.len(),
    {
        self.filtered_items.len()
    }

    /// Goes to the next page, if there is one, selecting its first item.
    pub fn page_down(&mut self)
        requires
            old(self).page_size > 0,
            old(self).filtered_items@.len() + old(self).page_size - 1 <= usize::MAX,
        ensures
            old(self).current_page + 1 < old(self).spec_total_pages() ==> *final(self) == (App {
                current_page: (old(self).current_page + 1) as usize,
                selected_index: ((old(self).current_page + 1) * old(self).page_size) as usize,
                ..*old(self)
            }),
            old(self).current_page + 1 >= old(self).spec_total_pages() ==> *final(self) == *old(
                self,
            ),
    {
        let total_pages = self.total_pages();
        let last = if total_pages > 0 { total_pages - 1 } else { 0 };
        if self.current_page < last {
            let ghost len = self.filtered_items@.len();
            let ghost ps = self.page_size;
            let ghost cp = self.current_page;
            proof {
                assert((cp + 1) * ps <= len - 1) by (nonlinear_arith)
                    requires
                        ps > 0,
                        cp + 1 < total_pages,
                        total_pages == (len + ps - 1) / (ps as int),
                ;
            }
            self.current_page += 1;
            self.selected_index = self.current_page * self.page_size;
            if self.selected_index >= self.filtered_items.len() {
                self.selected_index = if self.filtered_items.len() > 0 {
                    self.filtered_items.len() - 1
                } else {
                    0
                };
            }
        }
    }

    /// Goes to the previous page, if there is one, selecting its first item.
    pub fn page_up(&mut self)
        requires
            old(self).current_page > 0 ==> (old(self).current_page - 1) * old(self).page_size
                <= usize::MAX,
        ensures
            old(self).current_page > 0 ==> *final(self) == (App {
                current_page: (old(self).current_page - 1) as usize,
                selected_index: ((old(self).current_page - 1) * old(self).page_size) as usize,
                ..*old(self)
            }),
            old(self).current_page == 0 ==> *final(self) == *old(self),
    {
        if self.current_page > 0 {
            self.current_page -= 1;
            self.selected_index = self.current_page * self.page_size;
        }
    }

    /// The filtered items on the current page.
    pub fn visible_items(&self) -> (r: Vec<&SoftwareItem>)
        requires
            self.current_page * self.page_size <= self.filtered_items@.len(),
            self.current_page * self.page_size + self.page_size <= usize::MAX,
        ensures
            ({
                let start = self.current_page * self.page_size;
                let end = if start + self.page_size < self.filtered_items@.len() {
                    start + self.page_size
                } else {
                    self.filtered_items@.len() as int
                };
                &&& r@.len() == end - start
                &&& forall|i: int| 0 <= i < r@.len() ==> *(#[trigger] r@[i]) == self.filtered_items@[start + i]
            }),
    {
        let start = self.current_page * self.page_size;
        let end = if start + self.page_size < self.filtered_items.len() {
            start + self.page_size
        } else {
            self.filtered_items.len()
        };
        let mut r: Vec<&SoftwareItem> = Vec::new();
        let mut i = start;
        while i < end
            invariant
                start <= i <= end <= self.filtered_items@.len(),
                r@.len() == i - start,
                forall|j: int| 0 <= j < r@.len() ==> *(#[trigger] r@[j]) == self.filtered_items@[start + j],
            decreases end - i,
        {
            r.push(&self.filtered_items[i]);
            i += 1;
        }
        r
    }

    /// The selected item, if the selection is within the filtered items.
    pub fn selected_item(&self) -> (r: Option<&SoftwareItem>)
        ensures
            self.selected_index < self.filtered_items@.len() ==> r == Some(
                &self.filtered_items@[self.selected_index as int],
            ),
            self.selected_index >= self.filtered_items@.len() ==> r is None,
    {
        if self.selected_index < self.filtered_items.len() {
            Some(&self.filtered_items[self.selected_index])
        } else {
            None
        }
    }

    /// Replaces the search text, back on the first page.
    pub fn set_search_query(&mut self, query: String)
        ensures
            final(self).is_consistent(),
            *final(self) == (App {
                search_query: query,
                selected_index: 0,
                current_page: 0,
                filtered_items: final(self).filtered_items,
                ..*old(self)
            }),
    {
        self.search_query = query;
        self.selected_index = 0;
        self.current_page = 0;
        self.apply_filters();
    }

    /// Adds `category` to the category filter, or removes it if present, back on the first page.
    pub fn toggle_category_filter(&mut self, category: SoftwareCategory)
        ensures
            final(self).is_consistent(),
            final(self).category_filters@ == toggled(old(self).category_filters@, category),
            *final(self) == (App {
                category_filters: final(self).category_filters,
                selected_index: 0,
                current_page: 0,
                filtered_items: final(self).filtered_items,
                ..*old(self)
            }),
    {
        self.category_filters = toggle_category(&self.category_filters, category);
        self.selected_index = 0;
        self.current_page = 0;
        self.apply_filters();
    }

    /// Adds `manager` to the manager filter, or removes it if present, back on the first page.
    pub fn toggle_manager_filter(&mut self, manager: PackageManager)
        ensures
            final(self).is_consistent(),
            final(self).manager_filters@ == toggled(old(self).manager_filters@, manager),
            *final(self) == (App {
                manager_filters: final(self).manager_filters,
                selected_index: 0,
                current_page: 0,
                filtered_items: final(self).filtered_items,
                ..*old(self)
            }),
    {
        self.manager_filters = toggle_manager(&self.manager_filters, manager);
        self.selected_index = 0;
        self.current_page = 0;
        self.apply_filters();
    }

    /// Adds `scope` to the scope filter, or removes it if present, back on the first page.
    pub fn toggle_scope_filter(&mut self, scope: InstallationScope)
        ensures
            final(self).is_consistent(),
            final(self).scope_filters@ == toggled(old(self).scope_filters@, scope),
            *final(self) == (App {
                scope_filters: final(self).scope_filters,
                selected_index: 0,
                current_page: 0,
                filtered_items: final(self).filtered_items,
                ..*old(self)
            }),
    {
        self.scope_filters = toggle_scope(&self.scope_filters, scope);
        self.selected_index = 0;
        self.current_page = 0;
        self.apply_filters();
    }

    /// Adds `reason` to the reason filter, or removes it if present, back on the first page.
    pub fn toggle_reason_filter(&mut self, reason: InstallationReason)
        ensures
            final(self).is_consistent(),
            final(self).reason_filters@ == toggled(old(self).reason_filters@, reason),
            *final(self) == (App {
                reason_filters: final(self).reason_filters,
                selected_index: 0,
                current_page: 0,
                filtered_items: final(self).filtered_items,
                ..*old(self)
            }),
    {
        self.reason_filters = toggle_reason(&self.reason_filters, reason);
        self.selected_index = 0;
        self.current_page = 0;
        self.apply_filters();
    }

    /// Adds `confidence` to the confidence filter, or removes it if present, back on the first page.
    pub fn toggle_confidence_filter(&mut self, confidence: ClassificationConfidence)
        ensures
            final(self).is_consistent(),
            final(self).confidence_filters@ == toggled(old(self).confidence_filters@, confidence),
            *final(self) == (App {
                confidence_filters: final(self).confidence_filters,
                selected_index: 0,
                current_page: 0,
                filtered_items: final(self).filtered_items,
                ..*old(self)
            }),
    {
        self.confidence_filters = toggle_confidence(&self.confidence_filters, confidence);
        self.selected_index = 0;
        self.current_page = 0;
        self.apply_filters();
    }

    /// Moves the update filter to its next setting, back on the first page.
    pub fn cycle_update_filter(&mut self)
        ensures
            final(self).is_consistent(),
            *final(self) == (App {
                update_filter: old(self).update_filter.spec_cycle(),
                selected_index: 0,
                current_page: 0,
                filtered_items: final(self).filtered_items,
                ..*old(self)
            }),
    {
        self.update_filter = self.update_filter.cycle();
        self.selected_index = 0;
        self.current_page = 0;
        self.apply_filters();
    }

    /// Drops every filter and the search text.
    pub fn clear_all_filters(&mut self)
        ensures
            final(self).is_consistent(),
            final(self).category_filters@.len() == 0,
            final(self).manager_filters@.len() == 0,
            final(self).scope_filters@.len() == 0,
            final(self).reason_filters@.len() == 0,
            final(self).confidence_filters@.len() == 0,
            final(self).search_query@.len() == 0,
            *final(self) == (App {
                category_filters: final(self).category_filters,
                manager_filters: final(self).manager_filters,
                scope_filters: final(self).scope_filters,
                reason_filters: final(self).reason_filters,
                confidence_filters: final(self).confidence_filters,
                update_filter: UpdateFilter::Any,
                search_query: final(self).search_query,
                cursor_position: 0,
                selected_index: 0,
                current_page: 0,
                filtered_items: final(self).filtered_items,
                ..*old(self)
            }),
    {
        self.category_filters = Vec::new();
        self.manager_filters = Vec::new();
        self.scope_filters = Vec::new();
        self.reason_filters = Vec::new();
        self.confidence_filters = Vec::new();
        self.update_filter = UpdateFilter::Any;
        self.search_query = String::new();
        self.cursor_position = 0;
        self.selected_index = 0;
        self.current_page = 0;
        self.apply_filters();
    }

    /// Inserts `ch` into the search text at the cursor and moves the cursor on.
    pub fn add_search_char(&mut self, ch: char)
        requires
            char_index_at_byte(old(self).search_query@, old(self).cursor_position as int) is Some,
            old(self).cursor_position < usize::MAX,
        ensures
            final(self).is_consistent(),
            final(self).search_query@ == old(self).search_query@.insert(
                char_index_at_byte(old(self).search_query@, old(self).cursor_position as int)->0,
                ch,
            ),
            *final(self) == (App {
                search_query: final(self).search_query,
                cursor_position: (old(self).cursor_position + 1) as usize,
                selected_index: 0,
                current_page: 0,
                filtered_items: final(self).filtered_items,
                ..*old(self)
            }),
    {
        let mut v = chars_of(self.search_query.as_str());
        match char_index_at_byte_exec(&v, self.cursor_position) {
            Some(k) => {
                v.insert(k, ch);
                self.search_query = string_of_all(&v);
            },
            None => {},
        }
        self.cursor_position += 1;
        self.selected_index = 0;
        self.current_page = 0;
        self.apply_filters();
    }

    /// Deletes the char starting one byte before the cursor, moving the cursor back.
    pub fn backspace_search(&mut self)
        requires
            old(self).cursor_position > 0 ==> (char_index_at_byte(
                old(self).search_query@,
                old(self).cursor_position - 1,
            ) matches Some(k) && k < old(self).search_query@.len()),
        ensures
            old(self).cursor_position == 0 ==> *final(self) == *old(self),
            old(self).cursor_position > 0 ==> {
                &&& final(self).is_consistent()
                &&& final(self).search_query@ == old(self).search_query@.remove(
                    char_index_at_byte(old(self).search_query@, old(self).cursor_position - 1)->0,
                )
                &&& *final(self) == (App {
                    search_query: final(self).search_query,
                    cursor_position: (old(self).cursor_position - 1) as usize,
                    selected_index: 0,
                    current_page: 0,
                    filtered_items: final(self).filtered_items,
                    ..*old(self)
                })
            },
    {
        if self.cursor_position > 0 {
            let mut v = chars_of(self.search_query.as_str());
            match char_index_at_byte_exec(&v, self.cursor_position - 1) {
                Some(k) => {
                    if k < v.len() {
                        v.remove(k);
                        self.search_query = string_of_all(&v);
                    }
                },
                None => {},
            }
            self.cursor_position -= 1;
            self.selected_index = 0;
            self.current_page = 0;
            self.apply_filters();
        }
    }

    /// Sorts by the next field: name, category, manager, version, then name again.
    pub fn cycle_sort_field(&mut self)
        ensures
            final(self).is_consistent(),
            *final(self) == (App {
                sort_field: match old(self).sort_field {
                    SortField::Name => SortField::Category,
                    SortField::Category => SortField::Manager,
                    SortField::Manager => SortField::Version,
                    SortField::Version => SortField::Name,
                },
                filtered_items: final(self).filtered_items,
                ..*old(self)
            }),
    {
        self.sort_field = match self.sort_field {
            SortField::Name => SortField::Category,
            SortField::Category => SortField::Manager,
            SortField::Manager => SortField::Version,
            SortField::Version => SortField::Name,
        };
        self.apply_filters();
    }

    /// Flips between ascending and descending order.
    pub fn toggle_sort_order(&mut self)
        ensures
            final(self).is_consistent(),
            *final(self) == (App {
                sort_order: match old(self).sort_order {
                    SortOrder::Ascending => SortOrder::Descending,
                    SortOrder::Descending => SortOrder::Ascending,
                },
                filtered_items: final(self).filtered_items,
                ..*old(self)
            }),
    {
        self.sort_order = match self.sort_order {
            SortOrder::Ascending => SortOrder::Descending,
            SortOrder::Descending => SortOrder::Ascending,
        };
        self.apply_filters();
    }

    pub fn toggle_detail_view(&mut self)
        ensures
            *final(self) == (App { detail_view_visible: !old(self).detail_view_visible, ..*old(self) }),
    {
        self.detail_view_visible = !self.detail_view_visible;
    }

    pub fn close_detail_view(&mut self)
        ensures
            *final(self) == (App { detail_view_visible: false, ..*old(self) }),
    {
        self.detail_view_visible = false;
    }

    pub fn open_filter_panel(&mut self)
        ensures
            *final(self) == (App { filter_panel_visible: true, ..*old(self) }),
    {
        self.filter_panel_visible = true;
    }

    pub fn close_filter_panel(&mut self)
        ensures
            *final(self) == (App { filter_panel_visible: false, ..*old(self) }),
    {
        self.filter_panel_visible = false;
    }

    /// Moves to the next filter tab, its first value highlighted.
    pub fn filter_dimension_next(&mut self)
        ensures
            *final(self) == (App {
                filter_dimension: old(self).filter_dimension.spec_next(),
                filter_cursor: 0,
                ..*old(self)
            }),
    {
        self.filter_dimension = self.filter_dimension.next();
        self.filter_cursor = 0;
    }

    /// Moves to the previous filter tab, its first value highlighted.
    pub fn filter_dimension_prev(&mut self)
        ensures
            *final(self) == (App {
                filter_dimension: old(self).filter_dimension.spec_prev(),
                filter_cursor: 0,
                ..*old(self)
            }),
    {
        self.filter_dimension = self.filter_dimension.prev();
        self.filter_cursor = 0;
    }

    /// Highlights the tab's next value, wrapping to the first.
    pub fn filter_cursor_next(&mut self)
        requires
            old(self).filter_cursor < usize::MAX,
        ensures
            *final(self) == (App {
                filter_cursor: ((old(self).filter_cursor + 1) % (
                old(self).filter_dimension.spec_value_count() as int)) as usize,
                ..*old(self)
            }),
    {
        let count = self.filter_dimension.value_count();
        if count > 0 {
            self.filter_cursor = (self.filter_cursor + 1) % count;
        }
    }

    /// Highlights the tab's previous value, wrapping to the last.
    pub fn filter_cursor_prev(&mut self)
        ensures
            *final(self) == (App {
                filter_cursor: if old(self).filter_cursor == 0 {
                    (old(self).filter_dimension.spec_value_count() - 1) as usize
                } else {
                    (old(self).filter_cursor - 1) as usize
                },
                ..*old(self)
            }),
    {
        let count = self.filter_dimension.value_count();
        if count > 0 {
            self.filter_cursor = if self.filter_cursor == 0 {
                count - 1
            } else {
                self.filter_cursor - 1
            };
        }
    }

    /// Toggles the highlighted value of the current filter tab.
    pub fn toggle_current_filter_value(&mut self)
        ensures
            old(self).filter_dimension == FilterDimension::UpdateAvailable ==> {
                &&& final(self).is_consistent()
                &&& *final(self) == (App {
                    update_filter: old(self).update_filter.spec_cycle(),
                    selected_index: 0,
                    current_page: 0,
                    filtered_items: final(self).filtered_items,
                    ..*old(self)
                })
            },
            old(self).filter_dimension != FilterDimension::UpdateAvailable
                && old(self).filter_cursor >= old(self).filter_dimension.spec_value_count()
                ==> *final(self) == *old(self),
            old(self).filter_dimension == FilterDimension::Category && old(self).filter_cursor
                < SoftwareCategory::spec_all().len() ==> {
                &&& final(self).is_consistent()
                &&& final(self).category_filters@ == toggled(
                    old(self).category_filters@,
                    SoftwareCategory::spec_all()[old(self).filter_cursor as int],
                )
                &&& *final(self) == (App {
                    category_filters: final(self).category_filters,
                    selected_index: 0,
                    current_page: 0,
                    filtered_items: final(self).filtered_items,
                    ..*old(self)
                })
            },
            old(self).filter_dimension == FilterDimension::Manager && old(self).filter_cursor
                < PackageManager::spec_all().len() ==> {
                &&& final(self).is_consistent()
                &&& final(self).manager_filters@ == toggled(
                    old(self).manager_filters@,
                    PackageManager::spec_all()[old(self).filter_cursor as int],
                )
                &&& *final(self) == (App {
                    manager_filters: final(self).manager_filters,
                    selected_index: 0,
                    current_page: 0,
                    filtered_items: final(self).filtered_items,
                    ..*old(self)
                })
            },
            old(self).filter_dimension == FilterDimension::Scope && old(self).filter_cursor
                < InstallationScope::spec_all().len() ==> {
                &&& final(self).is_consistent()
                &&& final(self).scope_filters@ == toggled(
                    old(self).scope_filters@,
                    InstallationScope::spec_all()[old(self).filter_cursor as int],
                )
                &&& *final(self) == (App {
                    scope_filters: final(self).scope_filters,
                    selected_index: 0,
                    current_page: 0,
                    filtered_items: final(self).filtered_items,
                    ..*old(self)
                })
            },
            old(self).filter_dimension == FilterDimension::Reason && old(self).filter_cursor
                < InstallationReason::spec_all().len() ==> {
                &&& final(self).is_consistent()
                &&& final(self).reason_filters@ == toggled(
                    old(self).reason_filters@,
                    InstallationReason::spec_all()[old(self).filter_cursor as int],
                )
                &&& *final(self) == (App {
                    reason_filters: final(self).reason_filters,
                    selected_index: 0,
                    current_page: 0,
                    filtered_items: final(self).filtered_items,
                    ..*old(self)
                })
            },
            old(self).filter_dimension == FilterDimension::Confidence && old(self).filter_cursor
                < ClassificationConfidence::spec_all().len() ==> {
                &&& final(self).is_consistent()
                &&& final(self).confidence_filters@ == toggled(
                    old(self).confidence_filters@,
                    ClassificationConfidence::spec_all()[old(self).filter_cursor as int],
                )
                &&& *final(self) == (App {
                    confidence_filters: final(self).confidence_filters,
                    selected_index: 0,
                    current_page: 0,
                    filtered_items: final(self).filtered_items,
                    ..*old(self)
                })
            },
    {
        match self.filter_dimension {
            FilterDimension::Category => {
                let all = SoftwareCategory::all();
                if self.filter_cursor < all.len() {
                    self.toggle_category_filter(all[self.filter_cursor]);
                }
            },
            FilterDimension::Manager => {
                let all = PackageManager::all();
                if self.filter_cursor < all.len() {
                    self.toggle_manager_filter(all[self.filter_cursor]);
                }
            },
            FilterDimension::Scope => {
                let all = InstallationScope::all();
                if self.filter_cursor < all.len() {
                    self.toggle_scope_filter(all[self.filter_cursor]);
                }
            },
            FilterDimension::Reason => {
                let all = InstallationReason::all();
                if self.filter_cursor < all.len() {
                    self.toggle_reason_filter(all[self.filter_cursor]);
                }
            },
            FilterDimension::Confidence => {
                let all = ClassificationConfidence::all();
                if self.filter_cursor < all.len() {
                    self.toggle_confidence_filter(all[self.filter_cursor]);
                }
            },
            FilterDimension::UpdateAvailable => {
                self.cycle_update_filter();
            },
        }
    }

    /// Marks a scan as running, at 0%.
    pub fn start_scan(&mut self)
        ensures
            final(self).scan_message matches Some(m) && m@ == "Scanning inventory..."@,
            *final(self) == (App {
                is_scanning: true,
                scan_progress: 0,
                scan_message: final(self).scan_message,
                ..*old(self)
            }),
    {
        self.is_scanning = true;
        self.scan_progress = 0;
        self.scan_message = Some("Scanning inventory...".to_owned());
    }

    /// Records scan progress, capped at 100.
    pub fn update_scan_progress(&mut self, progress: u16)
        ensures
            *final(self) == (App {
                scan_progress: if progress < 100 { progress } else { 100 },
                ..*old(self)
            }),
    {
        self.scan_progress = if progress < 100 { progress } else { 100 };
    }

    /// Marks the scan as done, at 100%.
    pub fn finish_scan(&mut self)
        ensures
            *final(self) == (App { is_scanning: false, scan_progress: 100, ..*old(self) }),
    {
        self.is_scanning = false;
        self.scan_progress = 100;
    }

    /// Marks the scan as done and shows `message`.
    pub fn complete_scan(&mut self, message: &str)
        ensures
            final(self).scan_message matches Some(m) && m@ == message@,
            *final(self) == (App {
                is_scanning: false,
                scan_progress: 100,
                scan_message: final(self).scan_message,
                ..*old(self)
            }),
    {
        self.finish_scan();
        self.scan_message = Some(message.to_owned());
    }

    /// Marks the scan as failed, back at 0%, and shows `message`.
    pub fn fail_scan(&mut self, message: &str)
        ensures
            final(self).scan_message matches Some(m) && m@ == message@,
            *final(self) == (App {
                is_scanning: false,
                scan_progress: 0,
                scan_message: final(self).scan_message,
                ..*old(self)
            }),
    {
        self.is_scanning = false;
        self.scan_progress = 0;
        self.scan_message = Some(message.to_owned());
    }

    /// Shows `message` on the status line.
    pub fn set_scan_message(&mut self, message: &str)
        ensures
            final(self).scan_message matches Some(m) && m@ == message@,
            *final(self) == (App { scan_message: final(self).scan_message, ..*old(self) }),
    {
        self.scan_message = Some(message.to_owned());
    }

    /// Swaps in a new inventory, keeping the search and filters, back at the top.
    pub fn replace_items(&mut self, items: Vec<SoftwareItem>)
        ensures
            final(self).is_consistent(),
            *final(self) == (App {
                all_items: items,
                selected_index: 0,
                current_page: 0,
                scroll_offset: 0,
                filtered_items: final(self).filtered_items,
                ..*old(self)
            }),
    {
        self.all_items = items;
        self.selected_index = 0;
        self.current_page = 0;
        self.scroll_offset = 0;
        self.apply_filters();
    }

    /// Back to the initial settings over the same inventory, every item listed.
    pub fn reset(&mut self)
        ensures
            final(self).search_query@.len() == 0,
            final(self).category_filters@.len() == 0,
            final(self).manager_filters@.len() == 0,
            final(self).scope_filters@.len() == 0,
            final(self).reason_filters@.len() == 0,
            final(self).confidence_filters@.len() == 0,
            items_view(final(self).filtered_items@) == items_view(old(self).all_items@),
            *final(self) == (App {
                search_query: final(self).search_query,
                cursor_position: 0,
                category_filters: final(self).category_filters,
                manager_filters: final(self).manager_filters,
                scope_filters: final(self).scope_filters,
                reason_filters: final(self).reason_filters,
                confidence_filters: final(self).confidence_filters,
                update_filter: UpdateFilter::Any,
                selected_index: 0,
                current_page: 0,
                sort_field: SortField::Name,
                sort_order: SortOrder::Ascending,
                detail_view_visible: false,
                filter_panel_visible: false,
                filter_dimension: FilterDimension::Category,
                filter_cursor: 0,
                is_scanning: false,
                scan_progress: 0,
                scan_message: None,
                filtered_items: final(self).filtered_items,
                ..*old(self)
            }),
    {
        self.search_query = String::new();
        self.cursor_position = 0;
        self.category_filters = Vec::new();
        self.manager_filters = Vec::new();
        self.scope_filters = Vec::new();
        self.reason_filters = Vec::new();
        self.confidence_filters = Vec::new();
        self.update_filter = UpdateFilter::Any;
        self.selected_index = 0;
        self.current_page = 0;
        self.sort_field = SortField::Name;
        self.sort_order = SortOrder::Ascending;
        self.detail_view_visible = false;
        self.filter_panel_visible = false;
        self.filter_dimension = FilterDimension::Category;
        self.filter_cursor = 0;
        self.is_scanning = false;
        self.scan_progress = 0;
        self.scan_message = None;
        self.filtered_items = clone_items(&self.all_items);
    }
}

// ---------------------------------------------------------------------------
// Laws

pub open spec fn field_key(f: SortField) -> spec_fn(SoftwareItemView) -> Seq<char> {
    |it: SoftwareItemView| sort_key(f, it)
}

proof fn lemma_sort_insert_is_insert_by(s: Seq<SoftwareItemView>, x: SoftwareItemView, f: SortField)
    ensures
        sort_insert(s, x, f) == crate::duplicates::insert_by(s, x, field_key(f)),
    decreases s.len(),
{
    if s.len() > 0 && !lex_le(sort_key(f, s.last()), sort_key(f, x)) {
        lemma_sort_insert_is_insert_by(s.drop_last(), x, f);
    }
}

proof fn lemma_sort_items_is_sorted_by(s: Seq<SoftwareItemView>, f: SortField)
    ensures
        sort_items(s, f) == crate::duplicates::sorted_by(s, field_key(f)),
    decreases s.len(),
{
    if s.len() > 0 {
        lemma_sort_items_is_sorted_by(s.drop_last(), f);
        lemma_sort_insert_is_insert_by(sort_items(s.drop_last(), f), s.last(), f);
    }
}

proof fn lemma_kept_members(app: App, s: Seq<SoftwareItemView>)
    ensures
        forall|i: int| 0 <= i < kept_items(app, s).len() ==> app.keeps(#[trigger] kept_items(app, s)[i])
            && s.contains(kept_items(app, s)[i]),
    decreases s.len(),
{
    if s.len() > 0 {
        let p = s.drop_last();
        lemma_kept_members(app, p);
        assert forall|i: int| 0 <= i < kept_items(app, s).len() implies app.keeps(#[trigger] kept_items(app, s)[i])
            && s.contains(kept_items(app, s)[i]) by {
            if i < kept_items(app, p).len() {
                assert(kept_items(app, s)[i] == kept_items(app, p)[i]);
                assert(p.contains(kept_items(app, p)[i]));
                let k = choose|k: int| 0 <= k < p.len() && p[k] == kept_items(app, p)[i];
                assert(s[k] == p[k]);
            } else {
                assert(s[s.len() - 1] == s.last());
            }
        }
    }
}

/// What the browser lists is exactly what it should: every listed item is
/// one of the inventory's items that the search and every active filter
/// keep, and the list is ordered by the sort field (in reverse when
/// descending).
pub proof fn law_listed_items_are_kept_and_ordered(app: App)
    ensures
        forall|i: int| 0 <= i < app.spec_filtered().len() ==> app.keeps(#[trigger] app.spec_filtered()[i])
            && items_view(app.all_items@).contains(app.spec_filtered()[i]),
        forall|i: int, j: int|
            0 <= i < j < app.spec_filtered().len() ==> if app.sort_order == SortOrder::Descending {
                lex_le(sort_key(app.sort_field, #[trigger] app.spec_filtered()[j]), sort_key(app.sort_field, #[trigger] app.spec_filtered()[i]))
            } else {
                lex_le(sort_key(app.sort_field, app.spec_filtered()[i]), sort_key(app.sort_field, app.spec_filtered()[j]))
            },
{
    let all = items_view(app.all_items@);
    let kept = kept_items(app, all);
    let f = app.sort_field;
    let sorted = sort_items(kept, f);
    lemma_kept_members(app, all);
    lemma_sort_items_is_sorted_by(kept, f);
    crate::duplicates::lemma_sorted_by_members(kept, field_key(f));
    crate::duplicates::lemma_sorted_by_ordered(kept, field_key(f));
    assert forall|i: int| 0 <= i < sorted.len() implies app.keeps(#[trigger] sorted[i]) && all.contains(sorted[i]) by {
        assert(kept.contains(sorted[i]));
        let k = choose|k: int| 0 <= k < kept.len() && kept[k] == sorted[i];
        assert(app.keeps(kept[k]) && all.contains(kept[k]));
    }
    if app.sort_order == SortOrder::Descending {
        let r = sorted.reverse();
        assert forall|i: int| 0 <= i < r.len() implies app.keeps(#[trigger] r[i]) && all.contains(r[i]) by {
            assert(r[i] == sorted[sorted.len() - 1 - i]);
        }
        assert forall|i: int, j: int| 0 <= i < j < r.len() implies lex_le(sort_key(f, #[trigger] r[j]), sort_key(f, #[trigger] r[i])) by {
            assert(r[i] == sorted[sorted.len() - 1 - i]);
            assert(r[j] == sorted[sorted.len() - 1 - j]);
            assert(lex_le(field_key(f)(sorted[sorted.len() - 1 - j]), field_key(f)(sorted[sorted.len() - 1 - i])));
        }
    } else {
        assert forall|i: int, j: int| 0 <= i < j < sorted.len() implies lex_le(sort_key(f, #[trigger] sorted[i]), sort_key(f, #[trigger] sorted[j])) by {
            assert(lex_le(field_key(f)(sorted[i]), field_key(f)(sorted[j])));
        }
    }
}

/// The browser's list holds each kept item exactly as often as the
/// inventory does: sorting (and reversing) reorders, never drops or repeats.
pub proof fn law_listed_items_are_a_permutation_of_the_kept(app: App)
    ensures
        app.spec_filtered().to_multiset() =~= kept_items(app, items_view(app.all_items@)).to_multiset(),
{
    let kept = kept_items(app, items_view(app.all_items@));
    lemma_sort_items_is_sorted_by(kept, app.sort_field);
    crate::duplicates::lemma_sorted_by_multiset(kept, field_key(app.sort_field));
    sort_items(kept, app.sort_field).lemma_reverse_to_multiset();
}

proof fn lemma_push_contains<T>(q: Seq<T>, z: T, y: T)
    ensures
        q.push(z).contains(y) == (q.contains(y) || z == y),
{
    if q.contains(y) {
        let k = choose|k: int| 0 <= k < q.len() && q[k] == y;
        assert(q.push(z)[k] == y);
    }
    if z == y {
        assert(q.push(z)[q.len() as int] == y);
    }
    if q.push(z).contains(y) {
        let k = choose|k: int| 0 <= k < q.push(z).len() && q.push(z)[k] == y;
        if k < q.len() {
            assert(q[k] == y);
        }
    }
}

pub(crate) proof fn lemma_without_contains<T>(s: Seq<T>, x: T, y: T)
    ensures
        without(s, x).contains(y) == (s.contains(y) && y != x),
    decreases s.len(),
{
    if s.len() > 0 {
        let p = s.drop_last();
        lemma_without_contains(p, x, y);
        assert(s =~= p.push(s.last()));
        lemma_push_contains(p, s.last(), y);
        if s.last() != x {
            lemma_push_contains(without(p, x), s.last(), y);
        }
    }
}

/// Toggling a filter value twice leaves the same values selected.
pub proof fn law_toggle_twice_keeps_the_selection<T>(s: Seq<T>, x: T, y: T)
    ensures
        toggled(toggled(s, x), x).contains(y) == s.contains(y),
{
    if s.contains(x) {
        lemma_without_contains(s, x, y);
        lemma_without_contains(s, x, x);
        let w = without(s, x);
        assert(!w.contains(x));
        if y == x {
            assert(w.push(x)[w.len() as int] == x);
        } else if s.contains(y) {
            let k = choose|k: int| 0 <= k < w.len() && w[k] == y;
            assert(w.push(x)[k] == y);
        } else {
            if w.push(x).contains(y) {
                let k = choose|k: int| 0 <= k < w.push(x).len() && w.push(x)[k] == y;
                if k < w.len() {
                    assert(w[k] == y);
                }
            }
        }
    } else {
        let p = s.push(x);
        assert(p.contains(x)) by {
            assert(p[s.len() as int] == x);
        }
        lemma_without_contains(p, x, y);
        if s.contains(y) {
            let k = choose|k: int| 0 <= k < s.len() && s[k] == y;
            assert(p[k] == y);
        }
        if p.contains(y) && y != x {
            let k = choose|k: int| 0 <= k < p.len() && p[k] == y;
            assert(k < s.len());
            assert(s[k] == y);
        }
    }
}

} // verus!
