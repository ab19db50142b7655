//! Merging items that share an id across providers into one record: the
//! first item with an id is the base, and every later one only enriches it.
use vstd::prelude::*;

use crate::domain::{
    items_view, InstallationReason, SoftwareCategory, SoftwareItem, SoftwareItemView,
};
use crate::text::{opt_view, str_eq, strs_view, trim};
use crate::tui::app::without;

verus! {

/// `b`, or `o` where `b` is empty.
pub open spec fn fill<T>(b: Option<T>, o: Option<T>) -> Option<T> {
    if b is None {
        o
    } else {
        b
    }
}

/// `base` followed by the entries of `other` it lacks, in `other`'s order
/// (an entry repeated in `other` is added once).
pub open spec fn union_seq<T>(base: Seq<T>, other: Seq<T>) -> Seq<T>
    decreases other.len(),
{
    if other.len() == 0 {
        base
    } else {
        let u = union_seq(base, other.drop_last());
        if u.contains(other.last()) {
            u
        } else {
            u.push(other.last())
        }
    }
}

/// A display name that is blank or just the package name.
pub open spec fn is_generic_name(it: SoftwareItemView) -> bool {
    trim(it.display_name).len() == 0 || it.display_name == it.package_name
}

/// `b` enriched by `o`: empty optional fields filled, list fields unioned,
/// a generic display name replaced by a specific one, the classification
/// taken over only at a higher confidence (reasons unioned when both agree),
/// secondary categories unioned without the primary one, metadata keys
/// added where missing, the update flag or-ed and an unknown installation
/// reason filled.
pub open spec fn merged(b: SoftwareItemView, o: SoftwareItemView) -> SoftwareItemView {
    let upgraded = o.classification_confidence.spec_rank() > b.classification_confidence.spec_rank();
    let agree = o.classification_confidence == b.classification_confidence && o.category
        == b.category;
    let category = if upgraded {
        o.category
    } else {
        b.category
    };
    SoftwareItemView {
        id: b.id,
        package_name: b.package_name,
        display_name: if is_generic_name(b) && !is_generic_name(o) {
            o.display_name
        } else {
            b.display_name
        },
        description: fill(b.description, o.description),
        version: fill(b.version, o.version),
        architecture: fill(b.architecture, o.architecture),
        category,
        secondary_categories: without(
            union_seq(b.secondary_categories, o.secondary_categories),
            category,
        ),
        package_manager: b.package_manager,
        package_source: fill(b.package_source, o.package_source),
        scope: b.scope,
        install_paths: union_seq(b.install_paths, o.install_paths),
        executable_paths: union_seq(b.executable_paths, o.executable_paths),
        desktop_file_paths: union_seq(b.desktop_file_paths, o.desktop_file_paths),
        icon_path: fill(b.icon_path, o.icon_path),
        package_section: fill(b.package_section, o.package_section),
        installed_size_bytes: fill(b.installed_size_bytes, o.installed_size_bytes),
        installed_at: fill(b.installed_at, o.installed_at),
        installation_reason: if b.installation_reason == InstallationReason::Unknown {
            o.installation_reason
        } else {
            b.installation_reason
        },
        dependencies: union_seq(b.dependencies, o.dependencies),
        reverse_dependencies: union_seq(b.reverse_dependencies, o.reverse_dependencies),
        update_available: b.update_available || o.update_available,
        available_version: fill(b.available_version, o.available_version),
        repository: fill(b.repository, o.repository),
        homepage: fill(b.homepage, o.homepage),
        license: fill(b.license, o.license),
        classification_confidence: if upgraded {
            o.classification_confidence
        } else {
            b.classification_confidence
        },
        classification_reasons: if upgraded {
            o.classification_reasons
        } else if agree {
            union_seq(b.classification_reasons, o.classification_reasons)
        } else {
            b.classification_reasons
        },
        risk_level: b.risk_level,
        metadata: o.metadata.union_prefer_right(b.metadata),
        warnings: union_seq(b.warnings, o.warnings),
    }
}

// ---------------------------------------------------------------------------
// Field helpers

fn fill_string(base: &mut Option<String>, other: &Option<String>)
    ensures
        opt_view(*final(base)) == fill(opt_view(*old(base)), opt_view(*other)),
{
    if base.is_none() {
        *base = match other {
            Some(s) => Some(s.clone()),
            None => None,
        };
    }
}

fn has_string(v: &Vec<String>, x: &String) -> (b: bool)
    ensures
        b == strs_view(v@).contains(x@),
{
    let mut i: usize = 0;
    while i < v.len()
        invariant
            0 <= i <= v@.len(),
            forall|j: int| 0 <= j < i ==> v@[j]@ != x@,
        decreases v@.len() - i,
    {
        if str_eq(v[i].as_str(), x.as_str()) {
            proof {
                assert(strs_view(v@)[i as int] == x@);
            }
            return true;
        }
        i += 1;
    }
    proof {
        if strs_view(v@).contains(x@) {
            let k = choose|k: int| 0 <= k < strs_view(v@).len() && strs_view(v@)[k] == x@;
            assert(v@[k]@ == x@);
        }
    }
    false
}

fn union_strings(base: &mut Vec<String>, other: &Vec<String>)
    ensures
        strs_view(final(base)@) == union_seq(strs_view(old(base)@), strs_view(other@)),
{
    let ghost b0 = strs_view(base@);
    let mut i: usize = 0;
    proof {
        assert(strs_view(other@).take(0) =~= Seq::<Seq<char>>::empty());
    }
    while i < other.len()
        invariant
            0 <= i <= other@.len(),
            strs_view(base@) == union_seq(b0, strs_view(other@).take(i as int)),
        decreases other@.len() - i,
    {
        proof {
            assert(strs_view(other@).take(i + 1).drop_last() =~= strs_view(other@).take(i as int));
            assert(strs_view(other@).take(i + 1).last() == other@[i as int]@);
        }
        if !has_string(base, &other[i]) {
            let ghost before = base@;
            base.push(other[i].clone());
            proof {
                assert(strs_view(base@) =~= strs_view(before).push(other@[i as int]@));
            }
        }
        i += 1;
    }
    proof {
        assert(strs_view(other@).take(i as int) =~= strs_view(other@));
    }
}

fn has_category_in(v: &Vec<SoftwareCategory>, x: SoftwareCategory) -> (b: bool)
    ensures
        b == v@.contains(x),
{
    let mut i: usize = 0;
    while i < v.len()
        invariant
            0 <= i <= v@.len(),
            forall|j: int| 0 <= j < i ==> v@[j] != x,
        decreases v@.len() - i,
    {
        if v[i] == x {
            return true;
        }
        i += 1;
    }
    false
}

fn union_categories(base: &mut Vec<SoftwareCategory>, other: &Vec<SoftwareCategory>)
    ensures
        final(base)@ == union_seq(old(base)@, other@),
{
    let ghost b0 = base@;
    let mut i: usize = 0;
    proof {
        assert(other@.take(0) =~= Seq::<SoftwareCategory>::empty());
    }
    while i < other.len()
        invariant
            0 <= i <= other@.len(),
            base@ == union_seq(b0, other@.take(i as int)),
        decreases other@.len() - i,
    {
        proof {
            assert(other@.take(i + 1).drop_last() =~= other@.take(i as int));
        }
        if !has_category_in(base, other[i]) {
            base.push(other[i]);
        }
        i += 1;
    }
    proof {
        assert(other@.take(i as int) =~= other@);
    }
}

fn without_category(v: &Vec<SoftwareCategory>, x: SoftwareCategory) -> (r: Vec<SoftwareCategory>)
    ensures
        r@ == without(v@, x),
{
    let mut r: Vec<SoftwareCategory> = Vec::new();
    let mut i: usize = 0;
    while i < v.len()
        invariant
            0 <= i <= v@.len(),
            r@ == without(v@.take(i as int), x),
        decreases v@.len() - i,
    {
        proof {
            assert(v@.take(i + 1).drop_last() =~= v@.take(i as int));
        }
        if v[i] != x {
            r.push(v[i]);
        }
        i += 1;
    }
    proof {
        assert(v@.take(i as int) =~= v@);
    }
    r
}

fn generic_name(item: &SoftwareItem) -> (b: bool)
    ensures
        b == is_generic_name(item@),
{
    crate::domain::is_blank(item.display_name.as_str()) || str_eq(
        item.display_name.as_str(),
        item.package_name.as_str(),
    )
}

fn merge_optionals(base: &mut SoftwareItem, other: &SoftwareItem)
    ensures
        opt_view(final(base).description) == fill(opt_view(old(base).description), opt_view(other.description)),
        opt_view(final(base).version) == fill(opt_view(old(base).version), opt_view(other.version)),
        opt_view(final(base).architecture) == fill(opt_view(old(base).architecture), opt_view(other.architecture)),
        opt_view(final(base).package_source) == fill(opt_view(old(base).package_source), opt_view(other.package_source)),
        opt_view(final(base).icon_path) == fill(opt_view(old(base).icon_path), opt_view(other.icon_path)),
        opt_view(final(base).package_section) == fill(opt_view(old(base).package_section), opt_view(other.package_section)),
        final(base).installed_size_bytes == fill(old(base).installed_size_bytes, other.installed_size_bytes),
        final(base).installed_at == fill(old(base).installed_at, other.installed_at),
        opt_view(final(base).available_version) == fill(opt_view(old(base).available_version), opt_view(other.available_version)),
        opt_view(final(base).repository) == fill(opt_view(old(base).repository), opt_view(other.repository)),
        opt_view(final(base).homepage) == fill(opt_view(old(base).homepage), opt_view(other.homepage)),
        opt_view(final(base).license) == fill(opt_view(old(base).license), opt_view(other.license)),
        *final(base) == (SoftwareItem {
            description: final(base).description,
            version: final(base).version,
            architecture: final(base).architecture,
            package_source: final(base).package_source,
            icon_path: final(base).icon_path,
            package_section: final(base).package_section,
            installed_size_bytes: final(base).installed_size_bytes,
            installed_at: final(base).installed_at,
            available_version: final(base).available_version,
            repository: final(base).repository,
            homepage: final(base).homepage,
            license: final(base).license,
            ..*old(base)
        }),
{
    fill_string(&mut base.description, &other.description);
    fill_string(&mut base.version, &other.version);
    fill_string(&mut base.architecture, &other.architecture);
    fill_string(&mut base.package_source, &other.package_source);
    fill_string(&mut base.icon_path, &other.icon_path);
    fill_string(&mut base.package_section, &other.package_section);
    if base.installed_size_bytes.is_none() {
        base.installed_size_bytes = other.installed_size_bytes;
    }
    if base.installed_at.is_none() {
        base.installed_at = other.installed_at;
    }
    fill_string(&mut base.available_version, &other.available_version);
    fill_string(&mut base.repository, &other.repository);
    fill_string(&mut base.homepage, &other.homepage);
    fill_string(&mut base.license, &other.license);
}

fn merge_lists(base: &mut SoftwareItem, other: &SoftwareItem)
    ensures
        strs_view(final(base).install_paths@) == union_seq(strs_view(old(base).install_paths@), strs_view(other.install_paths@)),
        strs_view(final(base).executable_paths@) == union_seq(strs_view(old(base).executable_paths@), strs_view(other.executable_paths@)),
        strs_view(final(base).desktop_file_paths@) == union_seq(strs_view(old(base).desktop_file_paths@), strs_view(other.desktop_file_paths@)),
        strs_view(final(base).dependencies@) == union_seq(strs_view(old(base).dependencies@), strs_view(other.dependencies@)),
        strs_view(final(base).reverse_dependencies@) == union_seq(strs_view(old(base).reverse_dependencies@), strs_view(other.reverse_dependencies@)),
        strs_view(final(base).warnings@) == union_seq(strs_view(old(base).warnings@), strs_view(other.warnings@)),
        *final(base) == (SoftwareItem {
            install_paths: final(base).install_paths,
            executable_paths: final(base).executable_paths,
            desktop_file_paths: final(base).desktop_file_paths,
            dependencies: final(base).dependencies,
            reverse_dependencies: final(base).reverse_dependencies,
            warnings: final(base).warnings,
            ..*old(base)
        }),
{
    union_strings(&mut base.install_paths, &other.install_paths);
    union_strings(&mut base.executable_paths, &other.executable_paths);
    union_strings(&mut base.desktop_file_paths, &other.desktop_file_paths);
    union_strings(&mut base.dependencies, &other.dependencies);
    union_strings(&mut base.reverse_dependencies, &other.reverse_dependencies);
    union_strings(&mut base.warnings, &other.warnings);
}

fn merge_classification(base: &mut SoftwareItem, other: &SoftwareItem)
    ensures
        ({
            let b = old(base)@;
            let o = other@;
            let upgraded = o.classification_confidence.spec_rank() > b.classification_confidence.spec_rank();
            let agree = o.classification_confidence == b.classification_confidence && o.category == b.category;
            let category = if upgraded { o.category } else { b.category };
            &&& final(base).category == category
            &&& final(base).classification_confidence == (if upgraded {
                o.classification_confidence
            } else {
                b.classification_confidence
            })
            &&& strs_view(final(base).classification_reasons@) == (if upgraded {
                o.classification_reasons
            } else if agree {
                union_seq(b.classification_reasons, o.classification_reasons)
            } else {
                b.classification_reasons
            })
            &&& final(base).secondary_categories@ == without(
                union_seq(b.secondary_categories, o.secondary_categories),
                category,
            )
        }),
        *final(base) == (SoftwareItem {
            category: final(base).category,
            classification_confidence: final(base).classification_confidence,
            classification_reasons: final(base).classification_reasons,
            secondary_categories: final(base).secondary_categories,
            ..*old(base)
        }),
{
    if other.classification_confidence.rank() > base.classification_confidence.rank() {
        base.category = other.category;
        base.classification_confidence = other.classification_confidence;
        base.classification_reasons = crate::domain::clone_strings(&other.classification_reasons);
    } else if other.classification_confidence == base.classification_confidence
        && other.category == base.category {
        union_strings(&mut base.classification_reasons, &other.classification_reasons);
    }
    union_categories(&mut base.secondary_categories, &other.secondary_categories);
    let primary = base.category;
    base.secondary_categories = without_category(&base.secondary_categories, primary);
}

/// Enriches `base` with `other`, as [`merged`] says.
pub fn merge_into(base: &mut SoftwareItem, other: &SoftwareItem)
    ensures
        final(base)@ == merged(old(base)@, other@),
{
    merge_optionals(base, other);
    if generic_name(base) && !generic_name(other) {
        base.display_name = other.display_name.clone();
    }
    merge_lists(base, other);
    merge_classification(base, other);
    base.metadata.absorb(&other.metadata);
    base.update_available = base.update_available || other.update_available;
    if base.installation_reason == InstallationReason::Unknown {
        base.installation_reason = other.installation_reason;
    }
    proof {
        assert(final(base)@ == merged(old(base)@, other@));
    }
}

// ---------------------------------------------------------------------------
// Merging by id

/// The distinct ids of `s`, in the order they first occur.
pub open spec fn first_ids(s: Seq<SoftwareItemView>) -> Seq<Seq<char>>
    decreases s.len(),
{
    if s.len() == 0 {
        Seq::empty()
    } else if first_ids(s.drop_last()).contains(s.last().id) {
        first_ids(s.drop_last())
    } else {
        first_ids(s.drop_last()).push(s.last().id)
    }
}

/// The items of `s` with id `id`, in order.
pub open spec fn with_id(s: Seq<SoftwareItemView>, id: Seq<char>) -> Seq<SoftwareItemView>
    decreases s.len(),
{
    if s.len() == 0 {
        Seq::empty()
    } else if s.last().id == id {
        with_id(s.drop_last(), id).push(s.last())
    } else {
        with_id(s.drop_last(), id)
    }
}

/// The first item of `g` enriched by each later one in turn.
pub open spec fn merge_all(g: Seq<SoftwareItemView>) -> SoftwareItemView
    decreases g.len(),
{
    if g.len() <= 1 {
        g[0]
    } else {
        merged(merge_all(g.drop_last()), g.last())
    }
}

/// One merged item per distinct id, in first-occurrence order.
pub open spec fn spec_merge_by_id(s: Seq<SoftwareItemView>) -> Seq<SoftwareItemView> {
    first_ids(s).map_values(|id: Seq<char>| merge_all(with_id(s, id)))
}

pub proof fn lemma_first_ids(s: Seq<SoftwareItemView>)
    ensures
        forall|id: Seq<char>| #[trigger] first_ids(s).contains(id) <==> with_id(s, id).len() > 0,
        forall|i: int, j: int| 0 <= i < j < first_ids(s).len() ==> first_ids(s)[i] != first_ids(s)[j],
        forall|id: Seq<char>| with_id(s, id).len() > 0 ==> (#[trigger] with_id(s, id))[0].id == id,
    decreases s.len(),
{
    if s.len() > 0 {
        lemma_first_ids(s.drop_last());
        let p = s.drop_last();
        assert forall|id: Seq<char>| #[trigger] first_ids(s).contains(id) <==> with_id(s, id).len() > 0 by {
            if s.last().id == id {
                assert(with_id(s, id) == with_id(p, id).push(s.last()));
                if first_ids(p).contains(s.last().id) {
                    assert(first_ids(s) == first_ids(p));
                } else {
                    assert(first_ids(s) == first_ids(p).push(id));
                    assert(first_ids(s)[first_ids(s).len() - 1] == id);
                }
            } else {
                assert(with_id(s, id) == with_id(p, id));
                if first_ids(p).contains(s.last().id) {
                    assert(first_ids(s) == first_ids(p));
                } else {
                    assert(first_ids(s) == first_ids(p).push(s.last().id));
                    if first_ids(s).contains(id) {
                        let k = choose|k: int| 0 <= k < first_ids(s).len() && first_ids(s)[k] == id;
                        assert(k < first_ids(p).len());
                        assert(first_ids(p)[k] == id);
                    }
                    if first_ids(p).contains(id) {
                        let k = choose|k: int| 0 <= k < first_ids(p).len() && first_ids(p)[k] == id;
                        assert(first_ids(s)[k] == id);
                    }
                }
            }
        }
        assert forall|i: int, j: int| 0 <= i < j < first_ids(s).len() implies first_ids(s)[i] != first_ids(s)[j] by {
            if !first_ids(p).contains(s.last().id) && j == first_ids(s).len() - 1 {
                assert(first_ids(s)[i] == first_ids(p)[i]);
            }
        }
        assert forall|id: Seq<char>| with_id(s, id).len() > 0 implies (#[trigger] with_id(s, id))[0].id == id by {
            if with_id(p, id).len() > 0 {
            } else if s.last().id == id {
                assert(with_id(p, id).push(s.last())[0] == s.last());
            }
        }
    }
}

proof fn lemma_merge_all_id(g: Seq<SoftwareItemView>)
    requires
        g.len() > 0,
    ensures
        merge_all(g).id == g[0].id,
    decreases g.len(),
{
    if g.len() > 1 {
        lemma_merge_all_id(g.drop_last());
    }
}

/// What adding `x` at the end does to the merge: a known id is merged into
/// its record, a new id appends `x`.
proof fn lemma_merge_step(s: Seq<SoftwareItemView>, x: SoftwareItemView)
    ensures
        ({
            let r = spec_merge_by_id(s);
            let ids = first_ids(s);
            &&& ids.contains(x.id) ==> {
                let k = choose|k: int| 0 <= k < ids.len() && ids[k] == x.id;
                &&& 0 <= k < ids.len() && ids[k] == x.id
                &&& spec_merge_by_id(s.push(x)) == r.update(k, merged(r[k], x))
            }
            &&& !ids.contains(x.id) ==> spec_merge_by_id(s.push(x)) == r.push(x)
        }),
{
    let t = s.push(x);
    assert(t.drop_last() =~= s);
    lemma_first_ids(s);
    let ids = first_ids(s);
    let r = spec_merge_by_id(s);
    if ids.contains(x.id) {
        let k = choose|k: int| 0 <= k < ids.len() && ids[k] == x.id;
        assert(first_ids(t) == ids);
        assert forall|j: int| 0 <= j < ids.len() implies #[trigger] spec_merge_by_id(t)[j] == r.update(
            k,
            merged(r[k], x),
        )[j] by {
            if j == k {
                assert(with_id(t, x.id) == with_id(s, x.id).push(x));
                assert(with_id(s, x.id).len() > 0);
                assert(with_id(t, x.id).drop_last() =~= with_id(s, x.id));
            } else {
                assert(ids[j] != x.id);
                assert(with_id(t, ids[j]) == with_id(s, ids[j]));
            }
        }
        assert(spec_merge_by_id(t) =~= r.update(k, merged(r[k], x)));
    } else {
        assert(first_ids(t) == ids.push(x.id));
        assert(with_id(s, x.id).len() == 0);
        assert(with_id(t, x.id) =~= seq![x]);
        assert forall|j: int| 0 <= j < ids.len() implies #[trigger] spec_merge_by_id(t)[j] == r[j] by {
            assert(ids[j] != x.id);
            assert(with_id(t, ids[j]) == with_id(s, ids[j]));
        }
        assert(spec_merge_by_id(t) =~= r.push(x));
    }
}

/// Merges items sharing an id into one record per id, keeping the order in
/// which each id first occurs. The first item with an id is the base and
/// each later one enriches it, so providers should be listed most
/// authoritative first.
pub fn merge_by_id(items: Vec<SoftwareItem>) -> (r: Vec<SoftwareItem>)
    ensures
        items_view(r@) == spec_merge_by_id(items_view(items@)),
{
    let mut out: Vec<SoftwareItem> = Vec::new();
    let mut i: usize = 0;
    proof {
        assert(items_view(items@.take(0)) =~= Seq::<SoftwareItemView>::empty());
        assert(spec_merge_by_id(Seq::<SoftwareItemView>::empty()) =~= Seq::<SoftwareItemView>::empty());
    }
    while i < items.len()
        invariant
            0 <= i <= items@.len(),
            items_view(out@) == spec_merge_by_id(items_view(items@.take(i as int))),
            out@.len() == first_ids(items_view(items@.take(i as int))).len(),
            forall|j: int| 0 <= j < out@.len() ==> (#[trigger] out@[j]).id@ == first_ids(items_view(items@.take(i as int)))[j],
        decreases items@.len() - i,
    {
        let ghost pre = items_view(items@.take(i as int));
        let ghost x = items@[i as int]@;
        proof {
            assert(items_view(items@.take(i + 1)) =~= pre.push(x));
            lemma_merge_step(pre, x);
            lemma_first_ids(pre);
        }
        let mut k: usize = 0;
        while k < out.len() && !str_eq(out[k].id.as_str(), items[i].id.as_str())
            invariant
                0 <= k <= out@.len(),
                out@.len() == first_ids(pre).len(),
                forall|j: int| 0 <= j < out@.len() ==> (#[trigger] out@[j]).id@ == first_ids(pre)[j],
                forall|j: int| 0 <= j < k ==> first_ids(pre)[j] != x.id,
                0 <= i < items@.len(),
                x == items@[i as int]@,
            decreases out@.len() - k,
        {
            k += 1;
        }
        if k < out.len() {
            proof {
                assert(first_ids(pre)[k as int] == x.id);
                assert(first_ids(pre).contains(x.id));
                let c = choose|c: int| 0 <= c < first_ids(pre).len() && first_ids(pre)[c] == x.id;
                assert(c == k) by {
                    if c != k {
                        assert(first_ids(pre)[c] != first_ids(pre)[k as int]);
                    }
                }
            }
            let ghost before = out@;
            let mut target = out.remove(k);
            merge_into(&mut target, &items[i]);
            out.insert(k, target);
            proof {
                assert(out@ =~= before.update(k as int, target));
                assert(items_view(out@) =~= items_view(before).update(k as int, target@));
                assert(pre.push(x).drop_last() =~= pre);
                assert(first_ids(pre.push(x)) == first_ids(pre));
                assert(target.id@ == before[k as int].id@);
            }
        } else {
            proof {
                assert(!first_ids(pre).contains(x.id));
            }
            let ghost before = out@;
            out.push(items[i].clone());
            proof {
                assert(items_view(out@) =~= items_view(before).push(x));
                assert(pre.push(x).drop_last() =~= pre);
                assert(first_ids(pre.push(x)) == first_ids(pre).push(x.id));
            }
        }
        i += 1;
    }
    proof {
        assert(items@.take(i as int) =~= items@);
    }
    out
}

// ---------------------------------------------------------------------------
// Laws

/// Merging yields one item per distinct input id, no two with the same id,
/// in the order the ids first occur, and never more items than it was given.
pub proof fn law_merge_one_item_per_id(s: Seq<SoftwareItemView>)
    ensures
        spec_merge_by_id(s).len() == first_ids(s).len(),
        spec_merge_by_id(s).len() <= s.len(),
        forall|i: int| 0 <= i < spec_merge_by_id(s).len() ==> (#[trigger] spec_merge_by_id(s)[i]).id == first_ids(s)[i],
        forall|i: int, j: int|
            0 <= i < j < spec_merge_by_id(s).len() ==> (#[trigger] spec_merge_by_id(s)[i]).id != (#[trigger] spec_merge_by_id(s)[j]).id,
        forall|k: int| 0 <= k < s.len() ==> #[trigger] first_ids(s).contains(s[k].id),
{
    lemma_first_ids(s);
    lemma_first_ids_len(s);
    assert forall|i: int| 0 <= i < spec_merge_by_id(s).len() implies (#[trigger] spec_merge_by_id(s)[i]).id == first_ids(s)[i] by {
        let id = first_ids(s)[i];
        assert(first_ids(s).contains(id));
        lemma_merge_all_id(with_id(s, id));
    }
    assert forall|k: int| 0 <= k < s.len() implies #[trigger] first_ids(s).contains(s[k].id) by {
        lemma_with_id_has(s, k);
    }
}

proof fn lemma_first_ids_len(s: Seq<SoftwareItemView>)
    ensures
        first_ids(s).len() <= s.len(),
    decreases s.len(),
{
    if s.len() > 0 {
        lemma_first_ids_len(s.drop_last());
    }
}

proof fn lemma_with_id_has(s: Seq<SoftwareItemView>, k: int)
    requires
        0 <= k < s.len(),
    ensures
        with_id(s, s[k].id).len() > 0,
    decreases s.len(),
{
    if k < s.len() - 1 {
        lemma_with_id_has(s.drop_last(), k);
        assert(s.drop_last()[k] == s[k]);
    }
}

/// Items whose ids are already distinct come back unchanged, so merging
/// twice gives what merging once gave.
pub proof fn law_merge_idempotent(s: Seq<SoftwareItemView>)
    ensures
        spec_merge_by_id(spec_merge_by_id(s)) == spec_merge_by_id(s),
{
    law_merge_one_item_per_id(s);
    lemma_distinct_ids_unchanged(spec_merge_by_id(s));
}

proof fn lemma_distinct_ids_unchanged(s: Seq<SoftwareItemView>)
    requires
        forall|i: int, j: int| 0 <= i < j < s.len() ==> (#[trigger] s[i]).id != (#[trigger] s[j]).id,
    ensures
        spec_merge_by_id(s) == s,
    decreases s.len(),
{
    if s.len() > 0 {
        let p = s.drop_last();
        assert forall|i: int, j: int| 0 <= i < j < p.len() implies (#[trigger] p[i]).id != (#[trigger] p[j]).id by {
            assert(p[i] == s[i] && p[j] == s[j]);
        }
        lemma_distinct_ids_unchanged(p);
        lemma_first_ids(p);
        assert(!first_ids(p).contains(s.last().id)) by {
            if first_ids(p).contains(s.last().id) {
                assert(with_id(p, s.last().id).len() > 0);
                lemma_with_id_member(p, s.last().id);
                let k = choose|k: int| 0 <= k < p.len() && p[k].id == s.last().id;
                assert(s[k] == p[k]);
            }
        }
        lemma_merge_step(p, s.last());
        assert(p.push(s.last()) =~= s);
    }
}

proof fn lemma_with_id_member(s: Seq<SoftwareItemView>, id: Seq<char>)
    requires
        with_id(s, id).len() > 0,
    ensures
        exists|k: int| 0 <= k < s.len() && s[k].id == id,
    decreases s.len(),
{
    if s.last().id == id {
        assert(s[s.len() - 1].id == id);
    } else {
        lemma_with_id_member(s.drop_last(), id);
        let k = choose|k: int| 0 <= k < s.drop_last().len() && s.drop_last()[k].id == id;
        assert(s[k] == s.drop_last()[k]);
    }
}

/// Enrichment never overwrites what the base already has: its id, package
/// name, manager and scope stay, and every optional field it had set keeps
/// its value.
pub proof fn law_merge_keeps_base(b: SoftwareItemView, o: SoftwareItemView)
    ensures
        merged(b, o).id == b.id,
        merged(b, o).package_name == b.package_name,
        merged(b, o).package_manager == b.package_manager,
        merged(b, o).scope == b.scope,
        b.version is Some ==> merged(b, o).version == b.version,
        b.description is Some ==> merged(b, o).description == b.description,
        b.homepage is Some ==> merged(b, o).homepage == b.homepage,
        forall|k: Seq<char>| #[trigger] b.metadata.contains_key(k) ==> merged(b, o).metadata.contains_key(k) && merged(b, o).metadata[k] == b.metadata[k],
        merged(b, o).classification_confidence.spec_rank() >= b.classification_confidence.spec_rank(),
        b.update_available ==> merged(b, o).update_available,
{
}

/// A more confident source takes over the classification: the merged
/// confidence is the higher of the two, and when the enriching source is
/// strictly more confident its category and reasons win; the primary
/// category never also stands among the secondary ones; an update is
/// available when either source says so.
pub proof fn law_merge_takes_the_stronger_classification(b: SoftwareItemView, o: SoftwareItemView)
    ensures
        merged(b, o).classification_confidence.spec_rank() == (if o.classification_confidence.spec_rank()
            > b.classification_confidence.spec_rank() {
            o.classification_confidence.spec_rank()
        } else {
            b.classification_confidence.spec_rank()
        }),
        o.classification_confidence.spec_rank() > b.classification_confidence.spec_rank() ==> {
            &&& merged(b, o).category == o.category
            &&& merged(b, o).classification_reasons == o.classification_reasons
        },
        o.classification_confidence.spec_rank() <= b.classification_confidence.spec_rank() ==> merged(b, o).category
            == b.category,
        !merged(b, o).secondary_categories.contains(merged(b, o).category),
        merged(b, o).update_available == (b.update_available || o.update_available),
{
    let m = merged(b, o);
    crate::tui::app::lemma_without_contains(
        union_seq(b.secondary_categories, o.secondary_categories),
        m.category,
        m.category,
    );
}

/// An id that occurs once among the items comes out of merging as that
/// very item, untouched.
pub proof fn law_single_items_pass_unchanged(s: Seq<SoftwareItemView>, k: int)
    requires
        0 <= k < s.len(),
        forall|j: int| 0 <= j < s.len() && j != k ==> (#[trigger] s[j]).id != s[k].id,
    ensures
        exists|i: int| 0 <= i < spec_merge_by_id(s).len() && #[trigger] spec_merge_by_id(s)[i] == s[k],
{
    lemma_first_ids(s);
    lemma_with_id_has(s, k);
    lemma_with_id_single(s, k);
    let id = s[k].id;
    assert(first_ids(s).contains(id));
    let i = choose|i: int| 0 <= i < first_ids(s).len() && first_ids(s)[i] == id;
    assert(spec_merge_by_id(s)[i] == merge_all(with_id(s, id)));
}

proof fn lemma_with_id_single(s: Seq<SoftwareItemView>, k: int)
    requires
        0 <= k < s.len(),
        forall|j: int| 0 <= j < s.len() && j != k ==> (#[trigger] s[j]).id != s[k].id,
    ensures
        with_id(s, s[k].id) == seq![s[k]],
    decreases s.len(),
{
    let p = s.drop_last();
    if k == s.len() - 1 {
        assert forall|j: int| 0 <= j < p.len() implies (#[trigger] p[j]).id != s[k].id by {
            assert(p[j] == s[j]);
        }
        lemma_with_id_none(p, s[k].id);
        assert(Seq::<SoftwareItemView>::empty().push(s[k]) =~= seq![s[k]]);
    } else {
        assert(p[k] == s[k]);
        assert forall|j: int| 0 <= j < p.len() && j != k implies (#[trigger] p[j]).id != p[k].id by {
            assert(p[j] == s[j]);
        }
        lemma_with_id_single(p, k);
        assert(s.last() == s[s.len() - 1]);
    }
}

proof fn lemma_with_id_none(s: Seq<SoftwareItemView>, id: Seq<char>)
    requires
        forall|j: int| 0 <= j < s.len() ==> (#[trigger] s[j]).id != id,
    ensures
        with_id(s, id) == Seq::<SoftwareItemView>::empty(),
    decreases s.len(),
{
    if s.len() > 0 {
        let p = s.drop_last();
        assert forall|j: int| 0 <= j < p.len() implies (#[trigger] p[j]).id != id by {
            assert(p[j] == s[j]);
        }
        assert(s[s.len() - 1] == s.last());
        lemma_with_id_none(p, id);
    }
}

} // verus!
