//! The texts the browser's panes show: the item detail pane, the filter
//! panel's lists, the status line and the table cells.
use vstd::prelude::*;

use crate::domain::{
    ClassificationConfidence, InstallationReason, InstallationScope, PackageManager,
    SoftwareCategory, SoftwareItem, SoftwareItemView,
};
use crate::text::{decimal, joined, push_decimal, push_joined, push_str, strs_view};
use crate::tui::app::{
    has_category, has_confidence, has_manager, has_reason, has_scope, App, FilterDimension,
    UpdateFilter,
};

verus! {

// ---------------------------------------------------------------------------
// Lists of names

/// The names of `cs`, separated by ", ".
pub open spec fn category_list(cs: Seq<SoftwareCategory>) -> Seq<char>
    decreases cs.len(),
{
    if cs.len() == 0 {
        Seq::empty()
    } else if cs.len() == 1 {
        cs[0].spec_name()
    } else {
        category_list(cs.drop_last()) + ", "@ + cs.last().spec_name()
    }
}

pub open spec fn manager_list(cs: Seq<PackageManager>) -> Seq<char>
    decreases cs.len(),
{
    if cs.len() == 0 {
        Seq::empty()
    } else if cs.len() == 1 {
        cs[0].spec_name()
    } else {
        manager_list(cs.drop_last()) + ", "@ + cs.last().spec_name()
    }
}

pub open spec fn scope_list(cs: Seq<InstallationScope>) -> Seq<char>
    decreases cs.len(),
{
    if cs.len() == 0 {
        Seq::empty()
    } else if cs.len() == 1 {
        cs[0].spec_name()
    } else {
        scope_list(cs.drop_last()) + ", "@ + cs.last().spec_name()
    }
}

pub open spec fn reason_list(cs: Seq<InstallationReason>) -> Seq<char>
    decreases cs.len(),
{
    if cs.len() == 0 {
        Seq::empty()
    } else if cs.len() == 1 {
        cs[0].spec_name()
    } else {
        reason_list(cs.drop_last()) + ", "@ + cs.last().spec_name()
    }
}

fn push_category_list(s: &mut String, cs: &Vec<SoftwareCategory>)
    ensures
        final(s)@ == old(s)@ + category_list(cs@),
{
    let ghost start = s@;
    let mut i: usize = 0;
    proof {
        assert(start + category_list(cs@.take(0)) =~= start);
    }
    while i < cs.len()
        invariant
            0 <= i <= cs@.len(),
            s@ == start + category_list(cs@.take(i as int)),
        decreases cs@.len() - i,
    {
        proof {
            assert(cs@.take(i + 1).drop_last() =~= cs@.take(i as int));
        }
        if i > 0 {
            push_str(s, ", ");
        }
        push_str(s, cs[i].name());
        i += 1;
        proof {
            if i == 1 {
                assert(s@ =~= start + category_list(cs@.take(i as int)));
            } else {
                assert(s@ =~= start + category_list(cs@.take(i as int)));
            }
        }
    }
    proof {
        assert(cs@.take(i as int) =~= cs@);
    }
}

fn push_manager_list(s: &mut String, cs: &Vec<PackageManager>)
    ensures
        final(s)@ == old(s)@ + manager_list(cs@),
{
    let ghost start = s@;
    let mut i: usize = 0;
    proof {
        assert(start + manager_list(cs@.take(0)) =~= start);
    }
    while i < cs.len()
        invariant
            0 <= i <= cs@.len(),
            s@ == start + manager_list(cs@.take(i as int)),
        decreases cs@.len() - i,
    {
        proof {
            assert(cs@.take(i + 1).drop_last() =~= cs@.take(i as int));
        }
        if i > 0 {
            push_str(s, ", ");
        }
        push_str(s, cs[i].name());
        i += 1;
        proof {
            assert(s@ =~= start + manager_list(cs@.take(i as int)));
        }
    }
    proof {
        assert(cs@.take(i as int) =~= cs@);
    }
}

fn push_scope_list(s: &mut String, cs: &Vec<InstallationScope>)
    ensures
        final(s)@ == old(s)@ + scope_list(cs@),
{
    let ghost start = s@;
    let mut i: usize = 0;
    proof {
        assert(start + scope_list(cs@.take(0)) =~= start);
    }
    while i < cs.len()
        invariant
            0 <= i <= cs@.len(),
            s@ == start + scope_list(cs@.take(i as int)),
        decreases cs@.len() - i,
    {
        proof {
            assert(cs@.take(i + 1).drop_last() =~= cs@.take(i as int));
        }
        if i > 0 {
            push_str(s, ", ");
        }
        push_str(s, cs[i].name());
        i += 1;
        proof {
            assert(s@ =~= start + scope_list(cs@.take(i as int)));
        }
    }
    proof {
        assert(cs@.take(i as int) =~= cs@);
    }
}

fn push_reason_list(s: &mut String, cs: &Vec<InstallationReason>)
    ensures
        final(s)@ == old(s)@ + reason_list(cs@),
{
    let ghost start = s@;
    let mut i: usize = 0;
    proof {
        assert(start + reason_list(cs@.take(0)) =~= start);
    }
    while i < cs.len()
        invariant
            0 <= i <= cs@.len(),
            s@ == start + reason_list(cs@.take(i as int)),
        decreases cs@.len() - i,
    {
        proof {
            assert(cs@.take(i + 1).drop_last() =~= cs@.take(i as int));
        }
        if i > 0 {
            push_str(s, ", ");
        }
        push_str(s, cs[i].name());
        i += 1;
        proof {
            assert(s@ =~= start + reason_list(cs@.take(i as int)));
        }
    }
    proof {
        assert(cs@.take(i as int) =~= cs@);
    }
}

// ---------------------------------------------------------------------------
// Filter panel

/// One "<Label>: a, b" entry per non-empty filter list.
pub open spec fn filter_groups(
    categories: Seq<SoftwareCategory>,
    managers: Seq<PackageManager>,
    scopes: Seq<InstallationScope>,
    reasons: Seq<InstallationReason>,
) -> Seq<Seq<char>> {
    let g1 = if categories.len() > 0 {
        seq!["Categories: "@ + category_list(categories)]
    } else {
        Seq::empty()
    };
    let g2 = if managers.len() > 0 {
        seq!["Managers: "@ + manager_list(managers)]
    } else {
        Seq::empty()
    };
    let g3 = if scopes.len() > 0 {
        seq!["Scopes: "@ + scope_list(scopes)]
    } else {
        Seq::empty()
    };
    let g4 = if reasons.len() > 0 {
        seq!["Reasons: "@ + reason_list(reasons)]
    } else {
        Seq::empty()
    };
    g1 + g2 + g3 + g4
}

/// The closed filter panel's line: the active filters joined by " | ".
pub open spec fn spec_active_filters_text(
    categories: Seq<SoftwareCategory>,
    managers: Seq<PackageManager>,
    scopes: Seq<InstallationScope>,
    reasons: Seq<InstallationReason>,
) -> Seq<char> {
    let g = filter_groups(categories, managers, scopes, reasons);
    if g.len() == 0 {
        "No filters active"@
    } else {
        joined(g, " | "@)
    }
}

/// The text of the closed filter panel.
pub fn active_filters_text(
    categories: &Vec<SoftwareCategory>,
    managers: &Vec<PackageManager>,
    scopes: &Vec<InstallationScope>,
    reasons: &Vec<InstallationReason>,
) -> (t: String)
    ensures
        t@ == spec_active_filters_text(categories@, managers@, scopes@, reasons@),
{
    let mut parts: Vec<String> = Vec::new();
    if categories.len() > 0 {
        let mut g = String::new();
        push_str(&mut g, "Categories: ");
        push_category_list(&mut g, categories);
        parts.push(g);
    }
    let ghost p1 = strs_view(parts@);
    if managers.len() > 0 {
        let mut g = String::new();
        push_str(&mut g, "Managers: ");
        push_manager_list(&mut g, managers);
        parts.push(g);
    }
    let ghost p2 = strs_view(parts@);
    if scopes.len() > 0 {
        let mut g = String::new();
        push_str(&mut g, "Scopes: ");
        push_scope_list(&mut g, scopes);
        parts.push(g);
    }
    let ghost p3 = strs_view(parts@);
    if reasons.len() > 0 {
        let mut g = String::new();
        push_str(&mut g, "Reasons: ");
        push_reason_list(&mut g, reasons);
        parts.push(g);
    }
    proof {
        assert(strs_view(parts@) =~= filter_groups(categories@, managers@, scopes@, reasons@));
    }
    if parts.len() == 0 {
        return "No filters active".to_owned();
    }
    let mut t = String::new();
    push_joined(&mut t, &parts, " | ");
    proof {
        assert(t@ =~= joined(strs_view(parts@), " | "@));
    }
    t
}

pub open spec fn checkbox(checked: bool) -> Seq<char> {
    if checked {
        "[x]"@
    } else {
        "[ ]"@
    }
}

pub open spec fn radio(checked: bool) -> Seq<char> {
    if checked {
        "(•)"@
    } else {
        "( )"@
    }
}

/// The lines the open filter panel lists for the current tab: each value
/// with a checkbox, or for updates the three settings with a radio mark.
pub open spec fn spec_dimension_items(app: App) -> Seq<Seq<char>> {
    match app.filter_dimension {
        FilterDimension::Category => Seq::new(
            SoftwareCategory::spec_all().len(),
            |i: int|
                checkbox(app.category_filters@.contains(SoftwareCategory::spec_all()[i])) + " "@
                    + SoftwareCategory::spec_all()[i].spec_name(),
        ),
        FilterDimension::Manager => Seq::new(
            PackageManager::spec_all().len(),
            |i: int|
                checkbox(app.manager_filters@.contains(PackageManager::spec_all()[i])) + " "@
                    + PackageManager::spec_all()[i].spec_name(),
        ),
        FilterDimension::Scope => Seq::new(
            InstallationScope::spec_all().len(),
            |i: int|
                checkbox(app.scope_filters@.contains(InstallationScope::spec_all()[i])) + " "@
                    + InstallationScope::spec_all()[i].spec_name(),
        ),
        FilterDimension::Reason => Seq::new(
            InstallationReason::spec_all().len(),
            |i: int|
                checkbox(app.reason_filters@.contains(InstallationReason::spec_all()[i])) + " "@
                    + InstallationReason::spec_all()[i].spec_name(),
        ),
        FilterDimension::Confidence => Seq::new(
            ClassificationConfidence::spec_all().len(),
            |i: int|
                checkbox(
                    app.confidence_filters@.contains(ClassificationConfidence::spec_all()[i]),
                ) + " "@ + ClassificationConfidence::spec_all()[i].spec_name(),
        ),
        FilterDimension::UpdateAvailable => seq![
            radio(app.update_filter == UpdateFilter::Any) + " Any"@,
            radio(app.update_filter == UpdateFilter::Available) + " Available"@,
            radio(app.update_filter == UpdateFilter::NotAvailable) + " Not Available"@,
        ],
    }
}

fn checkbox_line(checked: bool, name: &str) -> (t: String)
    ensures
        t@ == checkbox(checked) + " "@ + name@,
{
    let mut t = String::new();
    if checked {
        push_str(&mut t, "[x]");
    } else {
        push_str(&mut t, "[ ]");
    }
    push_str(&mut t, " ");
    push_str(&mut t, name);
    t
}

fn radio_line(checked: bool, label: &str) -> (t: String)
    ensures
        t@ == radio(checked) + label@,
{
    let mut t = String::new();
    if checked {
        push_str(&mut t, "(•)");
    } else {
        push_str(&mut t, "( )");
    }
    push_str(&mut t, label);
    t
}

/// The lines of the open filter panel for the current tab.
pub fn dimension_items(app: &App) -> (r: Vec<String>)
    ensures
        strs_view(r@) == spec_dimension_items(*app),
{
    let mut r: Vec<String> = Vec::new();
    match app.filter_dimension {
        FilterDimension::Category => {
            let all = SoftwareCategory::all();
            let mut i: usize = 0;
            while i < all.len()
                invariant
                    0 <= i <= all@.len(),
                    all@ == SoftwareCategory::spec_all(),
                    app.filter_dimension == FilterDimension::Category,
                    r@.len() == i,
                    forall|j: int| 0 <= j < i ==> (#[trigger] r@[j])@ == spec_dimension_items(*app)[j],
                decreases all@.len() - i,
            {
                let checked = has_category(&app.category_filters, all[i]);
                r.push(checkbox_line(checked, all[i].name()));
                i += 1;
            }
        },
        FilterDimension::Manager => {
            let all = PackageManager::all();
            let mut i: usize = 0;
            while i < all.len()
                invariant
                    0 <= i <= all@.len(),
                    all@ == PackageManager::spec_all(),
                    app.filter_dimension == FilterDimension::Manager,
                    r@.len() == i,
                    forall|j: int| 0 <= j < i ==> (#[trigger] r@[j])@ == spec_dimension_items(*app)[j],
                decreases all@.len() - i,
            {
                let checked = has_manager(&app.manager_filters, all[i]);
                r.push(checkbox_line(checked, all[i].name()));
                i += 1;
            }
        },
        FilterDimension::Scope => {
            let all = InstallationScope::all();
            let mut i: usize = 0;
            while i < all.len()
                invariant
                    0 <= i <= all@.len(),
                    all@ == InstallationScope::spec_all(),
                    app.filter_dimension == FilterDimension::Scope,
                    r@.len() == i,
                    forall|j: int| 0 <= j < i ==> (#[trigger] r@[j])@ == spec_dimension_items(*app)[j],
                decreases all@.len() - i,
            {
                let checked = has_scope(&app.scope_filters, all[i]);
                r.push(checkbox_line(checked, all[i].name()));
                i += 1;
            }
        },
        FilterDimension::Reason => {
            let all = InstallationReason::all();
            let mut i: usize = 0;
            while i < all.len()
                invariant
                    0 <= i <= all@.len(),
                    all@ == InstallationReason::spec_all(),
                    app.filter_dimension == FilterDimension::Reason,
                    r@.len() == i,
                    forall|j: int| 0 <= j < i ==> (#[trigger] r@[j])@ == spec_dimension_items(*app)[j],
                decreases all@.len() - i,
            {
                let checked = has_reason(&app.reason_filters, all[i]);
                r.push(checkbox_line(checked, all[i].name()));
                i += 1;
            }
        },
        FilterDimension::Confidence => {
            let all = ClassificationConfidence::all();
            let mut i: usize = 0;
            while i < all.len()
                invariant
                    0 <= i <= all@.len(),
                    all@ == ClassificationConfidence::spec_all(),
                    app.filter_dimension == FilterDimension::Confidence,
                    r@.len() == i,
                    forall|j: int| 0 <= j < i ==> (#[trigger] r@[j])@ == spec_dimension_items(*app)[j],
                decreases all@.len() - i,
            {
                let checked = has_confidence(&app.confidence_filters, all[i]);
                r.push(checkbox_line(checked, all[i].name()));
                i += 1;
            }
        },
        FilterDimension::UpdateAvailable => {
            r.push(radio_line(app.update_filter == UpdateFilter::Any, " Any"));
            r.push(radio_line(app.update_filter == UpdateFilter::Available, " Available"));
            r.push(radio_line(app.update_filter == UpdateFilter::NotAvailable, " Not Available"));
        },
    }
    proof {
        assert(strs_view(r@) =~= spec_dimension_items(*app));
    }
    r
}

// ---------------------------------------------------------------------------
// Detail pane

/// `label` and the value on a line of its own, when there is a value.
pub open spec fn opt_line(label: Seq<char>, v: Option<Seq<char>>) -> Seq<char> {
    match v {
        Some(x) => label + x + "\n"@,
        None => Seq::empty(),
    }
}

/// One bulleted line per entry.
pub open spec fn bullets(s: Seq<Seq<char>>) -> Seq<char>
    decreases s.len(),
{
    if s.len() == 0 {
        Seq::empty()
    } else {
        bullets(s.drop_last()) + "  • "@ + s.last() + "\n"@
    }
}

/// A dependency list: its heading, the first five entries and how many more there are.
pub open spec fn dependency_block(heading: Seq<char>, deps: Seq<Seq<char>>) -> Seq<char> {
    if deps.len() == 0 {
        Seq::empty()
    } else {
        heading + bullets(deps.take(if deps.len() < 5 { deps.len() as int } else { 5 })) + if deps.len() > 5 {
            "  ... and "@ + decimal((deps.len() - 5) as nat) + " more\n"@
        } else {
            Seq::empty()
        }
    }
}

pub open spec fn identity_section(it: SoftwareItemView) -> Seq<char> {
    "Display Name: "@ + it.display_name + "\n"@ + "Package Name: "@ + it.package_name + "\n"@
        + "ID: "@ + it.id + "\n"@ + opt_line("Description: "@, it.description) + opt_line(
        "Version: "@,
        it.version,
    ) + "\n"@
}

pub open spec fn classification_section(it: SoftwareItemView) -> Seq<char> {
    "Category: "@ + it.category.spec_name() + "\n"@ + (if it.secondary_categories.len() > 0 {
        "Secondary Categories: "@ + category_list(it.secondary_categories) + "\n"@
    } else {
        Seq::empty()
    }) + "Classification Confidence: "@ + it.classification_confidence.spec_name() + "\n"@
        + "\n"@
}

pub open spec fn installation_section(it: SoftwareItemView) -> Seq<char> {
    "Package Manager: "@ + it.package_manager.spec_name() + "\n"@ + "Installation Scope: "@
        + it.scope.spec_name() + "\n"@ + "Installation Reason: "@
        + it.installation_reason.spec_name() + "\n"@ + opt_line(
        "Package Source: "@,
        it.package_source,
    ) + "\n"@
}

pub open spec fn dependencies_section(it: SoftwareItemView) -> Seq<char> {
    dependency_block("Dependencies:\n"@, it.dependencies) + dependency_block(
        "Required By:\n"@,
        it.reverse_dependencies,
    ) + "\n"@
}

pub open spec fn other_section(it: SoftwareItemView) -> Seq<char> {
    size_line(it.installed_size_bytes) + opt_line("Architecture: "@, it.architecture)
        + update_line(it.update_available, it.available_version) + opt_line(
        "Homepage: "@,
        it.homepage,
    ) + opt_line("License: "@, it.license)
}

/// The detail pane's text for an item.
pub open spec fn item_details(it: SoftwareItemView) -> Seq<char> {
    identity_section(it) + classification_section(it) + installation_section(it)
        + dependencies_section(it) + other_section(it)
}

fn push_opt_line(s: &mut String, label: &str, v: &Option<String>)
    ensures
        final(s)@ == old(s)@ + opt_line(label@, crate::text::opt_view(*v)),
{
    match v {
        Some(x) => {
            push_str(s, label);
            push_str(s, x.as_str());
            push_str(s, "\n");
            proof {
                assert(final(s)@ =~= old(s)@ + opt_line(label@, crate::text::opt_view(*v)));
            }
        },
        None => {
            proof {
                assert(s@ =~= old(s)@ + opt_line(label@, crate::text::opt_view(*v)));
            }
        },
    }
}

fn push_dependency_block(s: &mut String, heading: &str, deps: &Vec<String>)
    ensures
        final(s)@ == old(s)@ + dependency_block(heading@, strs_view(deps@)),
{
    let ghost start = s@;
    let ghost d = strs_view(deps@);
    if deps.len() == 0 {
        proof {
            assert(s@ =~= start + dependency_block(heading@, d));
        }
        return;
    }
    push_str(s, heading);
    let ghost mid = s@;
    let n = if deps.len() < 5 { deps.len() } else { 5 };
    let mut i: usize = 0;
    proof {
        assert(mid + bullets(d.take(0)) =~= mid);
    }
    while i < n
        invariant
            0 <= i <= n <= deps@.len(),
            n == (if deps@.len() < 5 { deps@.len() } else { 5 }),
            d == strs_view(deps@),
            s@ == mid + bullets(d.take(i as int)),
        decreases n - i,
    {
        proof {
            assert(d.take(i + 1).drop_last() =~= d.take(i as int));
            assert(d.take(i + 1).last() == deps@[i as int]@);
        }
        push_str(s, "  • ");
        push_str(s, deps[i].as_str());
        push_str(s, "\n");
        i += 1;
        proof {
            assert(s@ =~= mid + bullets(d.take(i as int)));
        }
    }
    let ghost after = s@;
    if deps.len() > 5 {
        push_str(s, "  ... and ");
        push_decimal(s, (deps.len() - 5) as u64);
        push_str(s, " more\n");
    }
    proof {
        assert(s@ =~= start + dependency_block(heading@, d));
    }
}

fn push_category_section(s: &mut String, item: &SoftwareItem)
    ensures
        final(s)@ == old(s)@ + classification_section(item@),
{
    let ghost start = s@;
    push_str(s, "Category: ");
    push_str(s, item.category.name());
    push_str(s, "\n");
    let ghost a = s@;
    if item.secondary_categories.len() > 0 {
        push_str(s, "Secondary Categories: ");
        push_category_list(s, &item.secondary_categories);
        push_str(s, "\n");
    }
    let ghost b = s@;
    push_str(s, "Classification Confidence: ");
    push_str(s, item.classification_confidence.name());
    push_str(s, "\n");
    push_str(s, "\n");
    proof {
        assert(s@ =~= start + classification_section(item@));
    }
}

pub open spec fn size_line(n: Option<u64>) -> Seq<char> {
    match n {
        Some(n) => "Installed Size: "@ + decimal(n as nat) + " bytes\n"@,
        None => Seq::empty(),
    }
}

pub open spec fn update_line(available: bool, version: Option<Seq<char>>) -> Seq<char> {
    if available {
        "⬆ Update Available"@ + (match version {
            Some(v) => " ("@ + v + ")"@,
            None => Seq::empty(),
        }) + "\n"@
    } else {
        Seq::empty()
    }
}

fn push_size_line(s: &mut String, n: Option<u64>)
    ensures
        final(s)@ == old(s)@ + size_line(n),
{
    match n {
        Some(n) => {
            push_str(s, "Installed Size: ");
            push_decimal(s, n);
            push_str(s, " bytes\n");
            proof {
                assert(final(s)@ =~= old(s)@ + size_line(Some(n)));
            }
        },
        None => {
            proof {
                assert(s@ =~= old(s)@ + size_line(None));
            }
        },
    }
}

fn push_update_line(s: &mut String, available: bool, version: &Option<String>)
    ensures
        final(s)@ == old(s)@ + update_line(available, crate::text::opt_view(*version)),
{
    let ghost start = s@;
    if available {
        push_str(s, "⬆ Update Available");
        match version {
            Some(v) => {
                push_str(s, " (");
                push_str(s, v.as_str());
                push_str(s, ")");
            },
            None => {},
        }
        push_str(s, "\n");
    }
    proof {
        assert(s@ =~= start + update_line(available, crate::text::opt_view(*version)));
    }
}

fn push_other_section(s: &mut String, item: &SoftwareItem)
    ensures
        final(s)@ == old(s)@ + other_section(item@),
{
    let ghost start = s@;
    push_size_line(s, item.installed_size_bytes);
    push_opt_line(s, "Architecture: ", &item.architecture);
    push_update_line(s, item.update_available, &item.available_version);
    push_opt_line(s, "Homepage: ", &item.homepage);
    push_opt_line(s, "License: ", &item.license);
    proof {
        assert(s@ =~= start + other_section(item@));
    }
}

fn push_identity_section(s: &mut String, item: &SoftwareItem)
    ensures
        final(s)@ == old(s)@ + identity_section(item@),
{
    let ghost start = s@;
    push_str(s, "Display Name: ");
    push_str(s, item.display_name.as_str());
    push_str(s, "\n");
    push_str(s, "Package Name: ");
    push_str(s, item.package_name.as_str());
    push_str(s, "\n");
    push_str(s, "ID: ");
    push_str(s, item.id.as_str());
    push_str(s, "\n");
    push_opt_line(s, "Description: ", &item.description);
    push_opt_line(s, "Version: ", &item.version);
    push_str(s, "\n");
    proof {
        assert(s@ =~= start + identity_section(item@));
    }
}

fn push_installation_section(s: &mut String, item: &SoftwareItem)
    ensures
        final(s)@ == old(s)@ + installation_section(item@),
{
    let ghost start = s@;
    push_str(s, "Package Manager: ");
    push_str(s, item.package_manager.name());
    push_str(s, "\n");
    push_str(s, "Installation Scope: ");
    push_str(s, item.scope.name());
    push_str(s, "\n");
    push_str(s, "Installation Reason: ");
    push_str(s, item.installation_reason.name());
    push_str(s, "\n");
    push_opt_line(s, "Package Source: ", &item.package_source);
    push_str(s, "\n");
    proof {
        assert(s@ =~= start + installation_section(item@));
    }
}

fn push_dependencies_section(s: &mut String, item: &SoftwareItem)
    ensures
        final(s)@ == old(s)@ + dependencies_section(item@),
{
    let ghost start = s@;
    push_dependency_block(s, "Dependencies:\n", &item.dependencies);
    push_dependency_block(s, "Required By:\n", &item.reverse_dependencies);
    push_str(s, "\n");
    proof {
        assert(s@ =~= start + dependencies_section(item@));
    }
}

/// The detail pane's text for `item`.
pub fn format_item_details(item: &SoftwareItem) -> (t: String)
    ensures
        t@ == item_details(item@),
{
    let mut t = String::new();
    push_identity_section(&mut t, item);
    push_category_section(&mut t, item);
    push_installation_section(&mut t, item);
    push_dependencies_section(&mut t, item);
    push_other_section(&mut t, item);
    proof {
        assert(t@ =~= item_details(item@));
    }
    t
}

// ---------------------------------------------------------------------------
// Status line, table and search box

/// Where the browser is: page, item count and selection, or that nothing is listed.
pub open spec fn page_info(app: App) -> Seq<char> {
    if app.spec_total_pages() > 0 {
        "Page "@ + decimal((app.current_page + 1) as nat) + "/"@ + decimal(
            app.spec_total_pages() as nat,
        ) + " | "@ + decimal(app.filtered_items@.len()) + " items | Selection: "@ + decimal(
            (app.selected_index + 1) as nat,
        ) + "/"@ + decimal(app.filtered_items@.len())
    } else {
        "No items to display"@
    }
}

/// The status line: the scan's keys while scanning, the filter keys while
/// the panel is open, else the scan message (or the page info) and the keys.
pub open spec fn spec_status_text(app: App) -> Seq<char> {
    if app.is_scanning {
        "Scanning inventory... Esc: Cancel | q: Quit"@
    } else if app.filter_panel_visible {
        "Filters: ◄► Dim | ▲▼ Val | Space: Toggle | c: Clear | Esc: Close"@
    } else {
        (match app.scan_message {
            Some(m) => m@,
            None => page_info(app),
        }) + " | Tab: Search | ↑↓: Nav | Enter: Detail | f: Filters | F5: Scan | q: Quit"@
    }
}

/// The status line's text.
pub fn status_text(app: &App) -> (t: String)
    requires
        app.page_size > 0,
        app.filtered_items@.len() + app.page_size - 1 <= usize::MAX,
        app.current_page < usize::MAX,
        app.selected_index < usize::MAX,
    ensures
        t@ == spec_status_text(*app),
{
    if app.is_scanning {
        return "Scanning inventory... Esc: Cancel | q: Quit".to_owned();
    }
    if app.filter_panel_visible {
        return "Filters: ◄► Dim | ▲▼ Val | Space: Toggle | c: Clear | Esc: Close".to_owned();
    }
    let mut t = String::new();
    match &app.scan_message {
        Some(m) => {
            push_str(&mut t, m.as_str());
        },
        None => {
            let total = app.total_pages();
            if total > 0 {
                push_str(&mut t, "Page ");
                push_decimal(&mut t, (app.current_page + 1) as u64);
                push_str(&mut t, "/");
                push_decimal(&mut t, total as u64);
                push_str(&mut t, " | ");
                push_decimal(&mut t, app.filtered_items.len() as u64);
                push_str(&mut t, " items | Selection: ");
                push_decimal(&mut t, (app.selected_index + 1) as u64);
                push_str(&mut t, "/");
                push_decimal(&mut t, app.filtered_items.len() as u64);
            } else {
                push_str(&mut t, "No items to display");
            }
        },
    }
    let ghost head = t@;
    push_str(&mut t, " | Tab: Search | ↑↓: Nav | Enter: Detail | f: Filters | F5: Scan | q: Quit");
    proof {
        assert(head =~= match app.scan_message {
            Some(m) => m@,
            None => page_info(*app),
        });
    }
    t
}

/// The cells of an item's table row: name, category, manager and version ("—" when unknown).
pub open spec fn spec_table_cells(it: SoftwareItemView) -> Seq<Seq<char>> {
    seq![
        it.display_name,
        it.category.spec_name(),
        it.package_manager.spec_name(),
        match it.version {
            Some(v) => v,
            None => "—"@,
        },
    ]
}

/// The cells of `item`'s table row.
pub fn table_cells(item: &SoftwareItem) -> (r: Vec<String>)
    ensures
        strs_view(r@) == spec_table_cells(item@),
{
    let mut r: Vec<String> = Vec::new();
    r.push(item.display_name.clone());
    r.push(item.category.name().to_owned());
    r.push(item.package_manager.name().to_owned());
    match &item.version {
        Some(v) => r.push(v.clone()),
        None => r.push("—".to_owned()),
    }
    proof {
        assert(strs_view(r@) =~= spec_table_cells(item@));
    }
    r
}

/// Whether row `idx` of the current page is the selected item.
pub fn is_selected_row(app: &App, idx: usize) -> (b: bool)
    requires
        app.current_page * app.page_size + idx <= usize::MAX,
    ensures
        b == (app.current_page * app.page_size + idx == app.selected_index),
{
    app.current_page * app.page_size + idx == app.selected_index
}

/// What the table shows when no row is visible.
pub fn empty_table_message(app: &App) -> (m: &'static str)
    ensures
        app.all_items@.len() == 0 ==> m@ == "No inventory available yet. Press F5 to scan."@,
        app.all_items@.len() > 0 ==> m@ == "No items match the current search or filters."@,
{
    if app.all_items.len() == 0 {
        "No inventory available yet. Press F5 to scan."
    } else {
        "No items match the current search or filters."
    }
}

/// What the search box shows: the query, or a hint while it is empty.
pub fn search_display(query: &str) -> (t: String)
    ensures
        query@.len() == 0 ==> t@ == "Type to search..."@,
        query@.len() > 0 ==> t@ == query@,
{
    if query.is_empty() {
        "Type to search...".to_owned()
    } else {
        query.to_owned()
    }
}

} // verus!
