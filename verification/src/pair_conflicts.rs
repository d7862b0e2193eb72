//! The conflicts between two enabled plugins, as the registry detects them
//! from what the plugins declare.
use vstd::prelude::*;
use vstd::string::StringExecFns;
use crate::bounds::{BoundSpec, effective_bounds, bounds_disjoint, caret_fits, get_effective_bounds_from_req, are_bounds_disjoint};
use crate::conflict::{
    ConflictManager, ConflictType, ConflictTypeView, PluginConflict, PluginConflictView, ResourceClaim,
    accesses_conflict, access_conflict, access_writes, access_exclusive, access_name, access_type_name, contains_text, conflict_views,
};
use crate::dependency::{PluginDependency, range_view, version_text_satisfies, range_accepts};
use crate::registry::PluginDescriptor;
use crate::semver_model::VersionRange;

verus! {

/// An unresolved conflict between two plugins.
pub open spec fn open_conflict(first: Seq<char>, second: Seq<char>, t: ConflictTypeView, d: Seq<char>) -> PluginConflictView {
    PluginConflictView {
        first_plugin: first,
        second_plugin: second,
        conflict_type: t,
        description: d,
        resolved: false,
        resolution: None,
    }
}

/// Whether either plugin declares that it conflicts with the other.
pub open spec fn declared_conflicting(a: PluginDescriptor, b: PluginDescriptor) -> bool {
    contains_text(a.conflicts_with@, b.name@) || contains_text(b.conflicts_with@, a.name@)
}

/// Whether an incompatibility rule applies to a plugin: it names the plugin
/// and, if it has a range, the plugin's version reads and lies in it.
pub open spec fn rule_applies(rule: PluginDependency, target: PluginDescriptor) -> bool {
    rule.plugin_name@ == target.name@ && version_text_satisfies(range_view(rule.version_range), target.version@)
}

/// The first of the first `n` rules that applies to a plugin.
pub open spec fn first_rule(rules: Seq<PluginDependency>, target: PluginDescriptor, n: int) -> Option<int>
    decreases n,
{
    if n <= 0 {
        None
    } else {
        match first_rule(rules, target, n - 1) {
            Some(k) => Some(k),
            None => if rule_applies(rules[n - 1], target) {
                Some(n - 1)
            } else {
                None
            },
        }
    }
}

/// How an incompatibility is described.
pub open spec fn incompatibility_text(owner: Seq<char>, other: Seq<char>, rule: PluginDependency, found: Seq<char>) -> Seq<char> {
    match rule.version_range {
        Some(r) => "Plugin '"@ + owner + "' is explicitly incompatible with '"@ + other + "' version '"@ + r@
            + "' (found version '"@ + found + "')."@,
        None => "Plugin '"@ + owner + "' is explicitly incompatible with any version of plugin '"@ + other + "'."@,
    }
}

/// The incompatibility conflict of a pair: from the first rule of `a` that
/// applies to `b`, or else from the first rule of `b` that applies to `a`.
pub open spec fn incompatibility_part(a: PluginDescriptor, b: PluginDescriptor) -> Seq<PluginConflictView> {
    match first_rule(a.incompatible_with@, b, a.incompatible_with@.len() as int) {
        Some(k) => seq![open_conflict(a.name@, b.name@, ConflictTypeView::ExplicitlyIncompatible,
            incompatibility_text(a.name@, b.name@, a.incompatible_with@[k], b.version@))],
        None => match first_rule(b.incompatible_with@, a, b.incompatible_with@.len() as int) {
            Some(k) => seq![open_conflict(a.name@, b.name@, ConflictTypeView::ExplicitlyIncompatible,
                incompatibility_text(b.name@, a.name@, b.incompatible_with@[k], a.version@))],
            None => Seq::<PluginConflictView>::empty(),
        },
    }
}

/// How a resource conflict is described.
pub open spec fn resource_text(x: ResourceClaim, a: Seq<char>, b: Seq<char>, y: ResourceClaim) -> Seq<char> {
    "Resource conflict on "@ + x.resource.kind@ + ":'"@ + x.resource.id@ + "'. Plugin '"@ + a + "' requests "@
        + access_name(x.access_type) + " access, while plugin '"@ + b + "' requests "@ + access_name(y.access_type)
        + " access."@
}

/// The conflict between two claims, if they are on the same resource with clashing access.
pub open spec fn resource_clash(a: PluginDescriptor, b: PluginDescriptor, x: ResourceClaim, y: ResourceClaim) -> Seq<PluginConflictView> {
    if x.resource.kind@ == y.resource.kind@ && x.resource.id@ == y.resource.id@ && accesses_conflict(x.access_type, y.access_type) {
        seq![open_conflict(a.name@, b.name@, ConflictTypeView::ResourceConflict {
            kind: x.resource.kind@,
            id: x.resource.id@,
            first_plugin_access: x.access_type,
            second_plugin_access: y.access_type,
        }, resource_text(x, a.name@, b.name@, y))]
    } else {
        Seq::<PluginConflictView>::empty()
    }
}

/// Law: two claims of a pair of plugins yield one unresolved resource
/// conflict, with their access types, exactly when they name the same
/// resource and their accesses conflict (one writes to it or asks for it
/// alone, or both provide it uniquely); otherwise none.
pub proof fn lemma_resource_clash_meaning(a: PluginDescriptor, b: PluginDescriptor, x: ResourceClaim, y: ResourceClaim)
    ensures
        ({
            let clash = x.resource.kind@ == y.resource.kind@ && x.resource.id@ == y.resource.id@ && (access_writes(x.access_type)
                || access_writes(y.access_type) || access_exclusive(x.access_type) || access_exclusive(y.access_type) || (
            x.access_type is ProvidesUniqueId && y.access_type is ProvidesUniqueId));
            &&& clash ==> resource_clash(a, b, x, y).len() == 1 && resource_clash(a, b, x, y)[0].first_plugin == a.name@
                && resource_clash(a, b, x, y)[0].second_plugin == b.name@ && !resource_clash(a, b, x, y)[0].resolved
                && resource_clash(a, b, x, y)[0].conflict_type == (ConflictTypeView::ResourceConflict {
                kind: x.resource.kind@,
                id: x.resource.id@,
                first_plugin_access: x.access_type,
                second_plugin_access: y.access_type,
            })
            &&& !clash ==> resource_clash(a, b, x, y).len() == 0
        }),
{
    crate::conflict::lemma_access_conflict_meaning(x.access_type, y.access_type);
}

/// The conflicts of one claim of `a` with the first `n` claims of `b`.
pub open spec fn resource_row(a: PluginDescriptor, b: PluginDescriptor, x: ResourceClaim, n: int) -> Seq<PluginConflictView>
    decreases n,
{
    if n <= 0 {
        Seq::<PluginConflictView>::empty()
    } else {
        resource_row(a, b, x, n - 1) + resource_clash(a, b, x, b.declared_resources@[n - 1])
    }
}

/// The resource conflicts of the first `m` claims of `a` with all claims of `b`.
pub open spec fn resource_part(a: PluginDescriptor, b: PluginDescriptor, m: int) -> Seq<PluginConflictView>
    decreases m,
{
    if m <= 0 {
        Seq::<PluginConflictView>::empty()
    } else {
        resource_part(a, b, m - 1) + resource_row(a, b, a.declared_resources@[m - 1], b.declared_resources@.len() as int)
    }
}

/// The effective bounds of a range.
pub open spec fn range_bounds(r: VersionRange) -> (BoundSpec, BoundSpec) {
    effective_bounds(r.spec_comparators())
}

/// How a dependency version conflict is described.
pub open spec fn dependency_text(a: Seq<char>, dep: Seq<char>, ra: Seq<char>, b: Seq<char>, rb: Seq<char>) -> Seq<char> {
    "Plugin '"@ + a + "' requires dependency '"@ + dep + "' version '"@ + ra + "', while plugin '"@ + b
        + "' requires version '"@ + rb + "', which are incompatible."@
}

/// Whether two dependencies name the same plugin, each with a range.
pub open spec fn common_ranged(x: PluginDependency, y: PluginDependency) -> bool {
    x.plugin_name@ == y.plugin_name@ && x.version_range is Some && y.version_range is Some
}

/// The conflict between two dependencies, if they name the same plugin with
/// ranges whose bounds are disjoint.
pub open spec fn dependency_clash(a: PluginDescriptor, b: PluginDescriptor, x: PluginDependency, y: PluginDependency) -> Seq<PluginConflictView> {
    if common_ranged(x, y) && bounds_disjoint(range_bounds(x.version_range->Some_0), range_bounds(y.version_range->Some_0)) {
        let ra = x.version_range->Some_0@;
        let rb = y.version_range->Some_0@;
        seq![open_conflict(a.name@, b.name@, ConflictTypeView::DependencyVersion {
            dependency_name: x.plugin_name@,
            required_by_first: ra,
            required_by_second: rb,
        }, dependency_text(a.name@, x.plugin_name@, ra, b.name@, rb))]
    } else {
        Seq::<PluginConflictView>::empty()
    }
}

/// The conflicts of one dependency of `a` with the first `n` dependencies of `b`.
pub open spec fn dependency_row(a: PluginDescriptor, b: PluginDescriptor, x: PluginDependency, n: int) -> Seq<PluginConflictView>
    decreases n,
{
    if n <= 0 {
        Seq::<PluginConflictView>::empty()
    } else {
        dependency_row(a, b, x, n - 1) + dependency_clash(a, b, x, b.dependencies@[n - 1])
    }
}

/// The dependency conflicts of the first `m` dependencies of `a` with all of `b`'s.
pub open spec fn dependency_part(a: PluginDescriptor, b: PluginDescriptor, m: int) -> Seq<PluginConflictView>
    decreases m,
{
    if m <= 0 {
        Seq::<PluginConflictView>::empty()
    } else {
        dependency_part(a, b, m - 1) + dependency_row(a, b, a.dependencies@[m - 1], b.dependencies@.len() as int)
    }
}

/// The conflicts detected between `a` and `b` (with `a` first in name
/// order): a declared conflict alone if either declares one; otherwise the
/// incompatibility, the resource conflicts and the dependency conflicts.
pub open spec fn pair_conflicts(a: PluginDescriptor, b: PluginDescriptor) -> Seq<PluginConflictView> {
    if declared_conflicting(a, b) {
        seq![open_conflict(a.name@, b.name@, ConflictTypeView::MutuallyExclusive, "Plugins are explicitly declared as conflicting."@)]
    } else {
        incompatibility_part(a, b) + resource_part(a, b, a.declared_resources@.len() as int) + dependency_part(
            a,
            b,
            a.dependencies@.len() as int,
        )
    }
}

/// Whether every comparator of a range has a caret upper end that fits.
pub open spec fn range_fits(r: VersionRange) -> bool {
    forall|k: int| 0 <= k < r.spec_comparators().len() ==> caret_fits(#[trigger] r.spec_comparators()[k])
}

/// Whether the bounds of every pair of common ranged dependencies that the
/// detection compares can be computed (caret upper ends do not overflow).
pub open spec fn pair_computable(a: PluginDescriptor, b: PluginDescriptor) -> bool {
    !declared_conflicting(a, b) ==> forall|k: int, l: int|
        0 <= k < a.dependencies@.len() && 0 <= l < b.dependencies@.len() && #[trigger] common_ranged(a.dependencies@[k], b.dependencies@[l])
        ==> range_fits(a.dependencies@[k].version_range->Some_0) && range_fits(b.dependencies@[l].version_range->Some_0)
}

/// Adds a conflict at the end.
fn record(cm: &mut ConflictManager, c: PluginConflict)
    ensures
        conflict_views(final(cm)@) == conflict_views(old(cm)@).push(c@),
{
    let ghost c0 = c;
    cm.add_conflict(c);
    assert(conflict_views(cm@) =~= conflict_views(old(cm)@).push(c0@));
}

/// Whether a list of names holds a name.
fn names_contain(names: &Vec<String>, name: &String) -> (r: bool)
    ensures
        r == contains_text(names@, name@),
{
    let mut k: usize = 0;
    while k < names.len()
        invariant
            k <= names@.len(),
            forall|j: int| 0 <= j < k ==> names@[j]@ != name@,
        decreases names.len() - k,
    {
        if names[k] == *name {
            return true;
        }
        k = k + 1;
    }
    false
}

/// The first rule that applies to a plugin.
fn find_rule(rules: &Vec<PluginDependency>, target: &PluginDescriptor) -> (r: Option<usize>)
    ensures
        match r {
            Some(k) => first_rule(rules@, *target, rules@.len() as int) == Some(k as int) && k < rules@.len(),
            None => first_rule(rules@, *target, rules@.len() as int) is None,
        },
{
    let mut k: usize = 0;
    while k < rules.len()
        invariant
            k <= rules@.len(),
            first_rule(rules@, *target, k as int) is None,
        decreases rules.len() - k,
    {
        if rules[k].plugin_name == target.name && range_accepts(&rules[k].version_range, target.version.as_str()) {
            assert(first_rule(rules@, *target, k + 1) == Some(k as int));
            let ghost n = rules@.len() as int;
            assert forall|m: int| k + 1 <= m <= n implies first_rule(rules@, *target, m) == Some(k as int) by {
                lemma_first_rule_stays(rules@, *target, k + 1, m);
            }
            return Some(k);
        }
        k = k + 1;
    }
    None
}

/// Lemma: once a rule applies, longer prefixes keep it as the first.
proof fn lemma_first_rule_stays(rules: Seq<PluginDependency>, target: PluginDescriptor, n: int, m: int)
    requires
        n <= m,
        first_rule(rules, target, n) is Some,
    ensures
        first_rule(rules, target, m) == first_rule(rules, target, n),
    decreases m - n,
{
    if n < m {
        lemma_first_rule_stays(rules, target, n, m - 1);
    }
}

/// The description of an incompatibility.
fn incompatibility_description(owner: &String, other: &String, rule: &PluginDependency, found: &String) -> (r: String)
    ensures
        r@ == incompatibility_text(owner@, other@, *rule, found@),
{
    let mut s = String::from_str("Plugin '");
    s.append(owner.as_str());
    match &rule.version_range {
        Some(range) => {
            s.append("' is explicitly incompatible with '");
            s.append(other.as_str());
            s.append("' version '");
            s.append(range.constraint_string());
            s.append("' (found version '");
            s.append(found.as_str());
            s.append("').");
        },
        None => {
            s.append("' is explicitly incompatible with any version of plugin '");
            s.append(other.as_str());
            s.append("'.");
        },
    }
    s
}

/// Records the incompatibility conflict of a pair, if any.
fn push_incompatibility(cm: &mut ConflictManager, a: &PluginDescriptor, b: &PluginDescriptor)
    ensures
        conflict_views(final(cm)@) == conflict_views(old(cm)@) + incompatibility_part(*a, *b),
{
    match find_rule(&a.incompatible_with, b) {
        Some(k) => {
            let d = incompatibility_description(&a.name, &b.name, &a.incompatible_with[k], &b.version);
            record(cm, PluginConflict::new(a.name.as_str(), b.name.as_str(), ConflictType::ExplicitlyIncompatible, d.as_str()));
        },
        None => match find_rule(&b.incompatible_with, a) {
            Some(k) => {
                let d = incompatibility_description(&b.name, &a.name, &b.incompatible_with[k], &a.version);
                record(cm, PluginConflict::new(a.name.as_str(), b.name.as_str(), ConflictType::ExplicitlyIncompatible, d.as_str()));
            },
            None => {
                assert(conflict_views(old(cm)@) + Seq::<PluginConflictView>::empty() =~= conflict_views(old(cm)@));
            },
        },
    }
}

/// The description of a resource conflict.
fn resource_description(x: &ResourceClaim, a: &String, b: &String, y: &ResourceClaim) -> (r: String)
    ensures
        r@ == resource_text(*x, a@, b@, *y),
{
    let mut s = String::from_str("Resource conflict on ");
    s.append(x.resource.kind.as_str());
    s.append(":'");
    s.append(x.resource.id.as_str());
    s.append("'. Plugin '");
    s.append(a.as_str());
    s.append("' requests ");
    s.append(access_type_name(x.access_type));
    s.append(" access, while plugin '");
    s.append(b.as_str());
    s.append("' requests ");
    s.append(access_type_name(y.access_type));
    s.append(" access.");
    s
}

/// Records the resource conflicts of a pair.
fn push_resource_conflicts(cm: &mut ConflictManager, a: &PluginDescriptor, b: &PluginDescriptor)
    ensures
        conflict_views(final(cm)@) == conflict_views(old(cm)@) + resource_part(*a, *b, a.declared_resources@.len() as int),
{
    let ghost start = conflict_views(cm@);
    let mut i: usize = 0;
    while i < a.declared_resources.len()
        invariant
            i <= a.declared_resources@.len(),
            conflict_views(cm@) == start + resource_part(*a, *b, i as int),
        decreases a.declared_resources.len() - i,
    {
        let x = &a.declared_resources[i];
        let ghost row_start = conflict_views(cm@);
        let mut j: usize = 0;
        while j < b.declared_resources.len()
            invariant
                i < a.declared_resources@.len(),
                *x == a.declared_resources@[i as int],
                j <= b.declared_resources@.len(),
                conflict_views(cm@) == row_start + resource_row(*a, *b, *x, j as int),
            decreases b.declared_resources.len() - j,
        {
            let y = &b.declared_resources[j];
            let ghost before = conflict_views(cm@);
            if x.resource.kind == y.resource.kind && x.resource.id == y.resource.id && access_conflict(x.access_type, y.access_type) {
                let d = resource_description(x, &a.name, &b.name, y);
                let t = ConflictType::ResourceConflict {
                    resource: x.resource.clone(),
                    first_plugin_access: x.access_type,
                    second_plugin_access: y.access_type,
                };
                record(cm, PluginConflict::new(a.name.as_str(), b.name.as_str(), t, d.as_str()));
            }
            proof {
                assert(conflict_views(cm@) =~= before + resource_clash(*a, *b, *x, b.declared_resources@[j as int]));
                assert(row_start + resource_row(*a, *b, *x, j + 1) =~= row_start + resource_row(*a, *b, *x, j as int)
                    + resource_clash(*a, *b, *x, b.declared_resources@[j as int]));
            }
            j = j + 1;
        }
        proof {
            assert(start + resource_part(*a, *b, i + 1) =~= start + resource_part(*a, *b, i as int) + resource_row(
                *a,
                *b,
                *x,
                b.declared_resources@.len() as int,
            ));
        }
        i = i + 1;
    }
}

/// The description of a dependency version conflict.
fn dependency_description(a: &String, dep: &String, ra: &VersionRange, b: &String, rb: &VersionRange) -> (r: String)
    ensures
        r@ == dependency_text(a@, dep@, ra@, b@, rb@),
{
    let mut s = String::from_str("Plugin '");
    s.append(a.as_str());
    s.append("' requires dependency '");
    s.append(dep.as_str());
    s.append("' version '");
    s.append(ra.constraint_string());
    s.append("', while plugin '");
    s.append(b.as_str());
    s.append("' requires version '");
    s.append(rb.constraint_string());
    s.append("', which are incompatible.");
    s
}

/// Whether the bounds of two ranges are disjoint.
fn ranges_disjoint(ra: &VersionRange, rb: &VersionRange) -> (r: bool)
    requires
        range_fits(*ra),
        range_fits(*rb),
    ensures
        r == bounds_disjoint(range_bounds(*ra), range_bounds(*rb)),
{
    let ca = ra.comparators();
    let cb = rb.comparators();
    assert forall|k: int| 0 <= k < ca@.len() implies caret_fits(#[trigger] ca@[k]@) by {
        assert(ca@.map_values(|c: crate::semver_model::Comparator| c@)[k] == ca@[k]@);
    }
    assert forall|k: int| 0 <= k < cb@.len() implies caret_fits(#[trigger] cb@[k]@) by {
        assert(cb@.map_values(|c: crate::semver_model::Comparator| c@)[k] == cb@[k]@);
    }
    let ba = get_effective_bounds_from_req(ca);
    let bb = get_effective_bounds_from_req(cb);
    are_bounds_disjoint(&ba, &bb)
}

/// Records the dependency version conflicts of a pair.
fn push_dependency_conflicts(cm: &mut ConflictManager, a: &PluginDescriptor, b: &PluginDescriptor)
    requires
        forall|k: int, l: int|
            0 <= k < a.dependencies@.len() && 0 <= l < b.dependencies@.len() && #[trigger] common_ranged(a.dependencies@[k], b.dependencies@[l])
            ==> range_fits(a.dependencies@[k].version_range->Some_0) && range_fits(b.dependencies@[l].version_range->Some_0),
    ensures
        conflict_views(final(cm)@) == conflict_views(old(cm)@) + dependency_part(*a, *b, a.dependencies@.len() as int),
{
    let ghost start = conflict_views(cm@);
    let mut i: usize = 0;
    while i < a.dependencies.len()
        invariant
            i <= a.dependencies@.len(),
            conflict_views(cm@) == start + dependency_part(*a, *b, i as int),
            forall|k: int, l: int|
                0 <= k < a.dependencies@.len() && 0 <= l < b.dependencies@.len() && #[trigger] common_ranged(a.dependencies@[k], b.dependencies@[l])
                ==> range_fits(a.dependencies@[k].version_range->Some_0) && range_fits(b.dependencies@[l].version_range->Some_0),
        decreases a.dependencies.len() - i,
    {
        let x = &a.dependencies[i];
        let ghost row_start = conflict_views(cm@);
        let mut j: usize = 0;
        while j < b.dependencies.len()
            invariant
                i < a.dependencies@.len(),
                *x == a.dependencies@[i as int],
                j <= b.dependencies@.len(),
                conflict_views(cm@) == row_start + dependency_row(*a, *b, *x, j as int),
                forall|k: int, l: int|
                    0 <= k < a.dependencies@.len() && 0 <= l < b.dependencies@.len() && #[trigger] common_ranged(a.dependencies@[k], b.dependencies@[l])
                    ==> range_fits(a.dependencies@[k].version_range->Some_0) && range_fits(b.dependencies@[l].version_range->Some_0),
            decreases b.dependencies.len() - j,
        {
            let y = &b.dependencies[j];
            let ghost before = conflict_views(cm@);
            if let Some(ra) = &x.version_range {
                if x.plugin_name == y.plugin_name {
                    if let Some(rb) = &y.version_range {
                        proof {
                            assert(common_ranged(a.dependencies@[i as int], b.dependencies@[j as int]));
                        }
                        if ranges_disjoint(ra, rb) {
                            let d = dependency_description(&a.name, &x.plugin_name, ra, &b.name, rb);
                            let t = ConflictType::DependencyVersion {
                                dependency_name: x.plugin_name.clone(),
                                required_by_first: String::from_str(ra.constraint_string()),
                                required_by_second: String::from_str(rb.constraint_string()),
                            };
                            record(cm, PluginConflict::new(a.name.as_str(), b.name.as_str(), t, d.as_str()));
                        }
                    }
                }
            }
            proof {
                assert(conflict_views(cm@) =~= before + dependency_clash(*a, *b, *x, b.dependencies@[j as int]));
                assert(row_start + dependency_row(*a, *b, *x, j + 1) =~= row_start + dependency_row(*a, *b, *x, j as int)
                    + dependency_clash(*a, *b, *x, b.dependencies@[j as int]));
            }
            j = j + 1;
        }
        proof {
            assert(start + dependency_part(*a, *b, i + 1) =~= start + dependency_part(*a, *b, i as int) + dependency_row(
                *a,
                *b,
                *x,
                b.dependencies@.len() as int,
            ));
        }
        i = i + 1;
    }
}

/// Whether every comparator of a range has a caret upper end that fits.
fn range_fits_check(r: &VersionRange) -> (b: bool)
    ensures
        b == range_fits(*r),
{
    let cs = r.comparators();
    let mut k: usize = 0;
    while k < cs.len()
        invariant
            k <= cs@.len(),
            cs@.map_values(|c: crate::semver_model::Comparator| c@) == r.spec_comparators(),
            forall|j: int| 0 <= j < k ==> caret_fits(#[trigger] r.spec_comparators()[j]),
        decreases cs.len() - k,
    {
        let c = &cs[k];
        assert(cs@.map_values(|c: crate::semver_model::Comparator| c@)[k as int] == c@);
        if c.op() == crate::semver_model::ComparatorOp::Caret {
            let m = c.major();
            let n = match c.minor() { Some(x) => x, None => 0 };
            let p = match c.patch() { Some(x) => x, None => 0 };
            let fits = if m > 0 {
                m < u64::MAX
            } else if n > 0 {
                n < u64::MAX
            } else {
                p < u64::MAX
            };
            if !fits {
                return false;
            }
        }
        k = k + 1;
    }
    true
}

/// Whether the bounds that detecting the conflicts of a pair compares can be
/// computed.
pub fn pair_bounds_fit(a: &PluginDescriptor, b: &PluginDescriptor) -> (r: bool)
    ensures
        r == pair_computable(*a, *b),
{
    if names_contain(&a.conflicts_with, &b.name) || names_contain(&b.conflicts_with, &a.name) {
        return true;
    }
    let mut i: usize = 0;
    while i < a.dependencies.len()
        invariant
            i <= a.dependencies@.len(),
            !declared_conflicting(*a, *b),
            forall|k: int, l: int|
                0 <= k < i && 0 <= l < b.dependencies@.len() && #[trigger] common_ranged(a.dependencies@[k], b.dependencies@[l])
                ==> range_fits(a.dependencies@[k].version_range->Some_0) && range_fits(b.dependencies@[l].version_range->Some_0),
        decreases a.dependencies.len() - i,
    {
        let mut j: usize = 0;
        while j < b.dependencies.len()
            invariant
                i < a.dependencies@.len(),
                j <= b.dependencies@.len(),
                !declared_conflicting(*a, *b),
                forall|k: int, l: int|
                    0 <= k < i && 0 <= l < b.dependencies@.len() && #[trigger] common_ranged(a.dependencies@[k], b.dependencies@[l])
                    ==> range_fits(a.dependencies@[k].version_range->Some_0) && range_fits(b.dependencies@[l].version_range->Some_0),
                forall|l: int|
                    0 <= l < j && #[trigger] common_ranged(a.dependencies@[i as int], b.dependencies@[l])
                    ==> range_fits(a.dependencies@[i as int].version_range->Some_0) && range_fits(b.dependencies@[l].version_range->Some_0),
            decreases b.dependencies.len() - j,
        {
            let x = &a.dependencies[i];
            let y = &b.dependencies[j];
            if let Some(ra) = &x.version_range {
                if let Some(rb) = &y.version_range {
                    if x.plugin_name == y.plugin_name {
                        let fa = range_fits_check(ra);
                        let fb = range_fits_check(rb);
                        if !fa || !fb {
                            assert(*ra == a.dependencies@[i as int].version_range->Some_0);
                            assert(*rb == b.dependencies@[j as int].version_range->Some_0);
                            assert(common_ranged(a.dependencies@[i as int], b.dependencies@[j as int]));
                            assert(!declared_conflicting(*a, *b));
                            assert(!pair_computable(*a, *b));
                            return false;
                        }
                    }
                }
            }
            j = j + 1;
        }
        i = i + 1;
    }
    true
}

/// Records the conflicts between `a` and `b` (with `a` first in name order).
pub(crate) fn push_pair_conflicts(cm: &mut ConflictManager, a: &PluginDescriptor, b: &PluginDescriptor)
    requires
        pair_computable(*a, *b),
    ensures
        conflict_views(final(cm)@) == conflict_views(old(cm)@) + pair_conflicts(*a, *b),
{
    if names_contain(&a.conflicts_with, &b.name) || names_contain(&b.conflicts_with, &a.name) {
        let c = PluginConflict::new(
            a.name.as_str(),
            b.name.as_str(),
            ConflictType::MutuallyExclusive,
            "Plugins are explicitly declared as conflicting.",
        );
        proof {
            reveal_strlit("Plugins are explicitly declared as conflicting.");
        }
        record(cm, c);
        return;
    }
    let ghost start = conflict_views(cm@);
    push_incompatibility(cm, a, b);
    push_resource_conflicts(cm, a, b);
    push_dependency_conflicts(cm, a, b);
    assert(conflict_views(cm@) =~= start + pair_conflicts(*a, *b));
}

/// Whether every conflict of a list is an open one between `first` and
/// `second`, of another kind than mutual exclusion.
pub open spec fn open_between(s: Seq<PluginConflictView>, first: Seq<char>, second: Seq<char>) -> bool {
    forall|k: int| 0 <= k < s.len() ==> (#[trigger] s[k]).first_plugin == first && s[k].second_plugin == second
        && !s[k].resolved && s[k].resolution is None && !(s[k].conflict_type is MutuallyExclusive)
}

proof fn lemma_open_between_add(s: Seq<PluginConflictView>, t: Seq<PluginConflictView>, first: Seq<char>, second: Seq<char>)
    requires
        open_between(s, first, second),
        open_between(t, first, second),
    ensures
        open_between(s + t, first, second),
{
    assert forall|k: int| 0 <= k < (s + t).len() implies (#[trigger] (s + t)[k]).first_plugin == first && (s
        + t)[k].second_plugin == second && !(s + t)[k].resolved && (s + t)[k].resolution is None && !((s
        + t)[k].conflict_type is MutuallyExclusive) by {
        if k < s.len() {
            assert((s + t)[k] == s[k]);
        } else {
            assert((s + t)[k] == t[k - s.len()]);
        }
    }
}

proof fn lemma_resource_row_open(a: PluginDescriptor, b: PluginDescriptor, x: ResourceClaim, n: int)
    ensures
        open_between(resource_row(a, b, x, n), a.name@, b.name@),
    decreases n,
{
    if n > 0 {
        lemma_resource_row_open(a, b, x, n - 1);
        lemma_open_between_add(resource_row(a, b, x, n - 1), resource_clash(a, b, x, b.declared_resources@[n - 1]), a.name@, b.name@);
    }
}

proof fn lemma_resource_part_open(a: PluginDescriptor, b: PluginDescriptor, m: int)
    ensures
        open_between(resource_part(a, b, m), a.name@, b.name@),
    decreases m,
{
    if m > 0 {
        lemma_resource_part_open(a, b, m - 1);
        let x = a.declared_resources@[m - 1];
        lemma_resource_row_open(a, b, x, b.declared_resources@.len() as int);
        lemma_open_between_add(resource_part(a, b, m - 1), resource_row(a, b, x, b.declared_resources@.len() as int), a.name@, b.name@);
    }
}

proof fn lemma_dependency_row_open(a: PluginDescriptor, b: PluginDescriptor, x: PluginDependency, n: int)
    ensures
        open_between(dependency_row(a, b, x, n), a.name@, b.name@),
    decreases n,
{
    if n > 0 {
        lemma_dependency_row_open(a, b, x, n - 1);
        lemma_open_between_add(dependency_row(a, b, x, n - 1), dependency_clash(a, b, x, b.dependencies@[n - 1]), a.name@, b.name@);
    }
}

proof fn lemma_dependency_part_open(a: PluginDescriptor, b: PluginDescriptor, m: int)
    ensures
        open_between(dependency_part(a, b, m), a.name@, b.name@),
    decreases m,
{
    if m > 0 {
        lemma_dependency_part_open(a, b, m - 1);
        let x = a.dependencies@[m - 1];
        lemma_dependency_row_open(a, b, x, b.dependencies@.len() as int);
        lemma_open_between_add(dependency_part(a, b, m - 1), dependency_row(a, b, x, b.dependencies@.len() as int), a.name@, b.name@);
    }
}

/// Law: the conflicts detected between two plugins are open conflicts
/// between them, the first plugin first; a declared conflict is reported
/// alone, as mutual exclusion, and no other conflict is one of mutual
/// exclusion.
pub proof fn lemma_pair_conflicts_shape(a: PluginDescriptor, b: PluginDescriptor)
    ensures
        forall|k: int| 0 <= k < pair_conflicts(a, b).len() ==> (#[trigger] pair_conflicts(a, b)[k]).first_plugin == a.name@
            && pair_conflicts(a, b)[k].second_plugin == b.name@ && !pair_conflicts(a, b)[k].resolved
            && pair_conflicts(a, b)[k].resolution is None,
        declared_conflicting(a, b) ==> pair_conflicts(a, b).len() == 1 && pair_conflicts(a, b)[0].conflict_type is MutuallyExclusive,
        !declared_conflicting(a, b) ==> forall|k: int| 0 <= k < pair_conflicts(a, b).len() ==> !((#[trigger] pair_conflicts(
            a,
            b,
        )[k]).conflict_type is MutuallyExclusive),
{
    if !declared_conflicting(a, b) {
        let i = incompatibility_part(a, b);
        let r = resource_part(a, b, a.declared_resources@.len() as int);
        let d = dependency_part(a, b, a.dependencies@.len() as int);
        assert(open_between(i, a.name@, b.name@));
        lemma_resource_part_open(a, b, a.declared_resources@.len() as int);
        lemma_dependency_part_open(a, b, a.dependencies@.len() as int);
        lemma_open_between_add(i, r, a.name@, b.name@);
        lemma_open_between_add(i + r, d, a.name@, b.name@);
        assert(pair_conflicts(a, b) == i + r + d);
    }
}

} // verus!
