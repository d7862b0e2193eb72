//! The decisions of loading plugins from their manifests: the manifests
//! known, whether their required dependencies are met, and the order in
//! which compatible plugins are loaded.
use vstd::prelude::*;
use vstd::string::StringExecFns;
use crate::dependency::{DependencyError, DependencyErrorView};
use crate::manifest::{PluginManifest, ResourceClaim as ManifestResourceClaim, default_entry_point};
use crate::semver_model::{VersionRange, semver_req_parse};
use crate::dependency::{PluginDependency, range_view};
use crate::ordering::{
    greedy, greedy_order, ready, respects, unplaced, chosen, square, strict_total, count_set,
    lemma_count_set_update, lemma_count_set_bound, lemma_unplaced, index_tie_break, index_matrix,
    lemma_index_tie_break_total, lemma_greedy_respects,
};
use crate::semver_model::{parse_sem_version, semver_version_parse, semver_req_matches, SemVersionView};
use crate::priority::{PluginPriority, priority_from_text, lemma_priority_order_total};
use crate::error::PluginSystemError;
use crate::version::{ApiVersion, VersionError, VersionErrorView, api_version_text};

verus! {

/// Whether manifest `a` requires the plugin that manifest `b` describes.
pub open spec fn requires_manifest(a: PluginManifest, b: PluginManifest) -> bool {
    exists|k: int| 0 <= k < a.dependencies@.len() && (#[trigger] a.dependencies@[k]).required
        && a.dependencies@[k].plugin_name@ == b.id@
}

/// For loading, manifest `x` must follow manifest `y` when it requires it.
pub open spec fn load_constraints(ms: Seq<PluginManifest>) -> Seq<Seq<bool>> {
    Seq::new(ms.len(), |x: int| Seq::new(ms.len(), |y: int| requires_manifest(ms[x], ms[y])))
}

/// Whether `c` is a cycle of the constraints: each item must follow the
/// next, and the last must follow the first.
pub open spec fn is_cycle(prec: Seq<Seq<bool>>, c: Seq<int>) -> bool {
    &&& c.len() > 0
    &&& forall|k: int| 0 <= k < c.len() ==> 0 <= #[trigger] c[k] < prec.len()
    &&& forall|k: int| 0 <= k < c.len() - 1 ==> #[trigger] prec[c[k]][c[k + 1]]
    &&& prec[c[c.len() - 1]][c[0]]
}

/// Whether the manifests have pairwise distinct identifiers.
pub open spec fn ids_distinct(ms: Seq<PluginManifest>) -> bool {
    forall|i: int, j: int| 0 <= i < ms.len() && 0 <= j < ms.len() && i != j ==> #[trigger] ms[i].id@ != #[trigger] ms[j].id@
}

/// Whether a manifest with this identifier is known.
pub open spec fn has_manifest(ms: Seq<PluginManifest>, id: Seq<char>) -> bool {
    exists|i: int| 0 <= i < ms.len() && #[trigger] ms[i].id@ == id
}

/// The position of the manifest with this identifier (meaningful when there is one).
pub open spec fn manifest_position(ms: Seq<PluginManifest>, id: Seq<char>) -> int {
    choose|i: int| 0 <= i < ms.len() && #[trigger] ms[i].id@ == id
}

/// The manifests after caching one: it replaces the manifest with the same
/// identifier in place, or is added at the end.
pub open spec fn cached(ms: Seq<PluginManifest>, m: PluginManifest) -> Seq<PluginManifest> {
    if has_manifest(ms, m.id@) {
        ms.update(manifest_position(ms, m.id@), m)
    } else {
        ms.push(m)
    }
}

/// Law: a cached manifest is the one found under its identifier afterwards,
/// the manifests of other identifiers are found as before, and identifiers
/// stay distinct.
pub proof fn lemma_cache_then_get(ms: Seq<PluginManifest>, m: PluginManifest, other: Seq<char>)
    requires
        ids_distinct(ms),
    ensures
        ids_distinct(cached(ms, m)),
        has_manifest(cached(ms, m), m.id@),
        cached(ms, m)[manifest_position(cached(ms, m), m.id@)] == m,
        other != m.id@ ==> (has_manifest(cached(ms, m), other) <==> has_manifest(ms, other)),
        other != m.id@ && has_manifest(ms, other) ==> cached(ms, m)[manifest_position(cached(ms, m), other)]
            == ms[manifest_position(ms, other)],
{
    let c = cached(ms, m);
    if has_manifest(ms, m.id@) {
        let p = manifest_position(ms, m.id@);
        assert(c[p].id@ == m.id@);
        assert forall|i: int, j: int| 0 <= i < c.len() && 0 <= j < c.len() && i != j implies #[trigger] c[i].id@
            != #[trigger] c[j].id@ by {
            if i == p {
                assert(ms[i].id@ == m.id@);
            } else if j == p {
                assert(ms[j].id@ == m.id@);
            }
        }
    } else {
        assert(c[ms.len() as int].id@ == m.id@);
        assert forall|i: int, j: int| 0 <= i < c.len() && 0 <= j < c.len() && i != j implies #[trigger] c[i].id@
            != #[trigger] c[j].id@ by {
            if i < ms.len() && j < ms.len() {
                assert(c[i] == ms[i] && c[j] == ms[j]);
            } else if i < ms.len() {
                assert(c[i] == ms[i]);
            } else {
                assert(c[j] == ms[j]);
            }
        }
    }
    let q = manifest_position(c, m.id@);
    assert(c[q].id@ == m.id@);
    if other != m.id@ {
        if has_manifest(ms, other) {
            let k = manifest_position(ms, other);
            assert(c[k] == ms[k]);
            assert(c[k].id@ == other);
            let k2 = manifest_position(c, other);
            assert(k2 == k);
        }
        if has_manifest(c, other) {
            let k = manifest_position(c, other);
            assert(c[k].id@ == other);
            if k < ms.len() {
                assert(ms[k] == c[k]);
            }
        }
    }
}

/// The priority a manifest is loaded with: the one its priority text reads
/// as, or the lowest (`third_party_low:255`) when it has none or it does not read.
pub open spec fn load_priority(m: PluginManifest) -> PluginPriority {
    match m.priority {
        Some(t) => match priority_from_text(t@) {
            Some(p) => p,
            None => PluginPriority::ThirdPartyLow(255),
        },
        None => PluginPriority::ThirdPartyLow(255),
    }
}

/// No item must follow another.
pub open spec fn no_constraints(n: int) -> Seq<Seq<bool>> {
    Seq::new(n as nat, |x: int| Seq::new(n as nat, |y: int| false))
}

/// The tie-break of a stable sort by load priority of the manifests at
/// positions `t`: higher priority first, then the earlier in `t`.
pub open spec fn priority_tie_break(ms: Seq<PluginManifest>, t: Seq<int>) -> Seq<Seq<bool>> {
    Seq::new(t.len(), |x: int| Seq::new(t.len(), |y: int|
        load_priority(ms[t[x]]).order(load_priority(ms[t[y]])) < 0
            || (load_priority(ms[t[x]]).order(load_priority(ms[t[y]])) == 0 && x < y)))
}

/// Whether a manifest accepts an API version: one of its ranges matches it.
pub open spec fn manifest_compatible(m: PluginManifest, v: SemVersionView) -> bool {
    exists|k: int| 0 <= k < m.api_versions@.len() && semver_req_matches(#[trigger] m.api_versions@[k]@, v)
}

/// The manifests at positions `idx`, keeping those that accept an API version, in order.
pub open spec fn compatible_in_order(ms: Seq<PluginManifest>, idx: Seq<int>, v: SemVersionView) -> Seq<PluginManifest>
    decreases idx.len(),
{
    if idx.len() == 0 {
        Seq::<PluginManifest>::empty()
    } else {
        let init = compatible_in_order(ms, idx.drop_last(), v);
        if manifest_compatible(ms[idx.last()], v) {
            init.push(ms[idx.last()])
        } else {
            init
        }
    }
}

/// Law: a manifest accepts an API version as soon as any one of its ranges
/// matches it, wherever that range stands in its list, and only then; the
/// order and the other ranges make no difference.
pub proof fn lemma_manifest_compatible_meaning(m: PluginManifest, v: SemVersionView, k: int)
    ensures
        0 <= k < m.api_versions@.len() && semver_req_matches(m.api_versions@[k]@, v) ==> manifest_compatible(m, v),
        (forall|j: int| 0 <= j < m.api_versions@.len() ==> !semver_req_matches(#[trigger] m.api_versions@[j]@, v)) ==> !manifest_compatible(m, v),
        m.api_versions@.len() == 0 ==> !manifest_compatible(m, v),
{
}

/// Law: the manifests planned for registration (see `plan_registration`)
/// keep, in order, exactly those that accept the API version: a manifest
/// with a matching range at any position is kept, one with none is left out.
pub proof fn lemma_compatible_in_order_keeps(ms: Seq<PluginManifest>, idx: Seq<int>, v: SemVersionView)
    ensures
        compatible_in_order(ms, idx, v).len() <= idx.len(),
        forall|j: int| 0 <= j < compatible_in_order(ms, idx, v).len() ==> manifest_compatible(#[trigger] compatible_in_order(ms, idx, v)[j], v),
        forall|x: int| 0 <= x < idx.len() && #[trigger] manifest_compatible(ms[idx[x]], v) ==> compatible_in_order(ms, idx, v).contains(ms[idx[x]]),
    decreases idx.len(),
{
    if idx.len() > 0 {
        let init = idx.drop_last();
        lemma_compatible_in_order_keeps(ms, init, v);
        let p = compatible_in_order(ms, init, v);
        let r = compatible_in_order(ms, idx, v);
        assert forall|j: int| 0 <= j < r.len() implies manifest_compatible(#[trigger] r[j], v) by {
            if j < p.len() {
                assert(r[j] == p[j]);
            }
        }
        assert forall|x: int| 0 <= x < idx.len() && #[trigger] manifest_compatible(ms[idx[x]], v) implies r.contains(ms[idx[x]]) by {
            if x < init.len() {
                assert(init[x] == idx[x]);
                assert(p.contains(ms[init[x]]));
                let j = choose|j: int| 0 <= j < p.len() && p[j] == ms[init[x]];
                assert(r[j] == p[j]);
            } else {
                assert(r[p.len() as int] == ms[idx.last()]);
            }
        }
    }
}

/// Whether an order holds each of the items `0 .. n`.
pub open spec fn complete(o: Seq<int>, n: int) -> bool {
    o.len() == n && forall|x: int| 0 <= x < n ==> #[trigger] o.contains(x)
}

/// Lemma: the priority tie-break is a strict total order.
proof fn lemma_priority_tie_break_total(ms: Seq<PluginManifest>, t: Seq<int>)
    ensures
        strict_total(priority_tie_break(ms, t)),
        square(priority_tie_break(ms, t), t.len() as int),
{
    let f = priority_tie_break(ms, t);
    assert forall|x: int, y: int| 0 <= x < f.len() && 0 <= y < f.len() && x != y implies #[trigger] f[x][y] != f[y][x] by {
        lemma_priority_order_total(load_priority(ms[t[x]]), load_priority(ms[t[y]]), load_priority(ms[t[y]]));
    }
    assert forall|x: int, y: int, z: int|
        0 <= x < f.len() && 0 <= y < f.len() && 0 <= z < f.len() && #[trigger] f[x][y] && #[trigger] f[y][z] implies f[x][z] by {
        lemma_priority_order_total(load_priority(ms[t[x]]), load_priority(ms[t[y]]), load_priority(ms[t[z]]));
    }
}

/// A problem with a required dependency, once no cycle is found.
pub enum LoadIssue {
    /// No manifest describes the required plugin.
    Missing(Seq<char>),
    /// The required plugin's version text cannot be read.
    Unreadable { dependency: Seq<char>, error: Seq<char> },
    /// The required plugin's version is outside the required range.
    Mismatch { dependency: Seq<char>, range: Seq<char>, actual: Seq<char> },
}

/// The problem, if any, with one dependency of a manifest: only required
/// dependencies count; each must be described by a manifest whose version
/// reads and lies in the range, if there is one.
pub open spec fn load_issue(ms: Seq<PluginManifest>, d: crate::dependency::PluginDependency) -> Option<LoadIssue> {
    let name = d.plugin_name@;
    if !d.required {
        None
    } else if !has_manifest(ms, name) {
        Some(LoadIssue::Missing(name))
    } else if d.version_range is Some {
        let actual = ms[manifest_position(ms, name)].version@;
        let range = d.version_range->Some_0@;
        match semver_version_parse(actual) {
            Ok(v) => if semver_req_matches(range, v) {
                None
            } else {
                Some(LoadIssue::Mismatch { dependency: name, range, actual })
            },
            Err(e) => Some(LoadIssue::Unreadable { dependency: name, error: e }),
        }
    } else {
        None
    }
}

/// Whether a dependency error reports a problem.
pub open spec fn load_issue_error(e: DependencyError, x: LoadIssue) -> bool {
    match x {
        LoadIssue::Missing(n) => e@ == DependencyErrorView::MissingPlugin(n),
        LoadIssue::Unreadable { dependency, error } => e@ == DependencyErrorView::Other(
            "Failed to parse version for dependency "@ + dependency + ": "@ + error,
        ),
        LoadIssue::Mismatch { dependency, range, actual } => e@ == (DependencyErrorView::IncompatibleVersion {
            plugin_name: dependency,
            required_range: range,
            actual_version: actual,
        }),
    }
}

/// The problem with dependency `k` of manifest `i`.
pub open spec fn load_issue_at(ms: Seq<PluginManifest>, i: int, k: int) -> Option<LoadIssue> {
    load_issue(ms, ms[i].dependencies@[k])
}

/// Whether no problem comes before dependency `k` of manifest `i`.
pub open spec fn first_load_issue(ms: Seq<PluginManifest>, i: int, k: int) -> bool {
    (forall|a: int, b: int| #![trigger load_issue_at(ms, a, b)]
        0 <= a < i && 0 <= b < ms[a].dependencies@.len() ==> load_issue_at(ms, a, b) is None)
    && (forall|b: int| #![trigger load_issue_at(ms, i, b)] 0 <= b < k ==> load_issue_at(ms, i, b) is None)
}

/// Whether `ids` are the identifiers of the manifests at positions `c`.
pub open spec fn ids_at(ms: Seq<PluginManifest>, c: Seq<int>, ids: Seq<String>) -> bool {
    ids.len() == c.len() && forall|k: int| 0 <= k < ids.len() ==> #[trigger] ids[k]@ == ms[c[k]].id@
}

/// What resolving the dependencies of a set of manifests answers: a cycle
/// of required dependencies if there is one; otherwise the first problem
/// with a required dependency; otherwise success.
pub open spec fn resolution_outcome(ms: Seq<PluginManifest>, r: Result<(), DependencyError>) -> bool {
    let prec = load_constraints(ms);
    match r {
        Err(DependencyError::CyclicDependency(ids)) => exists|c: Seq<int>| #[trigger] is_cycle(prec, c) && ids_at(ms, c, ids@),
        Err(e) => (exists|o: Seq<int>| #[trigger] respects(prec, o))
            && exists|i: int, k: int| 0 <= i < ms.len() && 0 <= k < ms[i].dependencies@.len()
            && #[trigger] load_issue_at(ms, i, k) is Some && load_issue_error(e, load_issue_at(ms, i, k)->Some_0)
            && first_load_issue(ms, i, k),
        Ok(_) => (exists|o: Seq<int>| #[trigger] respects(prec, o)) && forall|i: int, k: int| #![trigger load_issue_at(ms, i, k)]
            0 <= i < ms.len() && 0 <= k < ms[i].dependencies@.len() ==> load_issue_at(ms, i, k) is None,
    }
}

/// The first position of a value in a list (meaningful when it occurs).
pub open spec fn first_index(o: Seq<int>, v: int) -> int {
    choose|j: int| 0 <= j < o.len() && o[j] == v && forall|i: int| 0 <= i < j ==> #[trigger] o[i] != v
}

/// Lemma: a value that occurs has a first position.
proof fn lemma_first_index(o: Seq<int>, v: int, j: int)
    requires
        0 <= j < o.len(),
        o[j] == v,
    ensures
        0 <= first_index(o, v) <= j,
        o[first_index(o, v)] == v,
        forall|i: int| 0 <= i < first_index(o, v) ==> #[trigger] o[i] != v,
    decreases j,
{
    if exists|i: int| 0 <= i < j && #[trigger] o[i] == v {
        let i = choose|i: int| 0 <= i < j && #[trigger] o[i] == v;
        lemma_first_index(o, v, i);
    } else {
        assert(exists|m: int| 0 <= m < o.len() && o[m] == v && forall|i: int| 0 <= i < m ==> #[trigger] o[i] != v);
        let m = first_index(o, v);
        if m > j {
            assert(o[j] != v);
        }
    }
}

/// The first position in `o` of the `k`-th item of `c`.
pub open spec fn cycle_pos(o: Seq<int>, c: Seq<int>, k: int) -> int {
    first_index(o, c[k])
}

/// The item after the `k`-th going round a cycle of length `n`.
pub open spec fn next_round(k: int, n: int) -> int {
    if k + 1 == n { 0 } else { k + 1 }
}

/// Lemma: in an order meeting the constraints, each cycle item comes after
/// the next one round the cycle.
proof fn lemma_cycle_step(prec: Seq<Seq<bool>>, o: Seq<int>, c: Seq<int>, k: int)
    requires
        respects(prec, o),
        is_cycle(prec, c),
        0 <= k < c.len(),
    ensures
        0 <= cycle_pos(o, c, next_round(k, c.len() as int)) < cycle_pos(o, c, k),
{
    let n = c.len() as int;
    let next = next_round(k, n);
    assert(0 <= c[k] < prec.len());
    assert(o.contains(c[k]));
    let j0 = choose|j: int| 0 <= j < o.len() && o[j] == c[k];
    lemma_first_index(o, c[k], j0);
    let p = cycle_pos(o, c, k);
    if k + 1 == n {
        assert(prec[c[n - 1]][c[0]]);
    } else {
        assert(prec[c[k]][c[k + 1]]);
    }
    assert(prec[o[p]][c[next]]);
    assert(0 <= c[next] < prec.len());
    assert(o.take(p).contains(c[next]));
    let j2 = choose|j: int| 0 <= j < o.take(p).len() && o.take(p)[j] == c[next];
    assert(o[j2] == c[next]);
    lemma_first_index(o, c[next], j2);
}

/// Law: when some order meets the constraints, no cycle exists.
pub proof fn lemma_order_excludes_cycle(prec: Seq<Seq<bool>>, o: Seq<int>, c: Seq<int>)
    requires
        respects(prec, o),
    ensures
        !is_cycle(prec, c),
{
    if is_cycle(prec, c) {
        let n = c.len() as int;
        let pos = |k: int| cycle_pos(o, c, k);
        assert forall|k: int| 0 <= k < n implies #[trigger] pos(k) >= 0 && pos(if k + 1 == n { 0 } else { k + 1 }) < pos(k) by {
            lemma_cycle_step(prec, o, c, k);
        }
        lemma_descending_chain(n, pos, n - 1);
        lemma_cycle_step(prec, o, c, n - 1);
    }
}

/// Lemma: along a cycle whose positions fall at each step, they fall by at
/// least one per step.
proof fn lemma_descending_chain(n: int, pos: spec_fn(int) -> int, k: int)
    requires
        n > 0,
        0 <= k < n,
        forall|j: int| 0 <= j < n ==> #[trigger] pos(j) >= 0 && pos(if j + 1 == n { 0 } else { j + 1 }) < pos(j),
    ensures
        pos(k) <= pos(0) - k,
    decreases k,
{
    if k > 0 {
        lemma_descending_chain(n, pos, k - 1);
        assert(pos(k - 1) >= 0);
    }
}

/// Law: when the required dependencies form a cycle, resolution reports a
/// cycle, whatever else is wrong.
pub proof fn lemma_resolution_reports_cycle(ms: Seq<PluginManifest>, r: Result<(), DependencyError>, c: Seq<int>)
    requires
        resolution_outcome(ms, r),
        is_cycle(load_constraints(ms), c),
    ensures
        r matches Err(DependencyError::CyclicDependency(ids)) && exists|c2: Seq<int>| #[trigger] is_cycle(load_constraints(ms), c2)
            && ids_at(ms, c2, ids@),
{
    let prec = load_constraints(ms);
    match r {
        Err(DependencyError::CyclicDependency(ids)) => {},
        _ => {
            let o = choose|o: Seq<int>| #[trigger] respects(prec, o);
            lemma_order_excludes_cycle(prec, o, c);
        },
    }
}

/// Law: without a cycle of required dependencies, resolution succeeds when
/// no required dependency has a problem, and reports the problem when
/// exactly one has one.
pub proof fn lemma_resolution_without_cycle(ms: Seq<PluginManifest>, r: Result<(), DependencyError>)
    requires
        resolution_outcome(ms, r),
        forall|c: Seq<int>| !#[trigger] is_cycle(load_constraints(ms), c),
    ensures
        (forall|i: int, k: int| #![trigger load_issue_at(ms, i, k)] 0 <= i < ms.len() && 0 <= k < ms[i].dependencies@.len()
            ==> load_issue_at(ms, i, k) is None) ==> r is Ok,
        forall|i: int, k: int| 0 <= i < ms.len() && 0 <= k < ms[i].dependencies@.len() && #[trigger] load_issue_at(ms, i, k) is Some
            && (forall|a: int, b: int| #![trigger load_issue_at(ms, a, b)] 0 <= a < ms.len() && 0 <= b < ms[a].dependencies@.len()
            && (a != i || b != k) ==> load_issue_at(ms, a, b) is None) ==> r is Err && load_issue_error(
            r->Err_0,
            load_issue_at(ms, i, k)->Some_0,
        ),
{
    let prec = load_constraints(ms);
    match r {
        Err(DependencyError::CyclicDependency(ids)) => {
            let c = choose|c: Seq<int>| #[trigger] is_cycle(prec, c) && ids_at(ms, c, ids@);
            assert(!is_cycle(prec, c));
        },
        _ => {},
    }
    assert forall|i: int, k: int| 0 <= i < ms.len() && 0 <= k < ms[i].dependencies@.len() && #[trigger] load_issue_at(ms, i, k) is Some
        && (forall|a: int, b: int| #![trigger load_issue_at(ms, a, b)] 0 <= a < ms.len() && 0 <= b < ms[a].dependencies@.len()
        && (a != i || b != k) ==> load_issue_at(ms, a, b) is None) implies r is Err && load_issue_error(
        r->Err_0,
        load_issue_at(ms, i, k)->Some_0,
    ) by {
        if r is Err {
            let (i2, k2) = choose|i2: int, k2: int| 0 <= i2 < ms.len() && 0 <= k2 < ms[i2].dependencies@.len()
                && #[trigger] load_issue_at(ms, i2, k2) is Some && load_issue_error(r->Err_0, load_issue_at(ms, i2, k2)->Some_0)
                && first_load_issue(ms, i2, k2);
            assert(i2 == i && k2 == k);
        }
    }
}

/// Law: an optional dependency is never reported as a problem, and it never
/// makes a manifest wait for the one it names.
pub proof fn lemma_optional_dependency_harmless(ms: Seq<PluginManifest>, i: int, k: int, j: int)
    requires
        0 <= i < ms.len(),
        0 <= k < ms[i].dependencies@.len(),
        !ms[i].dependencies@[k].required,
        0 <= j < ms.len(),
        forall|b: int| 0 <= b < ms[i].dependencies@.len() && b != k ==> (#[trigger] ms[i].dependencies@[b]).plugin_name@ != ms[j].id@,
    ensures
        load_issue_at(ms, i, k) is None,
        !load_constraints(ms)[i][j],
{
    assert(!requires_manifest(ms[i], ms[j]));
}

/// Whether a manifest requires the plugin with this identifier.
fn requires_id(a: &PluginManifest, id: &String) -> (r: bool)
    ensures
        r == exists|k: int| 0 <= k < a.dependencies@.len() && (#[trigger] a.dependencies@[k]).required
            && a.dependencies@[k].plugin_name@ == id@,
{
    let mut k: usize = 0;
    while k < a.dependencies.len()
        invariant
            k <= a.dependencies@.len(),
            forall|j: int| 0 <= j < k ==> !((#[trigger] a.dependencies@[j]).required && a.dependencies@[j].plugin_name@ == id@),
        decreases a.dependencies.len() - k,
    {
        if a.dependencies[k].required && a.dependencies[k].plugin_name == *id {
            return true;
        }
        k = k + 1;
    }
    false
}

/// The loading constraints of a list of manifests.
fn load_matrix(ms: &Vec<PluginManifest>) -> (m: Vec<Vec<bool>>)
    ensures
        m@.map_values(|row: Vec<bool>| row@) == load_constraints(ms@),
{
    let n = ms.len();
    let mut m: Vec<Vec<bool>> = Vec::new();
    let mut x: usize = 0;
    while x < n
        invariant
            n == ms@.len(),
            x <= n,
            m@.len() == x,
            forall|a: int| 0 <= a < x ==> #[trigger] m@[a]@ == load_constraints(ms@)[a],
        decreases n - x,
    {
        let mut row: Vec<bool> = Vec::new();
        let mut y: usize = 0;
        while y < n
            invariant
                n == ms@.len(),
                x < n,
                y <= n,
                row@.len() == y,
                forall|b: int| 0 <= b < y ==> #[trigger] row@[b] == load_constraints(ms@)[x as int][b],
            decreases n - y,
        {
            row.push(requires_id(&ms[x], &ms[y].id));
            y = y + 1;
        }
        assert(row@ =~= load_constraints(ms@)[x as int]);
        m.push(row);
        x = x + 1;
    }
    assert(m@.map_values(|row: Vec<bool>| row@) =~= load_constraints(ms@));
    m
}

/// A successor of `x` among the flagged items.
fn flagged_successor(prec: &Vec<Vec<bool>>, flags: &Vec<bool>, x: usize) -> (y: usize)
    requires
        square(prec@.map_values(|row: Vec<bool>| row@), prec@.len() as int),
        flags@.len() == prec@.len(),
        x < prec@.len(),
        exists|z: int| 0 <= z < prec@.len() && #[trigger] prec@[x as int]@[z] && flags@[z],
    ensures
        y < prec@.len(),
        prec@[x as int]@[y as int],
        flags@[y as int],
{
    let ghost p = prec@.map_values(|row: Vec<bool>| row@);
    assert(p[x as int] == prec@[x as int]@);
    let row = &prec[x];
    let mut y: usize = 0;
    while y < prec.len()
        invariant
            y <= prec@.len(),
            row@ == prec@[x as int]@,
            row@.len() == prec@.len(),
            flags@.len() == prec@.len(),
            forall|z: int| 0 <= z < y ==> !(#[trigger] row@[z] && flags@[z]),
        decreases prec.len() - y,
    {
        if row[y] && flags[y] {
            return y;
        }
        y = y + 1;
    }
    proof {
        let z = choose|z: int| 0 <= z < prec@.len() && #[trigger] prec@[x as int]@[z] && flags@[z];
        assert(!(row@[z] && flags@[z]));
    }
    0
}

/// A cycle among the flagged items, when every flagged item has a flagged
/// successor and some item is flagged.
fn find_cycle(prec: &Vec<Vec<bool>>, flags: &Vec<bool>) -> (c: Vec<usize>)
    requires
        square(prec@.map_values(|row: Vec<bool>| row@), prec@.len() as int),
        flags@.len() == prec@.len(),
        exists|z: int| 0 <= z < flags@.len() && #[trigger] flags@[z],
        forall|x: int| 0 <= x < flags@.len() && #[trigger] flags@[x] ==> exists|z: int| 0 <= z < prec@.len()
            && #[trigger] prec@[x]@[z] && flags@[z],
    ensures
        is_cycle(prec@.map_values(|row: Vec<bool>| row@), c@.map_values(|x: usize| x as int)),
{
    let ghost p = prec@.map_values(|row: Vec<bool>| row@);
    let n = prec.len();
    let mut start: usize = 0;
    while start < n && !flags[start]
        invariant
            start <= n,
            n == flags@.len(),
            forall|z: int| 0 <= z < start ==> !#[trigger] flags@[z],
        decreases n - start,
    {
        start = start + 1;
    }
    if start >= n {
        proof {
            let z = choose|z: int| 0 <= z < flags@.len() && #[trigger] flags@[z];
            assert(!flags@[z]);
        }
        return Vec::new();
    }
    let mut on_walk: Vec<bool> = Vec::new();
    let mut i: usize = 0;
    while i < n
        invariant
            i <= n,
            on_walk@.len() == i,
            forall|z: int| 0 <= z < i ==> !#[trigger] on_walk@[z],
        decreases n - i,
    {
        on_walk.push(false);
        i = i + 1;
    }
    proof {
        assert(count_set(on_walk@) == 0) by {
            lemma_all_unset(on_walk@);
        }
        lemma_count_set_update(on_walk@, start as int);
    }
    on_walk.set(start, true);
    let mut walk: Vec<usize> = Vec::new();
    walk.push(start);
    proof {
        assert forall|z: int| 0 <= z < n implies (#[trigger] on_walk@[z] <==> exists|k: int| 0 <= k < walk@.len() && walk@[k] == z) by {
            if z == start {
                assert(walk@[0] == z);
            }
        }
    }
    loop
        invariant
            n == prec@.len(),
            p == prec@.map_values(|row: Vec<bool>| row@),
            square(p, n as int),
            flags@.len() == n,
            forall|x: int| 0 <= x < flags@.len() && #[trigger] flags@[x] ==> exists|z: int| 0 <= z < prec@.len()
                && #[trigger] prec@[x]@[z] && flags@[z],
            on_walk@.len() == n,
            walk@.len() > 0,
            count_set(on_walk@) == walk@.len(),
            forall|k: int| 0 <= k < walk@.len() ==> #[trigger] walk@[k] < n && flags@[walk@[k] as int],
            forall|k: int| 0 <= k < walk@.len() - 1 ==> #[trigger] p[walk@[k] as int][walk@[k + 1] as int],
            forall|z: int| 0 <= z < n ==> (#[trigger] on_walk@[z] <==> exists|k: int| 0 <= k < walk@.len() && walk@[k] == z),
        decreases n - walk@.len(),
    {
        proof {
            lemma_count_set_bound(on_walk@);
        }
        let cur = walk[walk.len() - 1];
        assert(flags@[cur as int]);
        let y = flagged_successor(prec, flags, cur);
        assert(p[cur as int][y as int]);
        if on_walk[y] {
            let mut idx: usize = 0;
            while idx < walk.len() && walk[idx] != y
                invariant
                    idx <= walk@.len(),
                    exists|k: int| 0 <= k < walk@.len() && walk@[k] == y,
                    forall|k: int| 0 <= k < idx ==> #[trigger] walk@[k] != y,
                decreases walk.len() - idx,
            {
                idx = idx + 1;
            }
            if idx >= walk.len() {
                proof {
                    let k = choose|k: int| 0 <= k < walk@.len() && walk@[k] == y;
                    assert(walk@[k] != y);
                }
                return Vec::new();
            }
            let mut c: Vec<usize> = Vec::new();
            let mut j = idx;
            while j < walk.len()
                invariant
                    idx <= j <= walk@.len(),
                    c@.len() == j - idx,
                    forall|k: int| 0 <= k < c@.len() ==> #[trigger] c@[k] == walk@[idx + k],
                decreases walk.len() - j,
            {
                c.push(walk[j]);
                j = j + 1;
            }
            proof {
                let cv = c@.map_values(|x: usize| x as int);
                assert(cv.len() == walk@.len() - idx);
                assert forall|k: int| 0 <= k < cv.len() - 1 implies #[trigger] p[cv[k]][cv[k + 1]] by {
                    assert(cv[k] == walk@[idx + k] as int);
                    assert(cv[k + 1] == walk@[idx + k + 1] as int);
                }
                assert(cv[cv.len() - 1] == cur as int);
                assert(cv[0] == y as int);
            }
            return c;
        }
        proof {
            lemma_count_set_update(on_walk@, y as int);
        }
        let ghost before = walk@;
        on_walk.set(y, true);
        walk.push(y);
        proof {
            assert forall|z: int| 0 <= z < n implies (#[trigger] on_walk@[z] <==> exists|k: int| 0 <= k < walk@.len() && walk@[k] == z) by {
                if z == y {
                    assert(walk@[walk@.len() - 1] == z);
                } else if on_walk@[z] {
                    let k = choose|k: int| 0 <= k < before.len() && before[k] == z;
                    assert(walk@[k] == z);
                } else if exists|k: int| 0 <= k < walk@.len() && walk@[k] == z {
                    let k = choose|k: int| 0 <= k < walk@.len() && walk@[k] == z;
                    assert(before[k] == z);
                }
            }
        }
    }
}

proof fn lemma_all_unset(s: Seq<bool>)
    requires
        forall|x: int| 0 <= x < s.len() ==> !#[trigger] s[x],
    ensures
        count_set(s) == 0,
    decreases s.len(),
{
    if s.len() > 0 {
        lemma_all_unset(s.drop_last());
    }
}

/// The priority a manifest is loaded with.
fn manifest_priority(m: &PluginManifest) -> (r: PluginPriority)
    ensures
        r == load_priority(*m),
{
    match &m.priority {
        Some(t) => match PluginPriority::from_str(t.as_str()) {
            Some(p) => p,
            None => PluginPriority::ThirdPartyLow(255),
        },
        None => PluginPriority::ThirdPartyLow(255),
    }
}

/// Whether a manifest accepts an API version.
fn accepts_api(m: &PluginManifest, v: &crate::semver_model::SemVersion) -> (r: bool)
    ensures
        r == manifest_compatible(*m, v@),
{
    let mut k: usize = 0;
    while k < m.api_versions.len()
        invariant
            k <= m.api_versions@.len(),
            forall|j: int| 0 <= j < k ==> !semver_req_matches(#[trigger] m.api_versions@[j]@, v@),
        decreases m.api_versions.len() - k,
    {
        if m.api_versions[k].includes(v) {
            return true;
        }
        k = k + 1;
    }
    false
}

/// A dependency as a manifest file declares it.
pub struct RawDependencyInfo {
    pub id: String,
    pub version_range: Option<String>,
    pub required: bool,
}

/// A manifest as a manifest file declares it, before its version ranges are read.
pub struct RawPluginManifest {
    pub id: String,
    pub name: String,
    pub version: String,
    pub description: String,
    pub author: String,
    pub website: Option<String>,
    pub license: Option<String>,
    pub api_versions: Vec<String>,
    pub dependencies: Vec<RawDependencyInfo>,
    pub is_core: bool,
    pub priority: Option<String>,
    pub entry_point: Option<String>,
    pub files: Vec<String>,
    pub config_schema: Option<String>,
    pub tags: Vec<String>,
    pub resources: Option<Vec<ManifestResourceClaim>>,
    /// IDs of plugins this plugin cannot run together with (none when absent).
    pub conflicts_with: Vec<String>,
    /// Plugins (and versions) this plugin is incompatible with (none when absent).
    pub incompatible_with: Vec<RawDependencyInfo>,
}

/// The texts of a list of strings.
pub open spec fn string_texts(v: Seq<String>) -> Seq<Seq<char>> {
    v.map_values(|x: String| x@)
}

/// The texts of a list of optional strings.
pub open spec fn opt_text(o: Option<String>) -> Option<Seq<char>> {
    match o {
        Some(s) => Some(s@),
        None => None,
    }
}

/// Whether every one of the first `n` constraint texts reads as a requirement.
pub open spec fn all_read(texts: Seq<Seq<char>>, n: int) -> bool {
    forall|k: int| 0 <= k < n ==> #[trigger] semver_req_parse(texts[k]) is Ok
}

/// The message of a range text that does not read, as reading a range words it.
pub open spec fn range_error_text(text: Seq<char>) -> Seq<char> {
    "Version parse error: "@ + ("Invalid version constraint '"@ + text + "': "@ + semver_req_parse(text)->Err_0)
}

/// Whether a manifest is the one a raw manifest converts to.
pub open spec fn converted(m: PluginManifest, raw: RawPluginManifest, base_dir: Seq<char>) -> bool {
    &&& m.id@ == raw.id@
    &&& m.name@ == raw.name@
    &&& m.version@ == raw.version@
    &&& m.description@ == raw.description@
    &&& m.author@ == raw.author@
    &&& opt_text(m.website) == opt_text(raw.website)
    &&& opt_text(m.license) == opt_text(raw.license)
    &&& m.api_versions@.map_values(|r: VersionRange| r@) == string_texts(raw.api_versions@)
    &&& deps_converted(m.dependencies@, raw.dependencies@)
    &&& m.is_core == raw.is_core
    &&& opt_text(m.priority) == opt_text(raw.priority)
    &&& m.entry_point@ == match raw.entry_point {
        Some(e) => e@,
        None => default_entry_point(raw.id@),
    }
    &&& string_texts(m.files@) == string_texts(raw.files@)
    &&& opt_text(m.config_schema) == opt_text(raw.config_schema)
    &&& string_texts(m.tags@) == string_texts(raw.tags@)
    &&& string_texts(m.conflicts_with@) == string_texts(raw.conflicts_with@)
    &&& deps_converted(m.incompatible_with@, raw.incompatible_with@)
    &&& m.resources@ == match raw.resources {
        Some(v) => v@,
        None => Seq::<ManifestResourceClaim>::empty(),
    }
    &&& m.plugin_base_dir@ == base_dir
}

/// Whether each of the first `n` declared dependencies that names a range
/// names one that reads as a version requirement.
pub open spec fn deps_range_ok(ds: Seq<RawDependencyInfo>, n: int) -> bool {
    forall|k: int| 0 <= k < n ==> match (#[trigger] ds[k]).version_range {
        Some(t) => semver_req_parse(t@) is Ok,
        None => true,
    }
}

/// Whether dependencies are the declared ones, in order, with their ranges read.
pub open spec fn deps_converted(out: Seq<PluginDependency>, ds: Seq<RawDependencyInfo>) -> bool {
    &&& out.len() == ds.len()
    &&& forall|k: int| 0 <= k < out.len() ==> (#[trigger] out[k])@ == (crate::dependency::PluginDependencyView {
        plugin_name: ds[k].id@,
        version_range: opt_text(ds[k].version_range),
        required: ds[k].required,
    })
}

/// Whether `message` reports the `k`-th declared dependency (of the list
/// named by `kind`) as the first whose range does not read.
pub open spec fn dep_range_error(ds: Seq<RawDependencyInfo>, k: int, kind: Seq<char>, message: Seq<char>) -> bool {
    &&& 0 <= k < ds.len()
    &&& deps_range_ok(ds, k)
    &&& ds[k].version_range matches Some(t) && semver_req_parse(t@) is Err && message == "Failed to parse "@ + kind
        + " version range '"@ + t@ + "' for dep '"@ + ds[k].id@ + "': "@ + range_error_text(t@)
}

/// Reads the ranges of declared dependencies; the first range that does
/// not read is reported, as one of the list named by `kind`.
fn convert_deps(ds: &Vec<RawDependencyInfo>, path: &str, kind: &str) -> (r: Result<Vec<PluginDependency>, PluginSystemError>)
    ensures
        match r {
            Ok(out) => deps_range_ok(ds@, ds@.len() as int) && deps_converted(out@, ds@),
            Err(PluginSystemError::ManifestError { path: p, message, source: None }) => p@ == path@ && exists|k: int|
                #[trigger] dep_range_error(ds@, k, kind@, message@),
            Err(_) => false,
        },
{
    let mut out: Vec<PluginDependency> = Vec::new();
    let mut d: usize = 0;
    while d < ds.len()
        invariant
            d <= ds@.len(),
            out@.len() == d,
            deps_range_ok(ds@, d as int),
            forall|j: int| 0 <= j < d ==> (#[trigger] out@[j])@ == (crate::dependency::PluginDependencyView {
                plugin_name: ds@[j].id@,
                version_range: opt_text(ds@[j].version_range),
                required: ds@[j].required,
            }),
        decreases ds.len() - d,
    {
        let rd = &ds[d];
        let version_range = match &rd.version_range {
            Some(t) => match VersionRange::from_str(t.as_str()) {
                Ok(vr) => Some(vr),
                Err(e) => {
                    let mut msg = String::from_str("Failed to parse ");
                    msg.append(kind);
                    msg.append(" version range '");
                    msg.append(t.as_str());
                    msg.append("' for dep '");
                    msg.append(rd.id.as_str());
                    msg.append("': ");
                    msg.append(e.message().as_str());
                    proof {
                        assert(ds@[d as int].version_range == Some(*t));
                        assert(msg@ =~= "Failed to parse "@ + kind@ + " version range '"@ + t@ + "' for dep '"@
                            + ds@[d as int].id@ + "': "@ + range_error_text(t@));
                        assert(dep_range_error(ds@, d as int, kind@, msg@));
                    }
                    let p = String::from_str(path);
                    let err = PluginSystemError::ManifestError { path: p, message: msg, source: None };
                    let r = Err(err);
                    proof {
                        assert(r->Err_0->ManifestError_path@ == path@);
                        assert(r->Err_0->ManifestError_message@ == msg@);
                    }
                    return r;
                },
            },
            None => None,
        };
        out.push(PluginDependency { plugin_name: rd.id.clone(), version_range, required: rd.required });
        d = d + 1;
    }
    Ok(out)
}

/// Copies a list of strings.
fn copy_strings(v: &Vec<String>) -> (r: Vec<String>)
    ensures
        string_texts(r@) == string_texts(v@),
{
    let mut out: Vec<String> = Vec::new();
    let mut k: usize = 0;
    while k < v.len()
        invariant
            k <= v@.len(),
            out@.len() == k,
            forall|j: int| 0 <= j < k ==> #[trigger] out@[j]@ == v@[j]@,
        decreases v.len() - k,
    {
        out.push(v[k].clone());
        k = k + 1;
    }
    assert(string_texts(out@) =~= string_texts(v@));
    out
}

/// Reads a manifest from what its file declares: each API range, each
/// dependency range and each incompatibility range must read as a version
/// requirement (the first that does not is reported: API ranges first, then
/// dependencies, then incompatibilities); the entry point defaults to
/// `lib<id>.so` and the resources to none; declared conflicts and
/// incompatibilities are kept. `path` is the manifest file and `base_dir`
/// its directory.
pub fn manifest_from_raw(raw: RawPluginManifest, path: &str, base_dir: &str) -> (r: Result<PluginManifest, PluginSystemError>)
    ensures
        match r {
            Ok(m) => all_read(string_texts(raw.api_versions@), raw.api_versions@.len() as int)
                && deps_range_ok(raw.dependencies@, raw.dependencies@.len() as int)
                && deps_range_ok(raw.incompatible_with@, raw.incompatible_with@.len() as int) && converted(m, raw, base_dir@),
            Err(PluginSystemError::ManifestError { path: p, message, source: None }) => p@ == path@ && (
                (exists|k: int| 0 <= k < raw.api_versions@.len() && all_read(string_texts(raw.api_versions@), k)
                    && #[trigger] semver_req_parse(raw.api_versions@[k]@) is Err
                    && message@ == "Failed to parse API version range '"@ + raw.api_versions@[k]@ + "': "@ + range_error_text(raw.api_versions@[k]@))
                || (all_read(string_texts(raw.api_versions@), raw.api_versions@.len() as int)
                    && exists|k: int| #[trigger] dep_range_error(raw.dependencies@, k, "dependency"@, message@))
                || (all_read(string_texts(raw.api_versions@), raw.api_versions@.len() as int)
                    && deps_range_ok(raw.dependencies@, raw.dependencies@.len() as int)
                    && exists|k: int| #[trigger] dep_range_error(raw.incompatible_with@, k, "incompatibility"@, message@))),
            Err(_) => false,
        },
{
    let mut api_versions: Vec<VersionRange> = Vec::new();
    let mut k: usize = 0;
    while k < raw.api_versions.len()
        invariant
            k <= raw.api_versions@.len(),
            api_versions@.len() == k,
            all_read(string_texts(raw.api_versions@), k as int),
            forall|j: int| 0 <= j < k ==> (#[trigger] api_versions@[j])@ == raw.api_versions@[j]@,
        decreases raw.api_versions.len() - k,
    {
        match VersionRange::from_str(raw.api_versions[k].as_str()) {
            Ok(vr) => api_versions.push(vr),
            Err(e) => {
                let mut msg = String::from_str("Failed to parse API version range '");
                msg.append(raw.api_versions[k].as_str());
                msg.append("': ");
                msg.append(e.message().as_str());
                proof {
                    assert(semver_req_parse(raw.api_versions@[k as int]@) is Err);
                    assert(msg@ =~= "Failed to parse API version range '"@ + raw.api_versions@[k as int]@ + "': "@ + range_error_text(
                        raw.api_versions@[k as int]@,
                    ));
                }
                return Err(PluginSystemError::ManifestError { path: String::from_str(path), message: msg, source: None });
            },
        }
        proof {
            assert(string_texts(raw.api_versions@)[k as int] == raw.api_versions@[k as int]@);
        }
        k = k + 1;
    }
    assert(api_versions@.map_values(|r: VersionRange| r@) =~= string_texts(raw.api_versions@));
    let dependencies = match convert_deps(&raw.dependencies, path, "dependency") {
        Ok(v) => v,
        Err(e) => {
            proof {
                reveal_strlit("dependency");
            }
            return Err(e);
        },
    };
    let incompatible_with = match convert_deps(&raw.incompatible_with, path, "incompatibility") {
        Ok(v) => v,
        Err(e) => {
            proof {
                reveal_strlit("incompatibility");
            }
            return Err(e);
        },
    };
    let conflicts_with = copy_strings(&raw.conflicts_with);
    let entry_point = match &raw.entry_point {
        Some(e) => e.clone(),
        None => {
            let mut e = String::from_str("lib");
            e.append(raw.id.as_str());
            e.append(".so");
            e
        },
    };
    let resources = match raw.resources {
        Some(v) => v,
        None => Vec::new(),
    };
    let files = copy_strings(&raw.files);
    let tags = copy_strings(&raw.tags);
    let m = PluginManifest {
        id: raw.id.clone(),
        name: raw.name.clone(),
        version: raw.version.clone(),
        description: raw.description.clone(),
        author: raw.author.clone(),
        website: copy_opt(&raw.website),
        license: copy_opt(&raw.license),
        api_versions,
        dependencies,
        is_core: raw.is_core,
        priority: copy_opt(&raw.priority),
        entry_point,
        files,
        config_schema: copy_opt(&raw.config_schema),
        tags,
        conflicts_with,
        incompatible_with,
        resources,
        plugin_base_dir: String::from_str(base_dir),
    };
    Ok(m)
}

/// Copies an optional string.
fn copy_opt(o: &Option<String>) -> (r: Option<String>)
    ensures
        opt_text(r) == opt_text(*o),
{
    match o {
        Some(s) => Some(s.clone()),
        None => None,
    }
}

/// Whether a text holds `..`.
fn contains_parent_step(s: &str) -> (r: bool)
    ensures
        r == has_parent_step(s@),
{
    let cs = crate::text::str_chars(s);
    let mut k: usize = 0;
    while k < cs.len() && k + 1 < cs.len()
        invariant
            cs@ == s@,
            k <= cs@.len(),
            forall|j: int| 0 <= j < k && j < cs@.len() - 1 ==> !(#[trigger] cs@[j] == '.' && cs@[j + 1] == '.'),
        decreases cs.len() - k,
    {
        if cs[k] == '.' && cs[k + 1] == '.' {
            return true;
        }
        k = k + 1;
    }
    false
}

/// Whether an entry point may be loaded: it must be a relative path (not
/// starting with `/`) that does not hold `..`.
pub open spec fn entry_point_allowed(e: Seq<char>) -> bool {
    !has_parent_step(e) && !(e.len() > 0 && e[0] == '/')
}

/// Whether a text holds `..`.
pub open spec fn has_parent_step(e: Seq<char>) -> bool {
    exists|k: int| 0 <= k < e.len() - 1 && #[trigger] e[k] == '.' && e[k + 1] == '.'
}

/// Checks a manifest's entry point before loading its library
/// (`library_path` is where the library would be read from).
pub fn check_entry_point(plugin_id: &str, entry_point: &str, library_path: &str) -> (r: Result<(), PluginSystemError>)
    ensures
        entry_point_allowed(entry_point@) ==> r is Ok,
        !entry_point_allowed(entry_point@) ==> (r matches Err(PluginSystemError::LoadingError {
            plugin_id: id,
            path: Some(p),
            source: crate::error::PluginSystemErrorSource::Other(m),
        }) && id@ == plugin_id@ && p@ == library_path@ && m@ == "Invalid entry_point path '"@ + entry_point@
            + "': must be relative and not traverse upwards."@),
{
    let absolute = {
        let cs = crate::text::str_chars(entry_point);
        cs.len() > 0 && cs[0] == '/'
    };
    if contains_parent_step(entry_point) || absolute {
        let mut m = String::from_str("Invalid entry_point path '");
        m.append(entry_point);
        m.append("': must be relative and not traverse upwards.");
        return Err(PluginSystemError::LoadingError {
            plugin_id: String::from_str(plugin_id),
            path: Some(String::from_str(library_path)),
            source: crate::error::PluginSystemErrorSource::Other(m),
        });
    }
    Ok(())
}

/// Abstract value of a [`PluginLoader`].
pub struct LoaderView {
    /// The directories to search, in the order they were added.
    pub plugin_dirs: Seq<Seq<char>>,
    /// The known manifests, one per identifier.
    pub manifests: Seq<PluginManifest>,
}

/// Loads plugins: the directories to search and the manifests found there.
pub struct PluginLoader {
    plugin_dirs: Vec<String>,
    manifests: Vec<PluginManifest>,
}

impl View for PluginLoader {
    type V = LoaderView;

    closed spec fn view(&self) -> LoaderView {
        LoaderView { plugin_dirs: self.plugin_dirs@.map_values(|d: String| d@), manifests: self.manifests@ }
    }
}

impl PluginLoader {
    /// No two manifests share an identifier.
    #[verifier::type_invariant]
    closed spec fn inv(&self) -> bool {
        ids_distinct(self.manifests@)
    }

    /// Create a loader with no directories and no manifests.
    pub fn new() -> (r: Self)
        ensures
            r@.plugin_dirs == Seq::<Seq<char>>::empty(),
            r@.manifests == Seq::<PluginManifest>::empty(),
    {
        let r = PluginLoader { plugin_dirs: Vec::new(), manifests: Vec::new() };
        assert(r@.plugin_dirs =~= Seq::<Seq<char>>::empty());
        r
    }

    /// Add a plugin directory to search.
    pub fn add_plugin_dir(&mut self, dir: &str)
        ensures
            final(self)@.plugin_dirs == old(self)@.plugin_dirs.push(dir@),
            final(self)@.manifests == old(self)@.manifests,
    {
        proof {
            use_type_invariant(&*self);
        }
        let ghost before = self.plugin_dirs@;
        let mut dirs: Vec<String> = Vec::new();
        std::mem::swap(&mut dirs, &mut self.plugin_dirs);
        dirs.push(String::from_str(dir));
        assert(dirs@.map_values(|d: String| d@) =~= before.map_values(|d: String| d@).push(dir@));
        self.plugin_dirs = dirs;
    }

    /// The directories to search, in order.
    pub fn plugin_dirs(&self) -> (r: &Vec<String>)
        ensures
            r@.map_values(|d: String| d@) == self@.plugin_dirs,
    {
        &self.plugin_dirs
    }

    /// Position of the manifest with this identifier, if known.
    fn find(&self, id: &String) -> (r: Option<usize>)
        ensures
            ids_distinct(self@.manifests),
            match r {
                Some(i) => i < self@.manifests.len() && self@.manifests[i as int].id@ == id@
                    && i == manifest_position(self@.manifests, id@) && has_manifest(self@.manifests, id@),
                None => !has_manifest(self@.manifests, id@),
            },
    {
        proof {
            use_type_invariant(self);
        }
        let mut i: usize = 0;
        while i < self.manifests.len()
            invariant
                i <= self.manifests@.len(),
                ids_distinct(self.manifests@),
                forall|k: int| 0 <= k < i ==> (#[trigger] self.manifests@[k]).id@ != id@,
            decreases self.manifests.len() - i,
        {
            if self.manifests[i].id == *id {
                proof {
                    let p = manifest_position(self.manifests@, id@);
                    assert(self.manifests@[p].id@ == id@);
                }
                return Some(i);
            }
            i = i + 1;
        }
        None
    }

    /// Record a manifest, replacing the one with the same identifier.
    pub fn cache_manifest(&mut self, manifest: PluginManifest)
        ensures
            final(self)@.manifests == cached(old(self)@.manifests, manifest),
            final(self)@.plugin_dirs == old(self)@.plugin_dirs,
    {
        proof {
            use_type_invariant(&*self);
        }
        let found = self.find(&manifest.id);
        let ghost before = self.manifests@;
        let ghost m = manifest;
        let mut v: Vec<PluginManifest> = Vec::new();
        std::mem::swap(&mut v, &mut self.manifests);
        match found {
            Some(i) => {
                v.set(i, manifest);
                proof {
                    assert forall|a: int, b: int| 0 <= a < v@.len() && 0 <= b < v@.len() && a != b implies #[trigger] v@[a].id@ != #[trigger] v@[b].id@ by {
                        assert(v@[a].id@ == before[a].id@);
                        assert(v@[b].id@ == before[b].id@);
                    }
                }
            },
            None => {
                v.push(manifest);
                proof {
                    assert forall|a: int, b: int| 0 <= a < v@.len() && 0 <= b < v@.len() && a != b implies #[trigger] v@[a].id@ != #[trigger] v@[b].id@ by {
                        if a < before.len() {
                            assert(v@[a] == before[a]);
                        }
                        if b < before.len() {
                            assert(v@[b] == before[b]);
                        }
                        if a == before.len() && b < before.len() {
                            assert(before[b].id@ != m.id@);
                        }
                        if b == before.len() && a < before.len() {
                            assert(before[a].id@ != m.id@);
                        }
                    }
                }
            },
        }
        self.manifests = v;
    }

    /// Get a manifest by plugin ID.
    pub fn get_manifest(&self, id: &str) -> (r: Option<&PluginManifest>)
        ensures
            match r {
                Some(m) => has_manifest(self@.manifests, id@) && *m == self@.manifests[manifest_position(self@.manifests, id@)],
                None => !has_manifest(self@.manifests, id@),
            },
    {
        let key = String::from_str(id);
        match self.find(&key) {
            Some(i) => Some(&self.manifests[i]),
            None => None,
        }
    }

    /// All known manifests.
    pub fn get_all_manifests(&self) -> (r: Vec<&PluginManifest>)
        ensures
            r@.map_values(|m: &PluginManifest| *m) == self@.manifests,
    {
        let mut out: Vec<&PluginManifest> = Vec::new();
        let mut i: usize = 0;
        while i < self.manifests.len()
            invariant
                i <= self.manifests@.len(),
                out@.len() == i,
                forall|k: int| 0 <= k < i ==> *#[trigger] out@[k] == self.manifests@[k],
            decreases self.manifests.len() - i,
        {
            out.push(&self.manifests[i]);
            i = i + 1;
        }
        assert(out@.map_values(|m: &PluginManifest| *m) =~= self.manifests@);
        out
    }

    /// Checks one dependency of a manifest.
    fn load_check(&self, d: &crate::dependency::PluginDependency) -> (r: Result<(), DependencyError>)
        ensures
            match load_issue(self@.manifests, *d) {
                None => r is Ok,
                Some(x) => r matches Err(e) && load_issue_error(e, x),
            },
    {
        if !d.required {
            return Ok(());
        }
        let i = match self.find(&d.plugin_name) {
            Some(i) => i,
            None => return Err(DependencyError::MissingPlugin(d.plugin_name.clone())),
        };
        if let Some(range) = &d.version_range {
            let actual = &self.manifests[i].version;
            match parse_sem_version(actual.as_str()) {
                Ok(v) => {
                    if !range.includes(&v) {
                        return Err(DependencyError::IncompatibleVersion {
                            plugin_name: d.plugin_name.clone(),
                            required_range: range.clone(),
                            actual_version: actual.clone(),
                        });
                    }
                },
                Err(e) => {
                    let mut msg = String::from_str("Failed to parse version for dependency ");
                    msg.append(d.plugin_name.as_str());
                    msg.append(": ");
                    msg.append(e.as_str());
                    return Err(DependencyError::Other(msg));
                },
            }
        }
        Ok(())
    }

    /// Resolves the dependencies between the known manifests: fails with a
    /// cycle of required dependencies if there is one, else with the first
    /// required dependency that is missing, whose version cannot be read or
    /// lies outside its range.
    pub fn resolve_dependencies(&self) -> (r: Result<(), DependencyError>)
        ensures
            resolution_outcome(self@.manifests, r),
    {
        let prec = load_matrix(&self.manifests);
        let ghost p = prec@.map_values(|row: Vec<bool>| row@);
        let first = index_matrix(self.manifests.len());
        proof {
            lemma_index_tie_break_total(self.manifests@.len() as int);
            assert(square(p, self.manifests@.len() as int));
        }
        match greedy_order(&prec, &first) {
            Ok(order) => {
                proof {
                    let o = order@.map_values(|x: usize| x as int);
                    lemma_greedy_respects(p, first@.map_values(|row: Vec<bool>| row@), o);
                }
            },
            Err(left) => {
                let ghost l = left@.map_values(|x: usize| x as int);
                let ghost f = first@.map_values(|row: Vec<bool>| row@);
                let mut flags: Vec<bool> = Vec::new();
                let mut i: usize = 0;
                while i < self.manifests.len()
                    invariant
                        i <= self.manifests@.len(),
                        flags@.len() == i,
                        forall|z: int| 0 <= z < i ==> !#[trigger] flags@[z],
                    decreases self.manifests.len() - i,
                {
                    flags.push(false);
                    i = i + 1;
                }
                let mut k: usize = 0;
                proof {
                    let placed = choose|placed: Seq<int>| #[trigger] greedy(p, f, placed) && (forall|x: int| !#[trigger] ready(p, placed, x))
                        && l == unplaced(placed, p.len() as int) && l.len() > 0;
                    lemma_unplaced(placed, p.len() as int);
                    assert forall|j: int| 0 <= j < left@.len() implies #[trigger] left@[j] < self.manifests@.len() by {
                        assert(l[j] == left@[j] as int);
                    }
                }
                while k < left.len()
                    invariant
                        k <= left@.len(),
                        flags@.len() == self.manifests@.len(),
                        l == left@.map_values(|x: usize| x as int),
                        forall|j: int| 0 <= j < left@.len() ==> #[trigger] left@[j] < self.manifests@.len(),
                        forall|z: int| 0 <= z < flags@.len() ==> (#[trigger] flags@[z] <==> exists|j: int| 0 <= j < k && left@[j] == z),
                    decreases left.len() - k,
                {
                    let ghost before = flags@;
                    flags.set(left[k], true);
                    proof {
                        assert forall|z: int| 0 <= z < flags@.len() implies (#[trigger] flags@[z] <==> exists|j: int| 0 <= j < k + 1 && left@[j] == z) by {
                            if z == left@[k as int] {
                                assert(left@[k as int] == z);
                            } else if before[z] {
                                let j = choose|j: int| 0 <= j < k && left@[j] == z;
                                assert(left@[j] == z);
                            } else if exists|j: int| 0 <= j < k + 1 && left@[j] == z {
                                let j = choose|j: int| 0 <= j < k + 1 && left@[j] == z;
                                assert(j < k);
                            }
                        }
                    }
                    k = k + 1;
                }
                proof {
                    let placed = choose|placed: Seq<int>| #[trigger] greedy(p, f, placed) && (forall|x: int| !#[trigger] ready(p, placed, x))
                        && l == unplaced(placed, p.len() as int) && l.len() > 0;
                    lemma_unplaced(placed, p.len() as int);
                    assert(flags@[left@[0] as int]);
                    assert forall|x: int| 0 <= x < flags@.len() && #[trigger] flags@[x] implies exists|z: int| 0 <= z < prec@.len()
                        && #[trigger] prec@[x]@[z] && flags@[z] by {
                        let j = choose|j: int| 0 <= j < left@.len() && left@[j] == x;
                        assert(l[j] == x);
                        assert(!placed.contains(x));
                        assert(!ready(p, placed, x));
                        let z = choose|z: int| 0 <= z < p.len() && #[trigger] p[x][z] && !placed.contains(z);
                        assert(unplaced(placed, p.len() as int).contains(z));
                        let jz = choose|jz: int| 0 <= jz < l.len() && l[jz] == z;
                        assert(left@[jz] == z);
                        assert(prec@[x]@ == p[x]);
                    }
                }
                let c = find_cycle(&prec, &flags);
                let mut ids: Vec<String> = Vec::new();
                let mut j: usize = 0;
                while j < c.len()
                    invariant
                        j <= c@.len(),
                        is_cycle(p, c@.map_values(|x: usize| x as int)),
                        p.len() == self.manifests@.len(),
                        ids@.len() == j,
                        forall|q: int| 0 <= q < j ==> #[trigger] ids@[q]@ == self.manifests@[c@[q] as int].id@,
                    decreases c.len() - j,
                {
                    assert(c@.map_values(|x: usize| x as int)[j as int] == c@[j as int] as int);
                    ids.push(self.manifests[c[j]].id.clone());
                    j = j + 1;
                }
                return Err(DependencyError::CyclicDependency(ids));
            },
        }
        let mut i: usize = 0;
        while i < self.manifests.len()
            invariant
                i <= self.manifests@.len(),
                exists|o: Seq<int>| #[trigger] respects(load_constraints(self@.manifests), o),
                forall|a: int, b: int| #![trigger load_issue_at(self@.manifests, a, b)]
                    0 <= a < i && 0 <= b < self@.manifests[a].dependencies@.len() ==> load_issue_at(self@.manifests, a, b) is None,
            decreases self.manifests.len() - i,
        {
            let deps = &self.manifests[i].dependencies;
            let mut k: usize = 0;
            while k < deps.len()
                invariant
                    i < self.manifests@.len(),
                    *deps == self.manifests@[i as int].dependencies,
                    k <= deps@.len(),
                    exists|o: Seq<int>| #[trigger] respects(load_constraints(self@.manifests), o),
                    forall|a: int, b: int| #![trigger load_issue_at(self@.manifests, a, b)]
                        0 <= a < i && 0 <= b < self@.manifests[a].dependencies@.len() ==> load_issue_at(self@.manifests, a, b) is None,
                    forall|b: int| #![trigger load_issue_at(self@.manifests, i as int, b)] 0 <= b < k ==> load_issue_at(self@.manifests, i as int, b) is None,
                decreases deps.len() - k,
            {
                let res = self.load_check(&deps[k]);
                if res.is_err() {
                    proof {
                        assert(load_issue_at(self@.manifests, i as int, k as int) == load_issue(self@.manifests, deps@[k as int]));
                    }
                    return res;
                }
                k = k + 1;
            }
            i = i + 1;
        }
        Ok(())
    }

    /// The decisions of registering all compatible plugins, before any is
    /// loaded: resolve the dependencies; order the manifests so that each
    /// follows those it requires (taking the first known among those ready);
    /// sort that order stably by load priority; keep the manifests that
    /// accept the host API version. Answers the manifests to load, in order.
    pub fn plan_registration(&self, api_version: &ApiVersion) -> (r: Result<Vec<&PluginManifest>, PluginSystemError>)
        ensures
            match r {
                Err(PluginSystemError::DependencyResolution(e)) => resolution_outcome(self@.manifests, Err(e)),
                Err(PluginSystemError::VersionParsing(ve)) => resolution_outcome(self@.manifests, Ok(()))
                    && semver_version_parse(api_version_text(*api_version)) is Err
                    && ve@ == VersionErrorView::ParseError("Internal API version parse error: "@
                        + semver_version_parse(api_version_text(*api_version))->Err_0),
                Err(_) => false,
                Ok(v) => resolution_outcome(self@.manifests, Ok(())) && semver_version_parse(api_version_text(*api_version)) is Ok
                    && exists|t: Seq<int>, o: Seq<int>|
                        #[trigger] greedy(load_constraints(self@.manifests), index_tie_break(self@.manifests.len() as int), t)
                        && complete(t, self@.manifests.len() as int)
                        && #[trigger] greedy(no_constraints(t.len() as int), priority_tie_break(self@.manifests, t), o)
                        && complete(o, t.len() as int)
                        && v@.map_values(|m: &PluginManifest| *m) == compatible_in_order(
                            self@.manifests,
                            o.map_values(|i: int| t[i]),
                            semver_version_parse(api_version_text(*api_version))->Ok_0,
                        ),
            },
    {
        match self.resolve_dependencies() {
            Err(e) => return Err(PluginSystemError::DependencyResolution(e)),
            Ok(_) => {},
        }
        let n = self.manifests.len();
        let prec = load_matrix(&self.manifests);
        let ghost p = prec@.map_values(|row: Vec<bool>| row@);
        let first = index_matrix(n);
        proof {
            lemma_index_tie_break_total(n as int);
            assert(square(p, n as int));
        }
        let topo = match greedy_order(&prec, &first) {
            Ok(order) => order,
            Err(_) => {
                proof {
                    let o = choose|o: Seq<int>| #[trigger] respects(load_constraints(self@.manifests), o);
                    assert(!respects(p, o));
                }
                return Err(PluginSystemError::InternalError(String::new()));
            },
        };
        let ghost t = topo@.map_values(|x: usize| x as int);
        proof {
            assert forall|k: int| 0 <= k < topo@.len() implies #[trigger] topo@[k] < n by {
                assert(chosen(p, first@.map_values(|row: Vec<bool>| row@), t.take(k), t[k]));
            }
        }
        // Stable sort of the topological order by load priority.
        let mut keys: Vec<PluginPriority> = Vec::new();
        let mut k: usize = 0;
        while k < topo.len()
            invariant
                k <= topo@.len(),
                n == self.manifests@.len(),
                forall|j: int| 0 <= j < topo@.len() ==> #[trigger] topo@[j] < n,
                keys@.len() == k,
                forall|j: int| 0 <= j < k ==> #[trigger] keys@[j] == load_priority(self.manifests@[topo@[j] as int]),
            decreases topo.len() - k,
        {
            keys.push(manifest_priority(&self.manifests[topo[k]]));
            k = k + 1;
        }
        let m = topo.len();
        let mut none: Vec<Vec<bool>> = Vec::new();
        let mut tie: Vec<Vec<bool>> = Vec::new();
        let mut x: usize = 0;
        while x < m
            invariant
                x <= m,
                m == topo@.len(),
                keys@.len() == m,
                t == topo@.map_values(|x: usize| x as int),
                forall|j: int| 0 <= j < topo@.len() ==> #[trigger] topo@[j] < n,
                n == self.manifests@.len(),
                forall|j: int| 0 <= j < m ==> #[trigger] keys@[j] == load_priority(self.manifests@[topo@[j] as int]),
                none@.len() == x,
                tie@.len() == x,
                forall|a: int| 0 <= a < x ==> #[trigger] none@[a]@ == no_constraints(m as int)[a],
                forall|a: int| 0 <= a < x ==> #[trigger] tie@[a]@ == priority_tie_break(self@.manifests, t)[a],
            decreases m - x,
        {
            let mut row_n: Vec<bool> = Vec::new();
            let mut row_t: Vec<bool> = Vec::new();
            let mut y: usize = 0;
            while y < m
                invariant
                    x < m,
                    y <= m,
                    m == topo@.len(),
                    keys@.len() == m,
                    t == topo@.map_values(|x: usize| x as int),
                    forall|j: int| 0 <= j < m ==> #[trigger] keys@[j] == load_priority(self.manifests@[topo@[j] as int]),
                    row_n@.len() == y,
                    row_t@.len() == y,
                    forall|b: int| 0 <= b < y ==> #[trigger] row_n@[b] == no_constraints(m as int)[x as int][b],
                    forall|b: int| 0 <= b < y ==> #[trigger] row_t@[b] == priority_tie_break(self@.manifests, t)[x as int][b],
                decreases m - y,
            {
                row_n.push(false);
                let c = keys[x].compare(&keys[y]);
                row_t.push(c < 0 || (c == 0 && x < y));
                y = y + 1;
            }
            assert(row_n@ =~= no_constraints(m as int)[x as int]);
            assert(row_t@ =~= priority_tie_break(self@.manifests, t)[x as int]);
            none.push(row_n);
            tie.push(row_t);
            x = x + 1;
        }
        assert(none@.map_values(|row: Vec<bool>| row@) =~= no_constraints(m as int));
        assert(tie@.map_values(|row: Vec<bool>| row@) =~= priority_tie_break(self@.manifests, t));
        proof {
            lemma_priority_tie_break_total(self@.manifests, t);
        }
        let sorted = match greedy_order(&none, &tie) {
            Ok(order) => order,
            Err(_) => {
                proof {
                    let nc = no_constraints(m as int);
                    let id = Seq::new(m as nat, |i: int| i);
                    assert(respects(nc, id)) by {
                        assert forall|z: int| 0 <= z < nc.len() implies #[trigger] id.contains(z) by {
                            assert(id[z] == z);
                        }
                    }
                }
                return Err(PluginSystemError::InternalError(String::new()));
            },
        };
        let ghost o = sorted@.map_values(|x: usize| x as int);
        let api_text = api_version.to_string();
        let api_semver = match parse_sem_version(api_text.as_str()) {
            Ok(v) => v,
            Err(e) => {
                let msg = String::from_str("Internal API version parse error: ").concat(e.as_str());
                return Err(PluginSystemError::VersionParsing(VersionError::ParseError(msg)));
            },
        };
        proof {
            assert forall|k: int| 0 <= k < sorted@.len() implies #[trigger] sorted@[k] < m by {
                assert(chosen(no_constraints(m as int), priority_tie_break(self@.manifests, t), o.take(k), o[k]));
            }
        }
        let ghost idx = o.map_values(|i: int| t[i]);
        let mut out: Vec<&PluginManifest> = Vec::new();
        let mut q: usize = 0;
        while q < sorted.len()
            invariant
                q <= sorted@.len(),
                o == sorted@.map_values(|x: usize| x as int),
                t == topo@.map_values(|x: usize| x as int),
                idx == o.map_values(|i: int| t[i]),
                forall|j: int| 0 <= j < sorted@.len() ==> #[trigger] sorted@[j] < m,
                m == topo@.len(),
                forall|j: int| 0 <= j < topo@.len() ==> #[trigger] topo@[j] < n,
                n == self.manifests@.len(),
                out@.map_values(|mf: &PluginManifest| *mf) == compatible_in_order(self@.manifests, idx.take(q as int), api_semver@),
            decreases sorted.len() - q,
        {
            let mi = topo[sorted[q]];
            let mf = &self.manifests[mi];
            proof {
                assert(idx.take(q + 1).drop_last() =~= idx.take(q as int));
                assert(idx.take(q + 1).last() == mi as int);
            }
            let ghost before = out@;
            if accepts_api(mf, &api_semver) {
                out.push(mf);
                assert(out@.map_values(|mf: &PluginManifest| *mf) =~= before.map_values(|mf: &PluginManifest| *mf).push(*mf));
            }
            q = q + 1;
        }
        assert(idx.take(sorted@.len() as int) =~= idx);
        Ok(out)
    }
}

} // verus!
