# gini-core

The core of the Gini application framework: plugin metadata and manifests,
versions and version requirements, plugin priorities, conflict detection and
resolution, dependency resolution and ordering, and the bookkeeping of event
dispatch and kernel components.

## Layout

- `src/` — the library, written in Verus. Its functions carry contracts that
  Verus proves, except a few small trusted wrappers (`external_body`) around
  calls into `semver` and `std` (reading a version or requirement, matching,
  comparing prereleases, type identifiers, lower-casing, debug text), whose
  contracts are believed as the outside crate documents them:
  - `text`, `version`, `priority`: reading and printing decimal numbers, API
    versions (`major.minor.patch`) and priorities (`category:value`).
  - `semver_model`, `bounds`: version requirements as `semver` reads them, and
    the lower and upper bounds they admit (to tell disjoint requirements).
  - `dependency`, `manifest`, `loader`: dependencies, manifests and the
    resolution of dependencies between manifests (cycles, missing plugins,
    version mismatches), the registration plan.
  - `conflict`, `pair_conflicts`: kinds of conflicts, the conflict manager,
    resource claims, and the conflicts between two plugins.
  - `ordering`: ordering items after those they must follow, taking the first
    ready item by a tie-break, or proving that no order exists.
  - `registry`: registered plugins (in name order), enabling, dependency
    checks, conflict detection, initialization and shutdown orders, and the
    plans that initialization follows.
  - `plugin_manager`: the decisions of the plugin manager (admitting a
    manifest, the persisted list of disabled plugins, dependents).
  - `event`, `dispatcher`, `kernel`, `adapter`: events, handler registration
    and the event queue, the component registry, and the adapter registry.
  The `lemma_*` proof functions state the laws the library keeps (round trips
  of text forms, orders that respect dependencies, identifiers never shared).
- `tests/` — tests of the library on concrete values.
- `app/` — the runtime around the library: the plugin trait, loading plugins
  from dynamic libraries, reading manifest files, asynchronous event
  dispatch, the plugin manager and the application lifecycle.
