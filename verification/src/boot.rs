//! Checks made before the built-in plugins are loaded: each plugin's ABI
//! version, the permissions it asks for against those it is granted, that
//! every capability it imports is exported by some plugin, and that its
//! dependencies come earlier in the load order; and the dependency and
//! mount edges the manifests add to the graph.

use vstd::prelude::*;
use crate::bytebuf::{bytes_eq, copy_vec};

verus! {

/// What a permission lets a plugin touch.
#[derive(Debug, Clone, Copy, PartialEq, Eq, Structural)]
pub enum PermissionKind {
    PortIo,
    PhysMap,
    IrqBind,
    GraphRead,
    GraphWrite,
    CapabilityConsume,
    CapabilityExport,
    ExternalSync,
    ScheduleHint,
}

/// A permission with its two arguments (a port range, a physical window,
/// an IRQ line); in a grant, `u64::MAX` stands for any value.
#[derive(Debug, Clone, Copy, PartialEq, Eq, Structural)]
pub struct PermissionSpec {
    pub kind: PermissionKind,
    pub arg0: u64,
    pub arg1: u64,
}

/// A `major.minor.patch` ABI version.
#[derive(Debug, Clone, Copy, PartialEq, Eq, Structural)]
pub struct AbiVersion {
    pub major: u16,
    pub minor: u16,
    pub patch: u16,
}

/// A capability by namespace and name, as exported or imported.
#[derive(Debug, Clone, PartialEq, Eq)]
pub struct CapabilityName {
    pub namespace: Vec<u8>,
    pub name: Vec<u8>,
}

/// What a plugin's manifest declares that the boot checks read.
#[derive(Debug, Clone, PartialEq, Eq)]
pub struct PluginManifest {
    pub plugin_id: u64,
    pub abi_version: AbiVersion,
    pub depends_on: Vec<u64>,
    pub exports: Vec<CapabilityName>,
    pub imports: Vec<CapabilityName>,
}

#[derive(Debug, Clone, PartialEq, Eq)]
pub enum BuiltinBootError {
    AbiVersionMismatch(u64),
    MissingDependency(u64),
    PermissionDenied(u64),
    /// The plugin and the name of the capability it imports.
    UnresolvedImport(u64, Vec<u8>),
}

/// A plugin built for `plugin` runs on a host at `host`: the majors agree
/// and the plugin's minor is not newer; the patch level is not compared.
pub open spec fn spec_abi_compatible(plugin: AbiVersion, host: AbiVersion) -> bool {
    plugin.major == host.major && plugin.minor <= host.minor
}

pub fn abi_compatible(plugin: AbiVersion, host: AbiVersion) -> (r: bool)
    ensures
        r == spec_abi_compatible(plugin, host),
{
    plugin.major == host.major && plugin.minor <= host.minor
}

/// Refuse a manifest whose ABI version the host cannot run.
pub fn validate_manifest(manifest: &PluginManifest, host: AbiVersion) -> (r: Result<(), BuiltinBootError>)
    ensures
        spec_abi_compatible(manifest.abi_version, host) ==> r == Ok::<(), BuiltinBootError>(()),
        !spec_abi_compatible(manifest.abi_version, host)
            ==> r == Err::<(), BuiltinBootError>(BuiltinBootError::AbiVersionMismatch(manifest.plugin_id)),
{
    if abi_compatible(manifest.abi_version, host) {
        Ok(())
    } else {
        Err(BuiltinBootError::AbiVersionMismatch(manifest.plugin_id))
    }
}

/// `grant` covers `req`: same kind, and each argument equal or wildcarded.
pub open spec fn covers(grant: PermissionSpec, req: PermissionSpec) -> bool {
    grant.kind == req.kind
        && (grant.arg0 == u64::MAX || grant.arg0 == req.arg0)
        && (grant.arg1 == u64::MAX || grant.arg1 == req.arg1)
}

pub open spec fn granted(grants: Seq<PermissionSpec>, req: PermissionSpec) -> bool {
    exists|g: int| 0 <= g < grants.len() && covers(#[trigger] grants[g], req)
}

/// Some grant covers `req`.
pub fn permission_granted(req: PermissionSpec, grants: &[PermissionSpec]) -> (r: bool)
    ensures
        r == granted(grants@, req),
{
    let mut g: usize = 0;
    while g < grants.len()
        invariant
            g <= grants@.len(),
            forall|j: int| 0 <= j < g ==> !covers(#[trigger] grants@[j], req),
        decreases grants@.len() - g,
    {
        let gr = grants[g];
        if gr.kind == req.kind && (gr.arg0 == u64::MAX || gr.arg0 == req.arg0)
            && (gr.arg1 == u64::MAX || gr.arg1 == req.arg1) {
            assert(covers(grants@[g as int], req));
            return true;
        }
        g = g + 1;
    }
    false
}

/// Every requested permission is covered by a grant; otherwise the plugin
/// is refused.
pub fn ensure_permissions(plugin_id: u64, requested: &[PermissionSpec], grants: &[PermissionSpec])
    -> (r: Result<(), BuiltinBootError>)
    ensures
        (forall|i: int| 0 <= i < requested@.len() ==> granted(grants@, #[trigger] requested@[i]))
            ==> r == Ok::<(), BuiltinBootError>(()),
        !(forall|i: int| 0 <= i < requested@.len() ==> granted(grants@, #[trigger] requested@[i]))
            ==> r == Err::<(), BuiltinBootError>(BuiltinBootError::PermissionDenied(plugin_id)),
{
    let mut i: usize = 0;
    while i < requested.len()
        invariant
            i <= requested@.len(),
            forall|j: int| 0 <= j < i ==> granted(grants@, #[trigger] requested@[j]),
        decreases requested@.len() - i,
    {
        if !permission_granted(requested[i], grants) {
            return Err(BuiltinBootError::PermissionDenied(plugin_id));
        }
        i = i + 1;
    }
    Ok(())
}

pub open spec fn same_capability(export: CapabilityName, import: CapabilityName) -> bool {
    export.namespace@ == import.namespace@ && export.name@ == import.name@
}

/// Some plugin exports the capability.
pub open spec fn exported(modules: Seq<PluginManifest>, import: CapabilityName) -> bool {
    exists|m: int, e: int| 0 <= m < modules.len() && 0 <= e < modules[m].exports@.len()
        && same_capability(#[trigger] modules[m].exports@[e], import)
}

/// Whether any plugin exports `import`'s capability.
pub fn capability_is_exported(import: &CapabilityName, modules: &[PluginManifest]) -> (r: bool)
    ensures
        r == exported(modules@, *import),
{
    let mut m: usize = 0;
    while m < modules.len()
        invariant
            m <= modules@.len(),
            forall|a: int, e: int| 0 <= a < m && 0 <= e < modules@[a].exports@.len()
                ==> !same_capability(#[trigger] modules@[a].exports@[e], *import),
        decreases modules@.len() - m,
    {
        let exports = &modules[m].exports;
        let mut e: usize = 0;
        while e < exports.len()
            invariant
                m < modules@.len(),
                exports@ == modules@[m as int].exports@,
                e <= exports@.len(),
                forall|j: int| 0 <= j < e ==> !same_capability(#[trigger] exports@[j], *import),
            decreases exports@.len() - e,
        {
            let ex = &exports[e];
            if bytes_eq(ex.namespace.as_slice(), import.namespace.as_slice())
                && bytes_eq(ex.name.as_slice(), import.name.as_slice()) {
                assert(same_capability(modules@[m as int].exports@[e as int], *import));
                return true;
            }
            e = e + 1;
        }
        m = m + 1;
    }
    false
}

/// Every import of every plugin must be exported by some plugin; the first
/// that is not is reported with its plugin.
pub fn validate_imports(modules: &[PluginManifest]) -> (r: Result<(), BuiltinBootError>)
    ensures
        (forall|m: int, i: int| 0 <= m < modules@.len() && 0 <= i < modules@[m].imports@.len()
            ==> exported(modules@, #[trigger] modules@[m].imports@[i])) <==> r == Ok::<(), BuiltinBootError>(()),
        r matches Err(e) ==> exists|m: int, i: int| 0 <= m < modules@.len() && 0 <= i < modules@[m].imports@.len()
            && !exported(modules@, #[trigger] modules@[m].imports@[i])
            && (forall|a: int, j: int| 0 <= a < m && 0 <= j < modules@[a].imports@.len()
                ==> exported(modules@, #[trigger] modules@[a].imports@[j]))
            && (forall|j: int| 0 <= j < i ==> exported(modules@, #[trigger] modules@[m].imports@[j]))
            && (e matches BuiltinBootError::UnresolvedImport(p, name)
                && p == modules@[m].plugin_id && name@ == modules@[m].imports@[i].name@),
{
    let mut m: usize = 0;
    while m < modules.len()
        invariant
            m <= modules@.len(),
            forall|a: int, j: int| 0 <= a < m && 0 <= j < modules@[a].imports@.len()
                ==> exported(modules@, #[trigger] modules@[a].imports@[j]),
        decreases modules@.len() - m,
    {
        let imports = &modules[m].imports;
        let mut i: usize = 0;
        while i < imports.len()
            invariant
                m < modules@.len(),
                imports@ == modules@[m as int].imports@,
                i <= imports@.len(),
                forall|a: int, j: int| 0 <= a < m && 0 <= j < modules@[a].imports@.len()
                    ==> exported(modules@, #[trigger] modules@[a].imports@[j]),
                forall|j: int| 0 <= j < i ==> exported(modules@, #[trigger] modules@[m as int].imports@[j]),
            decreases imports@.len() - i,
        {
            if !capability_is_exported(&imports[i], modules) {
                let name = copy_vec(imports[i].name.as_slice());
                return Err(BuiltinBootError::UnresolvedImport(modules[m].plugin_id, name));
            }
            i = i + 1;
        }
        m = m + 1;
    }
    Ok(())
}

/// Where the first plugin with id `id` stands.
pub open spec fn position_of(ids: Seq<u64>, id: u64) -> Option<int>
    decreases ids.len(),
{
    if ids.len() == 0 {
        None
    } else {
        match position_of(ids.drop_last(), id) {
            Some(k) => Some(k),
            None => if ids.last() == id { Some(ids.len() - 1) } else { None },
        }
    }
}

/// A dependency is met when the first plugin with its id is loaded.
pub open spec fn dep_met(ids: Seq<u64>, loaded: Seq<bool>, dep: u64) -> bool {
    match position_of(ids, dep) {
        Some(k) => loaded[k],
        None => false,
    }
}

proof fn lemma_position_of(ids: Seq<u64>, id: u64)
    ensures
        position_of(ids, id) matches Some(k) ==> 0 <= k < ids.len() && ids[k] == id
            && forall|j: int| 0 <= j < k ==> #[trigger] ids[j] != id,
        position_of(ids, id) is None ==> forall|j: int| 0 <= j < ids.len() ==> #[trigger] ids[j] != id,
    decreases ids.len(),
{
    if ids.len() > 0 {
        lemma_position_of(ids.drop_last(), id);
        assert forall|j: int| 0 <= j < ids.len() - 1 implies #[trigger] ids[j] == ids.drop_last()[j] by {}
    }
}

/// Where `id` first occurs in `ids`.
fn find_position(ids: &[u64], id: u64) -> (r: Option<usize>)
    ensures
        match position_of(ids@, id) {
            Some(k) => r == Some(k as usize),
            None => r is None,
        },
{
    proof { lemma_position_of(ids@, id); }
    let mut k: usize = 0;
    while k < ids.len()
        invariant
            k <= ids@.len(),
            forall|j: int| 0 <= j < k ==> #[trigger] ids@[j] != id,
        decreases ids@.len() - k,
    {
        if ids[k] == id {
            proof { lemma_position_of(ids@, id); }
            return Some(k);
        }
        k = k + 1;
    }
    proof { lemma_position_of(ids@, id); }
    None
}

/// The first dependency in `deps` that is not met: no plugin has its id,
/// or the first plugin with its id is not loaded yet.
pub fn first_missing_dependency(deps: &[u64], loaded: &[bool], ids: &[u64]) -> (r: Option<u64>)
    requires
        loaded@.len() == ids@.len(),
    ensures
        r is None <==> forall|d: int| 0 <= d < deps@.len() ==> dep_met(ids@, loaded@, #[trigger] deps@[d]),
        r matches Some(dep) ==> exists|d: int| 0 <= d < deps@.len() && #[trigger] deps@[d] == dep
            && !dep_met(ids@, loaded@, dep)
            && forall|e: int| 0 <= e < d ==> dep_met(ids@, loaded@, #[trigger] deps@[e]),
{
    let mut d: usize = 0;
    while d < deps.len()
        invariant
            d <= deps@.len(),
            loaded@.len() == ids@.len(),
            forall|e: int| 0 <= e < d ==> dep_met(ids@, loaded@, #[trigger] deps@[e]),
        decreases deps@.len() - d,
    {
        let dep = deps[d];
        proof { lemma_position_of(ids@, dep); }
        let met = match find_position(ids, dep) {
            Some(k) => loaded[k],
            None => false,
        };
        if !met {
            assert(!dep_met(ids@, loaded@, deps@[d as int]));
            return Some(dep);
        }
        d = d + 1;
    }
    None
}

/// The plugin ids in load order.
pub open spec fn ids_of(modules: Seq<PluginManifest>) -> Seq<u64> {
    Seq::new(modules.len(), |i: int| modules[i].plugin_id)
}

/// Plugin `i` may load after the plugins before it: each of its
/// dependencies is a plugin whose first occurrence comes earlier.
pub open spec fn deps_before(modules: Seq<PluginManifest>, i: int) -> bool {
    forall|d: int| 0 <= d < modules[i].depends_on@.len() ==> match position_of(ids_of(modules), #[trigger] modules[i].depends_on@[d]) {
        Some(k) => k < i,
        None => false,
    }
}

/// Walk the plugins in load order, each loading once its dependencies
/// have; the first plugin with a dependency not loaded before it stops the
/// walk with that dependency.  On success every plugin is loaded.
pub fn check_load_order(modules: &[PluginManifest]) -> (r: Result<Vec<bool>, BuiltinBootError>)
    ensures
        (forall|i: int| 0 <= i < modules@.len() ==> deps_before(modules@, i)) <==> r is Ok,
        r matches Ok(loaded) ==> loaded@.len() == modules@.len() && forall|i: int| 0 <= i < loaded@.len() ==> #[trigger] loaded@[i],
        r matches Err(e) ==> exists|i: int| 0 <= i < modules@.len() && !deps_before(modules@, i)
            && (forall|j: int| 0 <= j < i ==> #[trigger] deps_before(modules@, j))
            && (e matches BuiltinBootError::MissingDependency(dep)
                && exists|d: int| 0 <= d < modules@[i].depends_on@.len() && #[trigger] modules@[i].depends_on@[d] == dep),
{
    let ids = plugin_ids(modules);
    let mut loaded: Vec<bool> = Vec::new();
    while loaded.len() < modules.len()
        invariant
            loaded@.len() <= modules@.len(),
            forall|i: int| 0 <= i < loaded@.len() ==> !#[trigger] loaded@[i],
        decreases modules@.len() - loaded@.len(),
    {
        loaded.push(false);
    }
    let mut idx: usize = 0;
    while idx < modules.len()
        invariant
            idx <= modules@.len(),
            ids@ == ids_of(modules@),
            loaded@.len() == modules@.len(),
            forall|i: int| 0 <= i < modules@.len() ==> #[trigger] loaded@[i] == (i < idx),
            forall|j: int| 0 <= j < idx ==> #[trigger] deps_before(modules@, j),
        decreases modules@.len() - idx,
    {
        let deps = modules[idx].depends_on.as_slice();
        proof {
            assert forall|d: int| 0 <= d < deps@.len() implies
                dep_met(ids@, loaded@, #[trigger] deps@[d]) == match position_of(ids@, deps@[d]) {
                    Some(k) => k < idx,
                    None => false,
                } by {
                lemma_position_of(ids@, deps@[d]);
            }
        }
        match first_missing_dependency(deps, loaded.as_slice(), ids.as_slice()) {
            Some(dep) => {
                proof {
                    let d = choose|d: int| 0 <= d < deps@.len() && #[trigger] deps@[d] == dep
                        && !dep_met(ids@, loaded@, dep)
                        && forall|e: int| 0 <= e < d ==> dep_met(ids@, loaded@, #[trigger] deps@[e]);
                    assert(!deps_before(modules@, idx as int)) by {
                        assert(!dep_met(ids@, loaded@, deps@[d]));
                    }
                }
                return Err(BuiltinBootError::MissingDependency(dep));
            },
            None => {},
        }
        loaded.set(idx, true);
        idx = idx + 1;
    }
    Ok(loaded)
}

/// The outcome of loading the built-in plugins.
#[derive(Debug, Clone, Copy, PartialEq, Eq, Structural)]
pub struct BuiltinBootReport {
    pub discovered_plugins: usize,
    pub loaded_plugins: usize,
    pub stable_after_load: bool,
}

/// The number of `true` entries.
pub open spec fn count_true(s: Seq<bool>) -> nat
    decreases s.len(),
{
    if s.len() == 0 { 0 } else { count_true(s.drop_last()) + (if s.last() { 1nat } else { 0 }) }
}

/// The report after loading: every module was discovered, those marked
/// `loaded` were loaded.
pub fn boot_report(loaded: &[bool], stable: bool) -> (r: BuiltinBootReport)
    ensures
        r.discovered_plugins == loaded@.len(),
        r.loaded_plugins == count_true(loaded@),
        r.stable_after_load == stable,
{
    let mut n: usize = 0;
    let mut i: usize = 0;
    while i < loaded.len()
        invariant
            i <= loaded@.len(),
            n == count_true(loaded@.take(i as int)),
            n <= i,
        decreases loaded@.len() - i,
    {
        assert(loaded@.take(i + 1).drop_last() =~= loaded@.take(i as int));
        if loaded[i] {
            n = n + 1;
        }
        i = i + 1;
    }
    assert(loaded@.take(loaded@.len() as int) =~= loaded@);
    BuiltinBootReport { discovered_plugins: loaded.len(), loaded_plugins: n, stable_after_load: stable }
}


/// An edge the boot adds to the graph from the plugins' manifests, between
/// plugins' primary nodes.
#[derive(Debug, Clone, Copy, PartialEq, Eq)]
pub enum ManifestEdge {
    /// A `manifest.depend` edge: node `from`'s plugin depends on node `to`'s.
    Depend { from: u64, to: u64 },
    /// A mount edge: node `from`'s plugin imports export `export` of plugin
    /// number `provider`, whose primary node is `to`.
    Mount { from: u64, to: u64, provider: usize, export: usize },
}

/// The primary node of the first plugin with id `dep`, if it has one.
pub open spec fn dep_node(modules: Seq<PluginManifest>, primary: Seq<Option<u64>>, dep: u64) -> Option<u64> {
    match position_of(ids_of(modules), dep) {
        Some(k) => primary[k],
        None => None,
    }
}

/// The depend edges from node `from`, one per dependency in order, up to
/// the first dependency with no primary node, which is reported.
pub open spec fn depend_edges(modules: Seq<PluginManifest>, primary: Seq<Option<u64>>, from: u64, deps: Seq<u64>)
    -> (Seq<ManifestEdge>, Option<u64>)
    decreases deps.len(),
{
    if deps.len() == 0 {
        (Seq::empty(), None)
    } else {
        let prev = depend_edges(modules, primary, from, deps.drop_last());
        if prev.1 is Some {
            prev
        } else {
            match dep_node(modules, primary, deps.last()) {
                Some(to) => (prev.0.push(ManifestEdge::Depend { from, to }), None),
                None => (prev.0, Some(deps.last())),
            }
        }
    }
}

/// The first export from index `e` on that is the capability `import`.
pub open spec fn export_index(exports: Seq<CapabilityName>, import: CapabilityName, e: int) -> Option<int>
    decreases exports.len() - e,
{
    if e < 0 || e >= exports.len() {
        None
    } else if same_capability(exports[e], import) {
        Some(e)
    } else {
        export_index(exports, import, e + 1)
    }
}

/// The first plugin from number `m` on that exports `import` and has a
/// primary node, with its first matching export.
pub open spec fn provider_from(modules: Seq<PluginManifest>, primary: Seq<Option<u64>>, import: CapabilityName, m: int)
    -> Option<(int, int)>
    decreases modules.len() - m,
{
    if m < 0 || m >= modules.len() {
        None
    } else {
        match export_index(modules[m].exports@, import, 0) {
            Some(e) => if primary[m] is Some { Some((m, e)) } else { provider_from(modules, primary, import, m + 1) },
            None => provider_from(modules, primary, import, m + 1),
        }
    }
}

/// The mount edges from node `from`, one per import that some plugin with
/// a primary node exports; imports nobody provides are skipped.
pub open spec fn mount_edges(modules: Seq<PluginManifest>, primary: Seq<Option<u64>>, from: u64,
    imports: Seq<CapabilityName>) -> Seq<ManifestEdge>
    decreases imports.len(),
{
    if imports.len() == 0 {
        Seq::empty()
    } else {
        let prev = mount_edges(modules, primary, from, imports.drop_last());
        match provider_from(modules, primary, imports.last(), 0) {
            Some(pe) => prev.push(ManifestEdge::Mount {
                from,
                to: primary[pe.0]->0,
                provider: pe.0 as usize,
                export: pe.1 as usize,
            }),
            None => prev,
        }
    }
}

/// The edges of plugin `i`: none without a primary node; else its depend
/// edges and, when every dependency has a node, its mount edges.
pub open spec fn module_edges(modules: Seq<PluginManifest>, primary: Seq<Option<u64>>, i: int)
    -> (Seq<ManifestEdge>, Option<u64>)
{
    match primary[i] {
        None => (Seq::empty(), None),
        Some(from) => {
            let d = depend_edges(modules, primary, from, modules[i].depends_on@);
            if d.1 is Some {
                d
            } else {
                (d.0 + mount_edges(modules, primary, from, modules[i].imports@), None)
            }
        },
    }
}

/// The edges of the first `k` plugins in order, stopping at the first
/// dependency without a node.
pub open spec fn manifest_edges(modules: Seq<PluginManifest>, primary: Seq<Option<u64>>, k: int)
    -> (Seq<ManifestEdge>, Option<u64>)
    decreases k,
{
    if k <= 0 {
        (Seq::empty(), None)
    } else {
        let prev = manifest_edges(modules, primary, k - 1);
        if prev.1 is Some {
            prev
        } else {
            let cur = module_edges(modules, primary, k - 1);
            (prev.0 + cur.0, cur.1)
        }
    }
}

/// The plugin ids in load order.
fn plugin_ids(modules: &[PluginManifest]) -> (ids: Vec<u64>)
    ensures
        ids@ == ids_of(modules@),
{
    let mut ids: Vec<u64> = Vec::new();
    let mut k: usize = 0;
    while k < modules.len()
        invariant
            k <= modules@.len(),
            ids@ == ids_of(modules@).take(k as int),
        decreases modules@.len() - k,
    {
        ids.push(modules[k].plugin_id);
        k = k + 1;
        assert(ids@ =~= ids_of(modules@).take(k as int));
    }
    assert(ids@ =~= ids_of(modules@));
    ids
}

fn export_index_of(exports: &[CapabilityName], import: &CapabilityName) -> (r: Option<usize>)
    ensures
        match export_index(exports@, *import, 0) {
            Some(e) => r == Some(e as usize),
            None => r is None,
        },
{
    let mut e: usize = 0;
    while e < exports.len()
        invariant
            e <= exports@.len(),
            export_index(exports@, *import, 0) == export_index(exports@, *import, e as int),
        decreases exports@.len() - e,
    {
        let ex = &exports[e];
        if bytes_eq(ex.namespace.as_slice(), import.namespace.as_slice())
            && bytes_eq(ex.name.as_slice(), import.name.as_slice()) {
            return Some(e);
        }
        e = e + 1;
    }
    None
}

fn provider_of(modules: &[PluginManifest], primary: &[Option<u64>], import: &CapabilityName) -> (r: Option<(usize, usize)>)
    requires
        primary@.len() == modules@.len(),
    ensures
        match provider_from(modules@, primary@, *import, 0) {
            Some(pe) => r == Some((pe.0 as usize, pe.1 as usize)) && 0 <= pe.0 < modules@.len()
                && primary@[pe.0] is Some,
            None => r is None,
        },
{
    let mut m: usize = 0;
    while m < modules.len()
        invariant
            m <= modules@.len(),
            primary@.len() == modules@.len(),
            provider_from(modules@, primary@, *import, 0) == provider_from(modules@, primary@, *import, m as int),
        decreases modules@.len() - m,
    {
        match export_index_of(modules[m].exports.as_slice(), import) {
            Some(e) => {
                if primary[m].is_some() {
                    return Some((m, e));
                }
            },
            None => {},
        }
        m = m + 1;
    }
    None
}

/// Once a dependency is missing, the later plugins add nothing.
proof fn lemma_manifest_stops(modules: Seq<PluginManifest>, primary: Seq<Option<u64>>, k0: int, k: int)
    requires
        0 <= k0 <= k,
        manifest_edges(modules, primary, k0).1 is Some,
    ensures
        manifest_edges(modules, primary, k) == manifest_edges(modules, primary, k0),
    decreases k - k0,
{
    if k > k0 {
        lemma_manifest_stops(modules, primary, k0, k - 1);
    }
}

/// The edges the boot registers from the plugins' manifests, in order: for
/// each plugin with a primary node (`primary`, one entry per plugin), a
/// depend edge to the primary node of each dependency, then a mount edge
/// to the first plugin with a node that exports each import.  A dependency
/// with no such node stops the walk: the edges before it are returned
/// with it.
pub fn plan_manifest_edges(modules: &[PluginManifest], primary: &[Option<u64>]) -> (r: (Vec<ManifestEdge>, Option<u64>))
    requires
        primary@.len() == modules@.len(),
    ensures
        r.0@ == manifest_edges(modules@, primary@, modules@.len() as int).0,
        r.1 == manifest_edges(modules@, primary@, modules@.len() as int).1,
{
    let ids = plugin_ids(modules);
    let mut out: Vec<ManifestEdge> = Vec::new();
    let mut i: usize = 0;
    while i < modules.len()
        invariant
            i <= modules@.len(),
            primary@.len() == modules@.len(),
            ids@ == ids_of(modules@),
            out@ == manifest_edges(modules@, primary@, i as int).0,
            manifest_edges(modules@, primary@, i as int).1 is None,
        decreases modules@.len() - i,
    {
        let ghost prefix = out@;
        match primary[i] {
            None => {
                assert(out@ =~= manifest_edges(modules@, primary@, i + 1).0);
            },
            Some(from) => {
                let deps = modules[i].depends_on.as_slice();
                let mut d: usize = 0;
                while d < deps.len()
                    invariant
                        i < modules@.len(),
                        primary@.len() == modules@.len(),
                        primary@[i as int] == Some(from),
                        ids@ == ids_of(modules@),
                        deps@ == modules@[i as int].depends_on@,
                        d <= deps@.len(),
                        prefix == manifest_edges(modules@, primary@, i as int).0,
                        manifest_edges(modules@, primary@, i as int).1 is None,
                        depend_edges(modules@, primary@, from, deps@.take(d as int)).1 is None,
                        out@ == prefix + depend_edges(modules@, primary@, from, deps@.take(d as int)).0,
                    decreases deps@.len() - d,
                {
                    let dep = deps[d];
                    assert(deps@.take(d + 1).drop_last() =~= deps@.take(d as int));
                    proof { lemma_position_of(ids@, dep); }
                    let node = match find_position(ids.as_slice(), dep) {
                        Some(k) => primary[k],
                        None => None,
                    };
                    match node {
                        Some(to) => {
                            out.push(ManifestEdge::Depend { from, to });
                            d = d + 1;
                        },
                        None => {
                            proof {
                                assert(depend_edges(modules@, primary@, from, deps@.take(d + 1)).1 == Some(dep));
                                lemma_depend_stops(modules@, primary@, from, deps@, d as int + 1);
                                assert(deps@.take(deps@.len() as int) =~= deps@);
                                let full = depend_edges(modules@, primary@, from, deps@);
                                assert(full.1 == Some(dep));
                                assert(full.0 == depend_edges(modules@, primary@, from, deps@.take(d as int)).0);
                                assert(module_edges(modules@, primary@, i as int) == full);
                                assert(manifest_edges(modules@, primary@, i + 1).0 =~= out@);
                                assert(manifest_edges(modules@, primary@, i + 1).1 == Some(dep));
                                lemma_manifest_stops(modules@, primary@, i + 1, modules@.len() as int);
                            }
                            return (out, Some(dep));
                        },
                    }
                    assert(out@ =~= prefix + depend_edges(modules@, primary@, from, deps@.take(d as int)).0);
                }
                assert(deps@.take(deps@.len() as int) =~= deps@);
                let ghost mid = out@;
                let imports = modules[i].imports.as_slice();
                let mut j: usize = 0;
                while j < imports.len()
                    invariant
                        i < modules@.len(),
                        primary@.len() == modules@.len(),
                        imports@ == modules@[i as int].imports@,
                        j <= imports@.len(),
                        primary@[i as int] == Some(from),
                        prefix == manifest_edges(modules@, primary@, i as int).0,
                        manifest_edges(modules@, primary@, i as int).1 is None,
                        mid == prefix + depend_edges(modules@, primary@, from, modules@[i as int].depends_on@).0,
                        depend_edges(modules@, primary@, from, modules@[i as int].depends_on@).1 is None,
                        out@ == mid + mount_edges(modules@, primary@, from, imports@.take(j as int)),
                    decreases imports@.len() - j,
                {
                    assert(imports@.take(j + 1).drop_last() =~= imports@.take(j as int));
                    match provider_of(modules, primary, &imports[j]) {
                        Some(pe) => {
                            let to = primary[pe.0].unwrap();
                            out.push(ManifestEdge::Mount { from, to, provider: pe.0, export: pe.1 });
                        },
                        None => {},
                    }
                    j = j + 1;
                    assert(out@ =~= mid + mount_edges(modules@, primary@, from, imports@.take(j as int)));
                }
                assert(imports@.take(imports@.len() as int) =~= imports@);
                assert(out@ =~= manifest_edges(modules@, primary@, i + 1).0);
            },
        }
        i = i + 1;
    }
    (out, None)
}

/// Once a dependency is missing, later ones change nothing.
proof fn lemma_depend_stops(modules: Seq<PluginManifest>, primary: Seq<Option<u64>>, from: u64, deps: Seq<u64>, k: int)
    requires
        0 <= k <= deps.len(),
        depend_edges(modules, primary, from, deps.take(k)).1 is Some,
    ensures
        depend_edges(modules, primary, from, deps.take(deps.len() as int))
            == depend_edges(modules, primary, from, deps.take(k)),
    decreases deps.len() - k,
{
    if k < deps.len() {
        assert(deps.take(k + 1).drop_last() =~= deps.take(k));
        lemma_depend_stops(modules, primary, from, deps, k + 1);
    }
}

} // verus!
