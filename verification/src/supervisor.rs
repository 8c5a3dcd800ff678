//! The supervisor's bookkeeping: modules and their address-space domains,
//! node instances on four ready lanes, resource claims with exclusive or
//! shared leases and preemption, and per-instance heap page quotas.

use vstd::prelude::*;

pub mod queue;
pub mod sched;
pub mod teardown;
pub mod restart;
pub mod ipc;
pub mod abi;

use self::queue::IdQueue;
use self::ipc::IpcTables;

verus! {


pub const MAX_MODULES: usize = 32;
pub const MAX_INSTANCES: usize = 128;
pub const MAX_RESOURCES: usize = 32;
pub const MAX_CLAIMS: usize = 128;
pub const MAX_REVOKES: usize = 128;
pub const MAX_HEAP_GRANTS: usize = 256;

pub const DOMAIN_BASE: u64 = 0xFFFF_9000_0000_0000;
pub const DOMAIN_STRIDE: u64 = 0x0000_0000_0200_0000;
pub const DEFAULT_IMAGE_WINDOW: u64 = 0x0000_0000_0010_0000;
pub const DEFAULT_STACK_WINDOW: u64 = 0x0000_0000_0002_0000;
pub const DEFAULT_IPC_WINDOW: u64 = 0x0000_0000_0002_0000;
pub const DEFAULT_HEAP_WINDOW: u64 = 0x0000_0000_0100_0000;
pub const PAGE_BYTES: u64 = 4096;
/// Heap pages an instance of a default template may hold.
pub const DEFAULT_HEAP_MAX_PAGES: u32 = 32;

/// The resources registered at bootstrap, in registration order.
pub const RESOURCE_FRAME_ALLOC: u64 = 1;
pub const RESOURCE_PAGE_MAPPER: u64 = 2;
pub const RESOURCE_DISPLAY_CONSOLE: u64 = 3;
pub const RESOURCE_HEAP_SOURCE: u64 = 4;
pub const RESOURCE_GPU_ACCEL: u64 = 5;

#[derive(Debug, Clone, Copy, PartialEq, Eq, Structural)]
pub enum SupervisorError {
    NotBootstrapped,
    ModuleTableFull,
    TemplateTableFull,
    InstanceTableFull,
    ResourceTableFull,
    ClaimTableFull,
    RevokeTableFull,
    HeapGrantTableFull,
    CapabilityTableFull,
    EndpointTableFull,
    SubscriptionTableFull,
    QueueFull,
    ModuleNotFound,
    TemplateNotFound,
    InstanceNotFound,
    ResourceNotFound,
    ClaimNotFound,
    HeapGrantNotFound,
    EndpointNotFound,
    CapabilityNotFound,
    ResourceBusy,
    HeapQuotaExceeded,
    NoActiveInstance,
    InvalidState,
    ModuleRejected,
    DomainCreateFailed,
}

#[derive(Debug, Clone, Copy, PartialEq, Eq, Structural)]
pub struct SupervisorSnapshot {
    pub installed_modules: usize,
    pub registered_templates: usize,
    pub live_instances: usize,
    pub ready_instances: usize,
    pub waiting_instances: usize,
    pub suspended_instances: usize,
    pub registered_resources: usize,
    pub active_claims: usize,
    pub pending_revocations: usize,
    pub queued_restarts: usize,
    pub running_modules: usize,
    pub isolated_domains: usize,
    pub heap_grants: usize,
    pub heap_pages_used: usize,
    pub published_capabilities: usize,
    pub endpoints: usize,
    pub queued_messages: usize,
    pub ready_control: usize,
    pub ready_io: usize,
    pub ready_compute: usize,
    pub ready_background: usize,
}

#[derive(Debug, Clone, Copy, PartialEq, Eq, Structural)]
pub struct SupervisorBootReport {
    pub discovered_modules: usize,
    pub running_modules: usize,
    pub isolated_domains: usize,
    pub published_capabilities: usize,
}

/// A module's isolated address-space layout.
#[derive(Debug, Clone, Copy, PartialEq, Eq, Structural)]
pub struct ModuleDomain {
    pub id: u64,
    pub root_table_phys: u64,
    pub image_base: u64,
    pub image_len: u64,
    pub stack_base: u64,
    pub stack_len: u64,
    pub ipc_base: u64,
    pub ipc_len: u64,
    pub heap_base: u64,
    pub heap_len: u64,
    pub isolated: bool,
}

pub open spec fn empty_domain() -> ModuleDomain {
    ModuleDomain {
        id: 0, root_table_phys: 0, image_base: 0, image_len: 0, stack_base: 0, stack_len: 0,
        ipc_base: 0, ipc_len: 0, heap_base: 0, heap_len: 0, isolated: false,
    }
}

fn make_empty_domain() -> (r: ModuleDomain)
    ensures
        r == empty_domain(),
{
    ModuleDomain {
        id: 0, root_table_phys: 0, image_base: 0, image_len: 0, stack_base: 0, stack_len: 0,
        ipc_base: 0, ipc_len: 0, heap_base: 0, heap_len: 0, isolated: false,
    }
}

#[derive(Debug, Clone, Copy, PartialEq, Eq, Structural)]
pub enum ModuleLifecycle {
    Installed,
    Validated,
    Mapped,
    Instantiated,
    Running,
    Quiescing,
    Stopped,
    Faulted,
}

#[derive(Debug, Clone, Copy, PartialEq, Eq, Structural)]
pub enum NodeInstanceLifecycle {
    Ready,
    Running,
    WaitingClaim,
    Suspended,
    Stopped,
    Faulted,
}

#[derive(Debug, Clone, Copy, PartialEq, Eq, Structural)]
pub enum ExecutionLaneClass {
    Control,
    Io,
    Compute,
    Background,
}

#[derive(Debug, Clone, Copy, PartialEq, Eq, Structural)]
pub enum ClaimPolicy {
    Exclusive,
    Shared,
}

#[derive(Debug, Clone, Copy, PartialEq, Eq, Structural)]
pub enum PreemptPolicy {
    Never,
    Try,
    Force,
}

/// A granted claim as its holder sees it.
#[derive(Debug, Clone, Copy, PartialEq, Eq, Structural)]
pub struct ResourceLease {
    pub claim_id: u64,
    pub resource_id: u64,
    pub instance_id: u64,
    pub epoch: u64,
    pub claim_policy: ClaimPolicy,
    pub preempt_policy: PreemptPolicy,
}

/// What happens to a module after it faults.
#[derive(Debug, Clone, Copy, PartialEq, Eq, Structural)]
pub enum ModuleFaultPolicy {
    Restart,
    RestartAlways,
    FaultKernelDegraded,
    Manual,
}

/// Which lifecycle entry points a module image provides.
#[derive(Debug, Clone, Copy, PartialEq, Eq, Structural)]
pub struct ModuleEntries {
    pub init: bool,
    pub start: bool,
    pub stop: bool,
}

/// How many times the supervisor has called each entry point of a module
/// (saturating).
#[derive(Debug, Clone, Copy, PartialEq, Eq, Structural)]
pub struct EntryRuns {
    pub init: u32,
    pub start: u32,
    pub stop: u32,
}

/// One more call of an entry the module has; none if it has not.
pub open spec fn called(n: u32, present: bool) -> u32 {
    if !present || n == u32::MAX { n } else { (n + 1) as u32 }
}

pub(crate) fn call_count(n: u32, present: bool) -> (r: u32)
    ensures
        r == called(n, present),
{
    if !present || n == u32::MAX { n } else { n + 1 }
}

/// The record after the supervisor called the module's init entry.
pub open spec fn after_init(m: ModuleRecord) -> EntryRuns {
    EntryRuns { init: called(m.runs.init, m.spec.entries.init), ..m.runs }
}

/// The record after the supervisor called the module's start entry.
pub open spec fn after_start(m: ModuleRecord) -> EntryRuns {
    EntryRuns { start: called(m.runs.start, m.spec.entries.start), ..m.runs }
}

/// The record after the supervisor called the module's stop entry.
pub open spec fn after_stop(m: ModuleRecord) -> EntryRuns {
    EntryRuns { stop: called(m.runs.stop, m.spec.entries.stop), ..m.runs }
}

/// What the installer knows of a module.
#[derive(Debug, Clone, Copy, PartialEq, Eq)]
pub struct ModuleSpec {
    pub module_id: u64,
    pub image_len: u64,
    pub lane: ExecutionLaneClass,
    pub fault_policy: ModuleFaultPolicy,
    /// The capabilities the module publishes when it starts.
    pub exports: ipc::Exports,
    /// The entry points the module provides.
    pub entries: ModuleEntries,
}

/// One loadable segment of a module image.
#[derive(Debug, Clone, Copy, PartialEq, Eq, Structural)]
pub struct ModuleSegment {
    pub virt_addr: u64,
    pub mem_len: u64,
}

/// Where a segment ends, saturating at the top of the address space.
pub open spec fn segment_end(g: ModuleSegment) -> u64 {
    if g.virt_addr + g.mem_len > u64::MAX { u64::MAX } else { (g.virt_addr + g.mem_len) as u64 }
}

/// The furthest segment end among the first `n` segments (0 for none).
pub open spec fn max_segment_end(s: Seq<ModuleSegment>, n: int) -> u64
    decreases n,
{
    if n <= 0 {
        0
    } else {
        let prev = max_segment_end(s, n - 1);
        let e = segment_end(s[n - 1]);
        if e > prev { e } else { prev }
    }
}

/// The span an image needs: up to its furthest segment end, or the default
/// image window when no segment reaches past address 0.
pub fn image_len(segments: &[ModuleSegment]) -> (r: u64)
    ensures
        r == (if max_segment_end(segments@, segments@.len() as int) == 0 {
            DEFAULT_IMAGE_WINDOW
        } else {
            max_segment_end(segments@, segments@.len() as int)
        }),
{
    let mut max_len: u64 = 0;
    let mut idx: usize = 0;
    while idx < segments.len()
        invariant
            idx <= segments@.len(),
            max_len == max_segment_end(segments@, idx as int),
        decreases segments@.len() - idx,
    {
        let g = segments[idx];
        let end = g.virt_addr.saturating_add(g.mem_len);
        if end > max_len {
            max_len = end;
        }
        idx = idx + 1;
    }
    if max_len == 0 { DEFAULT_IMAGE_WINDOW } else { max_len }
}

#[derive(Debug, Clone, Copy, PartialEq, Eq)]
pub struct ModuleRecord {
    pub occupied: bool,
    pub handle: u64,
    pub spec: ModuleSpec,
    pub state: ModuleLifecycle,
    pub domain: ModuleDomain,
    pub queued_restart: bool,
    pub restart_generation: u32,
    /// The entry-point calls made so far.
    pub runs: EntryRuns,
}

#[derive(Debug, Clone, Copy, PartialEq, Eq, Structural)]
pub struct InstanceRecord {
    pub occupied: bool,
    pub id: u64,
    pub module: u64,
    pub lane: ExecutionLaneClass,
    pub lifecycle: NodeInstanceLifecycle,
    pub ready_queued: bool,
    pub max_pages: u32,
    pub heap_pages_used: u32,
    pub heap_cursor_pages: u32,
}

#[derive(Debug, Clone, Copy, PartialEq, Eq, Structural)]
pub struct ResourceRecord {
    pub occupied: bool,
    pub id: u64,
    pub current_epoch: u64,
}

#[derive(Debug, Clone, Copy, PartialEq, Eq, Structural)]
pub struct ClaimRecord {
    pub occupied: bool,
    pub id: u64,
    pub resource: u64,
    pub instance: u64,
    pub module: u64,
    pub claim_policy: ClaimPolicy,
    pub preempt_policy: PreemptPolicy,
    pub epoch: u64,
    pub active: bool,
}

#[derive(Debug, Clone, Copy, PartialEq, Eq, Structural)]
pub struct RevocationRecord {
    pub occupied: bool,
    pub instance: u64,
    pub lease: ResourceLease,
}

#[derive(Debug, Clone, Copy, PartialEq, Eq, Structural)]
pub struct HeapGrantRecord {
    pub occupied: bool,
    pub module: u64,
    pub instance: u64,
    pub base: u64,
    pub page_count: usize,
    pub writable: bool,
}

pub open spec fn empty_claim() -> ClaimRecord {
    ClaimRecord { occupied: false, id: 0, resource: 0, instance: 0, module: 0,
        claim_policy: ClaimPolicy::Exclusive, preempt_policy: PreemptPolicy::Never, epoch: 0, active: false }
}

fn make_empty_claim() -> (r: ClaimRecord)
    ensures
        r == empty_claim(),
{
    ClaimRecord { occupied: false, id: 0, resource: 0, instance: 0, module: 0,
        claim_policy: ClaimPolicy::Exclusive, preempt_policy: PreemptPolicy::Never, epoch: 0, active: false }
}

/// Claim `c` holds `resource` right now.
pub open spec fn active_on(c: ClaimRecord, resource: u64) -> bool {
    c.occupied && c.active && c.resource == resource
}

/// The arbitration invariant: an exclusive claim never shares its resource
/// with another active claim, and an instance holds at most one active
/// claim on a resource.
pub open spec fn exclusive_ok(claims: Seq<ClaimRecord>) -> bool {
    &&& forall|i: int, j: int|
        #![trigger claims[i], claims[j]]
        0 <= i < claims.len() && 0 <= j < claims.len() && i != j
        && active_on(claims[i], claims[i].resource) && active_on(claims[j], claims[i].resource)
        ==> claims[i].claim_policy == ClaimPolicy::Shared && claims[j].claim_policy == ClaimPolicy::Shared
    &&& claims_unique(claims)
}

/// No instance holds two active claims on one resource.
#[verifier::opaque]
pub open spec fn claims_unique(claims: Seq<ClaimRecord>) -> bool {
    forall|i: int, j: int|
        #![trigger claims[i], claims[j]]
        0 <= i < claims.len() && 0 <= j < claims.len() && i != j
        && active_on(claims[i], claims[i].resource) && active_on(claims[j], claims[i].resource)
        ==> claims[i].instance != claims[j].instance
}

/// Every instance stays within its heap quota.
pub open spec fn heap_ok(instances: Seq<InstanceRecord>) -> bool {
    forall|i: int| 0 <= i < instances.len() && (#[trigger] instances[i]).occupied
        ==> instances[i].heap_pages_used <= instances[i].max_pages
}

/// First slot at or after `i` whose record satisfies `p`.
pub open spec fn first_where<T>(s: Seq<T>, p: spec_fn(T) -> bool, i: int) -> Option<int>
    decreases s.len() - i,
{
    if i < 0 || i >= s.len() {
        None
    } else if p(s[i]) {
        Some(i)
    } else {
        first_where(s, p, i + 1)
    }
}

pub proof fn lemma_first_where<T>(s: Seq<T>, p: spec_fn(T) -> bool, i: int)
    requires
        0 <= i,
    ensures
        first_where(s, p, i) matches Some(k) ==> i <= k < s.len() && p(s[k])
            && forall|j: int| i <= j < k ==> !p(#[trigger] s[j]),
        first_where(s, p, i) is None ==> forall|j: int| i <= j < s.len() ==> !p(#[trigger] s[j]),
    decreases s.len() - i,
{
    if i < s.len() && !p(s[i]) {
        lemma_first_where(s, p, i + 1);
    }
}

/// Number of records satisfying `p`.
pub open spec fn count_where<T>(s: Seq<T>, p: spec_fn(T) -> bool) -> nat
    decreases s.len(),
{
    if s.len() == 0 { 0 } else { count_where(s.drop_last(), p) + (if p(s.last()) { 1nat } else { 0nat }) }
}

pub proof fn lemma_count_bound<T>(s: Seq<T>, p: spec_fn(T) -> bool)
    ensures
        count_where(s, p) <= s.len(),
    decreases s.len(),
{
    if s.len() > 0 {
        lemma_count_bound(s.drop_last(), p);
    }
}

pub open spec fn instance_is(id: u64) -> spec_fn(InstanceRecord) -> bool {
    |r: InstanceRecord| r.occupied && r.id == id
}

pub open spec fn resource_is(id: u64) -> spec_fn(ResourceRecord) -> bool {
    |r: ResourceRecord| r.occupied && r.id == id
}

pub open spec fn module_is(handle: u64) -> spec_fn(ModuleRecord) -> bool {
    |r: ModuleRecord| r.occupied && r.handle == handle
}

pub open spec fn claim_free() -> spec_fn(ClaimRecord) -> bool {
    |r: ClaimRecord| !r.occupied
}

pub open spec fn same_claim(instance: u64, resource: u64) -> spec_fn(ClaimRecord) -> bool {
    |r: ClaimRecord| r.occupied && r.active && r.instance == instance && r.resource == resource
}

pub open spec fn lease_of(c: ClaimRecord) -> ResourceLease {
    ResourceLease {
        claim_id: c.id, resource_id: c.resource, instance_id: c.instance, epoch: c.epoch,
        claim_policy: c.claim_policy, preempt_policy: c.preempt_policy,
    }
}

/// All the supervisor's tables.
pub struct Supervisor {
    pub boot_payload: u64,
    pub bootstrapped: bool,
    pub next_handle: u64,
    pub next_instance: u64,
    pub next_claim: u64,
    pub next_domain: u64,
    pub next_root: u64,
    pub modules: Vec<ModuleRecord>,
    pub instances: Vec<InstanceRecord>,
    pub resources: Vec<ResourceRecord>,
    pub claims: Vec<ClaimRecord>,
    pub revocations: Vec<RevocationRecord>,
    pub heap_grants: Vec<HeapGrantRecord>,
    pub ready_control: IdQueue<128>,
    pub ready_io: IdQueue<128>,
    pub ready_compute: IdQueue<128>,
    pub ready_background: IdQueue<128>,
    pub restart_queue: IdQueue<32>,
    pub active_module: u64,
    pub active_instance: u64,
    pub ipc: IpcTables,
}


fn vec_of<T: Copy>(v: T, n: usize) -> (r: Vec<T>)
    ensures
        r@.len() == n,
        forall|i: int| 0 <= i < n ==> #[trigger] r@[i] == v,
{
    let mut out: Vec<T> = Vec::new();
    while out.len() < n
        invariant
            out@.len() <= n,
            forall|i: int| 0 <= i < out@.len() ==> #[trigger] out@[i] == v,
        decreases n - out@.len(),
    {
        out.push(v);
    }
    out
}

pub open spec fn empty_module() -> ModuleRecord {
    ModuleRecord {
        occupied: false, handle: 0,
        spec: ModuleSpec { module_id: 0, image_len: 0, lane: ExecutionLaneClass::Background,
            fault_policy: ModuleFaultPolicy::Manual, exports: [None, None, None, None],
            entries: ModuleEntries { init: false, start: false, stop: false } },
        state: ModuleLifecycle::Stopped, domain: empty_domain(), queued_restart: false, restart_generation: 0,
        runs: EntryRuns { init: 0, start: 0, stop: 0 },
    }
}

pub open spec fn empty_instance() -> InstanceRecord {
    InstanceRecord {
        occupied: false, id: 0, module: 0, lane: ExecutionLaneClass::Background,
        lifecycle: NodeInstanceLifecycle::Stopped, ready_queued: false, max_pages: 0, heap_pages_used: 0,
        heap_cursor_pages: 0,
    }
}

pub open spec fn empty_resource() -> ResourceRecord {
    ResourceRecord { occupied: false, id: 0, current_epoch: 0 }
}

pub open spec fn empty_lease() -> ResourceLease {
    ResourceLease { claim_id: 0, resource_id: 0, instance_id: 0, epoch: 0,
        claim_policy: ClaimPolicy::Exclusive, preempt_policy: PreemptPolicy::Never }
}

pub open spec fn empty_revocation() -> RevocationRecord {
    RevocationRecord { occupied: false, instance: 0, lease: empty_lease() }
}

pub open spec fn empty_grant() -> HeapGrantRecord {
    HeapGrantRecord { occupied: false, module: 0, instance: 0, base: 0, page_count: 0, writable: false }
}

fn make_empty_instance() -> (r: InstanceRecord)
    ensures
        r == empty_instance(),
{
    InstanceRecord {
        occupied: false, id: 0, module: 0, lane: ExecutionLaneClass::Background,
        lifecycle: NodeInstanceLifecycle::Stopped, ready_queued: false, max_pages: 0, heap_pages_used: 0,
        heap_cursor_pages: 0,
    }
}

fn make_empty_revocation() -> (r: RevocationRecord)
    ensures
        r == empty_revocation(),
{
    RevocationRecord { occupied: false, instance: 0, lease: ResourceLease { claim_id: 0, resource_id: 0,
        instance_id: 0, epoch: 0, claim_policy: ClaimPolicy::Exclusive, preempt_policy: PreemptPolicy::Never } }
}

fn make_empty_grant() -> (r: HeapGrantRecord)
    ensures
        r == empty_grant(),
{
    HeapGrantRecord { occupied: false, module: 0, instance: 0, base: 0, page_count: 0, writable: false }
}

impl Supervisor {
    /// Table sizes, well-formed queues, and the two standing invariants:
    /// claim arbitration (`exclusive_ok`) and heap quotas (`heap_ok`).
    pub open spec fn wf(&self) -> bool {
        &&& self.modules@.len() == MAX_MODULES
        &&& self.instances@.len() == MAX_INSTANCES
        &&& self.resources@.len() == MAX_RESOURCES
        &&& self.claims@.len() == MAX_CLAIMS
        &&& self.revocations@.len() == MAX_REVOKES
        &&& self.heap_grants@.len() == MAX_HEAP_GRANTS
        &&& self.ready_control.wf()
        &&& self.ready_io.wf()
        &&& self.ready_compute.wf()
        &&& self.ready_background.wf()
        &&& self.restart_queue.wf()
        &&& exclusive_ok(self.claims@)
        &&& forall|k: int| 0 <= k < MAX_CLAIMS && (#[trigger] self.claims@[k]).occupied ==> self.claims@[k].id < self.next_claim
        &&& forall|k: int| 0 <= k < MAX_MODULES && (#[trigger] self.modules@[k]).occupied ==> self.modules@[k].handle < self.next_handle
        &&& forall|a: int, b: int| #![trigger self.modules@[a], self.modules@[b]]
            0 <= a < MAX_MODULES && 0 <= b < MAX_MODULES && self.modules@[a].occupied && self.modules@[b].occupied
            && self.modules@[a].handle == self.modules@[b].handle ==> a == b
        &&& heap_ok(self.instances@)
        &&& self.ipc.wf()
        &&& forall|i: int| 0 <= i < MAX_INSTANCES && (#[trigger] self.instances@[i]).occupied
            ==> self.instances@[i].max_pages <= DEFAULT_HEAP_MAX_PAGES
        &&& forall|i: int| 0 <= i < MAX_INSTANCES && (#[trigger] self.instances@[i]).occupied
            ==> self.instances@[i].id < self.next_instance
        &&& forall|a: int, b: int| #![trigger self.instances@[a], self.instances@[b]]
            0 <= a < MAX_INSTANCES && 0 <= b < MAX_INSTANCES && self.instances@[a].occupied
            && self.instances@[b].occupied && self.instances@[a].id == self.instances@[b].id ==> a == b
    }

    /// Every table empty, not yet bootstrapped.
    pub open spec fn is_pristine(&self) -> bool {
        &&& forall|i: int| 0 <= i < MAX_MODULES ==> #[trigger] self.modules@[i] == empty_module()
        &&& forall|i: int| 0 <= i < MAX_INSTANCES ==> #[trigger] self.instances@[i] == empty_instance()
        &&& forall|i: int| 0 <= i < MAX_CLAIMS ==> #[trigger] self.claims@[i] == empty_claim()
        &&& forall|i: int| 0 <= i < MAX_REVOKES ==> #[trigger] self.revocations@[i] == empty_revocation()
        &&& forall|i: int| 0 <= i < MAX_HEAP_GRANTS ==> #[trigger] self.heap_grants@[i] == empty_grant()
        &&& self.ready_control@.len() == 0
        &&& self.ready_io@.len() == 0
        &&& self.ready_compute@.len() == 0
        &&& self.ready_background@.len() == 0
        &&& self.restart_queue@.len() == 0
        &&& self.next_handle == 1
        &&& self.next_instance == 1
        &&& self.next_claim == 1
        &&& self.next_domain == 1
        &&& self.active_module == 0
        &&& self.active_instance == 0
        &&& self.ipc.is_empty()
    }

    pub fn new() -> (r: Self)
        ensures
            r.wf(),
            r.is_pristine(),
            !r.bootstrapped,
            r.boot_payload == 0,
            forall|i: int| 0 <= i < MAX_RESOURCES ==> #[trigger] r.resources@[i] == empty_resource(),
    {
        let em = ModuleRecord {
            occupied: false, handle: 0,
            spec: ModuleSpec { module_id: 0, image_len: 0, lane: ExecutionLaneClass::Background,
            fault_policy: ModuleFaultPolicy::Manual, exports: [None, None, None, None],
            entries: ModuleEntries { init: false, start: false, stop: false } },
            state: ModuleLifecycle::Stopped, domain: make_empty_domain(), queued_restart: false, restart_generation: 0,
            runs: EntryRuns { init: 0, start: 0, stop: 0 },
        };
        proof { reveal(claims_unique); }
        Supervisor {
            boot_payload: 0,
            bootstrapped: false,
            next_handle: 1,
            next_instance: 1,
            next_claim: 1,
            next_domain: 1,
            next_root: 0x1000,
            modules: vec_of(em, MAX_MODULES),
            instances: vec_of(make_empty_instance(), MAX_INSTANCES),
            resources: vec_of(ResourceRecord { occupied: false, id: 0, current_epoch: 0 }, MAX_RESOURCES),
            claims: vec_of(make_empty_claim(), MAX_CLAIMS),
            revocations: vec_of(make_empty_revocation(), MAX_REVOKES),
            heap_grants: vec_of(make_empty_grant(), MAX_HEAP_GRANTS),
            ready_control: IdQueue::new(),
            ready_io: IdQueue::new(),
            ready_compute: IdQueue::new(),
            ready_background: IdQueue::new(),
            restart_queue: IdQueue::new(),
            active_module: 0,
            active_instance: 0,
            ipc: IpcTables::new(),
        }
    }

    /// Reset every table, remember the boot payload, mark the supervisor
    /// bootstrapped and register the five default resources.
    pub fn bootstrap(&mut self, boot_payload: u64)
        ensures
            final(self).wf(),
            final(self).is_pristine(),
            final(self).bootstrapped,
            final(self).boot_payload == boot_payload,
            forall|k: int| 0 <= k < 5 ==> #[trigger] final(self).resources@[k]
                == (ResourceRecord { occupied: true, id: (k + 1) as u64, current_epoch: 0 }),
            forall|k: int| 5 <= k < MAX_RESOURCES ==> #[trigger] final(self).resources@[k] == empty_resource(),
    {
        *self = Supervisor::new();
        self.boot_payload = boot_payload;
        self.bootstrapped = true;
        self.resources.set(0, ResourceRecord { occupied: true, id: RESOURCE_FRAME_ALLOC, current_epoch: 0 });
        self.resources.set(1, ResourceRecord { occupied: true, id: RESOURCE_PAGE_MAPPER, current_epoch: 0 });
        self.resources.set(2, ResourceRecord { occupied: true, id: RESOURCE_DISPLAY_CONSOLE, current_epoch: 0 });
        self.resources.set(3, ResourceRecord { occupied: true, id: RESOURCE_HEAP_SOURCE, current_epoch: 0 });
        self.resources.set(4, ResourceRecord { occupied: true, id: RESOURCE_GPU_ACCEL, current_epoch: 0 });
    }

    pub fn ensure_bootstrapped(&self) -> (r: Result<(), SupervisorError>)
        ensures
            r == (if self.bootstrapped { Ok::<(), SupervisorError>(()) } else { Err(SupervisorError::NotBootstrapped) }),
    {
        if self.bootstrapped { Ok(()) } else { Err(SupervisorError::NotBootstrapped) }
    }

    pub fn find_instance_slot(&self, id: u64) -> (r: Result<usize, SupervisorError>)
        ensures
            r matches Ok(k) ==> k < self.instances@.len() && self.instances@[k as int].occupied && self.instances@[k as int].id == id,
            match first_where(self.instances@, instance_is(id), 0) {
                Some(k) => r == Ok::<usize, SupervisorError>(k as usize),
                None => r == Err::<usize, SupervisorError>(SupervisorError::InstanceNotFound),
            },
    {
        let mut i: usize = 0;
        while i < self.instances.len()
            invariant
                i <= self.instances@.len(),
                first_where(self.instances@, instance_is(id), 0) == first_where(self.instances@, instance_is(id), i as int),
            decreases self.instances@.len() - i,
        {
            let rec = self.instances[i];
            if rec.occupied && rec.id == id {
                return Ok(i);
            }
            i = i + 1;
        }
        Err(SupervisorError::InstanceNotFound)
    }

    pub fn find_resource_slot(&self, id: u64) -> (r: Result<usize, SupervisorError>)
        ensures
            r matches Ok(k) ==> k < self.resources@.len() && self.resources@[k as int].occupied && self.resources@[k as int].id == id,
            match first_where(self.resources@, resource_is(id), 0) {
                Some(k) => r == Ok::<usize, SupervisorError>(k as usize),
                None => r == Err::<usize, SupervisorError>(SupervisorError::ResourceNotFound),
            },
    {
        let mut i: usize = 0;
        while i < self.resources.len()
            invariant
                i <= self.resources@.len(),
                first_where(self.resources@, resource_is(id), 0) == first_where(self.resources@, resource_is(id), i as int),
            decreases self.resources@.len() - i,
        {
            let rec = self.resources[i];
            if rec.occupied && rec.id == id {
                return Ok(i);
            }
            i = i + 1;
        }
        Err(SupervisorError::ResourceNotFound)
    }

    pub fn find_module_slot(&self, handle: u64) -> (r: Result<usize, SupervisorError>)
        ensures
            r matches Ok(k) ==> k < self.modules@.len() && self.modules@[k as int].occupied && self.modules@[k as int].handle == handle,
            match first_where(self.modules@, module_is(handle), 0) {
                Some(k) => r == Ok::<usize, SupervisorError>(k as usize),
                None => r == Err::<usize, SupervisorError>(SupervisorError::ModuleNotFound),
            },
    {
        let mut i: usize = 0;
        while i < self.modules.len()
            invariant
                i <= self.modules@.len(),
                first_where(self.modules@, module_is(handle), 0) == first_where(self.modules@, module_is(handle), i as int),
            decreases self.modules@.len() - i,
        {
            let rec = self.modules[i];
            if rec.occupied && rec.handle == handle {
                return Ok(i);
            }
            i = i + 1;
        }
        Err(SupervisorError::ModuleNotFound)
    }

    /// Register a resource id (already registered: nothing to do).
    pub fn register_resource(&mut self, resource_id: u64) -> (r: Result<(), SupervisorError>)
        requires
            old(self).wf(),
        ensures
            final(self).wf(),
            first_where(old(self).resources@, resource_is(resource_id), 0) is Some ==>
                r is Ok && final(self).resources@ == old(self).resources@,
            first_where(old(self).resources@, resource_is(resource_id), 0) is None ==> match first_where(
                old(self).resources@, |rec: ResourceRecord| !rec.occupied, 0) {
                Some(k) => r is Ok && final(self).resources@ == old(self).resources@.update(k,
                    ResourceRecord { occupied: true, id: resource_id, current_epoch: 0 }),
                None => r == Err::<(), SupervisorError>(SupervisorError::ResourceTableFull)
                    && final(self).resources@ == old(self).resources@,
            },
            final(self).claims@ == old(self).claims@,
            final(self).instances@ == old(self).instances@,
    {
        if self.find_resource_slot(resource_id).is_ok() {
            return Ok(());
        }
        let mut i: usize = 0;
        while i < self.resources.len()
            invariant
                i <= self.resources@.len(),
                self.wf(),
                self.resources@ == old(self).resources@,
                self.claims@ == old(self).claims@,
                self.instances@ == old(self).instances@,
                first_where(old(self).resources@, resource_is(resource_id), 0) is None,
                first_where(self.resources@, |rec: ResourceRecord| !rec.occupied, 0)
                    == first_where(self.resources@, |rec: ResourceRecord| !rec.occupied, i as int),
            decreases self.resources@.len() - i,
        {
            if !self.resources[i].occupied {
                self.resources.set(i, ResourceRecord { occupied: true, id: resource_id, current_epoch: 0 });
                return Ok(());
            }
            i = i + 1;
        }
        Err(SupervisorError::ResourceTableFull)
    }
}


/// Some active claim holds `resource`.
pub open spec fn any_active(claims: Seq<ClaimRecord>, resource: u64) -> bool {
    exists|k: int| 0 <= k < claims.len() && active_on(#[trigger] claims[k], resource)
}

/// Some active claim holds `resource` exclusively.
pub open spec fn any_exclusive(claims: Seq<ClaimRecord>, resource: u64) -> bool {
    exists|k: int| 0 <= k < claims.len() && active_on(#[trigger] claims[k], resource)
        && claims[k].claim_policy == ClaimPolicy::Exclusive
}

/// A new claim with `policy` may join the current holders of `resource`.
pub open spec fn can_share(claims: Seq<ClaimRecord>, resource: u64, policy: ClaimPolicy) -> bool {
    any_active(claims, resource) && !any_exclusive(claims, resource) && policy == ClaimPolicy::Shared
}

pub open spec fn may_preempt(p: PreemptPolicy) -> bool {
    p == PreemptPolicy::Try || p == PreemptPolicy::Force
}

/// The lease epoch a new claim gets: the resource's current epoch when
/// sharing an already-leased resource, else the next epoch.
pub open spec fn next_epoch(current: u64, sharing: bool) -> u64 {
    if sharing && current != 0 { current } else { (current + 1) as u64 }
}

/// Tables a claim decision leaves alone.
pub open spec fn same_outside_claims(a: &Supervisor, b: &Supervisor) -> bool {
    &&& a.ipc == b.ipc
    &&& a.modules@ == b.modules@
    &&& a.heap_grants@ == b.heap_grants@
    &&& a.bootstrapped == b.bootstrapped
    &&& a.boot_payload == b.boot_payload
    &&& a.next_handle == b.next_handle
    &&& a.next_instance == b.next_instance
    &&& a.next_domain == b.next_domain
    &&& a.next_root == b.next_root
    &&& a.restart_queue@ == b.restart_queue@
    &&& a.active_module == b.active_module
    &&& a.active_instance == b.active_instance
}

pub open spec fn unchanged(a: &Supervisor, b: &Supervisor) -> bool {
    &&& same_outside_claims(a, b)
    &&& a.instances@ == b.instances@
    &&& a.resources@ == b.resources@
    &&& a.claims@ == b.claims@
    &&& a.revocations@ == b.revocations@
    &&& a.next_claim == b.next_claim
    &&& a.ready_control@ == b.ready_control@
    &&& a.ready_io@ == b.ready_io@
    &&& a.ready_compute@ == b.ready_compute@
    &&& a.ready_background@ == b.ready_background@
}

proof fn lemma_exclusive_ok_remove(claims: Seq<ClaimRecord>, k: int)
    requires
        exclusive_ok(claims),
        0 <= k < claims.len(),
    ensures
        exclusive_ok(claims.update(k, empty_claim())),
{
    let n = claims.update(k, empty_claim());
    assert forall|i: int, j: int|
        #![trigger n[i], n[j]]
        0 <= i < n.len() && 0 <= j < n.len() && i != j
        && active_on(n[i], n[i].resource) && active_on(n[j], n[i].resource)
        implies n[i].claim_policy == ClaimPolicy::Shared && n[j].claim_policy == ClaimPolicy::Shared by {
        assert(i != k && j != k);
        assert(n[i] == claims[i] && n[j] == claims[j]);
    }
    reveal(claims_unique);
    assert forall|i: int, j: int|
        #![trigger n[i], n[j]]
        0 <= i < n.len() && 0 <= j < n.len() && i != j
        && active_on(n[i], n[i].resource) && active_on(n[j], n[i].resource)
        implies n[i].instance != n[j].instance by {
        assert(i != k && j != k);
        assert(n[i] == claims[i] && n[j] == claims[j]);
    }
}

impl Supervisor {
    /// Mark an instance ready and append it to its lane (already queued:
    /// nothing to do; stopped, faulted or suspended: refused).
    pub fn enqueue_ready_instance(&mut self, instance_id: u64) -> (r: Result<(), SupervisorError>)
        requires
            old(self).wf(),
        ensures
            final(self).wf(),
            same_outside_claims(&*final(self), &*old(self)),
            final(self).claims@ == old(self).claims@,
            final(self).resources@ == old(self).resources@,
            final(self).revocations@ == old(self).revocations@,
            final(self).next_claim == old(self).next_claim,
            match first_where(old(self).instances@, instance_is(instance_id), 0) {
                None => r == Err::<(), SupervisorError>(SupervisorError::InstanceNotFound) && unchanged(&*final(self), &*old(self)),
                Some(k) => {
                    let rec = old(self).instances@[k];
                    if rec.ready_queued {
                        r is Ok && unchanged(&*final(self), &*old(self))
                    } else if rec.lifecycle == NodeInstanceLifecycle::Stopped || rec.lifecycle == NodeInstanceLifecycle::Faulted
                        || rec.lifecycle == NodeInstanceLifecycle::Suspended {
                        r == Err::<(), SupervisorError>(SupervisorError::InvalidState) && unchanged(&*final(self), &*old(self))
                    } else {
                        final(self).instances@ == old(self).instances@.update(k,
                            InstanceRecord { lifecycle: NodeInstanceLifecycle::Ready, ready_queued: true, ..rec })
                    }
                },
            },
    {
        proof { lemma_first_where(self.instances@, instance_is(instance_id), 0); }
        let slot = match self.find_instance_slot(instance_id) {
            Ok(s) => s,
            Err(e) => return Err(e),
        };
        let rec = self.instances[slot];
        if rec.ready_queued {
            return Ok(());
        }
        if rec.lifecycle == NodeInstanceLifecycle::Stopped || rec.lifecycle == NodeInstanceLifecycle::Faulted
            || rec.lifecycle == NodeInstanceLifecycle::Suspended {
            return Err(SupervisorError::InvalidState);
        }
        self.instances.set(slot, InstanceRecord { lifecycle: NodeInstanceLifecycle::Ready, ready_queued: true, ..rec });
        let ok = match rec.lane {
            ExecutionLaneClass::Control => self.ready_control.push(instance_id),
            ExecutionLaneClass::Io => self.ready_io.push(instance_id),
            ExecutionLaneClass::Compute => self.ready_compute.push(instance_id),
            ExecutionLaneClass::Background => self.ready_background.push(instance_id),
        };
        if ok { Ok(()) } else { Err(SupervisorError::QueueFull) }
    }

    /// File a revocation notice for the holder of `lease`.
    fn queue_revocation(&mut self, lease: ResourceLease) -> (r: Result<(), SupervisorError>)
        requires
            old(self).wf(),
        ensures
            final(self).wf(),
            same_outside_claims(&*final(self), &*old(self)),
            final(self).instances@ == old(self).instances@,
            final(self).resources@ == old(self).resources@,
            final(self).claims@ == old(self).claims@,
            final(self).next_claim == old(self).next_claim,
            final(self).ready_control@ == old(self).ready_control@,
            final(self).ready_io@ == old(self).ready_io@,
            final(self).ready_compute@ == old(self).ready_compute@,
            final(self).ready_background@ == old(self).ready_background@,
            match first_where(old(self).revocations@, |rec: RevocationRecord| !rec.occupied, 0) {
                Some(k) => r is Ok && final(self).revocations@ == old(self).revocations@.update(k,
                    RevocationRecord { occupied: true, instance: lease.instance_id, lease }),
                None => r == Err::<(), SupervisorError>(SupervisorError::RevokeTableFull)
                    && final(self).revocations@ == old(self).revocations@,
            },
    {
        let mut i: usize = 0;
        while i < self.revocations.len()
            invariant
                i <= self.revocations@.len(),
                self.wf(),
                unchanged(&*self, &*old(self)),
                first_where(self.revocations@, |rec: RevocationRecord| !rec.occupied, 0)
                    == first_where(self.revocations@, |rec: RevocationRecord| !rec.occupied, i as int),
            decreases self.revocations@.len() - i,
        {
            if !self.revocations[i].occupied {
                self.revocations.set(i, RevocationRecord { occupied: true, instance: lease.instance_id, lease });
                return Ok(());
            }
            i = i + 1;
        }
        Err(SupervisorError::RevokeTableFull)
    }

    /// The oldest pending revocation for an instance, removed from the table.
    pub fn drain_revocation(&mut self, instance_id: u64) -> (r: Option<ResourceLease>)
        requires
            old(self).wf(),
        ensures
            final(self).wf(),
            same_outside_claims(&*final(self), &*old(self)),
            final(self).instances@ == old(self).instances@,
            final(self).claims@ == old(self).claims@,
            match first_where(old(self).revocations@, |rec: RevocationRecord| rec.occupied && rec.instance == instance_id, 0) {
                Some(k) => r == Some(old(self).revocations@[k].lease)
                    && final(self).revocations@ == old(self).revocations@.update(k, empty_revocation()),
                None => r is None && final(self).revocations@ == old(self).revocations@,
            },
    {
        let mut i: usize = 0;
        while i < self.revocations.len()
            invariant
                i <= self.revocations@.len(),
                self.wf(),
                unchanged(&*self, &*old(self)),
                first_where(self.revocations@, |rec: RevocationRecord| rec.occupied && rec.instance == instance_id, 0)
                    == first_where(self.revocations@, |rec: RevocationRecord| rec.occupied && rec.instance == instance_id, i as int),
            decreases self.revocations@.len() - i,
        {
            let rec = self.revocations[i];
            if rec.occupied && rec.instance == instance_id {
                self.revocations.set(i, make_empty_revocation());
                return Some(rec.lease);
            }
            i = i + 1;
        }
        None
    }

    /// Drop a claim by id.
    pub fn release_claim(&mut self, claim_id: u64) -> (r: Result<(), SupervisorError>)
        requires
            old(self).wf(),
        ensures
            final(self).wf(),
            same_outside_claims(&*final(self), &*old(self)),
            final(self).instances@ == old(self).instances@,
            final(self).revocations@ == old(self).revocations@,
            match first_where(old(self).claims@, |c: ClaimRecord| c.occupied && c.id == claim_id, 0) {
                Some(k) => r is Ok && final(self).claims@ == old(self).claims@.update(k, empty_claim()),
                None => r == Err::<(), SupervisorError>(SupervisorError::ClaimNotFound) && final(self).claims@ == old(self).claims@,
            },
    {
        let mut i: usize = 0;
        while i < self.claims.len()
            invariant
                i <= self.claims@.len(),
                self.wf(),
                unchanged(&*self, &*old(self)),
                first_where(self.claims@, |c: ClaimRecord| c.occupied && c.id == claim_id, 0)
                    == first_where(self.claims@, |c: ClaimRecord| c.occupied && c.id == claim_id, i as int),
            decreases self.claims@.len() - i,
        {
            let rec = self.claims[i];
            if rec.occupied && rec.id == claim_id {
                proof { lemma_exclusive_ok_remove(self.claims@, i as int); }
                self.claims.set(i, make_empty_claim());
                return Ok(());
            }
            i = i + 1;
        }
        Err(SupervisorError::ClaimNotFound)
    }
}


proof fn lemma_exclusive_ok_add(claims: Seq<ClaimRecord>, f: int, c: ClaimRecord)
    requires
        exclusive_ok(claims),
        0 <= f < claims.len(),
        !claims[f].occupied,
        c.occupied && c.active,
        c.claim_policy == ClaimPolicy::Exclusive ==> !any_active(claims, c.resource),
        c.claim_policy == ClaimPolicy::Shared ==> !any_exclusive(claims, c.resource),
        forall|k: int| 0 <= k < claims.len() ==> !same_claim(c.instance, c.resource)(#[trigger] claims[k]),
    ensures
        exclusive_ok(claims.update(f, c)),
{
    let n = claims.update(f, c);
    reveal(claims_unique);
    assert forall|i: int, j: int|
        #![trigger n[i], n[j]]
        0 <= i < n.len() && 0 <= j < n.len() && i != j
        && active_on(n[i], n[i].resource) && active_on(n[j], n[i].resource)
        implies n[i].instance != n[j].instance by {
        if i == f {
            assert(!same_claim(c.instance, c.resource)(claims[j]));
        } else if j == f {
            assert(!same_claim(c.instance, c.resource)(claims[i]));
        }
    }
    assert forall|i: int, j: int|
        #![trigger n[i], n[j]]
        0 <= i < n.len() && 0 <= j < n.len() && i != j
        && active_on(n[i], n[i].resource) && active_on(n[j], n[i].resource)
        implies n[i].claim_policy == ClaimPolicy::Shared && n[j].claim_policy == ClaimPolicy::Shared by {
        if i == f {
            assert(active_on(claims[j], c.resource));
        } else if j == f {
            assert(active_on(claims[i], c.resource));
        } else {
            assert(n[i] == claims[i] && n[j] == claims[j]);
        }
    }
}

/// `claims` with the active claims on `resource` among the first `k`
/// slots removed.
pub open spec fn cleared_upto(claims: Seq<ClaimRecord>, resource: u64, k: int) -> Seq<ClaimRecord> {
    Seq::new(claims.len(), |q: int| if q < k && active_on(claims[q], resource) { empty_claim() } else { claims[q] })
}

pub open spec fn rev_free() -> spec_fn(RevocationRecord) -> bool {
    |rec: RevocationRecord| !rec.occupied
}

/// The revocation table after filing a notice for `lease` in its first
/// free slot (unchanged when full).
pub open spec fn push_revocation(revs: Seq<RevocationRecord>, lease: ResourceLease) -> Seq<RevocationRecord> {
    match first_where(revs, rev_free(), 0) {
        Some(j) => revs.update(j, RevocationRecord { occupied: true, instance: lease.instance_id, lease }),
        None => revs,
    }
}

/// The revocation table after notices for the holders of `resource`
/// among the first `k` claims, in slot order.
pub open spec fn revoked_upto(revs: Seq<RevocationRecord>, claims: Seq<ClaimRecord>, resource: u64, k: int)
    -> Seq<RevocationRecord>
    decreases k,
{
    if k <= 0 {
        revs
    } else {
        let prev = revoked_upto(revs, claims, resource, k - 1);
        if active_on(claims[k - 1], resource) { push_revocation(prev, lease_of(claims[k - 1])) } else { prev }
    }
}

/// The instance table with instance `id` (if present) suspended and off
/// the ready queues.
pub open spec fn suspend(insts: Seq<InstanceRecord>, id: u64) -> Seq<InstanceRecord> {
    match first_where(insts, instance_is(id), 0) {
        Some(v) => insts.update(v, InstanceRecord {
            lifecycle: NodeInstanceLifecycle::Suspended, ready_queued: false, ..insts[v] }),
        None => insts,
    }
}

/// The instance table with the holders of `resource` among the first `k`
/// claims suspended, in slot order.
pub open spec fn suspended_upto(insts: Seq<InstanceRecord>, claims: Seq<ClaimRecord>, resource: u64, k: int)
    -> Seq<InstanceRecord>
    decreases k,
{
    if k <= 0 {
        insts
    } else {
        let prev = suspended_upto(insts, claims, resource, k - 1);
        if active_on(claims[k - 1], resource) { suspend(prev, claims[k - 1].instance) } else { prev }
    }
}

/// The instance table after `enqueue_ready_instance(id)`.
pub open spec fn enqueued(insts: Seq<InstanceRecord>, id: u64) -> Seq<InstanceRecord> {
    match first_where(insts, instance_is(id), 0) {
        None => insts,
        Some(k) => {
            let rec = insts[k];
            if rec.ready_queued || rec.lifecycle == NodeInstanceLifecycle::Stopped
                || rec.lifecycle == NodeInstanceLifecycle::Faulted || rec.lifecycle == NodeInstanceLifecycle::Suspended {
                insts
            } else {
                insts.update(k, InstanceRecord { lifecycle: NodeInstanceLifecycle::Ready, ready_queued: true, ..rec })
            }
        },
    }
}

impl Supervisor {
    /// Take `resource` from all its holders: each active claim on it is
    /// removed, its lease filed as a revocation notice for its instance,
    /// and that instance suspended, in slot order.
    fn preempt_holders(&mut self, resource_id: u64)
        requires
            old(self).wf(),
        ensures
            final(self).wf(),
            same_outside_claims(&*final(self), &*old(self)),
            final(self).next_claim == old(self).next_claim,
            final(self).resources@ == old(self).resources@,
            final(self).ready_control@ == old(self).ready_control@,
            final(self).ready_io@ == old(self).ready_io@,
            final(self).ready_compute@ == old(self).ready_compute@,
            final(self).ready_background@ == old(self).ready_background@,
            final(self).claims@ == cleared_upto(old(self).claims@, resource_id, MAX_CLAIMS as int),
            final(self).revocations@ == revoked_upto(old(self).revocations@, old(self).claims@, resource_id, MAX_CLAIMS as int),
            final(self).instances@ == suspended_upto(old(self).instances@, old(self).claims@, resource_id, MAX_CLAIMS as int),
    {
        let ghost oc = self.claims@;
        let ghost orv = self.revocations@;
        let ghost oin = self.instances@;
        let mut k: usize = 0;
        while k < self.claims.len()
            invariant
                k <= self.claims@.len(),
                self.wf(),
                self.next_claim == old(self).next_claim,
                self.resources@ == old(self).resources@,
                same_outside_claims(&*self, &*old(self)),
                self.ready_control@ == old(self).ready_control@,
                self.ready_io@ == old(self).ready_io@,
                self.ready_compute@ == old(self).ready_compute@,
                self.ready_background@ == old(self).ready_background@,
                oc == old(self).claims@,
                orv == old(self).revocations@,
                oin == old(self).instances@,
                oc.len() == MAX_CLAIMS,
                self.claims@ == cleared_upto(oc, resource_id, k as int),
                self.revocations@ == revoked_upto(orv, oc, resource_id, k as int),
                self.instances@ == suspended_upto(oin, oc, resource_id, k as int),
            decreases self.claims@.len() - k,
        {
            let c = self.claims[k];
            assert(c == oc[k as int]);
            let ghost prev_in = self.instances@;
            if c.occupied && c.active && c.resource == resource_id {
                proof { lemma_exclusive_ok_remove(self.claims@, k as int); }
                self.claims.set(k, make_empty_claim());
                let lease = ResourceLease {
                    claim_id: c.id, resource_id: c.resource, instance_id: c.instance, epoch: c.epoch,
                    claim_policy: c.claim_policy, preempt_policy: c.preempt_policy,
                };
                let _ = self.queue_revocation(lease);
                assert(self.instances@ == prev_in);
                proof { lemma_first_where(prev_in, instance_is(c.instance), 0); }
                match self.find_instance_slot(c.instance) {
                    Ok(v) => {
                        let vr = self.instances[v];
                        assert(first_where(prev_in, instance_is(c.instance), 0) == Some(v as int));
                        assert(vr == prev_in[v as int]);
                        self.instances.set(v, InstanceRecord {
                            lifecycle: NodeInstanceLifecycle::Suspended, ready_queued: false, ..vr });
                        assert(self.instances@ =~= prev_in.update(v as int, InstanceRecord {
                            lifecycle: NodeInstanceLifecycle::Suspended, ready_queued: false, ..prev_in[v as int] }));
                        assert(self.instances@ =~= suspend(prev_in, c.instance));
                    },
                    Err(_) => {
                        assert(self.instances@ =~= suspend(prev_in, c.instance));
                    },
                }
            }
            assert(self.claims@ =~= cleared_upto(oc, resource_id, k + 1));
            k = k + 1;
        }
    }
}

impl Supervisor {
    /// Ask for a lease on a resource for an instance.
    ///
    /// An instance that already holds the resource gets its lease back.  A
    /// free resource, or a shared request joining shared holders, is
    /// granted; otherwise the request waits (`ResourceBusy`, instance marked
    /// waiting) unless it may preempt, in which case every current holder
    /// loses its claim, gets a revocation notice and is suspended.  A grant
    /// takes the next claim id and the resource's next lease epoch (a
    /// shared join keeps the current one), and schedules the instance.
    #[verifier::loop_isolation(false)]
    pub fn claim_resource(&mut self, instance_id: u64, resource_id: u64, claim_policy: ClaimPolicy,
        preempt_policy: PreemptPolicy) -> (r: Result<ResourceLease, SupervisorError>)
        requires
            old(self).wf(),
            old(self).next_claim < u64::MAX,
            forall|k: int| 0 <= k < MAX_RESOURCES ==> (#[trigger] old(self).resources@[k]).current_epoch < u64::MAX,
        ensures
            final(self).wf(),
            same_outside_claims(&*final(self), &*old(self)),
            match first_where(old(self).instances@, instance_is(instance_id), 0) {
                None => r == Err::<ResourceLease, SupervisorError>(SupervisorError::InstanceNotFound)
                    && unchanged(&*final(self), &*old(self)),
                Some(islot) => match first_where(old(self).resources@, resource_is(resource_id), 0) {
                    None => r == Err::<ResourceLease, SupervisorError>(SupervisorError::ResourceNotFound)
                        && unchanged(&*final(self), &*old(self)),
                    Some(rslot) => match first_where(old(self).claims@, same_claim(instance_id, resource_id), 0) {
                        Some(c) => r == Ok::<ResourceLease, SupervisorError>(lease_of(old(self).claims@[c]))
                            && unchanged(&*final(self), &*old(self)),
                        None => {
                            let sharing = can_share(old(self).claims@, resource_id, claim_policy);
                            if any_active(old(self).claims@, resource_id) && !sharing && !may_preempt(preempt_policy) {
                                &&& r == Err::<ResourceLease, SupervisorError>(SupervisorError::ResourceBusy)
                                &&& final(self).claims@ == old(self).claims@
                                &&& final(self).resources@ == old(self).resources@
                                &&& final(self).revocations@ == old(self).revocations@
                                &&& final(self).next_claim == old(self).next_claim
                                &&& final(self).ready_control@ == old(self).ready_control@
                                &&& final(self).ready_io@ == old(self).ready_io@
                                &&& final(self).ready_compute@ == old(self).ready_compute@
                                &&& final(self).ready_background@ == old(self).ready_background@
                                &&& final(self).instances@ == old(self).instances@.update(islot, InstanceRecord {
                                    lifecycle: NodeInstanceLifecycle::WaitingClaim, ready_queued: false,
                                    ..old(self).instances@[islot] })
                            } else {
                                let pre = any_active(old(self).claims@, resource_id) && !sharing;
                                let base = if pre { cleared_upto(old(self).claims@, resource_id, MAX_CLAIMS as int) }
                                    else { old(self).claims@ };
                                let revs = if pre {
                                    revoked_upto(old(self).revocations@, old(self).claims@, resource_id, MAX_CLAIMS as int)
                                } else { old(self).revocations@ };
                                let insts = if pre {
                                    suspended_upto(old(self).instances@, old(self).claims@, resource_id, MAX_CLAIMS as int)
                                } else { old(self).instances@ };
                                &&& pre ==> r is Ok
                                &&& final(self).revocations@ == revs
                                &&& match first_where(base, claim_free(), 0) {
                                    None => {
                                        &&& r == Err::<ResourceLease, SupervisorError>(SupervisorError::ClaimTableFull)
                                        &&& forall|k: int| 0 <= k < MAX_CLAIMS ==> (#[trigger] final(self).claims@[k]).occupied
                                        &&& final(self).claims@ == base
                                        &&& final(self).instances@ == insts
                                        &&& final(self).resources@ == old(self).resources@
                                        &&& final(self).next_claim == old(self).next_claim
                                    },
                                    Some(f) => {
                                        let lease = ResourceLease {
                                            claim_id: old(self).next_claim,
                                            resource_id,
                                            instance_id,
                                            epoch: next_epoch(old(self).resources@[rslot].current_epoch, sharing),
                                            claim_policy,
                                            preempt_policy,
                                        };
                                        &&& r == Ok::<ResourceLease, SupervisorError>(lease)
                                        &&& final(self).claims@ == base.update(f, ClaimRecord {
                                            occupied: true, id: lease.claim_id, resource: resource_id,
                                            instance: instance_id, module: old(self).instances@[islot].module,
                                            claim_policy, preempt_policy, epoch: lease.epoch, active: true })
                                        &&& final(self).instances@ == enqueued(insts, instance_id)
                                        &&& final(self).next_claim == old(self).next_claim + 1
                                        &&& final(self).resources@ == old(self).resources@.update(rslot, ResourceRecord {
                                            current_epoch: lease.epoch, ..old(self).resources@[rslot] })
                                        &&& !sharing ==> forall|k: int| 0 <= k < MAX_CLAIMS
                                            && active_on(#[trigger] final(self).claims@[k], resource_id)
                                            ==> final(self).claims@[k].id == lease.claim_id
                                    },
                                }
                            }
                        },
                    },
                },
            },
    {
        proof {
            lemma_first_where(self.instances@, instance_is(instance_id), 0);
            lemma_first_where(self.resources@, resource_is(resource_id), 0);
            lemma_first_where(self.claims@, same_claim(instance_id, resource_id), 0);
        }
        let islot = match self.find_instance_slot(instance_id) {
            Ok(s) => s,
            Err(e) => return Err(e),
        };
        let module = self.instances[islot].module;
        let rslot = match self.find_resource_slot(resource_id) {
            Ok(s) => s,
            Err(e) => return Err(e),
        };
        let mut i: usize = 0;
        while i < self.claims.len()
            invariant
                i <= self.claims@.len(),
                self.claims@.len() == MAX_CLAIMS,
                first_where(self.claims@, same_claim(instance_id, resource_id), 0)
                    == first_where(self.claims@, same_claim(instance_id, resource_id), i as int),
            decreases self.claims@.len() - i,
        {
            let c = self.claims[i];
            if c.occupied && c.active && c.instance == instance_id && c.resource == resource_id {
                return Ok(ResourceLease {
                    claim_id: c.id, resource_id, instance_id, epoch: c.epoch,
                    claim_policy: c.claim_policy, preempt_policy: c.preempt_policy,
                });
            }
            i = i + 1;
        }
        let mut any = false;
        let mut excl = false;
        let mut j: usize = 0;
        while j < self.claims.len()
            invariant
                j <= self.claims@.len(),
                self.claims@.len() == MAX_CLAIMS,
                any == exists|k: int| 0 <= k < j && active_on(#[trigger] self.claims@[k], resource_id),
                excl == exists|k: int| 0 <= k < j && active_on(#[trigger] self.claims@[k], resource_id)
                    && self.claims@[k].claim_policy == ClaimPolicy::Exclusive,
            decreases self.claims@.len() - j,
        {
            let c = self.claims[j];
            if c.occupied && c.active && c.resource == resource_id {
                any = true;
                if c.claim_policy == ClaimPolicy::Exclusive {
                    excl = true;
                }
            }
            j = j + 1;
        }
        let sharing = any && !excl && claim_policy == ClaimPolicy::Shared;
        let preempt = preempt_policy == PreemptPolicy::Try || preempt_policy == PreemptPolicy::Force;
        assert(any == any_active(self.claims@, resource_id));
        assert(excl == any_exclusive(self.claims@, resource_id));
        if any && !sharing && !preempt {
            let rec = self.instances[islot];
            self.instances.set(islot, InstanceRecord {
                lifecycle: NodeInstanceLifecycle::WaitingClaim, ready_queued: false, ..rec });
            return Err(SupervisorError::ResourceBusy);
        }
        let ghost oc = self.claims@;
        let ghost orv = self.revocations@;
        let ghost oin = self.instances@;
        if any && !sharing {
            self.preempt_holders(resource_id);
            proof {
                let k0 = choose|k0: int| 0 <= k0 < oc.len() && active_on(#[trigger] oc[k0], resource_id);
                assert(!self.claims@[k0].occupied);
                lemma_first_where(self.claims@, claim_free(), 0);
            }
        }
        assert(sharing || !any ==> self.claims@ == old(self).claims@);
        let ghost base = self.claims@;
        let mut f: usize = 0;
        while f < self.claims.len()
            invariant
                f <= self.claims@.len(),
                self.claims@.len() == MAX_CLAIMS,
                first_where(self.claims@, claim_free(), 0) == first_where(self.claims@, claim_free(), f as int),
            decreases self.claims@.len() - f,
        {
            if !self.claims[f].occupied {
                break;
            }
            f = f + 1;
        }
        proof { lemma_first_where(self.claims@, claim_free(), 0); }
        if f == self.claims.len() {
            return Err(SupervisorError::ClaimTableFull);
        }
        assert(first_where(base, claim_free(), 0) == Some(f as int));
        let cur = self.resources[rslot].current_epoch;
        let ghost ores = self.resources@;
        let epoch = if sharing && cur != 0 {
            assert(ores =~= ores.update(rslot as int, ResourceRecord { current_epoch: cur, ..ores[rslot as int] }));
            cur
        } else {
            let e = cur + 1;
            self.resources.set(rslot, ResourceRecord { current_epoch: e, ..self.resources[rslot] });
            e
        };
        let claim_id = self.next_claim;
        let rec = ClaimRecord {
            occupied: true, id: claim_id, resource: resource_id, instance: instance_id, module,
            claim_policy, preempt_policy, epoch, active: true,
        };
        proof {
            if !sharing {
                assert(!any_active(self.claims@, resource_id));
            }
            lemma_exclusive_ok_add(self.claims@, f as int, rec);
        }
        self.claims.set(f, rec);
        self.next_claim = self.next_claim + 1;
        let ghost pre_enq = self.instances@;
        let _ = self.enqueue_ready_instance(instance_id);
        assert(self.instances@ == enqueued(pre_enq, instance_id));
        assert(self.claims@[f as int] == rec);
        Ok(ResourceLease { claim_id, resource_id, instance_id, epoch, claim_policy, preempt_policy })
    }
}


/// The page count after charging `incr` pages (saturating).
pub open spec fn charge(used: u32, incr: u32) -> u32 {
    if used + incr > u32::MAX { u32::MAX } else { (used + incr) as u32 }
}

/// The page count after crediting `decr` pages back (saturating).
pub open spec fn credit(used: u32, decr: u32) -> u32 {
    if used < decr { 0 } else { (used - decr) as u32 }
}

pub open spec fn module_instance(handle: u64) -> spec_fn(InstanceRecord) -> bool {
    |r: InstanceRecord| r.occupied && r.module == handle
}

pub open spec fn free_grant() -> spec_fn(HeapGrantRecord) -> bool {
    |g: HeapGrantRecord| !g.occupied
}

pub open spec fn grant_is(module: u64, base: u64, page_count: usize) -> spec_fn(HeapGrantRecord) -> bool {
    |g: HeapGrantRecord| g.occupied && g.module == module && g.base == base && g.page_count == page_count
}

/// The instance that heap requests of `handle` are charged to: the one
/// currently running for it, else its first instance.
pub open spec fn charged_instance(s: &Supervisor, handle: u64) -> Option<u64> {
    if s.active_module == handle && s.active_instance != 0 {
        Some(s.active_instance)
    } else {
        match first_where(s.instances@, module_instance(handle), 0) {
            Some(k) => Some(s.instances@[k].id),
            None => None,
        }
    }
}

impl Supervisor {
    /// The first instance of a module.
    pub fn primary_instance_for_module(&self, handle: u64) -> (r: Option<u64>)
        ensures
            r == (match first_where(self.instances@, module_instance(handle), 0) {
                Some(k) => Some(self.instances@[k].id),
                None => None,
            }),
    {
        proof { lemma_first_where(self.instances@, module_instance(handle), 0); }
        let mut i: usize = 0;
        while i < self.instances.len()
            invariant
                i <= self.instances@.len(),
                first_where(self.instances@, module_instance(handle), 0) == first_where(self.instances@, module_instance(handle), i as int),
            decreases self.instances@.len() - i,
        {
            let rec = self.instances[i];
            if rec.occupied && rec.module == handle {
                return Some(rec.id);
            }
            i = i + 1;
        }
        None
    }

    pub fn active_instance_for_module(&self, handle: u64) -> (r: Option<u64>)
        ensures
            r == charged_instance(self, handle),
    {
        if self.active_module == handle && self.active_instance != 0 {
            return Some(self.active_instance);
        }
        self.primary_instance_for_module(handle)
    }

    /// Map `page_count` fresh heap pages into the module's domain for the
    /// instance it is charged to; returns their base address.
    ///
    /// Refused with `NoActiveInstance` when the module has no instance, with
    /// `InvalidState` for an unmapped domain or zero pages, and with
    /// `HeapQuotaExceeded` when the instance's count would pass its quota or
    /// the pages would run past the domain's heap window.
    #[verifier::loop_isolation(false)]
    pub fn request_pages(&mut self, module: u64, page_count: usize, writable: bool) -> (r: Result<u64, SupervisorError>)
        requires
            old(self).wf(),
            page_count * PAGE_BYTES <= u64::MAX,
            forall|k: int| 0 <= k < MAX_MODULES && #[trigger] module_is(module)(old(self).modules@[k]) ==> {
                &&& old(self).modules@[k].domain.heap_base + old(self).modules@[k].domain.heap_len <= u64::MAX
                &&& forall|j: int| 0 <= j < MAX_INSTANCES && charged_instance(&*old(self), module) == Some(old(self).instances@[j].id)
                    && #[trigger] instance_is(old(self).instances@[j].id)(old(self).instances@[j]) ==>
                    old(self).modules@[k].domain.heap_base + old(self).instances@[j].heap_cursor_pages * PAGE_BYTES
                        + page_count * PAGE_BYTES <= u64::MAX
            },
        ensures
            final(self).wf(),
            final(self).modules@ == old(self).modules@,
            final(self).claims@ == old(self).claims@,
            final(self).resources@ == old(self).resources@,
            final(self).next_claim == old(self).next_claim,
            r is Err ==> unchanged(&*final(self), &*old(self)),
            match charged_instance(&*old(self), module) {
                None => r == Err::<u64, SupervisorError>(SupervisorError::NoActiveInstance),
                Some(iid) => match first_where(old(self).modules@, module_is(module), 0) {
                    None => r == Err::<u64, SupervisorError>(SupervisorError::ModuleNotFound),
                    Some(mslot) => match first_where(old(self).instances@, instance_is(iid), 0) {
                        None => r == Err::<u64, SupervisorError>(SupervisorError::InstanceNotFound),
                        Some(islot) => {
                            let rec = old(self).instances@[islot];
                            let dom = old(self).modules@[mslot].domain;
                            let base = dom.heap_base + rec.heap_cursor_pages * PAGE_BYTES;
                            if dom.root_table_phys == 0 || page_count == 0 {
                                r == Err::<u64, SupervisorError>(SupervisorError::InvalidState)
                            } else if charge(rec.heap_pages_used, page_count as u32) > rec.max_pages {
                                r == Err::<u64, SupervisorError>(SupervisorError::HeapQuotaExceeded)
                            } else if base + page_count * PAGE_BYTES > dom.heap_base + dom.heap_len {
                                r == Err::<u64, SupervisorError>(SupervisorError::HeapQuotaExceeded)
                            } else {
                                match first_where(old(self).heap_grants@, free_grant(), 0) {
                                    None => r == Err::<u64, SupervisorError>(SupervisorError::HeapGrantTableFull),
                                    Some(g) => {
                                        &&& r == Ok::<u64, SupervisorError>(base as u64)
                                        &&& final(self).heap_grants@ == old(self).heap_grants@.update(g, HeapGrantRecord {
                                            occupied: true, module, instance: iid, base: base as u64, page_count, writable })
                                        &&& final(self).instances@ == old(self).instances@.update(islot, InstanceRecord {
                                            heap_pages_used: charge(rec.heap_pages_used, page_count as u32),
                                            heap_cursor_pages: charge(rec.heap_cursor_pages, page_count as u32),
                                            ..rec })
                                        &&& final(self).revocations@ == old(self).revocations@
                                        &&& final(self).ipc == old(self).ipc
                                        &&& final(self).ready_control@ == old(self).ready_control@
                                        &&& final(self).ready_io@ == old(self).ready_io@
                                        &&& final(self).ready_compute@ == old(self).ready_compute@
                                        &&& final(self).ready_background@ == old(self).ready_background@
                                        &&& final(self).restart_queue@ == old(self).restart_queue@
                                        &&& final(self).active_module == old(self).active_module
                                        &&& final(self).active_instance == old(self).active_instance
                                    },
                                }
                            }
                        },
                    },
                },
            },
    {
        let instance_id = match self.active_instance_for_module(module) {
            Some(i) => i,
            None => return Err(SupervisorError::NoActiveInstance),
        };
        proof {
            lemma_first_where(self.modules@, module_is(module), 0);
            lemma_first_where(self.instances@, instance_is(instance_id), 0);
        }
        let mslot = match self.find_module_slot(module) {
            Ok(s) => s,
            Err(e) => return Err(e),
        };
        let islot = match self.find_instance_slot(instance_id) {
            Ok(s) => s,
            Err(e) => return Err(e),
        };
        let domain = self.modules[mslot].domain;
        if domain.root_table_phys == 0 || page_count == 0 {
            return Err(SupervisorError::InvalidState);
        }
        let rec = self.instances[islot];
        let projected = rec.heap_pages_used.saturating_add(page_count as u32);
        if projected > rec.max_pages {
            return Err(SupervisorError::HeapQuotaExceeded);
        }
        let base = domain.heap_base + (rec.heap_cursor_pages as u64 * PAGE_BYTES);
        let byte_len = page_count as u64 * PAGE_BYTES;
        if base + byte_len > domain.heap_base + domain.heap_len {
            return Err(SupervisorError::HeapQuotaExceeded);
        }
        match map_domain_heap_pages(domain.root_table_phys, base, page_count, writable) {
            Ok(()) => {},
            Err(e) => return Err(e),
        }
        proof { lemma_first_where(self.heap_grants@, free_grant(), 0); }
        let mut g: usize = 0;
        while g < self.heap_grants.len()
            invariant
                g <= self.heap_grants@.len(),
                self.heap_grants@ == old(self).heap_grants@,
                first_where(self.heap_grants@, free_grant(), 0) == first_where(self.heap_grants@, free_grant(), g as int),
            decreases self.heap_grants@.len() - g,
        {
            if !self.heap_grants[g].occupied {
                break;
            }
            g = g + 1;
        }
        if g == self.heap_grants.len() {
            return Err(SupervisorError::HeapGrantTableFull);
        }
        let grant = HeapGrantRecord { occupied: true, module, instance: instance_id, base, page_count, writable };
        self.heap_grants.set(g, grant);
        self.instances.set(islot, InstanceRecord {
            heap_pages_used: projected,
            heap_cursor_pages: rec.heap_cursor_pages.saturating_add(page_count as u32),
            ..rec
        });
        assert(self.heap_grants@[g as int] == grant);
        Ok(base)
    }

    /// Give back a grant made by `request_pages` (matched by module, base
    /// and page count) and credit its pages to the instance.
    #[verifier::loop_isolation(false)]
    pub fn free_pages(&mut self, module: u64, base: u64, page_count: usize) -> (r: Result<(), SupervisorError>)
        requires
            old(self).wf(),
        ensures
            final(self).wf(),
            final(self).modules@ == old(self).modules@,
            final(self).claims@ == old(self).claims@,
            match first_where(old(self).heap_grants@, grant_is(module, base, page_count), 0) {
                None => r == Err::<(), SupervisorError>(SupervisorError::HeapGrantNotFound)
                    && final(self).heap_grants@ == old(self).heap_grants@
                    && final(self).instances@ == old(self).instances@,
                Some(g) => {
                    let iid = old(self).heap_grants@[g].instance;
                    &&& r is Ok
                    &&& final(self).heap_grants@ == old(self).heap_grants@.update(g, empty_grant())
                    &&& match first_where(old(self).instances@, instance_is(iid), 0) {
                        Some(k) => final(self).instances@ == old(self).instances@.update(k, InstanceRecord {
                            heap_pages_used: credit(old(self).instances@[k].heap_pages_used, page_count as u32),
                            ..old(self).instances@[k] }),
                        None => final(self).instances@ == old(self).instances@,
                    }
                },
            },
    {
        proof { lemma_first_where(self.heap_grants@, grant_is(module, base, page_count), 0); }
        let mut g: usize = 0;
        while g < self.heap_grants.len()
            invariant
                g <= self.heap_grants@.len(),
                self.heap_grants@ == old(self).heap_grants@,
                first_where(self.heap_grants@, grant_is(module, base, page_count), 0)
                    == first_where(self.heap_grants@, grant_is(module, base, page_count), g as int),
            decreases self.heap_grants@.len() - g,
        {
            let rec = self.heap_grants[g];
            if rec.occupied && rec.module == module && rec.base == base && rec.page_count == page_count {
                break;
            }
            g = g + 1;
        }
        if g == self.heap_grants.len() {
            return Err(SupervisorError::HeapGrantNotFound);
        }
        let iid = self.heap_grants[g].instance;
        proof { lemma_first_where(self.instances@, instance_is(iid), 0); }
        match self.find_instance_slot(iid) {
            Ok(k) => {
                let rec = self.instances[k];
                self.instances.set(k, InstanceRecord {
                    heap_pages_used: rec.heap_pages_used.saturating_sub(page_count as u32), ..rec });
            },
            Err(_) => {},
        }
        self.heap_grants.set(g, make_empty_grant());
        Ok(())
    }
}

/// Map `page_count` pages at `base` into the domain whose root table is at
/// `root_table_phys`.  The host build of the supervisor keeps no page
/// tables, so this always succeeds.
pub fn map_domain_heap_pages(root_table_phys: u64, base: u64, page_count: usize, writable: bool)
    -> (r: Result<(), SupervisorError>)
    ensures
        r is Ok,
{
    Ok(())
}


/// The address-space layout of domain `id` for an image of `image_len`
/// bytes: domains are `DOMAIN_STRIDE` apart from `DOMAIN_BASE`; image,
/// stack, IPC window and heap follow each other with 64 KiB guard gaps.
pub open spec fn domain_layout(id: u64, image_len: u64, root: u64) -> ModuleDomain {
    let image_base = DOMAIN_BASE + (id - 1) * DOMAIN_STRIDE;
    let stack_base = image_base + image_len + 0x10000;
    let ipc_base = stack_base + DEFAULT_STACK_WINDOW + 0x10000;
    let heap_base = ipc_base + DEFAULT_IPC_WINDOW + 0x10000;
    ModuleDomain {
        id,
        root_table_phys: root,
        image_base: image_base as u64,
        image_len,
        stack_base: stack_base as u64,
        stack_len: DEFAULT_STACK_WINDOW,
        ipc_base: ipc_base as u64,
        ipc_len: DEFAULT_IPC_WINDOW,
        heap_base: heap_base as u64,
        heap_len: DEFAULT_HEAP_WINDOW,
        isolated: true,
    }
}

/// Domain ids and image sizes small enough for the layout arithmetic.
pub open spec fn layout_fits(id: u64, image_len: u64) -> bool {
    1 <= id <= 0x3_7000 && image_len <= 0x1_0000_0000
}

impl Supervisor {
    /// Allocate the page-table root of a new isolated address space.  The
    /// host build hands out fresh page-aligned roots from 0x1000 upwards.
    pub fn create_domain_root(&mut self, image_base: u64, image_len: u64, stack_base: u64, stack_len: u64,
        ipc_base: u64, ipc_len: u64) -> (r: Result<u64, SupervisorError>)
        ensures
            r == Ok::<u64, SupervisorError>(old(self).next_root),
            final(self).next_root == (if old(self).next_root + 0x1000 > u64::MAX {
                (old(self).next_root + 0x1000 - 0x1_0000_0000_0000_0000) as u64 } else { (old(self).next_root + 0x1000) as u64 }),
            final(self).modules@ == old(self).modules@,
            final(self).instances@ == old(self).instances@,
            final(self).claims@ == old(self).claims@,
            final(self).resources@ == old(self).resources@,
            final(self).revocations@ == old(self).revocations@,
            final(self).heap_grants@ == old(self).heap_grants@,
            final(self).next_claim == old(self).next_claim,
            final(self).next_domain == old(self).next_domain,
            final(self).next_handle == old(self).next_handle,
            final(self).next_instance == old(self).next_instance,
            final(self).bootstrapped == old(self).bootstrapped,
            final(self).ready_control == old(self).ready_control,
            final(self).ready_io == old(self).ready_io,
            final(self).ready_compute == old(self).ready_compute,
            final(self).ready_background == old(self).ready_background,
            final(self).restart_queue == old(self).restart_queue,
            final(self).boot_payload == old(self).boot_payload,
            final(self).active_module == old(self).active_module,
            final(self).active_instance == old(self).active_instance,
            final(self).ipc == old(self).ipc,
    {
        let root = self.next_root;
        self.next_root = self.next_root.wrapping_add(0x1000);
        Ok(root)
    }

    /// Lay out and create the domain for a module image.
    pub fn build_domain(&mut self, image_len: u64) -> (r: Result<ModuleDomain, SupervisorError>)
        requires
            old(self).wf(),
            layout_fits(old(self).next_domain, image_len),
        ensures
            final(self).wf(),
            final(self).next_domain == old(self).next_domain + 1,
            r == Ok::<ModuleDomain, SupervisorError>(domain_layout(old(self).next_domain, image_len, old(self).next_root)),
            final(self).modules@ == old(self).modules@,
            final(self).instances@ == old(self).instances@,
            final(self).claims@ == old(self).claims@,
            final(self).resources@ == old(self).resources@,
            final(self).heap_grants@ == old(self).heap_grants@,
            final(self).next_claim == old(self).next_claim,
            final(self).next_handle == old(self).next_handle,
            final(self).next_instance == old(self).next_instance,
            final(self).bootstrapped == old(self).bootstrapped,
            final(self).revocations@ == old(self).revocations@,
            final(self).boot_payload == old(self).boot_payload,
            final(self).active_module == old(self).active_module,
            final(self).active_instance == old(self).active_instance,
            final(self).restart_queue@ == old(self).restart_queue@,
            final(self).ready_control@ == old(self).ready_control@,
            final(self).ready_io@ == old(self).ready_io@,
            final(self).ready_compute@ == old(self).ready_compute@,
            final(self).ready_background@ == old(self).ready_background@,
            final(self).ipc == old(self).ipc,
    {
        let domain_id = self.next_domain;
        self.next_domain = self.next_domain + 1;
        let image_base = DOMAIN_BASE + (domain_id - 1) * DOMAIN_STRIDE;
        let stack_base = image_base + image_len + 0x10000;
        let ipc_base = stack_base + DEFAULT_STACK_WINDOW + 0x10000;
        let heap_base = ipc_base + DEFAULT_IPC_WINDOW + 0x10000;
        let root = match self.create_domain_root(image_base, image_len, stack_base, DEFAULT_STACK_WINDOW,
            ipc_base, DEFAULT_IPC_WINDOW) {
            Ok(v) => v,
            Err(e) => return Err(e),
        };
        Ok(ModuleDomain {
            id: domain_id,
            root_table_phys: root,
            image_base,
            image_len,
            stack_base,
            stack_len: DEFAULT_STACK_WINDOW,
            ipc_base,
            ipc_len: DEFAULT_IPC_WINDOW,
            heap_base,
            heap_len: DEFAULT_HEAP_WINDOW,
            isolated: true,
        })
    }
}


proof fn lemma_count_step<T>(s: Seq<T>, p: spec_fn(T) -> bool, i: int)
    requires
        0 <= i < s.len(),
    ensures
        count_where(s.take(i + 1), p) == count_where(s.take(i), p) + (if p(s[i]) { 1nat } else { 0nat }),
{
    assert(s.take(i + 1).drop_last() =~= s.take(i));
}

/// Heap pages held by the live instances.
pub open spec fn heap_sum(s: Seq<InstanceRecord>) -> nat
    decreases s.len(),
{
    if s.len() == 0 { 0 } else { heap_sum(s.drop_last()) + (if s.last().occupied { s.last().heap_pages_used as nat } else { 0nat }) }
}

pub open spec fn occupied_module() -> spec_fn(ModuleRecord) -> bool { |r: ModuleRecord| r.occupied }
pub open spec fn running_module() -> spec_fn(ModuleRecord) -> bool { |r: ModuleRecord| r.occupied && r.state == ModuleLifecycle::Running }
pub open spec fn isolated_module() -> spec_fn(ModuleRecord) -> bool { |r: ModuleRecord| r.occupied && r.domain.id != 0 }
pub open spec fn live_instance() -> spec_fn(InstanceRecord) -> bool { |r: InstanceRecord| r.occupied }
pub open spec fn queued_instance() -> spec_fn(InstanceRecord) -> bool { |r: InstanceRecord| r.occupied && r.ready_queued }
pub open spec fn waiting_instance() -> spec_fn(InstanceRecord) -> bool {
    |r: InstanceRecord| r.occupied && r.lifecycle == NodeInstanceLifecycle::WaitingClaim
}
pub open spec fn suspended_instance() -> spec_fn(InstanceRecord) -> bool {
    |r: InstanceRecord| r.occupied && r.lifecycle == NodeInstanceLifecycle::Suspended
}
pub open spec fn live_resource() -> spec_fn(ResourceRecord) -> bool { |r: ResourceRecord| r.occupied }
pub open spec fn live_claim() -> spec_fn(ClaimRecord) -> bool { |r: ClaimRecord| r.occupied && r.active }
pub open spec fn live_revocation() -> spec_fn(RevocationRecord) -> bool { |r: RevocationRecord| r.occupied }
pub open spec fn live_grant() -> spec_fn(HeapGrantRecord) -> bool { |r: HeapGrantRecord| r.occupied }

/// The counters a snapshot reports.  There is one node template per
/// installed module, so the two counts agree.
pub open spec fn spec_snapshot(s: &Supervisor) -> SupervisorSnapshot {
    SupervisorSnapshot {
        installed_modules: count_where(s.modules@, occupied_module()) as usize,
        registered_templates: count_where(s.modules@, occupied_module()) as usize,
        live_instances: count_where(s.instances@, live_instance()) as usize,
        ready_instances: count_where(s.instances@, queued_instance()) as usize,
        waiting_instances: count_where(s.instances@, waiting_instance()) as usize,
        suspended_instances: count_where(s.instances@, suspended_instance()) as usize,
        registered_resources: count_where(s.resources@, live_resource()) as usize,
        active_claims: count_where(s.claims@, live_claim()) as usize,
        pending_revocations: count_where(s.revocations@, live_revocation()) as usize,
        queued_restarts: s.restart_queue@.len() as usize,
        running_modules: count_where(s.modules@, running_module()) as usize,
        isolated_domains: count_where(s.modules@, isolated_module()) as usize,
        heap_grants: count_where(s.heap_grants@, live_grant()) as usize,
        heap_pages_used: heap_sum(s.instances@) as usize,
        published_capabilities: count_where(s.ipc.capabilities@, ipc::live_capability()) as usize,
        endpoints: count_where(s.ipc.endpoints@, ipc::live_endpoint()) as usize,
        queued_messages: count_where(s.ipc.messages@, ipc::live_message()) as usize,
        ready_control: s.ready_control@.len() as usize,
        ready_io: s.ready_io@.len() as usize,
        ready_compute: s.ready_compute@.len() as usize,
        ready_background: s.ready_background@.len() as usize,
    }
}

impl Supervisor {
    /// Count the tables.
    #[verifier::loop_isolation(false)]
    pub fn snapshot(&self) -> (r: SupervisorSnapshot)
        requires
            self.wf(),
        ensures
            r == spec_snapshot(self),
    {
        let mut installed: usize = 0;
        let mut running: usize = 0;
        let mut isolated: usize = 0;
        let mut i: usize = 0;
        while i < self.modules.len()
            invariant
                i <= self.modules@.len(),
                installed == count_where(self.modules@.take(i as int), occupied_module()),
                running == count_where(self.modules@.take(i as int), running_module()),
                isolated == count_where(self.modules@.take(i as int), isolated_module()),
                installed <= i && running <= i && isolated <= i,
            decreases self.modules@.len() - i,
        {
            proof {
                lemma_count_step(self.modules@, occupied_module(), i as int);
                lemma_count_step(self.modules@, running_module(), i as int);
                lemma_count_step(self.modules@, isolated_module(), i as int);
            }
            let m = self.modules[i];
            if m.occupied { installed = installed + 1; }
            if m.occupied && m.state == ModuleLifecycle::Running { running = running + 1; }
            if m.occupied && m.domain.id != 0 { isolated = isolated + 1; }
            i = i + 1;
        }
        assert(self.modules@.take(MAX_MODULES as int) =~= self.modules@);
        let mut live: usize = 0;
        let mut ready: usize = 0;
        let mut waiting: usize = 0;
        let mut suspended: usize = 0;
        let mut pages: usize = 0;
        let mut j: usize = 0;
        while j < self.instances.len()
            invariant
                j <= self.instances@.len(),
                live == count_where(self.instances@.take(j as int), live_instance()),
                ready == count_where(self.instances@.take(j as int), queued_instance()),
                waiting == count_where(self.instances@.take(j as int), waiting_instance()),
                suspended == count_where(self.instances@.take(j as int), suspended_instance()),
                pages == heap_sum(self.instances@.take(j as int)),
                live <= j && ready <= j && waiting <= j && suspended <= j,
                pages <= 32 * j,
            decreases self.instances@.len() - j,
        {
            proof {
                lemma_count_step(self.instances@, live_instance(), j as int);
                lemma_count_step(self.instances@, queued_instance(), j as int);
                lemma_count_step(self.instances@, waiting_instance(), j as int);
                lemma_count_step(self.instances@, suspended_instance(), j as int);
                assert(self.instances@.take(j + 1).drop_last() =~= self.instances@.take(j as int));
            }
            let n = self.instances[j];
            if n.occupied {
                live = live + 1;
                pages = pages + n.heap_pages_used as usize;
            }
            if n.occupied && n.ready_queued { ready = ready + 1; }
            if n.occupied && n.lifecycle == NodeInstanceLifecycle::WaitingClaim { waiting = waiting + 1; }
            if n.occupied && n.lifecycle == NodeInstanceLifecycle::Suspended { suspended = suspended + 1; }
            j = j + 1;
        }
        assert(self.instances@.take(MAX_INSTANCES as int) =~= self.instances@);
        let mut resources: usize = 0;
        let mut k: usize = 0;
        while k < self.resources.len()
            invariant
                k <= self.resources@.len(),
                resources == count_where(self.resources@.take(k as int), live_resource()),
                resources <= k,
            decreases self.resources@.len() - k,
        {
            proof { lemma_count_step(self.resources@, live_resource(), k as int); }
            if self.resources[k].occupied { resources = resources + 1; }
            k = k + 1;
        }
        assert(self.resources@.take(MAX_RESOURCES as int) =~= self.resources@);
        let mut claims: usize = 0;
        let mut c: usize = 0;
        while c < self.claims.len()
            invariant
                c <= self.claims@.len(),
                claims == count_where(self.claims@.take(c as int), live_claim()),
                claims <= c,
            decreases self.claims@.len() - c,
        {
            proof { lemma_count_step(self.claims@, live_claim(), c as int); }
            if self.claims[c].occupied && self.claims[c].active { claims = claims + 1; }
            c = c + 1;
        }
        assert(self.claims@.take(MAX_CLAIMS as int) =~= self.claims@);
        let mut revs: usize = 0;
        let mut v: usize = 0;
        while v < self.revocations.len()
            invariant
                v <= self.revocations@.len(),
                revs == count_where(self.revocations@.take(v as int), live_revocation()),
                revs <= v,
            decreases self.revocations@.len() - v,
        {
            proof { lemma_count_step(self.revocations@, live_revocation(), v as int); }
            if self.revocations[v].occupied { revs = revs + 1; }
            v = v + 1;
        }
        assert(self.revocations@.take(MAX_REVOKES as int) =~= self.revocations@);
        let mut grants: usize = 0;
        let mut g: usize = 0;
        while g < self.heap_grants.len()
            invariant
                g <= self.heap_grants@.len(),
                grants == count_where(self.heap_grants@.take(g as int), live_grant()),
                grants <= g,
            decreases self.heap_grants@.len() - g,
        {
            proof { lemma_count_step(self.heap_grants@, live_grant(), g as int); }
            if self.heap_grants[g].occupied { grants = grants + 1; }
            g = g + 1;
        }
        assert(self.heap_grants@.take(MAX_HEAP_GRANTS as int) =~= self.heap_grants@);
        let (caps, eps, msgs) = self.ipc.counts();
        SupervisorSnapshot {
            installed_modules: installed,
            registered_templates: installed,
            live_instances: live,
            ready_instances: ready,
            waiting_instances: waiting,
            suspended_instances: suspended,
            registered_resources: resources,
            active_claims: claims,
            pending_revocations: revs,
            queued_restarts: self.restart_queue.len(),
            running_modules: running,
            isolated_domains: isolated,
            heap_grants: grants,
            heap_pages_used: pages,
            published_capabilities: caps,
            endpoints: eps,
            queued_messages: msgs,
            ready_control: self.ready_control.len(),
            ready_io: self.ready_io.len(),
            ready_compute: self.ready_compute.len(),
            ready_background: self.ready_background.len(),
        }
    }

    /// The snapshot, once bootstrapped.
    pub fn checked_snapshot(&self) -> (r: Result<SupervisorSnapshot, SupervisorError>)
        requires
            self.wf(),
        ensures
            !self.bootstrapped ==> r == Err::<SupervisorSnapshot, SupervisorError>(SupervisorError::NotBootstrapped),
            self.bootstrapped ==> r == Ok::<SupervisorSnapshot, SupervisorError>(spec_snapshot(self)),
    {
        if !self.bootstrapped {
            return Err(SupervisorError::NotBootstrapped);
        }
        Ok(self.snapshot())
    }
}


pub open spec fn free_module() -> spec_fn(ModuleRecord) -> bool { |r: ModuleRecord| !r.occupied }
pub open spec fn free_instance() -> spec_fn(InstanceRecord) -> bool { |r: InstanceRecord| !r.occupied }

/// Tables the module lifecycle steps leave alone.
pub open spec fn claims_frame(a: &Supervisor, b: &Supervisor) -> bool {
    &&& a.ipc == b.ipc
    &&& a.claims@ == b.claims@
    &&& a.resources@ == b.resources@
    &&& a.revocations@ == b.revocations@
    &&& a.heap_grants@ == b.heap_grants@
    &&& a.next_claim == b.next_claim
    &&& a.bootstrapped == b.bootstrapped
    &&& a.boot_payload == b.boot_payload
    &&& a.restart_queue@ == b.restart_queue@
    &&& a.active_module == b.active_module
    &&& a.active_instance == b.active_instance
}

/// The domain counters are untouched.
pub open spec fn domains_frame(a: &Supervisor, b: &Supervisor) -> bool {
    a.next_domain == b.next_domain && a.next_root == b.next_root
}

impl Supervisor {
    /// Install a module: first free slot, next handle, state `Installed`,
    /// no domain yet.
    #[verifier::loop_isolation(false)]
    pub fn install_module(&mut self, spec: ModuleSpec) -> (r: Result<u64, SupervisorError>)
        requires
            old(self).wf(),
            old(self).next_handle < u64::MAX,
        ensures
            final(self).wf(),
            claims_frame(&*final(self), &*old(self)),
            domains_frame(&*final(self), &*old(self)),
            final(self).next_instance == old(self).next_instance,
            final(self).instances@ == old(self).instances@,
            !old(self).bootstrapped ==> r == Err::<u64, SupervisorError>(SupervisorError::NotBootstrapped)
                && final(self).modules@ == old(self).modules@,
            old(self).bootstrapped ==> match first_where(old(self).modules@, free_module(), 0) {
                None => r == Err::<u64, SupervisorError>(SupervisorError::ModuleTableFull)
                    && final(self).modules@ == old(self).modules@,
                Some(k) => r == Ok::<u64, SupervisorError>(old(self).next_handle)
                    && final(self).next_handle == old(self).next_handle + 1
                    && final(self).modules@ == old(self).modules@.update(k, ModuleRecord {
                        occupied: true, handle: old(self).next_handle, spec, state: ModuleLifecycle::Installed,
                        domain: empty_domain(), queued_restart: false, restart_generation: 0,
                        runs: EntryRuns { init: 0, start: 0, stop: 0 } }),
            },
    {
        if !self.bootstrapped {
            return Err(SupervisorError::NotBootstrapped);
        }
        proof { lemma_first_where(self.modules@, free_module(), 0); }
        let mut k: usize = 0;
        while k < self.modules.len()
            invariant
                k <= self.modules@.len(),
                self.modules@ == old(self).modules@,
                first_where(self.modules@, free_module(), 0) == first_where(self.modules@, free_module(), k as int),
            decreases self.modules@.len() - k,
        {
            if !self.modules[k].occupied {
                break;
            }
            k = k + 1;
        }
        if k == self.modules.len() {
            return Err(SupervisorError::ModuleTableFull);
        }
        let handle = self.next_handle;
        self.next_handle = self.next_handle + 1;
        self.modules.set(k, ModuleRecord {
            occupied: true, handle, spec, state: ModuleLifecycle::Installed,
            domain: make_empty_domain(), queued_restart: false, restart_generation: 0,
            runs: EntryRuns { init: 0, start: 0, stop: 0 },
        });
        Ok(handle)
    }

    /// New instance of a module in the first free slot: next instance id,
    /// the module's lane, `Ready` but not queued, the default heap quota.
    #[verifier::loop_isolation(false)]
    pub fn spawn_instance(&mut self, module: u64) -> (r: Result<u64, SupervisorError>)
        requires
            old(self).wf(),
            old(self).next_instance < u64::MAX,
        ensures
            final(self).wf(),
            claims_frame(&*final(self), &*old(self)),
            domains_frame(&*final(self), &*old(self)),
            final(self).modules@ == old(self).modules@,
            final(self).next_handle == old(self).next_handle,
            final(self).next_instance <= old(self).next_instance + 1,
            final(self).ready_control@ == old(self).ready_control@,
            final(self).ready_io@ == old(self).ready_io@,
            final(self).ready_compute@ == old(self).ready_compute@,
            final(self).ready_background@ == old(self).ready_background@,
            match first_where(old(self).modules@, module_is(module), 0) {
                None => r == Err::<u64, SupervisorError>(SupervisorError::TemplateNotFound)
                    && final(self).instances@ == old(self).instances@,
                Some(m) => match first_where(old(self).instances@, free_instance(), 0) {
                    None => r == Err::<u64, SupervisorError>(SupervisorError::InstanceTableFull)
                        && final(self).instances@ == old(self).instances@,
                    Some(k) => r == Ok::<u64, SupervisorError>(old(self).next_instance)
                        && final(self).next_instance == old(self).next_instance + 1
                        && final(self).instances@ == old(self).instances@.update(k, InstanceRecord {
                            occupied: true, id: old(self).next_instance, module,
                            lane: old(self).modules@[m].spec.lane, lifecycle: NodeInstanceLifecycle::Ready,
                            ready_queued: false, max_pages: DEFAULT_HEAP_MAX_PAGES, heap_pages_used: 0,
                            heap_cursor_pages: 0 }),
                },
            },
    {
        proof {
            lemma_first_where(self.modules@, module_is(module), 0);
            lemma_first_where(self.instances@, free_instance(), 0);
        }
        let m = match self.find_module_slot(module) {
            Ok(m) => m,
            Err(_) => return Err(SupervisorError::TemplateNotFound),
        };
        let lane = self.modules[m].spec.lane;
        let mut k: usize = 0;
        while k < self.instances.len()
            invariant
                k <= self.instances@.len(),
                self.instances@ == old(self).instances@,
                first_where(self.instances@, free_instance(), 0) == first_where(self.instances@, free_instance(), k as int),
            decreases self.instances@.len() - k,
        {
            if !self.instances[k].occupied {
                break;
            }
            k = k + 1;
        }
        if k == self.instances.len() {
            return Err(SupervisorError::InstanceTableFull);
        }
        let id = self.next_instance;
        self.next_instance = self.next_instance + 1;
        self.instances.set(k, InstanceRecord {
            occupied: true, id, module, lane, lifecycle: NodeInstanceLifecycle::Ready,
            ready_queued: false, max_pages: DEFAULT_HEAP_MAX_PAGES, heap_pages_used: 0, heap_cursor_pages: 0,
        });
        Ok(id)
    }

    /// The module's first instance, spawning one when it has none.
    pub fn ensure_primary_instance(&mut self, handle: u64) -> (r: Result<u64, SupervisorError>)
        requires
            old(self).wf(),
            old(self).next_instance < u64::MAX,
        ensures
            final(self).wf(),
            claims_frame(&*final(self), &*old(self)),
            domains_frame(&*final(self), &*old(self)),
            final(self).modules@ == old(self).modules@,
            final(self).next_handle == old(self).next_handle,
            final(self).next_instance <= old(self).next_instance + 1,
            final(self).ready_control@ == old(self).ready_control@,
            final(self).ready_io@ == old(self).ready_io@,
            final(self).ready_compute@ == old(self).ready_compute@,
            final(self).ready_background@ == old(self).ready_background@,
            first_where(old(self).instances@, module_instance(handle), 0) is Some ==>
                r == Ok::<u64, SupervisorError>(old(self).instances@[first_where(old(self).instances@, module_instance(handle), 0)->Some_0].id)
                && final(self).instances@ == old(self).instances@,
            r matches Ok(id) ==> first_where(final(self).instances@, module_instance(handle), 0) is Some,
            first_where(old(self).instances@, module_instance(handle), 0) is None
                && first_where(old(self).modules@, module_is(handle), 0) is Some ==> {
                &&& (r is Ok <==> first_where(old(self).instances@, free_instance(), 0) is Some)
                &&& (r is Err ==> r == Err::<u64, SupervisorError>(SupervisorError::InstanceTableFull)
                    && final(self).instances@ == old(self).instances@)
            },
    {
        match self.primary_instance_for_module(handle) {
            Some(id) => return Ok(id),
            None => {},
        }
        let r = self.spawn_instance(handle);
        proof {
            if r is Ok {
                let k = first_where(old(self).instances@, free_instance(), 0)->Some_0;
                lemma_first_where(old(self).instances@, free_instance(), 0);
                assert(module_instance(handle)(self.instances@[k]));
                lemma_first_where(self.instances@, module_instance(handle), 0);
            }
        }
        r
    }

    /// `Installed` or `Stopped` → `Validated`.
    pub fn validate_module(&mut self, handle: u64) -> (r: Result<(), SupervisorError>)
        requires
            old(self).wf(),
        ensures
            final(self).wf(),
            claims_frame(&*final(self), &*old(self)),
            final(self).instances@ == old(self).instances@,
            domains_frame(&*final(self), &*old(self)),
            final(self).next_instance == old(self).next_instance,
            final(self).next_handle == old(self).next_handle,
            match first_where(old(self).modules@, module_is(handle), 0) {
                None => r == Err::<(), SupervisorError>(SupervisorError::ModuleNotFound) && final(self).modules@ == old(self).modules@,
                Some(k) => {
                    let st = old(self).modules@[k].state;
                    if st == ModuleLifecycle::Installed || st == ModuleLifecycle::Stopped {
                        r is Ok && final(self).modules@ == old(self).modules@.update(k,
                            ModuleRecord { state: ModuleLifecycle::Validated, ..old(self).modules@[k] })
                    } else {
                        r == Err::<(), SupervisorError>(SupervisorError::InvalidState) && final(self).modules@ == old(self).modules@
                    }
                },
            },
    {
        proof { lemma_first_where(self.modules@, module_is(handle), 0); }
        let k = match self.find_module_slot(handle) {
            Ok(k) => k,
            Err(e) => return Err(e),
        };
        let m = self.modules[k];
        if !(m.state == ModuleLifecycle::Installed || m.state == ModuleLifecycle::Stopped) {
            return Err(SupervisorError::InvalidState);
        }
        self.modules.set(k, ModuleRecord { state: ModuleLifecycle::Validated, ..m });
        Ok(())
    }

    /// `Validated` or `Stopped` → `Mapped`, building the domain if the
    /// module has none yet.
    pub fn map_module(&mut self, handle: u64) -> (r: Result<(), SupervisorError>)
        requires
            old(self).wf(),
            layout_fits(old(self).next_domain, 0),
            forall|k: int| 0 <= k < MAX_MODULES ==> (#[trigger] old(self).modules@[k]).spec.image_len <= 0x1_0000_0000,
        ensures
            final(self).wf(),
            claims_frame(&*final(self), &*old(self)),
            final(self).instances@ == old(self).instances@,
            final(self).next_instance == old(self).next_instance,
            final(self).next_handle == old(self).next_handle,
            old(self).next_domain <= final(self).next_domain <= old(self).next_domain + 1,
            match first_where(old(self).modules@, module_is(handle), 0) {
                None => r == Err::<(), SupervisorError>(SupervisorError::ModuleNotFound) && final(self).modules@ == old(self).modules@,
                Some(k) => {
                    let m = old(self).modules@[k];
                    if m.state == ModuleLifecycle::Validated || m.state == ModuleLifecycle::Stopped {
                        &&& r is Ok
                        &&& final(self).modules@ == old(self).modules@.update(k, ModuleRecord {
                            state: ModuleLifecycle::Mapped,
                            domain: if m.domain.root_table_phys == 0 {
                                domain_layout(old(self).next_domain, m.spec.image_len, old(self).next_root)
                            } else {
                                m.domain
                            },
                            ..m })
                    } else {
                        r == Err::<(), SupervisorError>(SupervisorError::InvalidState) && final(self).modules@ == old(self).modules@
                    }
                },
            },
    {
        proof { lemma_first_where(self.modules@, module_is(handle), 0); }
        let k = match self.find_module_slot(handle) {
            Ok(k) => k,
            Err(e) => return Err(e),
        };
        let m = self.modules[k];
        if !(m.state == ModuleLifecycle::Validated || m.state == ModuleLifecycle::Stopped) {
            return Err(SupervisorError::InvalidState);
        }
        let mut domain = m.domain;
        if domain.root_table_phys == 0 {
            domain = match self.build_domain(m.spec.image_len) {
                Ok(d) => d,
                Err(e) => return Err(e),
            };
        }
        self.modules.set(k, ModuleRecord { state: ModuleLifecycle::Mapped, domain, ..m });
        Ok(())
    }

    /// `Mapped` → `Instantiated`, with a primary instance.
    pub fn instantiate_module(&mut self, handle: u64) -> (r: Result<(), SupervisorError>)
        requires
            old(self).wf(),
            old(self).next_instance < u64::MAX,
        ensures
            final(self).wf(),
            claims_frame(&*final(self), &*old(self)),
            domains_frame(&*final(self), &*old(self)),
            final(self).next_handle == old(self).next_handle,
            final(self).next_instance <= old(self).next_instance + 1,
            r is Ok ==> first_where(old(self).modules@, module_is(handle), 0) is Some
                && old(self).modules@[first_where(old(self).modules@, module_is(handle), 0)->Some_0].state == ModuleLifecycle::Mapped
                && final(self).modules@ == old(self).modules@.update(first_where(old(self).modules@, module_is(handle), 0)->Some_0,
                    ModuleRecord { state: ModuleLifecycle::Instantiated,
                        runs: after_init(old(self).modules@[first_where(old(self).modules@, module_is(handle), 0)->Some_0]),
                        ..old(self).modules@[first_where(old(self).modules@, module_is(handle), 0)->Some_0] }),
            r is Err ==> final(self).modules@ == old(self).modules@,
            r is Err ==> final(self).instances@ == old(self).instances@,
            first_where(old(self).modules@, module_is(handle), 0) is None ==> r == Err::<(), SupervisorError>(SupervisorError::ModuleNotFound),
            r is Ok ==> first_where(final(self).instances@, module_instance(handle), 0) is Some,
            first_where(old(self).modules@, module_is(handle), 0) matches Some(k)
                && old(self).modules@[k].state == ModuleLifecycle::Mapped ==> {
                &&& (r is Ok <==> (first_where(old(self).instances@, module_instance(handle), 0) is Some
                    || first_where(old(self).instances@, free_instance(), 0) is Some))
                &&& (r is Err ==> r == Err::<(), SupervisorError>(SupervisorError::InstanceTableFull))
            },
    {
        proof { lemma_first_where(self.modules@, module_is(handle), 0); }
        let k = match self.find_module_slot(handle) {
            Ok(k) => k,
            Err(e) => return Err(e),
        };
        let m = self.modules[k];
        if m.state != ModuleLifecycle::Mapped {
            return Err(SupervisorError::InvalidState);
        }
        match self.ensure_primary_instance(handle) {
            Ok(_) => {},
            Err(e) => return Err(e),
        }
        let runs = EntryRuns { init: call_count(m.runs.init, m.spec.entries.init), ..m.runs };
        self.modules.set(k, ModuleRecord { state: ModuleLifecycle::Instantiated, runs, ..m });
        Ok(())
    }

    /// `Instantiated` → `Running`: the primary instance is scheduled and the
    /// module's exports are published afresh.
    #[verifier::rlimit(50)]
    pub fn start_module(&mut self, handle: u64) -> (r: Result<(), SupervisorError>)
        requires
            old(self).wf(),
            old(self).next_instance < u64::MAX,
            ipc::publish_room(ipc::ipc_view(&old(self).ipc)),
        ensures
            final(self).wf(),
            final(self).claims@ == old(self).claims@,
            final(self).resources@ == old(self).resources@,
            final(self).revocations@ == old(self).revocations@,
            final(self).heap_grants@ == old(self).heap_grants@,
            final(self).next_claim == old(self).next_claim,
            final(self).bootstrapped == old(self).bootstrapped,
            final(self).boot_payload == old(self).boot_payload,
            final(self).restart_queue@ == old(self).restart_queue@,
            domains_frame(&*final(self), &*old(self)),
            final(self).next_handle == old(self).next_handle,
            final(self).next_instance <= old(self).next_instance + 1,
            old(self).ipc.next_endpoint <= final(self).ipc.next_endpoint <= old(self).ipc.next_endpoint + ipc::MAX_EXPORTS,
            old(self).ipc.next_capability <= final(self).ipc.next_capability
                <= old(self).ipc.next_capability + ipc::MAX_EXPORTS,
            r is Ok ==> first_where(old(self).modules@, module_is(handle), 0) is Some
                && old(self).modules@[first_where(old(self).modules@, module_is(handle), 0)->Some_0].state == ModuleLifecycle::Instantiated
                && final(self).modules@ == old(self).modules@.update(first_where(old(self).modules@, module_is(handle), 0)->Some_0,
                    ModuleRecord { state: ModuleLifecycle::Running,
                        runs: after_start(old(self).modules@[first_where(old(self).modules@, module_is(handle), 0)->Some_0]),
                        ..old(self).modules@[first_where(old(self).modules@, module_is(handle), 0)->Some_0] }),
            !(first_where(old(self).modules@, module_is(handle), 0) matches Some(k)
                && old(self).modules@[k].state == ModuleLifecycle::Instantiated)
                ==> r is Err && ipc::ipc_view(&final(self).ipc) == ipc::ipc_view(&old(self).ipc)
                    && final(self).modules@ == old(self).modules@,
            first_where(old(self).modules@, module_is(handle), 0) matches Some(k)
                && old(self).modules@[k].state == ModuleLifecycle::Instantiated ==> {
                let k = first_where(old(self).modules@, module_is(handle), 0)->Some_0;
                let inst_ok = first_where(old(self).instances@, module_instance(handle), 0) is Some
                    || first_where(old(self).instances@, free_instance(), 0) is Some;
                &&& (r is Ok ==> first_where(final(self).instances@, module_instance(handle), 0) is Some)
                &&& (!inst_ok ==> r == Err::<(), SupervisorError>(SupervisorError::InstanceTableFull)
                    && ipc::ipc_view(&final(self).ipc) == ipc::ipc_view(&old(self).ipc)
                    && final(self).modules@ == old(self).modules@)
                &&& (inst_ok ==> (ipc::ipc_view(&final(self).ipc), r) == ipc::publish_view(
                    ipc::revoke_view(ipc::ipc_view(&old(self).ipc), handle), handle, old(self).modules@[k].spec.exports@))
                &&& (inst_ok && r is Err ==> final(self).modules@ == old(self).modules@.update(k,
                    ModuleRecord { runs: after_start(old(self).modules@[k]), ..old(self).modules@[k] }))
            },
    {
        proof { lemma_first_where(self.modules@, module_is(handle), 0); }
        let k = match self.find_module_slot(handle) {
            Ok(k) => k,
            Err(e) => return Err(e),
        };
        let m = self.modules[k];
        if m.state != ModuleLifecycle::Instantiated {
            return Err(SupervisorError::InvalidState);
        }
        let instance_id = match self.ensure_primary_instance(handle) {
            Ok(i) => i,
            Err(e) => return Err(e),
        };
        let ghost pre = self.instances@;
        proof {
            lemma_first_where(pre, module_instance(handle), 0);
            lemma_first_where(pre, instance_is(instance_id), 0);
        }
        let _ = self.enqueue_ready_instance(instance_id);
        let runs = EntryRuns { start: call_count(m.runs.start, m.spec.entries.start), ..m.runs };
        self.modules.set(k, ModuleRecord { runs, ..m });
        proof {
            let j = first_where(pre, module_instance(handle), 0)->Some_0;
            assert(module_instance(handle)(self.instances@[j]));
            lemma_first_where(self.instances@, module_instance(handle), 0);
            let v = ipc::revoke_view(ipc::ipc_view(&self.ipc), handle);
            ipc::lemma_publish_bounds((v.0, v.1, v.4, v.5), handle, m.spec.exports@, ipc::MAX_EXPORTS as int);
        }
        proof { lemma_module_slot_unique(self.modules@, k as int); }
        match self.publish_exports(handle) {
            Ok(()) => {},
            Err(e) => return Err(e),
        }
        self.modules.set(k, ModuleRecord { state: ModuleLifecycle::Running, runs, ..m });
        Ok(())
    }
}


proof fn lemma_module_slot_unique(ms: Seq<ModuleRecord>, k: int)
    requires
        ms.len() == MAX_MODULES,
        0 <= k < MAX_MODULES,
        ms[k].occupied,
        forall|a: int, b: int| #![trigger ms[a], ms[b]]
            0 <= a < MAX_MODULES && 0 <= b < MAX_MODULES && ms[a].occupied && ms[b].occupied
            && ms[a].handle == ms[b].handle ==> a == b,
    ensures
        first_where(ms, module_is(ms[k].handle), 0) == Some(k),
{
    lemma_first_where(ms, module_is(ms[k].handle), 0);
    let f = first_where(ms, module_is(ms[k].handle), 0);
    if f is None {
        assert(module_is(ms[k].handle)(ms[k]));
    } else {
        let j = f->Some_0;
        assert(ms[j].occupied && ms[j].handle == ms[k].handle);
    }
}

/// The entry calls bringing an installed module up makes: init, then
/// start.
pub open spec fn boot_runs(m: ModuleRecord) -> EntryRuns {
    EntryRuns { init: called(m.runs.init, m.spec.entries.init), start: called(m.runs.start, m.spec.entries.start),
        stop: m.runs.stop }
}

/// `e` reports a table of `s` that is full: every instance slot, every
/// endpoint or every capability slot taken.
pub open spec fn table_full(s: &Supervisor, e: SupervisorError) -> bool {
    ||| e == SupervisorError::InstanceTableFull
        && forall|i: int| 0 <= i < MAX_INSTANCES ==> (#[trigger] s.instances@[i]).occupied
    ||| e == SupervisorError::EndpointTableFull
        && forall|j: int| 0 <= j < s.ipc.endpoints@.len() ==> (#[trigger] s.ipc.endpoints@[j]).occupied
    ||| e == SupervisorError::CapabilityTableFull
        && forall|j: int| 0 <= j < s.ipc.capabilities@.len() ==> (#[trigger] s.ipc.capabilities@[j]).occupied
}

impl Supervisor {
    /// Bring every installed module up: validate, map its domain,
    /// instantiate and start it, then report the module and domain counts.
    #[verifier::loop_isolation(false)]
    #[verifier::rlimit(40)]
    pub fn realize_boot_modules(&mut self) -> (r: Result<SupervisorBootReport, SupervisorError>)
        requires
            old(self).wf(),
            old(self).next_instance + 2 * MAX_MODULES < u64::MAX,
            1 <= old(self).next_domain,
            old(self).next_domain + MAX_MODULES <= 0x3_7000,
            forall|k: int| 0 <= k < MAX_MODULES ==> (#[trigger] old(self).modules@[k]).spec.image_len <= 0x1_0000_0000,
            old(self).ipc.next_endpoint + ipc::MAX_EXPORTS * MAX_MODULES + ipc::MAX_EXPORTS < u64::MAX,
            old(self).ipc.next_capability + ipc::MAX_EXPORTS * MAX_MODULES + ipc::MAX_EXPORTS < u64::MAX,
        ensures
            final(self).wf(),
            final(self).claims@ == old(self).claims@,
            final(self).resources@ == old(self).resources@,
            !old(self).bootstrapped ==> r == Err::<SupervisorBootReport, SupervisorError>(SupervisorError::NotBootstrapped)
                && final(self).modules@ == old(self).modules@,
            old(self).bootstrapped ==> (r matches Err(e) ==> table_full(&*final(self), e)),
            r matches Ok(report) ==> {
                &&& forall|k: int| 0 <= k < MAX_MODULES ==> {
                    &&& (#[trigger] final(self).modules@[k]).occupied == old(self).modules@[k].occupied
                    &&& final(self).modules@[k].handle == old(self).modules@[k].handle
                    &&& (old(self).modules@[k].occupied && old(self).modules@[k].state == ModuleLifecycle::Installed
                        ==> final(self).modules@[k].state == ModuleLifecycle::Running)
                    &&& (!(old(self).modules@[k].occupied && old(self).modules@[k].state == ModuleLifecycle::Installed)
                        ==> final(self).modules@[k] == old(self).modules@[k])
                    &&& (old(self).modules@[k].occupied && old(self).modules@[k].state == ModuleLifecycle::Installed
                        ==> if old(self).modules@[k].domain.root_table_phys == 0 {
                            final(self).modules@[k].domain.id != 0 && final(self).modules@[k].domain.isolated
                        } else {
                            final(self).modules@[k].domain == old(self).modules@[k].domain
                        })
                    &&& (old(self).modules@[k].occupied && old(self).modules@[k].state == ModuleLifecycle::Installed
                        ==> ipc::exports_published(final(self).ipc.capabilities@, old(self).modules@[k].handle,
                            old(self).modules@[k].spec.exports@))
                    &&& (old(self).modules@[k].occupied && old(self).modules@[k].state == ModuleLifecycle::Installed
                        ==> final(self).modules@[k].runs == boot_runs(old(self).modules@[k]))
                }
                &&& report == (SupervisorBootReport {
                    discovered_modules: spec_snapshot(&*final(self)).installed_modules,
                    running_modules: spec_snapshot(&*final(self)).running_modules,
                    isolated_domains: spec_snapshot(&*final(self)).isolated_domains,
                    published_capabilities: spec_snapshot(&*final(self)).published_capabilities,
                })
            },
    {
        if !self.bootstrapped {
            return Err(SupervisorError::NotBootstrapped);
        }
        let mut k: usize = 0;
        while k < self.modules.len()
            invariant
                k <= MAX_MODULES,
                self.wf(),
                self.claims@ == old(self).claims@,
                self.resources@ == old(self).resources@,
                self.bootstrapped,
                self.next_instance <= old(self).next_instance + 2 * k,
                old(self).next_domain <= self.next_domain <= old(self).next_domain + k,
                self.ipc.next_endpoint <= old(self).ipc.next_endpoint + ipc::MAX_EXPORTS * k,
                self.ipc.next_capability <= old(self).ipc.next_capability + ipc::MAX_EXPORTS * k,
                old(self).ipc.next_endpoint + ipc::MAX_EXPORTS * MAX_MODULES + ipc::MAX_EXPORTS < u64::MAX,
                old(self).ipc.next_capability + ipc::MAX_EXPORTS * MAX_MODULES + ipc::MAX_EXPORTS < u64::MAX,
                forall|q: int| 0 <= q < MAX_MODULES ==> (#[trigger] self.modules@[q]).spec == old(self).modules@[q].spec,
                forall|q: int| 0 <= q < MAX_MODULES ==> {
                    &&& (#[trigger] self.modules@[q]).occupied == old(self).modules@[q].occupied
                    &&& self.modules@[q].handle == old(self).modules@[q].handle
                },
                forall|q: int| 0 <= q < k ==> {
                    &&& (old(self).modules@[q].occupied && old(self).modules@[q].state == ModuleLifecycle::Installed
                        ==> (#[trigger] self.modules@[q]).state == ModuleLifecycle::Running)
                    &&& (!(old(self).modules@[q].occupied && old(self).modules@[q].state == ModuleLifecycle::Installed)
                        ==> self.modules@[q] == old(self).modules@[q])
                    &&& (old(self).modules@[q].occupied && old(self).modules@[q].state == ModuleLifecycle::Installed
                        ==> if old(self).modules@[q].domain.root_table_phys == 0 {
                            self.modules@[q].domain.id != 0 && self.modules@[q].domain.isolated
                        } else {
                            self.modules@[q].domain == old(self).modules@[q].domain
                        })
                    &&& (old(self).modules@[q].occupied && old(self).modules@[q].state == ModuleLifecycle::Installed
                        ==> ipc::exports_published(self.ipc.capabilities@, old(self).modules@[q].handle,
                            old(self).modules@[q].spec.exports@))
                    &&& (old(self).modules@[q].occupied && old(self).modules@[q].state == ModuleLifecycle::Installed
                        ==> self.modules@[q].runs == boot_runs(old(self).modules@[q]))
                },
                forall|q: int| k <= q < MAX_MODULES ==> #[trigger] self.modules@[q] == old(self).modules@[q],
            decreases MAX_MODULES - k,
        {
            let m = self.modules[k];
            if m.occupied && m.state == ModuleLifecycle::Installed {
                let handle = m.handle;
                proof { lemma_module_slot_unique(self.modules@, k as int); }
                match self.validate_module(handle) {
                    Ok(()) => {},
                    Err(e) => return Err(e),
                }
                proof { lemma_module_slot_unique(self.modules@, k as int); }
                match self.map_module(handle) {
                    Ok(()) => {},
                    Err(e) => return Err(e),
                }
                proof { lemma_module_slot_unique(self.modules@, k as int); }
                let ghost before_inst = self.instances@;
                match self.instantiate_module(handle) {
                    Ok(()) => {},
                    Err(e) => {
                        proof {
                            lemma_first_where(before_inst, free_instance(), 0);
                            assert forall|i: int| 0 <= i < MAX_INSTANCES implies (#[trigger] self.instances@[i]).occupied by {
                                assert(!free_instance()(before_inst[i]));
                            }
                        }
                        return Err(e);
                    },
                }
                proof { lemma_module_slot_unique(self.modules@, k as int); }
                let ghost pre_ipc = ipc::ipc_view(&self.ipc);
                let ghost exports = self.modules@[k as int].spec.exports@;
                let ghost pre_mods = self.modules@;
                match self.start_module(handle) {
                    Ok(()) => {
                        proof {
                            assert(first_where(pre_mods, module_is(handle), 0) == Some(k as int));
                            assert forall|q: int| 0 <= q < k && old(self).modules@[q].occupied
                                && old(self).modules@[q].state == ModuleLifecycle::Installed implies
                                ipc::exports_published(self.ipc.capabilities@, old(self).modules@[q].handle,
                                    old(self).modules@[q].spec.exports@) by {
                                assert(pre_mods[q].handle != pre_mods[k as int].handle);
                                ipc::lemma_start_publication(pre_ipc, handle, exports, old(self).modules@[q].handle,
                                    old(self).modules@[q].spec.exports@);
                            }
                            ipc::lemma_start_publication(pre_ipc, handle, exports, handle, exports);
                        }
                    },
                    Err(e) => {
                        proof {
                            let v = ipc::revoke_view(pre_ipc, handle);
                            ipc::lemma_publish_errors((v.0, v.1, v.4, v.5), handle, exports, ipc::MAX_EXPORTS as int);
                        }
                        return Err(e);
                    },
                }
            }
            k = k + 1;
        }
        let snap = self.snapshot();
        Ok(SupervisorBootReport {
            discovered_modules: snap.installed_modules,
            running_modules: snap.running_modules,
            isolated_domains: snap.isolated_domains,
            published_capabilities: snap.published_capabilities,
        })
    }
}


/// Freeing what a request charged gives the count back: after a granted
/// `request_pages` of `p` pages (which never saturates, being within the
/// quota) a `free_pages` of the same grant restores the instance's count.
pub proof fn lemma_request_then_free_restores(used: u32, p: u32, max_pages: u32)
    requires
        charge(used, p) <= max_pages,
        max_pages <= DEFAULT_HEAP_MAX_PAGES,
    ensures
        credit(charge(used, p), p) == used,
{
}

/// A granted request never takes an instance past its quota, and a credit
/// never raises the count: the per-instance heap count stays within
/// `[0, max_pages]` under any mix of the two.
pub proof fn lemma_heap_quota_kept(used: u32, p: u32, max_pages: u32)
    requires
        used <= max_pages,
    ensures
        charge(used, p) <= max_pages ==> charge(used, p) >= used,
        credit(used, p) <= used,
        credit(used, p) <= max_pages,
{
}


proof fn lemma_first_where_at<T>(s: Seq<T>, p: spec_fn(T) -> bool, i: int, k: int)
    requires
        0 <= i <= k < s.len(),
        p(s[k]),
        forall|j: int| i <= j < k ==> !p(#[trigger] s[j]),
    ensures
        first_where(s, p, i) == Some(k),
    decreases k - i,
{
    if i < k {
        lemma_first_where_at(s, p, i + 1, k);
    }
}

/// An active claim is the one a later `claim_resource` by its instance on
/// its resource finds, whatever happened in between: in a valid
/// supervisor an instance holds at most one active claim on a resource, so
/// the lookup lands on it and the call gives back its lease unchanged.
pub proof fn lemma_active_claim_is_found(s: &Supervisor, c: int)
    requires
        s.wf(),
        0 <= c < MAX_CLAIMS,
        s.claims@[c].occupied && s.claims@[c].active,
    ensures
        first_where(s.claims@, same_claim(s.claims@[c].instance, s.claims@[c].resource), 0) == Some(c),
{
    reveal(claims_unique);
    let cl = s.claims@;
    let p = same_claim(cl[c].instance, cl[c].resource);
    assert forall|j: int| 0 <= j < c implies !p(#[trigger] cl[j]) by {
        if p(cl[j]) {
            assert(active_on(cl[j], cl[j].resource) && active_on(cl[c], cl[j].resource));
        }
    }
    lemma_first_where_at(cl, p, 0, c);
}

} // verus!
