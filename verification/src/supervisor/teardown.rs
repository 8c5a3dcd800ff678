//! Tearing instances down and stopping modules.

use vstd::prelude::*;

use super::ipc::{drain_view, ipc_view, revoke_view};
use super::{
    after_stop, call_count, EntryRuns, empty_claim, empty_grant, empty_instance, empty_revocation, exclusive_ok, first_where, lemma_first_where,
    module_is, ClaimRecord, HeapGrantRecord, InstanceRecord, ModuleLifecycle, ModuleRecord,
    RevocationRecord, Supervisor, SupervisorError, MAX_CLAIMS, MAX_HEAP_GRANTS, MAX_INSTANCES, MAX_REVOKES,
};

verus! {

/// Claims held by an instance that `gone` names are dropped.
pub open spec fn claims_without(s: Seq<ClaimRecord>, gone: spec_fn(u64) -> bool) -> Seq<ClaimRecord> {
    Seq::new(s.len(), |k: int| if s[k].occupied && gone(s[k].instance) { empty_claim() } else { s[k] })
}

/// Revocation notices addressed to an instance that `gone` names are dropped.
pub open spec fn revocations_without(s: Seq<RevocationRecord>, gone: spec_fn(u64) -> bool) -> Seq<RevocationRecord> {
    Seq::new(s.len(), |k: int| if s[k].occupied && gone(s[k].instance) { empty_revocation() } else { s[k] })
}

/// Heap grants charged to an instance that `gone` names are dropped.
pub open spec fn grants_without(s: Seq<HeapGrantRecord>, gone: spec_fn(u64) -> bool) -> Seq<HeapGrantRecord> {
    Seq::new(s.len(), |k: int| if s[k].occupied && gone(s[k].instance) { empty_grant() } else { s[k] })
}

/// Instances that `gone` names are freed.
pub open spec fn instances_without(s: Seq<InstanceRecord>, gone: spec_fn(u64) -> bool) -> Seq<InstanceRecord> {
    Seq::new(s.len(), |k: int| if s[k].occupied && gone(s[k].id) { empty_instance() } else { s[k] })
}

pub open spec fn is_id(id: u64) -> spec_fn(u64) -> bool {
    |x: u64| x == id
}

/// Ids of the module's live instances among the first `n` slots of `s`.
pub open spec fn module_ids(s: Seq<InstanceRecord>, handle: u64, n: int) -> spec_fn(u64) -> bool {
    |x: u64| exists|k: int| 0 <= k < n && (#[trigger] s[k]).occupied && s[k].module == handle && s[k].id == x
}

/// `b` is `a` with every instance that `gone` names torn down: the instance
/// freed, its claims, revocation notices and heap grants dropped.
pub open spec fn torn_down(a: &Supervisor, b: &Supervisor, gone: spec_fn(u64) -> bool) -> bool {
    &&& b.instances@ == instances_without(a.instances@, gone)
    &&& b.claims@ == claims_without(a.claims@, gone)
    &&& b.revocations@ == revocations_without(a.revocations@, gone)
    &&& b.heap_grants@ == grants_without(a.heap_grants@, gone)
}

/// What a teardown leaves alone.
pub open spec fn teardown_frame(a: &Supervisor, b: &Supervisor) -> bool {
    &&& a.resources@ == b.resources@
    &&& a.restart_queue@ == b.restart_queue@
    &&& a.ready_control@ == b.ready_control@
    &&& a.ready_io@ == b.ready_io@
    &&& a.ready_compute@ == b.ready_compute@
    &&& a.ready_background@ == b.ready_background@
    &&& a.bootstrapped == b.bootstrapped
    &&& a.boot_payload == b.boot_payload
    &&& a.next_handle == b.next_handle
    &&& a.next_instance == b.next_instance
    &&& a.next_claim == b.next_claim
    &&& a.next_domain == b.next_domain
    &&& a.next_root == b.next_root
    &&& a.active_module == b.active_module
    &&& a.active_instance == b.active_instance
}

proof fn lemma_exclusive_ok_thin(claims: Seq<ClaimRecord>, kept: Seq<ClaimRecord>)
    requires
        exclusive_ok(claims),
        kept.len() == claims.len(),
        forall|k: int| 0 <= k < kept.len() ==> #[trigger] kept[k] == claims[k] || kept[k] == empty_claim(),
    ensures
        exclusive_ok(kept),
{
    assert forall|i: int, j: int|
        #![trigger kept[i], kept[j]]
        0 <= i < kept.len() && 0 <= j < kept.len() && i != j
        && super::active_on(kept[i], kept[i].resource) && super::active_on(kept[j], kept[i].resource)
        implies kept[i].claim_policy == super::ClaimPolicy::Shared && kept[j].claim_policy == super::ClaimPolicy::Shared by {
        assert(kept[i] == claims[i] && kept[j] == claims[j]);
    }
    reveal(super::claims_unique);
    assert forall|i: int, j: int|
        #![trigger kept[i], kept[j]]
        0 <= i < kept.len() && 0 <= j < kept.len() && i != j
        && super::active_on(kept[i], kept[i].resource) && super::active_on(kept[j], kept[i].resource)
        implies kept[i].instance != kept[j].instance by {
        assert(kept[i] == claims[i] && kept[j] == claims[j]);
    }
}

proof fn lemma_module_step(o: Supervisor, s: Supervisor, t: Supervisor, handle: u64, q: int)
    requires
        o.wf(),
        0 <= q < MAX_INSTANCES,
        torn_down(&o, &s, module_ids(o.instances@, handle, q)),
        o.instances@[q].occupied && o.instances@[q].module == handle ==> torn_down(&s, &t, is_id(o.instances@[q].id)),
        !(o.instances@[q].occupied && o.instances@[q].module == handle) ==> {
            &&& t.instances@ == s.instances@
            &&& t.claims@ == s.claims@
            &&& t.revocations@ == s.revocations@
            &&& t.heap_grants@ == s.heap_grants@
        },
    ensures
        torn_down(&o, &t, module_ids(o.instances@, handle, q + 1)),
{
    let g0 = module_ids(o.instances@, handle, q);
    let g1 = module_ids(o.instances@, handle, q + 1);
    let hit = o.instances@[q].occupied && o.instances@[q].module == handle;
    let v = o.instances@[q].id;
    assert forall|x: u64| #[trigger] g1(x) == (g0(x) || (hit && x == v)) by {
        if hit && x == v {
            assert(o.instances@[q].occupied);
        }
        if g1(x) && !g0(x) {
            let k = choose|k: int| 0 <= k < q + 1 && (#[trigger] o.instances@[k]).occupied
                && o.instances@[k].module == handle && o.instances@[k].id == x;
            assert(k == q);
        }
    }
    assert(t.instances@ =~= instances_without(o.instances@, g1));
    assert(t.claims@ =~= claims_without(o.claims@, g1));
    assert(t.revocations@ =~= revocations_without(o.revocations@, g1));
    assert(t.heap_grants@ =~= grants_without(o.heap_grants@, g1));
}

impl Supervisor {
    /// Tear one instance down: drop its claims, revocation notices and heap
    /// grants, and free its slot. Its stale ready-lane entries are left for
    /// the dequeue to skip.
    pub fn teardown_instance(&mut self, instance_id: u64)
        requires
            old(self).wf(),
        ensures
            final(self).wf(),
            teardown_frame(&*final(self), &*old(self)),
            final(self).modules@ == old(self).modules@,
            final(self).ipc == old(self).ipc,
            torn_down(&*old(self), &*final(self), is_id(instance_id)),
    {
        let ghost gone = is_id(instance_id);
        let mut k: usize = 0;
        while k < self.claims.len()
            invariant
                k <= MAX_CLAIMS,
                self.wf(),
                gone == is_id(instance_id),
                old(self).wf(),
                teardown_frame(&*self, &*old(self)),
                self.modules@ == old(self).modules@,
                self.ipc == old(self).ipc,
                self.instances@ == old(self).instances@,
                self.revocations@ == old(self).revocations@,
                self.heap_grants@ == old(self).heap_grants@,
                forall|j: int| 0 <= j < k ==> #[trigger] self.claims@[j] == claims_without(old(self).claims@, gone)[j],
                forall|j: int| k <= j < MAX_CLAIMS ==> #[trigger] self.claims@[j] == old(self).claims@[j],
            decreases MAX_CLAIMS - k,
        {
            let c = self.claims[k];
            if c.occupied && c.instance == instance_id {
                proof { super::lemma_exclusive_ok_remove(self.claims@, k as int); }
                self.claims.set(k, super::make_empty_claim());
            }
            k = k + 1;
        }
        assert(self.claims@ =~= claims_without(old(self).claims@, gone));
        let mut k: usize = 0;
        while k < self.revocations.len()
            invariant
                k <= MAX_REVOKES,
                self.wf(),
                gone == is_id(instance_id),
                old(self).wf(),
                teardown_frame(&*self, &*old(self)),
                self.modules@ == old(self).modules@,
                self.ipc == old(self).ipc,
                self.instances@ == old(self).instances@,
                self.claims@ == claims_without(old(self).claims@, gone),
                self.heap_grants@ == old(self).heap_grants@,
                forall|j: int| 0 <= j < k ==> #[trigger] self.revocations@[j] == revocations_without(old(self).revocations@, gone)[j],
                forall|j: int| k <= j < MAX_REVOKES ==> #[trigger] self.revocations@[j] == old(self).revocations@[j],
            decreases MAX_REVOKES - k,
        {
            let c = self.revocations[k];
            if c.occupied && c.instance == instance_id {
                self.revocations.set(k, super::make_empty_revocation());
            }
            k = k + 1;
        }
        assert(self.revocations@ =~= revocations_without(old(self).revocations@, gone));
        let mut k: usize = 0;
        while k < self.heap_grants.len()
            invariant
                k <= MAX_HEAP_GRANTS,
                self.wf(),
                gone == is_id(instance_id),
                old(self).wf(),
                teardown_frame(&*self, &*old(self)),
                self.modules@ == old(self).modules@,
                self.ipc == old(self).ipc,
                self.instances@ == old(self).instances@,
                self.claims@ == claims_without(old(self).claims@, gone),
                self.revocations@ == revocations_without(old(self).revocations@, gone),
                forall|j: int| 0 <= j < k ==> #[trigger] self.heap_grants@[j] == grants_without(old(self).heap_grants@, gone)[j],
                forall|j: int| k <= j < MAX_HEAP_GRANTS ==> #[trigger] self.heap_grants@[j] == old(self).heap_grants@[j],
            decreases MAX_HEAP_GRANTS - k,
        {
            let c = self.heap_grants[k];
            if c.occupied && c.instance == instance_id {
                self.heap_grants.set(k, super::make_empty_grant());
            }
            k = k + 1;
        }
        assert(self.heap_grants@ =~= grants_without(old(self).heap_grants@, gone));
        proof { lemma_first_where(self.instances@, super::instance_is(instance_id), 0); }
        match self.find_instance_slot(instance_id) {
            Ok(slot) => {
                self.instances.set(slot, super::make_empty_instance());
                proof {
                    assert forall|j: int| 0 <= j < MAX_INSTANCES implies
                        #[trigger] self.instances@[j] == instances_without(old(self).instances@, gone)[j] by {
                        if j != slot && old(self).instances@[j].occupied && old(self).instances@[j].id == instance_id {
                            assert(old(self).instances@[slot as int].id == instance_id);
                        }
                    }
                    assert(self.instances@ =~= instances_without(old(self).instances@, gone));
                }
            },
            Err(_) => {
                proof {
                    assert forall|j: int| 0 <= j < MAX_INSTANCES implies
                        #[trigger] self.instances@[j] == instances_without(old(self).instances@, gone)[j] by {
                        if old(self).instances@[j].occupied && old(self).instances@[j].id == instance_id {
                            assert(super::instance_is(instance_id)(old(self).instances@[j]));
                        }
                    }
                    assert(self.instances@ =~= instances_without(old(self).instances@, gone));
                }
            },
        }
    }

    /// Tear down every live instance of a module.
    pub fn teardown_module_instances(&mut self, handle: u64)
        requires
            old(self).wf(),
        ensures
            final(self).wf(),
            teardown_frame(&*final(self), &*old(self)),
            final(self).modules@ == old(self).modules@,
            final(self).ipc == old(self).ipc,
            torn_down(&*old(self), &*final(self), module_ids(old(self).instances@, handle, MAX_INSTANCES as int)),
            forall|k: int| 0 <= k < MAX_INSTANCES ==> #[trigger] final(self).instances@[k] ==
                if old(self).instances@[k].occupied && old(self).instances@[k].module == handle {
                    empty_instance()
                } else {
                    old(self).instances@[k]
                },
    {
        proof {
            assert(self.instances@ =~= instances_without(self.instances@, module_ids(self.instances@, handle, 0)));
            assert(self.claims@ =~= claims_without(self.claims@, module_ids(self.instances@, handle, 0)));
            assert(self.revocations@ =~= revocations_without(self.revocations@, module_ids(self.instances@, handle, 0)));
            assert(self.heap_grants@ =~= grants_without(self.heap_grants@, module_ids(self.instances@, handle, 0)));
        }
        let mut q: usize = 0;
        while q < self.instances.len()
            invariant
                q <= MAX_INSTANCES,
                old(self).wf(),
                self.wf(),
                teardown_frame(&*self, &*old(self)),
                self.modules@ == old(self).modules@,
                self.ipc == old(self).ipc,
                torn_down(&*old(self), &*self, module_ids(old(self).instances@, handle, q as int)),
            decreases MAX_INSTANCES - q,
        {
            let ghost s = *self;
            let r = self.instances[q];
            proof {
                let o = old(self).instances@;
                if o[q as int].occupied {
                    assert(!module_ids(o, handle, q as int)(o[q as int].id)) by {
                        if module_ids(o, handle, q as int)(o[q as int].id) {
                            let k = choose|k: int| 0 <= k < q && (#[trigger] o[k]).occupied
                                && o[k].module == handle && o[k].id == o[q as int].id;
                            assert(k == q);
                        }
                    }
                }
                assert(r == o[q as int]);
            }
            if r.occupied && r.module == handle {
                self.teardown_instance(r.id);
            }
            proof { lemma_module_step(*old(self), s, *self, handle, q as int); }
            q = q + 1;
        }
        proof {
            let o = old(self).instances@;
            assert forall|k: int| 0 <= k < MAX_INSTANCES implies #[trigger] self.instances@[k] ==
                if o[k].occupied && o[k].module == handle { empty_instance() } else { o[k] } by {
                if o[k].occupied && module_ids(o, handle, MAX_INSTANCES as int)(o[k].id) {
                    let j = choose|j: int| 0 <= j < MAX_INSTANCES && (#[trigger] o[j]).occupied
                        && o[j].module == handle && o[j].id == o[k].id;
                    assert(j == k);
                }
            }
        }
    }

    /// Stop a running, instantiated or mapped module: what it published is
    /// withdrawn, its endpoints closed, the messages queued for it dropped,
    /// its instances torn down, and it is left `Stopped`, its domain kept
    /// for a later restart.
    pub fn stop_module(&mut self, handle: u64) -> (r: Result<(), SupervisorError>)
        requires
            old(self).wf(),
        ensures
            final(self).wf(),
            teardown_frame(&*final(self), &*old(self)),
            match first_where(old(self).modules@, module_is(handle), 0) {
                None => r == Err::<(), SupervisorError>(SupervisorError::ModuleNotFound) && *final(self) == *old(self),
                Some(k) => {
                    let m = old(self).modules@[k];
                    if m.state == ModuleLifecycle::Running || m.state == ModuleLifecycle::Instantiated
                        || m.state == ModuleLifecycle::Mapped {
                        &&& r is Ok
                        &&& final(self).modules@ == old(self).modules@.update(k, ModuleRecord { state: ModuleLifecycle::Stopped,
                            runs: after_stop(m), ..m })
                        &&& torn_down(&*old(self), &*final(self), module_ids(old(self).instances@, handle, MAX_INSTANCES as int))
                        &&& ipc_view(&final(self).ipc) == drain_view(revoke_view(ipc_view(&old(self).ipc), handle), handle)
                    } else {
                        r == Err::<(), SupervisorError>(SupervisorError::InvalidState) && *final(self) == *old(self)
                    }
                },
            },
    {
        proof { lemma_first_where(self.modules@, module_is(handle), 0); }
        let k = match self.find_module_slot(handle) {
            Ok(k) => k,
            Err(e) => return Err(e),
        };
        let m = self.modules[k];
        if !(m.state == ModuleLifecycle::Running || m.state == ModuleLifecycle::Instantiated
            || m.state == ModuleLifecycle::Mapped) {
            return Err(SupervisorError::InvalidState);
        }
        let runs = EntryRuns { stop: call_count(m.runs.stop, m.spec.entries.stop), ..m.runs };
        self.modules.set(k, ModuleRecord { state: ModuleLifecycle::Quiescing, runs, ..m });
        self.ipc.revoke_capabilities(handle);
        self.ipc.drain_messages(handle);
        self.teardown_module_instances(handle);
        self.modules.set(k, ModuleRecord { state: ModuleLifecycle::Stopped, runs, ..m });
        assert(self.modules@ =~= old(self).modules@.update(k as int, ModuleRecord { state: ModuleLifecycle::Stopped,
            runs: after_stop(m), ..m }));
        Ok(())
    }
}

} // verus!
