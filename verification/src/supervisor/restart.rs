//! The restart queue: faulted or restarted modules are stopped, their
//! instances torn down, and brought back up with a new generation.

use vstd::prelude::*;

use super::ipc::{drain_view, ipc_view, publish_room, publish_view, revoke_view};
use super::teardown::{claims_without, grants_without, instances_without, module_ids, revocations_without};
use super::{
    after_stop, called, EntryRuns,
    domain_layout, first_where, free_instance, layout_fits, lemma_first_where, module_instance, module_is,
    ModuleFaultPolicy, ModuleLifecycle, ModuleRecord, Supervisor, SupervisorError, MAX_INSTANCES, MAX_MODULES,
};

verus! {

/// States a restart first stops the module from.
pub open spec fn stops_first(st: ModuleLifecycle) -> bool {
    st == ModuleLifecycle::Running || st == ModuleLifecycle::Instantiated || st == ModuleLifecycle::Mapped
        || st == ModuleLifecycle::Faulted
}

/// A queued handle whose module is mid-validation or quiescing is passed
/// over; every other handle is served.
pub open spec fn skippable(modules: Seq<ModuleRecord>) -> spec_fn(u64) -> bool {
    |h: u64| match first_where(modules, module_is(h), 0) {
        Some(k) => modules[k].state == ModuleLifecycle::Validated || modules[k].state == ModuleLifecycle::Quiescing,
        None => false,
    }
}

pub open spec fn served(modules: Seq<ModuleRecord>) -> spec_fn(u64) -> bool {
    |h: u64| !skippable(modules)(h)
}

/// The module table with the restart flag cleared on every module whose
/// handle is in `hs`.
pub open spec fn flags_cleared(modules: Seq<ModuleRecord>, hs: Seq<u64>) -> Seq<ModuleRecord> {
    Seq::new(modules.len(), |k: int|
        if modules[k].occupied && hs.contains(modules[k].handle) {
            ModuleRecord { queued_restart: false, ..modules[k] }
        } else {
            modules[k]
        })
}

/// The entry calls a restart makes of module `m`: its stop entry when it
/// is stopped first (a faulted module is not), then init and start when an
/// instance slot is found.
pub open spec fn restart_runs(m: ModuleRecord, inst_ok: bool) -> EntryRuns {
    let stopped = if m.state == ModuleLifecycle::Running || m.state == ModuleLifecycle::Instantiated
        || m.state == ModuleLifecycle::Mapped { after_stop(m) } else { m.runs };
    if inst_ok {
        EntryRuns { init: called(stopped.init, m.spec.entries.init), start: called(stopped.start, m.spec.entries.start),
            stop: stopped.stop }
    } else {
        stopped
    }
}

pub open spec fn next_generation(g: u32) -> u32 {
    if g == u32::MAX { 0 } else { (g + 1) as u32 }
}

/// `b` is what restarting the module in slot `k` of the table `ms` makes of
/// `a`: stopped unless it was already stopped or just installed (what it
/// published withdrawn, its endpoints closed, its messages dropped, its
/// instances torn down), a new generation, its domain built if it had none,
/// then instantiated and started, which publishes its exports afresh.  It
/// fails for want of an instance slot (left mapped) or of room to publish
/// (left instantiated); `r` is the outcome.
pub open spec fn restarted(a: &Supervisor, ms: Seq<ModuleRecord>, b: &Supervisor, handle: u64, k: int,
    r: Result<(), SupervisorError>) -> bool {
    let m = ms[k];
    let gone = module_ids(a.instances@, handle, MAX_INSTANCES as int);
    let torn = stops_first(m.state);
    let inst1 = if torn { instances_without(a.instances@, gone) } else { a.instances@ };
    let v1 = if torn { drain_view(revoke_view(ipc_view(&a.ipc), handle), handle) } else { ipc_view(&a.ipc) };
    let inst_ok = first_where(inst1, module_instance(handle), 0) is Some || first_where(inst1, free_instance(), 0) is Some;
    let published = publish_view(revoke_view(v1, handle), handle, m.spec.exports@);
    let dom = if m.domain.root_table_phys == 0 {
        domain_layout(a.next_domain, m.spec.image_len, a.next_root)
    } else {
        m.domain
    };
    &&& !inst_ok ==> r == Err::<(), SupervisorError>(SupervisorError::InstanceTableFull) && ipc_view(&b.ipc) == v1
    &&& inst_ok ==> (ipc_view(&b.ipc), r) == published
    &&& b.modules@ == ms.update(k, ModuleRecord {
        state: if r is Ok {
            ModuleLifecycle::Running
        } else if inst_ok {
            ModuleLifecycle::Instantiated
        } else {
            ModuleLifecycle::Mapped
        },
        restart_generation: next_generation(m.restart_generation),
        domain: dom,
        runs: restart_runs(m, inst_ok),
        ..m })
    &&& torn ==> {
        &&& b.claims@ == claims_without(a.claims@, gone)
        &&& b.revocations@ == revocations_without(a.revocations@, gone)
        &&& b.heap_grants@ == grants_without(a.heap_grants@, gone)
    }
    &&& !torn ==> {
        &&& b.claims@ == a.claims@
        &&& b.revocations@ == a.revocations@
        &&& b.heap_grants@ == a.heap_grants@
    }
    &&& r is Ok ==> first_where(b.instances@, module_instance(handle), 0) is Some
    &&& b.resources@ == a.resources@
    &&& b.next_claim == a.next_claim
    &&& b.next_handle == a.next_handle
    &&& b.bootstrapped == a.bootstrapped
    &&& b.boot_payload == a.boot_payload
}

/// The bounds a restart needs: room for one more domain and instance id,
/// image sizes the domain layout can place, and ids and tokens for one
/// module's exports.
pub open spec fn restart_room(s: &Supervisor) -> bool {
    &&& layout_fits(s.next_domain, 0)
    &&& s.next_instance + 1 < u64::MAX
    &&& forall|k: int| 0 <= k < MAX_MODULES ==> (#[trigger] s.modules@[k]).spec.image_len <= 0x1_0000_0000
    &&& publish_room(ipc_view(&s.ipc))
}

/// What serving the restart queue `q` with module table `ms` (everything
/// else as in `a`) makes of `a`: stale handles whose module is mid-way are
/// dropped with their flags cleared; the first other handle is served.
pub open spec fn restart_outcome(a: &Supervisor, q: Seq<u64>, ms: Seq<ModuleRecord>, b: &Supervisor,
    r: Result<Option<u64>, SupervisorError>) -> bool {
    match first_where(q, served(ms), 0) {
        None => {
            &&& r == Ok::<Option<u64>, SupervisorError>(None)
            &&& b.restart_queue@.len() == 0
            &&& b.modules@ == flags_cleared(ms, q)
            &&& untouched_below_modules(a, b)
        },
        Some(j) => {
            &&& b.restart_queue@ == q.skip(j + 1)
            &&& match first_where(ms, module_is(q[j]), 0) {
                None => {
                    &&& r == Err::<Option<u64>, SupervisorError>(SupervisorError::ModuleNotFound)
                    &&& b.modules@ == flags_cleared(ms, q.take(j))
                    &&& untouched_below_modules(a, b)
                },
                Some(k) => {
                    &&& (r is Ok ==> r == Ok::<Option<u64>, SupervisorError>(Some(q[j])))
                    &&& restarted(a, flags_cleared(ms, q.take(j + 1)), b, q[j], k, as_unit(r))
                },
            }
        },
    }
}

/// Nothing but the module table and the restart queue changed.
pub open spec fn untouched_below_modules(a: &Supervisor, b: &Supervisor) -> bool {
    &&& ipc_view(&b.ipc) == ipc_view(&a.ipc)
    &&& b.instances@ == a.instances@
    &&& b.claims@ == a.claims@
    &&& b.revocations@ == a.revocations@
    &&& b.heap_grants@ == a.heap_grants@
    &&& b.resources@ == a.resources@
    &&& b.next_claim == a.next_claim
    &&& b.next_handle == a.next_handle
    &&& b.bootstrapped == a.bootstrapped
    &&& b.boot_payload == a.boot_payload
}

proof fn lemma_first_where_agree<A, B>(s: Seq<A>, t: Seq<B>, p: spec_fn(A) -> bool, q: spec_fn(B) -> bool, i: int)
    requires
        s.len() == t.len(),
        0 <= i,
        forall|k: int| 0 <= k < s.len() ==> p(#[trigger] s[k]) == q(t[k]),
    ensures
        first_where(s, p, i) == first_where(t, q, i),
    decreases s.len() - i,
{
    if i < s.len() {
        assert(p(s[i]) == q(t[i]));
        lemma_first_where_agree(s, t, p, q, i + 1);
    }
}

proof fn lemma_cleared_agree(ms: Seq<ModuleRecord>, hs: Seq<u64>, h: u64)
    ensures
        first_where(flags_cleared(ms, hs), module_is(h), 0) == first_where(ms, module_is(h), 0),
        skippable(flags_cleared(ms, hs))(h) == skippable(ms)(h),
{
    let c = flags_cleared(ms, hs);
    assert forall|k: int| 0 <= k < c.len() implies module_is(h)(#[trigger] c[k]) == module_is(h)(ms[k]) by {}
    lemma_first_where_agree(c, ms, module_is(h), module_is(h), 0);
    lemma_first_where(ms, module_is(h), 0);
    if first_where(ms, module_is(h), 0) is Some {
        let k = first_where(ms, module_is(h), 0)->Some_0;
        assert(c[k].state == ms[k].state);
    }
}

pub open spec fn as_unit(r: Result<Option<u64>, SupervisorError>) -> Result<(), SupervisorError> {
    match r {
        Ok(_) => Ok(()),
        Err(e) => Err(e),
    }
}

/// What `restart_module` makes of `a` when its module table is `ms`: the
/// module is queued for restart (unless it already is) and the restart
/// queue is served once.
pub open spec fn restart_module_outcome(a: &Supervisor, ms: Seq<ModuleRecord>, b: &Supervisor, handle: u64,
    r: Result<(), SupervisorError>) -> bool {
    match first_where(ms, module_is(handle), 0) {
        None => r == Err::<(), SupervisorError>(SupervisorError::ModuleNotFound)
            && b.modules@ == ms && b.restart_queue@ == a.restart_queue@ && untouched_below_modules(a, b),
        Some(k) => {
            let q = a.restart_queue@;
            if ms[k].queued_restart {
                exists|r2: Result<Option<u64>, SupervisorError>| restart_outcome(a, q, ms, b, r2) && r == #[trigger] as_unit(r2)
            } else if q.len() >= 32 {
                &&& r == Err::<(), SupervisorError>(SupervisorError::QueueFull)
                &&& b.modules@ == ms.update(k, ModuleRecord { queued_restart: true, ..ms[k] })
                &&& b.restart_queue@ == q
                &&& untouched_below_modules(a, b)
            } else {
                exists|r2: Result<Option<u64>, SupervisorError>|
                    restart_outcome(a, q.push(handle), ms.update(k, ModuleRecord { queued_restart: true, ..ms[k] }), b, r2)
                    && r == #[trigger] as_unit(r2)
            }
        },
    }
}

impl Supervisor {
    /// Queue a module for restart (already queued: nothing to do). The flag
    /// is set even when the queue turns out to be full.
    pub fn enqueue_restart_module(&mut self, handle: u64) -> (r: Result<(), SupervisorError>)
        requires
            old(self).wf(),
        ensures
            final(self).wf(),
            final(self).ipc == old(self).ipc,
            final(self).instances@ == old(self).instances@,
            final(self).claims@ == old(self).claims@,
            final(self).revocations@ == old(self).revocations@,
            final(self).heap_grants@ == old(self).heap_grants@,
            final(self).resources@ == old(self).resources@,
            final(self).next_domain == old(self).next_domain,
            final(self).next_instance == old(self).next_instance,
            final(self).next_root == old(self).next_root,
            final(self).next_handle == old(self).next_handle,
            final(self).next_claim == old(self).next_claim,
            final(self).boot_payload == old(self).boot_payload,
            final(self).bootstrapped == old(self).bootstrapped,
            match first_where(old(self).modules@, module_is(handle), 0) {
                None => r == Err::<(), SupervisorError>(SupervisorError::ModuleNotFound)
                    && final(self).modules@ == old(self).modules@ && final(self).restart_queue@ == old(self).restart_queue@,
                Some(k) => if old(self).modules@[k].queued_restart {
                    r is Ok && final(self).modules@ == old(self).modules@ && final(self).restart_queue@ == old(self).restart_queue@
                } else {
                    &&& final(self).modules@ == old(self).modules@.update(k,
                        ModuleRecord { queued_restart: true, ..old(self).modules@[k] })
                    &&& old(self).restart_queue@.len() < 32 ==> r is Ok
                        && final(self).restart_queue@ == old(self).restart_queue@.push(handle)
                    &&& old(self).restart_queue@.len() >= 32 ==> r == Err::<(), SupervisorError>(SupervisorError::QueueFull)
                        && final(self).restart_queue@ == old(self).restart_queue@
                },
            },
    {
        proof { lemma_first_where(self.modules@, module_is(handle), 0); }
        let k = match self.find_module_slot(handle) {
            Ok(k) => k,
            Err(e) => return Err(e),
        };
        let m = self.modules[k];
        if m.queued_restart {
            return Ok(());
        }
        self.modules.set(k, ModuleRecord { queued_restart: true, ..m });
        if self.restart_queue.push(handle) { Ok(()) } else { Err(SupervisorError::QueueFull) }
    }

    /// Bring the stopped (or just installed) module in slot `k` back up:
    /// validate, map (building its domain if it has none), instantiate and
    /// start it.
    #[verifier::rlimit(80)]
    #[verifier::spinoff_prover]
    fn bring_up(&mut self, handle: u64, k: usize) -> (r: Result<(), SupervisorError>)
        requires
            old(self).wf(),
            restart_room(&*old(self)),
            k < MAX_MODULES,
            old(self).modules@[k as int].occupied,
            old(self).modules@[k as int].handle == handle,
            old(self).modules@[k as int].state == ModuleLifecycle::Stopped
                || old(self).modules@[k as int].state == ModuleLifecycle::Installed,
        ensures
            final(self).wf(),
            final(self).restart_queue@ == old(self).restart_queue@,
            ({
                let m = old(self).modules@[k as int];
                let inst_ok = first_where(old(self).instances@, module_instance(handle), 0) is Some
                    || first_where(old(self).instances@, free_instance(), 0) is Some;
                let dom = if m.domain.root_table_phys == 0 {
                    domain_layout(old(self).next_domain, m.spec.image_len, old(self).next_root)
                } else {
                    m.domain
                };
                &&& !inst_ok ==> r == Err::<(), SupervisorError>(SupervisorError::InstanceTableFull)
                    && ipc_view(&final(self).ipc) == ipc_view(&old(self).ipc)
                &&& inst_ok ==> (ipc_view(&final(self).ipc), r)
                    == publish_view(revoke_view(ipc_view(&old(self).ipc), handle), handle, m.spec.exports@)
                &&& final(self).modules@ == old(self).modules@.update(k as int, ModuleRecord {
                    state: if r is Ok {
                        ModuleLifecycle::Running
                    } else if inst_ok {
                        ModuleLifecycle::Instantiated
                    } else {
                        ModuleLifecycle::Mapped
                    },
                    domain: dom,
                    runs: if inst_ok {
                        EntryRuns { init: called(m.runs.init, m.spec.entries.init),
                            start: called(m.runs.start, m.spec.entries.start), stop: m.runs.stop }
                    } else {
                        m.runs
                    },
                    ..m })
            }),
            final(self).claims@ == old(self).claims@,
            final(self).revocations@ == old(self).revocations@,
            final(self).heap_grants@ == old(self).heap_grants@,
            final(self).resources@ == old(self).resources@,
            final(self).next_claim == old(self).next_claim,
            final(self).next_handle == old(self).next_handle,
            final(self).bootstrapped == old(self).bootstrapped,
            final(self).boot_payload == old(self).boot_payload,
            r is Ok ==> first_where(final(self).instances@, module_instance(handle), 0) is Some,
    {
        let m1 = self.modules[k];
        proof { super::lemma_module_slot_unique(self.modules@, k as int); }
        match self.validate_module(handle) {
            Ok(()) => {},
            Err(e) => return Err(e),
        }
        proof { super::lemma_module_slot_unique(self.modules@, k as int); }
        match self.map_module(handle) {
            Ok(()) => {},
            Err(e) => return Err(e),
        }
        let ghost s2 = *self;
        proof { super::lemma_module_slot_unique(self.modules@, k as int); }
        match self.instantiate_module(handle) {
            Ok(()) => {},
            Err(e) => {
                assert(self.modules@ =~= old(self).modules@.update(k as int, ModuleRecord {
                    state: ModuleLifecycle::Mapped,
                    domain: s2.modules@[k as int].domain,
                    ..m1 }));
                return Err(e);
            },
        }
        proof { super::lemma_module_slot_unique(self.modules@, k as int); }
        let r = self.start_module(handle);
        let ghost runs = EntryRuns { init: called(m1.runs.init, m1.spec.entries.init),
            start: called(m1.runs.start, m1.spec.entries.start), stop: m1.runs.stop };
        if r.is_ok() {
            assert(self.modules@ =~= old(self).modules@.update(k as int, ModuleRecord {
                state: ModuleLifecycle::Running,
                domain: s2.modules@[k as int].domain,
                runs,
                ..m1 }));
        } else {
            assert(self.modules@ =~= old(self).modules@.update(k as int, ModuleRecord {
                state: ModuleLifecycle::Instantiated,
                domain: s2.modules@[k as int].domain,
                runs,
                ..m1 }));
        }
        r
    }

    /// Restart the module in slot `k`, which the restart queue is serving.
    #[verifier::rlimit(80)]
    #[verifier::spinoff_prover]
    fn restart_slot(&mut self, handle: u64, k: usize) -> (r: Result<(), SupervisorError>)
        requires
            old(self).wf(),
            restart_room(&*old(self)),
            k < MAX_MODULES,
            old(self).modules@[k as int].occupied,
            old(self).modules@[k as int].handle == handle,
            !skippable(old(self).modules@)(handle),
        ensures
            final(self).wf(),
            final(self).restart_queue@ == old(self).restart_queue@,
            restarted(&*old(self), old(self).modules@, &*final(self), handle, k as int, r),
    {
        let ghost o = *old(self);
        let m = self.modules[k];
        proof { super::lemma_module_slot_unique(self.modules@, k as int); }
        let ghost gone = module_ids(o.instances@, handle, MAX_INSTANCES as int);
        if m.state == ModuleLifecycle::Running || m.state == ModuleLifecycle::Instantiated
            || m.state == ModuleLifecycle::Mapped {
            let _ = self.stop_module(handle);
        } else if m.state == ModuleLifecycle::Faulted {
            self.ipc.revoke_capabilities(handle);
            self.ipc.drain_messages(handle);
            self.teardown_module_instances(handle);
            self.modules.set(k, ModuleRecord { state: ModuleLifecycle::Stopped, ..m });
        }
        let m1 = self.modules[k];
        assert(m1.state == ModuleLifecycle::Stopped || m1.state == ModuleLifecycle::Installed);
        assert(m1.runs == restart_runs(m, false));
        self.modules.set(k, ModuleRecord { restart_generation: m1.restart_generation.wrapping_add(1), ..m1 });
        let ghost s1 = *self;
        let r = self.bring_up(handle, k);
        proof {
            let inst_ok = first_where(s1.instances@, module_instance(handle), 0) is Some
                || first_where(s1.instances@, free_instance(), 0) is Some;
            assert(self.modules@ =~= o.modules@.update(k as int, ModuleRecord {
                state: if r is Ok {
                    ModuleLifecycle::Running
                } else if inst_ok {
                    ModuleLifecycle::Instantiated
                } else {
                    ModuleLifecycle::Mapped
                },
                restart_generation: next_generation(m.restart_generation),
                domain: self.modules@[k as int].domain,
                runs: restart_runs(m, inst_ok),
                ..m }));
        }
        r
    }

    /// Serve the restart queue: drop handles whose module is mid-validation
    /// or quiescing, and restart the module of the first other handle.
    pub fn process_next_restart(&mut self) -> (r: Result<Option<u64>, SupervisorError>)
        requires
            old(self).wf(),
            restart_room(&*old(self)),
        ensures
            final(self).wf(),
            restart_outcome(&*old(self), old(self).restart_queue@, old(self).modules@, &*final(self), r),
    {
        let ghost q = self.restart_queue@;
        let ghost ms = self.modules@;
        let ghost mut i: int = 0;
        proof {
            lemma_first_where(q, served(ms), 0);
            assert(ms =~= flags_cleared(ms, q.take(0)));
        }
        loop
            invariant
                0 <= i <= q.len(),
                old(self).wf(),
                self.wf(),
                restart_room(&*self),
                q == old(self).restart_queue@,
                ms == old(self).modules@,
                self.restart_queue@ == q.skip(i),
                self.modules@ == flags_cleared(ms, q.take(i)),
                untouched_below_modules(&*old(self), &*self),
                self.ipc == old(self).ipc,
                self.next_domain == old(self).next_domain,
                self.next_root == old(self).next_root,
                self.next_instance == old(self).next_instance,
                first_where(q, served(ms), 0) == first_where(q, served(ms), i),
            decreases q.len() - i,
        {
            let popped = self.restart_queue.pop();
            let handle = match popped {
                None => {
                    proof {
                        lemma_first_where(q, served(ms), i);
                        assert(q.take(i) =~= q);
                    }
                    return Ok(None);
                },
                Some(h) => h,
            };
            proof {
                assert(q.skip(i)[0] == q[i]);
                assert(q.skip(i).drop_first() =~= q.skip(i + 1));
                lemma_cleared_agree(ms, q.take(i), handle);
                lemma_first_where(ms, module_is(handle), 0);
            }
            let k = match self.find_module_slot(handle) {
                Ok(k) => k,
                Err(e) => {
                    proof {
                        assert(served(ms)(q[i]));
                        lemma_first_where(q, served(ms), i);
                    }
                    return Err(e);
                },
            };
            let m = self.modules[k];
            self.modules.set(k, ModuleRecord { queued_restart: false, ..m });
            proof {
                assert(q.take(i + 1) =~= q.take(i).push(q[i]));
                assert forall|x: int| 0 <= x < ms.len() implies
                    #[trigger] self.modules@[x] == flags_cleared(ms, q.take(i + 1))[x] by {
                    if x != k && ms[x].occupied && ms[x].handle == handle {
                        assert(old(self).modules@[x].occupied && old(self).modules@[k as int].occupied);
                        assert(old(self).modules@[x].handle == old(self).modules@[k as int].handle);
                    }
                    if x == k {
                        assert(q.take(i + 1).contains(handle)) by {
                            assert(q.take(i + 1)[i] == handle);
                        }
                    }
                    if x != k && ms[x].occupied && q.take(i + 1).contains(ms[x].handle) && !q.take(i).contains(ms[x].handle) {
                        let w = choose|w: int| 0 <= w < q.take(i + 1).len() && #[trigger] q.take(i + 1)[w] == ms[x].handle;
                        if w < i {
                            assert(q.take(i)[w] == ms[x].handle);
                        }
                    }
                    if x != k && ms[x].occupied && q.take(i).contains(ms[x].handle) {
                        let w = choose|w: int| 0 <= w < q.take(i).len() && #[trigger] q.take(i)[w] == ms[x].handle;
                        assert(q.take(i + 1)[w] == ms[x].handle);
                    }
                }
                assert(self.modules@ =~= flags_cleared(ms, q.take(i + 1)));
                lemma_cleared_agree(ms, q.take(i + 1), handle);
                super::lemma_module_slot_unique(self.modules@, k as int);
            }
            if m.state == ModuleLifecycle::Validated || m.state == ModuleLifecycle::Quiescing {
                proof {
                    assert(!served(ms)(q[i]));
                    i = i + 1;
                }
                continue;
            }
            proof {
                assert(served(ms)(q[i]));
                lemma_first_where(q, served(ms), i);
            }
            let r0 = self.restart_slot(handle, k);
            let r = match r0 {
                Ok(()) => Ok(Some(handle)),
                Err(e) => Err(e),
            };
            assert(as_unit(r) == r0);
            return r;
        }
    }

    /// Queue a module for restart and serve the restart queue once.
    pub fn restart_module(&mut self, handle: u64) -> (r: Result<(), SupervisorError>)
        requires
            old(self).wf(),
            restart_room(&*old(self)),
        ensures
            final(self).wf(),
            restart_module_outcome(&*old(self), old(self).modules@, &*final(self), handle, r),
    {
        proof { lemma_first_where(self.modules@, module_is(handle), 0); }
        match self.enqueue_restart_module(handle) {
            Ok(()) => {},
            Err(e) => return Err(e),
        }
        let r2 = self.process_next_restart();
        let r = match r2 {
            Ok(_) => Ok(()),
            Err(e) => Err(e),
        };
        assert(r == as_unit(r2));
        r
    }

    /// Mark a module faulted; under a restart policy it is restarted at
    /// once, otherwise it stays faulted.
    pub fn fault_module(&mut self, handle: u64) -> (r: Result<(), SupervisorError>)
        requires
            old(self).wf(),
            restart_room(&*old(self)),
        ensures
            final(self).wf(),
            match first_where(old(self).modules@, module_is(handle), 0) {
                None => r == Err::<(), SupervisorError>(SupervisorError::ModuleNotFound)
                    && final(self).modules@ == old(self).modules@ && final(self).restart_queue@ == old(self).restart_queue@
                    && untouched_below_modules(&*old(self), &*final(self)),
                Some(k) => {
                    let m = old(self).modules@[k];
                    let ms = old(self).modules@.update(k, ModuleRecord { state: ModuleLifecycle::Faulted, ..m });
                    if m.spec.fault_policy == ModuleFaultPolicy::Restart || m.spec.fault_policy == ModuleFaultPolicy::RestartAlways {
                        restart_module_outcome(&*old(self), ms, &*final(self), handle, r)
                    } else {
                        r is Ok && final(self).modules@ == ms && final(self).restart_queue@ == old(self).restart_queue@
                            && untouched_below_modules(&*old(self), &*final(self))
                    }
                },
            },
    {
        proof { lemma_first_where(self.modules@, module_is(handle), 0); }
        let k = match self.find_module_slot(handle) {
            Ok(k) => k,
            Err(e) => return Err(e),
        };
        let m = self.modules[k];
        self.modules.set(k, ModuleRecord { state: ModuleLifecycle::Faulted, ..m });
        proof { super::lemma_module_slot_unique(self.modules@, k as int); }
        if m.spec.fault_policy == ModuleFaultPolicy::Restart || m.spec.fault_policy == ModuleFaultPolicy::RestartAlways {
            self.restart_module(handle)
        } else {
            Ok(())
        }
    }

    /// Stop a module if it is live and free its slot.
    pub fn uninstall_module(&mut self, handle: u64) -> (r: Result<(), SupervisorError>)
        requires
            old(self).wf(),
        ensures
            final(self).wf(),
            final(self).restart_queue@ == old(self).restart_queue@,
            final(self).resources@ == old(self).resources@,
            match first_where(old(self).modules@, module_is(handle), 0) {
                None => r == Err::<(), SupervisorError>(SupervisorError::ModuleNotFound) && *final(self) == *old(self),
                Some(k) => {
                    let st = old(self).modules@[k].state;
                    let gone = module_ids(old(self).instances@, handle, MAX_INSTANCES as int);
                    &&& r is Ok
                    &&& final(self).modules@ == old(self).modules@.update(k, super::empty_module())
                    &&& (st == ModuleLifecycle::Running || st == ModuleLifecycle::Instantiated || st == ModuleLifecycle::Mapped
                        ==> super::teardown::torn_down(&*old(self), &*final(self), gone))
                    &&& (!(st == ModuleLifecycle::Running || st == ModuleLifecycle::Instantiated || st == ModuleLifecycle::Mapped)
                        ==> untouched_below_modules(&*old(self), &*final(self)))
                },
            },
    {
        proof { lemma_first_where(self.modules@, module_is(handle), 0); }
        let k = match self.find_module_slot(handle) {
            Ok(k) => k,
            Err(e) => return Err(e),
        };
        let _ = self.stop_module(handle);
        let em = ModuleRecord {
            occupied: false, handle: 0,
            spec: super::ModuleSpec { module_id: 0, image_len: 0, lane: super::ExecutionLaneClass::Background,
                fault_policy: ModuleFaultPolicy::Manual, exports: [None, None, None, None],
                entries: super::ModuleEntries { init: false, start: false, stop: false } },
            state: ModuleLifecycle::Stopped, domain: super::make_empty_domain(), queued_restart: false, restart_generation: 0,
            runs: super::EntryRuns { init: 0, start: 0, stop: 0 },
        };
        self.modules.set(k, em);
        Ok(())
    }
}

/// A faulted module is restarted without a call of its stop entry; once an
/// instance slot is found its init and start entries are called again.
pub proof fn lemma_fault_restart_runs(m: ModuleRecord, inst_ok: bool)
    requires
        m.state == ModuleLifecycle::Faulted,
    ensures
        restart_runs(m, inst_ok).stop == m.runs.stop,
        inst_ok ==> restart_runs(m, inst_ok).start == called(m.runs.start, m.spec.entries.start)
            && restart_runs(m, inst_ok).init == called(m.runs.init, m.spec.entries.init),
        !inst_ok ==> restart_runs(m, inst_ok) == m.runs,
{
}

} // verus!
