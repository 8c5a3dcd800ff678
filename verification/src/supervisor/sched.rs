//! Picking the next instance to run from the four ready lanes, and the
//! lane a module runs on by default.

use vstd::prelude::*;
use vstd::string::StringSliceAdditionalSpecFns;
use crate::bytebuf::bytes_eq;

use super::{
    first_where, instance_is, lemma_first_where, ExecutionLaneClass, InstanceRecord, NodeInstanceLifecycle,
    Supervisor, SupervisorError,
};

verus! {

/// The ids queued on one lane, oldest first.
pub open spec fn lane_view(s: &Supervisor, lane: ExecutionLaneClass) -> Seq<u64> {
    match lane {
        ExecutionLaneClass::Control => s.ready_control@,
        ExecutionLaneClass::Io => s.ready_io@,
        ExecutionLaneClass::Compute => s.ready_compute@,
        ExecutionLaneClass::Background => s.ready_background@,
    }
}

/// A queued id still names a live instance that is `Ready` and marked as
/// queued; anything else left on a lane is stale and skipped.
pub open spec fn ready_id(instances: Seq<InstanceRecord>) -> spec_fn(u64) -> bool {
    |id: u64| match first_where(instances, instance_is(id), 0) {
        Some(k) => instances[k].ready_queued && instances[k].lifecycle == NodeInstanceLifecycle::Ready,
        None => false,
    }
}

/// Position of the first live entry on a lane.
pub open spec fn next_ready(s: &Supervisor, lane: ExecutionLaneClass) -> Option<int> {
    first_where(lane_view(s, lane), ready_id(s.instances@), 0)
}

/// The instance table after `id` is taken off its lane: `Running`, no
/// longer queued.
pub open spec fn started(instances: Seq<InstanceRecord>, id: u64) -> Seq<InstanceRecord> {
    let k = first_where(instances, instance_is(id), 0)->Some_0;
    instances.update(k, InstanceRecord {
        ready_queued: false, lifecycle: NodeInstanceLifecycle::Running, ..instances[k] })
}

/// `b` is `a` after taking entry `j` of `lane`: the entries before it were
/// stale and are gone, and the instance it names now runs.
pub open spec fn took(a: &Supervisor, b: &Supervisor, lane: ExecutionLaneClass, j: int) -> bool {
    &&& lane_view(b, lane) == lane_view(a, lane).skip(j + 1)
    &&& b.instances@ == started(a.instances@, lane_view(a, lane)[j])
}

/// `lane` holds only stale entries in `a` and is empty in `b`; the instance
/// table is untouched.
pub open spec fn drained(a: &Supervisor, b: &Supervisor, lane: ExecutionLaneClass) -> bool {
    &&& next_ready(a, lane) is None
    &&& lane_view(b, lane).len() == 0
    &&& b.instances@ == a.instances@
}

pub open spec fn same_lane(a: &Supervisor, b: &Supervisor, lane: ExecutionLaneClass) -> bool {
    lane_view(a, lane) == lane_view(b, lane)
}

/// What scheduling leaves alone: every table but the instances and the
/// ready lanes.
pub open spec fn sched_frame(a: &Supervisor, b: &Supervisor) -> bool {
    &&& a.modules@ == b.modules@
    &&& a.resources@ == b.resources@
    &&& a.claims@ == b.claims@
    &&& a.revocations@ == b.revocations@
    &&& a.heap_grants@ == b.heap_grants@
    &&& a.restart_queue@ == b.restart_queue@
    &&& a.bootstrapped == b.bootstrapped
    &&& a.boot_payload == b.boot_payload
    &&& a.next_handle == b.next_handle
    &&& a.next_instance == b.next_instance
    &&& a.next_claim == b.next_claim
    &&& a.next_domain == b.next_domain
    &&& a.next_root == b.next_root
    &&& a.active_module == b.active_module
    &&& a.active_instance == b.active_instance
}

/// One dequeue from `lane`, as `dequeue_ready_from_lane` states it.
pub open spec fn lane_step(a: &Supervisor, b: &Supervisor, lane: ExecutionLaneClass, r: Option<u64>) -> bool {
    match next_ready(a, lane) {
        Some(j) => r == Some(lane_view(a, lane)[j]) && took(a, b, lane, j),
        None => r is None && drained(a, b, lane),
    }
}

/// Lanes in the order a dequeue without a preference tries them.
pub open spec fn priority_step(a: &Supervisor, b: &Supervisor, r: Option<u64>) -> bool {
    let c = ExecutionLaneClass::Control;
    let i = ExecutionLaneClass::Io;
    let m = ExecutionLaneClass::Compute;
    let g = ExecutionLaneClass::Background;
    if next_ready(a, c) is Some {
        lane_step(a, b, c, r) && same_lane(a, b, i) && same_lane(a, b, m) && same_lane(a, b, g)
    } else if next_ready(a, i) is Some {
        lane_view(b, c).len() == 0 && lane_step(a, b, i, r) && same_lane(a, b, m) && same_lane(a, b, g)
    } else if next_ready(a, m) is Some {
        lane_view(b, c).len() == 0 && lane_view(b, i).len() == 0 && lane_step(a, b, m, r) && same_lane(a, b, g)
    } else {
        lane_view(b, c).len() == 0 && lane_view(b, i).len() == 0 && lane_view(b, m).len() == 0
            && lane_step(a, b, g, r)
    }
}

impl Supervisor {
    /// Take the oldest id off a lane.
    fn pop_ready_queue(&mut self, lane: ExecutionLaneClass) -> (r: Option<u64>)
        requires
            old(self).wf(),
        ensures
            final(self).wf(),
            sched_frame(&*final(self), &*old(self)),
            final(self).instances@ == old(self).instances@,
            forall|l: ExecutionLaneClass| l != lane ==> #[trigger] lane_view(&*final(self), l) == lane_view(&*old(self), l),
            lane_view(&*old(self), lane).len() == 0 ==> r is None && lane_view(&*final(self), lane) == lane_view(&*old(self), lane),
            lane_view(&*old(self), lane).len() > 0 ==> r == Some(lane_view(&*old(self), lane)[0])
                && lane_view(&*final(self), lane) == lane_view(&*old(self), lane).drop_first(),
    {
        match lane {
            ExecutionLaneClass::Control => self.ready_control.pop(),
            ExecutionLaneClass::Io => self.ready_io.pop(),
            ExecutionLaneClass::Compute => self.ready_compute.pop(),
            ExecutionLaneClass::Background => self.ready_background.pop(),
        }
    }

    /// The oldest live instance on `lane`, now `Running`; stale entries
    /// ahead of it are dropped. `None` when the lane ran dry.
    pub fn dequeue_ready_from_lane(&mut self, lane: ExecutionLaneClass) -> (r: Option<u64>)
        requires
            old(self).wf(),
        ensures
            final(self).wf(),
            sched_frame(&*final(self), &*old(self)),
            forall|l: ExecutionLaneClass| l != lane ==> #[trigger] lane_view(&*final(self), l) == lane_view(&*old(self), l),
            lane_step(&*old(self), &*final(self), lane, r),
    {
        let ghost q = lane_view(self, lane);
        let ghost p = ready_id(self.instances@);
        let ghost mut i: int = 0;
        proof { lemma_first_where(q, p, 0); }
        loop
            invariant
                0 <= i <= q.len(),
                self.wf(),
                sched_frame(&*self, &*old(self)),
                self.instances@ == old(self).instances@,
                q == lane_view(&*old(self), lane),
                p == ready_id(old(self).instances@),
                forall|l: ExecutionLaneClass| l != lane ==> #[trigger] lane_view(&*self, l) == lane_view(&*old(self), l),
                lane_view(&*self, lane) == q.skip(i),
                first_where(q, p, 0) == first_where(q, p, i),
            decreases q.len() - i,
        {
            let popped = self.pop_ready_queue(lane);
            let id = match popped {
                None => {
                    proof { lemma_first_where(q, p, i); }
                    return None;
                },
                Some(id) => id,
            };
            proof {
                assert(q.skip(i)[0] == q[i]);
                assert(q.skip(i).drop_first() =~= q.skip(i + 1));
                lemma_first_where(self.instances@, instance_is(id), 0);
            }
            let slot = match self.find_instance_slot(id) {
                Ok(s) => s,
                Err(_) => {
                    proof {
                        assert(!p(q[i]));
                        i = i + 1;
                    }
                    continue;
                },
            };
            let rec = self.instances[slot];
            if !rec.occupied || !rec.ready_queued || rec.lifecycle != NodeInstanceLifecycle::Ready {
                proof {
                    assert(!p(q[i]));
                    i = i + 1;
                }
                continue;
            }
            proof { assert(p(q[i])); }
            let ghost pre = *self;
            self.instances.set(slot, InstanceRecord {
                ready_queued: false, lifecycle: NodeInstanceLifecycle::Running, ..rec });
            proof {
                assert(self.instances@ =~= started(old(self).instances@, id));
                assert forall|l: ExecutionLaneClass| #[trigger] lane_view(&*self, l) == lane_view(&pre, l) by {}
            }
            return Some(id);
        }
    }

    /// Pick the next instance to run: from the preferred lane only, or else
    /// from the first of control, I/O, compute and background that has one.
    pub fn dequeue_ready_instance(&mut self, preferred: Option<ExecutionLaneClass>)
        -> (r: Result<Option<u64>, SupervisorError>)
        requires
            old(self).wf(),
        ensures
            final(self).wf(),
            sched_frame(&*final(self), &*old(self)),
            !old(self).bootstrapped ==> r == Err::<Option<u64>, SupervisorError>(SupervisorError::NotBootstrapped)
                && final(self).instances@ == old(self).instances@
                && forall|l: ExecutionLaneClass| #[trigger] lane_view(&*final(self), l) == lane_view(&*old(self), l),
            old(self).bootstrapped ==> r is Ok && match preferred {
                Some(lane) => lane_step(&*old(self), &*final(self), lane, r->Ok_0)
                    && forall|l: ExecutionLaneClass| l != lane ==> #[trigger] lane_view(&*final(self), l) == lane_view(&*old(self), l),
                None => priority_step(&*old(self), &*final(self), r->Ok_0),
            },
    {
        if !self.bootstrapped {
            return Err(SupervisorError::NotBootstrapped);
        }
        match preferred {
            Some(lane) => return Ok(self.dequeue_ready_from_lane(lane)),
            None => {},
        }
        let ghost s0 = *self;
        let c = self.dequeue_ready_from_lane(ExecutionLaneClass::Control);
        if c.is_some() {
            return Ok(c);
        }
        let ghost s1 = *self;
        assert(next_ready(&s1, ExecutionLaneClass::Io) == next_ready(&s0, ExecutionLaneClass::Io));
        let io = self.dequeue_ready_from_lane(ExecutionLaneClass::Io);
        if io.is_some() {
            return Ok(io);
        }
        let ghost s2 = *self;
        assert(next_ready(&s2, ExecutionLaneClass::Compute) == next_ready(&s0, ExecutionLaneClass::Compute));
        let m = self.dequeue_ready_from_lane(ExecutionLaneClass::Compute);
        if m.is_some() {
            return Ok(m);
        }
        let ghost s3 = *self;
        assert(next_ready(&s3, ExecutionLaneClass::Background) == next_ready(&s0, ExecutionLaneClass::Background));
        Ok(self.dequeue_ready_from_lane(ExecutionLaneClass::Background))
    }
}


/// The lane a module runs on unless told otherwise, by its name: the shell
/// and the query engine on the control lane, the AI and CUDA plugins on
/// the compute lane, the device drivers on the I/O lane, anything else in
/// the background.
pub open spec fn spec_default_lane(name: Seq<u8>) -> ExecutionLaneClass {
    if name == "K_SHELL".spec_bytes() || name == "K_CYPHER".spec_bytes() {
        ExecutionLaneClass::Control
    } else if name == "K_AI".spec_bytes() || name == "K_CUDA".spec_bytes() {
        ExecutionLaneClass::Compute
    } else if name == "K_VGA".spec_bytes() || name == "K_SERIAL".spec_bytes() || name == "K_IME".spec_bytes()
        || name == "K_NET".spec_bytes() || name == "K_MOUSE".spec_bytes() || name == "K_PS2".spec_bytes()
        || name == "K_PIC".spec_bytes() || name == "K_PIT".spec_bytes() {
        ExecutionLaneClass::Io
    } else {
        ExecutionLaneClass::Background
    }
}

/// The default lane of the module named `name`.
pub fn default_lane_for_module(name: &[u8]) -> (r: ExecutionLaneClass)
    ensures
        r == spec_default_lane(name@),
{
    if bytes_eq(name, "K_SHELL".as_bytes()) || bytes_eq(name, "K_CYPHER".as_bytes()) {
        ExecutionLaneClass::Control
    } else if bytes_eq(name, "K_AI".as_bytes()) || bytes_eq(name, "K_CUDA".as_bytes()) {
        ExecutionLaneClass::Compute
    } else if bytes_eq(name, "K_VGA".as_bytes()) || bytes_eq(name, "K_SERIAL".as_bytes())
        || bytes_eq(name, "K_IME".as_bytes()) || bytes_eq(name, "K_NET".as_bytes())
        || bytes_eq(name, "K_MOUSE".as_bytes()) || bytes_eq(name, "K_PS2".as_bytes())
        || bytes_eq(name, "K_PIC".as_bytes()) || bytes_eq(name, "K_PIT".as_bytes()) {
        ExecutionLaneClass::Io
    } else {
        ExecutionLaneClass::Background
    }
}

} // verus!
