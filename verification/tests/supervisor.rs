use gos_kernel::supervisor::abi::{
    claim_status, free_pages_status, release_status, request_pages_status, ModuleCallStatus,
};
use gos_kernel::supervisor::ipc::{label, CapabilitySpec, MessageHeader, ModuleMessage};
use gos_kernel::supervisor::queue::IdQueue;
use gos_kernel::supervisor::sched::default_lane_for_module;
use gos_kernel::supervisor::{
    image_len, ModuleSegment, NodeInstanceLifecycle, DEFAULT_IMAGE_WINDOW,
    map_domain_heap_pages, ClaimPolicy, ExecutionLaneClass, EntryRuns, ModuleEntries, ModuleFaultPolicy, ModuleLifecycle, ModuleSpec, PreemptPolicy, Supervisor,
    SupervisorError, DEFAULT_HEAP_WINDOW, DOMAIN_BASE, DOMAIN_STRIDE, RESOURCE_DISPLAY_CONSOLE,
    RESOURCE_GPU_ACCEL,
};

fn demo_exports() -> [Option<CapabilitySpec>; 4] {
    [Some(CapabilitySpec { namespace: label(b"demo"), name: label(b"echo") }), None, None, None]
}

const ALL_ENTRIES: ModuleEntries = ModuleEntries { init: true, start: true, stop: true };
const NO_ENTRIES: ModuleEntries = ModuleEntries { init: false, start: false, stop: false };

fn provider_spec() -> ModuleSpec {
    ModuleSpec { module_id: 100, image_len: 0x4000, lane: ExecutionLaneClass::Control,
        fault_policy: ModuleFaultPolicy::RestartAlways, exports: demo_exports(), entries: ALL_ENTRIES }
}

fn booted_with_two_modules() -> (Supervisor, u64, u64) {
    let mut s = Supervisor::new();
    s.bootstrap(7);
    let a = s.install_module(provider_spec()).unwrap();
    let b = s.install_module(ModuleSpec { module_id: 200, image_len: 0x1000, lane: ExecutionLaneClass::Io, fault_policy: ModuleFaultPolicy::Manual, exports: [None; 4], entries: NO_ENTRIES }).unwrap();
    (s, a, b)
}

#[test]
fn id_queue_is_fifo_and_bounded() {
    let mut q = IdQueue::<2>::new();
    assert_eq!(q.len(), 0);
    assert!(q.push(5));
    assert!(q.push(6));
    assert!(!q.push(7));
    assert_eq!(q.pop(), Some(5));
    assert!(q.push(8));
    assert_eq!(q.pop(), Some(6));
    assert_eq!(q.pop(), Some(8));
    assert_eq!(q.pop(), None);
}

#[test]
fn bootstrap_registers_default_resources() {
    let mut s = Supervisor::new();
    assert_eq!(s.ensure_bootstrapped(), Err(SupervisorError::NotBootstrapped));
    assert_eq!(
        s.install_module(ModuleSpec { module_id: 1, image_len: 1, lane: ExecutionLaneClass::Io, fault_policy: ModuleFaultPolicy::Manual, exports: [None; 4], entries: NO_ENTRIES }),
        Err(SupervisorError::NotBootstrapped)
    );
    s.bootstrap(42);
    assert_eq!(s.ensure_bootstrapped(), Ok(()));
    assert!(s.find_resource_slot(RESOURCE_GPU_ACCEL).is_ok());
    assert_eq!(s.find_resource_slot(99), Err(SupervisorError::ResourceNotFound));
    assert_eq!(s.register_resource(99), Ok(()));
    assert!(s.find_resource_slot(99).is_ok());
    let snap = s.snapshot();
    assert_eq!(snap.registered_resources, 6);
    assert_eq!(snap.installed_modules, 0);
}

#[test]
fn realize_brings_installed_modules_to_running() {
    let (mut s, a, b) = booted_with_two_modules();
    assert_eq!((a, b), (1, 2));
    let report = s.realize_boot_modules().unwrap();
    assert_eq!(report.discovered_modules, 2);
    assert_eq!(report.running_modules, 2);
    assert_eq!(report.isolated_domains, 2);
    let slot = s.find_module_slot(a).unwrap();
    assert_eq!(s.modules[slot].state, ModuleLifecycle::Running);
    let dom = s.modules[slot].domain;
    assert!(dom.isolated);
    assert_eq!(dom.image_base, DOMAIN_BASE);
    assert_eq!(dom.heap_base, DOMAIN_BASE + 0x74000);
    assert_eq!(dom.heap_len, DEFAULT_HEAP_WINDOW);
    let dom_b = s.modules[s.find_module_slot(b).unwrap()].domain;
    assert_eq!(dom_b.image_base, DOMAIN_BASE + DOMAIN_STRIDE);
    assert!(s.primary_instance_for_module(a).is_some());
    assert!(s.primary_instance_for_module(b).is_some());
    assert_eq!(s.primary_instance_for_module(9), None);
    let snap = s.checked_snapshot().unwrap();
    assert_eq!(snap.installed_modules, 2);
    assert_eq!(snap.running_modules, 2);
    assert_eq!(snap.live_instances, 2);
}

#[test]
fn exclusive_claims_wait_or_preempt() {
    let (mut s, a, b) = booted_with_two_modules();
    s.realize_boot_modules().unwrap();
    let ia = s.primary_instance_for_module(a).unwrap();
    let ib = s.primary_instance_for_module(b).unwrap();
    let lease = s.claim_resource(ia, RESOURCE_DISPLAY_CONSOLE, ClaimPolicy::Exclusive, PreemptPolicy::Never).unwrap();
    assert_eq!(lease.claim_id, 1);
    assert_eq!(lease.epoch, 1);
    assert_eq!(lease.instance_id, ia);
    // Asking again gives the same lease back.
    assert_eq!(s.claim_resource(ia, RESOURCE_DISPLAY_CONSOLE, ClaimPolicy::Exclusive, PreemptPolicy::Never), Ok(lease));
    // Another instance waits without preemption ...
    assert_eq!(
        s.claim_resource(ib, RESOURCE_DISPLAY_CONSOLE, ClaimPolicy::Exclusive, PreemptPolicy::Never),
        Err(SupervisorError::ResourceBusy)
    );
    // ... and takes the resource over with it.
    let taken = s.claim_resource(ib, RESOURCE_DISPLAY_CONSOLE, ClaimPolicy::Exclusive, PreemptPolicy::Force).unwrap();
    assert_eq!(taken.claim_id, 2);
    assert_eq!(taken.epoch, 2);
    let sa = s.find_instance_slot(ia).unwrap();
    assert_eq!(s.instances[sa].lifecycle, NodeInstanceLifecycle::Suspended);
    assert!(!s.instances[sa].ready_queued);
    assert_eq!(s.drain_revocation(ia), Some(lease));
    assert_eq!(s.drain_revocation(ia), None);
    assert_eq!(s.snapshot().active_claims, 1);
    assert_eq!(s.release_claim(taken.claim_id), Ok(()));
    assert_eq!(s.release_claim(taken.claim_id), Err(SupervisorError::ClaimNotFound));
    assert_eq!(s.snapshot().active_claims, 0);
    assert_eq!(
        s.claim_resource(77, RESOURCE_DISPLAY_CONSOLE, ClaimPolicy::Shared, PreemptPolicy::Never),
        Err(SupervisorError::InstanceNotFound)
    );
    assert_eq!(s.claim_resource(ia, 77, ClaimPolicy::Shared, PreemptPolicy::Never), Err(SupervisorError::ResourceNotFound));
}

#[test]
fn shared_claims_join() {
    let (mut s, a, b) = booted_with_two_modules();
    s.realize_boot_modules().unwrap();
    let ia = s.primary_instance_for_module(a).unwrap();
    let ib = s.primary_instance_for_module(b).unwrap();
    let l1 = s.claim_resource(ia, RESOURCE_GPU_ACCEL, ClaimPolicy::Shared, PreemptPolicy::Never).unwrap();
    let l2 = s.claim_resource(ib, RESOURCE_GPU_ACCEL, ClaimPolicy::Shared, PreemptPolicy::Never).unwrap();
    assert_eq!(l1.epoch, l2.epoch);
    assert_ne!(l1.claim_id, l2.claim_id);
    assert_eq!(s.snapshot().active_claims, 2);
}

#[test]
fn heap_pages_are_charged_and_returned() {
    let (mut s, a, _b) = booted_with_two_modules();
    s.realize_boot_modules().unwrap();
    let base = s.request_pages(a, 2, true).unwrap();
    assert_eq!(base, DOMAIN_BASE + 0x74000);
    let next = s.request_pages(a, 3, false).unwrap();
    assert_eq!(next, base + 2 * 4096);
    assert_eq!(s.snapshot().heap_pages_used, 5);
    assert_eq!(s.snapshot().heap_grants, 2);
    assert_eq!(s.request_pages(a, 40, true), Err(SupervisorError::HeapQuotaExceeded));
    assert_eq!(s.request_pages(99, 1, true), Err(SupervisorError::NoActiveInstance));
    assert_eq!(s.free_pages(a, base, 2), Ok(()));
    assert_eq!(s.free_pages(a, base, 2), Err(SupervisorError::HeapGrantNotFound));
    assert_eq!(s.snapshot().heap_pages_used, 3);
    assert_eq!(map_domain_heap_pages(0x1000, base, 2, true), Ok(()));
}

#[test]
fn domain_roots_are_fresh_pages() {
    let mut s = Supervisor::new();
    s.bootstrap(0);
    assert_eq!(s.create_domain_root(0, 0, 0, 0, 0, 0), Ok(0x1000));
    assert_eq!(s.create_domain_root(0, 0, 0, 0, 0, 0), Ok(0x2000));
}

#[test]
fn image_len_spans_furthest_segment() {
    assert_eq!(image_len(&[]), DEFAULT_IMAGE_WINDOW);
    assert_eq!(image_len(&[ModuleSegment { virt_addr: 0, mem_len: 0 }]), DEFAULT_IMAGE_WINDOW);
    let segs = [
        ModuleSegment { virt_addr: 0x1000, mem_len: 0x2000 },
        ModuleSegment { virt_addr: 0x8000, mem_len: 0x100 },
        ModuleSegment { virt_addr: 0x4000, mem_len: 0x10 },
    ];
    assert_eq!(image_len(&segs), 0x8100);
    assert_eq!(image_len(&[ModuleSegment { virt_addr: u64::MAX - 1, mem_len: 5 }]), u64::MAX);
}

#[test]
fn dequeue_prefers_control_lane_and_runs_instance() {
    let (mut s, a, b) = booted_with_two_modules();
    assert_eq!(s.dequeue_ready_instance(None), Ok(None));
    s.realize_boot_modules().unwrap();
    let ia = s.primary_instance_for_module(a).unwrap();
    let ib = s.primary_instance_for_module(b).unwrap();
    // a runs on the control lane, b on the I/O lane: control first.
    assert_eq!(s.dequeue_ready_instance(None), Ok(Some(ia)));
    let slot = s.find_instance_slot(ia).unwrap();
    assert_eq!(s.instances[slot].lifecycle, NodeInstanceLifecycle::Running);
    assert!(!s.instances[slot].ready_queued);
    assert_eq!(s.dequeue_ready_instance(Some(ExecutionLaneClass::Compute)), Ok(None));
    assert_eq!(s.dequeue_ready_instance(None), Ok(Some(ib)));
    assert_eq!(s.dequeue_ready_instance(None), Ok(None));
    let mut fresh = Supervisor::new();
    assert_eq!(fresh.dequeue_ready_instance(None), Err(SupervisorError::NotBootstrapped));
}

#[test]
fn dequeue_skips_torn_down_instances() {
    let (mut s, a, _b) = booted_with_two_modules();
    s.realize_boot_modules().unwrap();
    let ia = s.primary_instance_for_module(a).unwrap();
    s.teardown_instance(ia);
    assert_eq!(s.find_instance_slot(ia), Err(SupervisorError::InstanceNotFound));
    // the stale control-lane entry is dropped on the way to nothing
    assert_eq!(s.dequeue_ready_from_lane(ExecutionLaneClass::Control), None);
}

#[test]
fn teardown_drops_claims_of_the_instance() {
    let (mut s, a, b) = booted_with_two_modules();
    s.realize_boot_modules().unwrap();
    let ia = s.primary_instance_for_module(a).unwrap();
    let ib = s.primary_instance_for_module(b).unwrap();
    s.claim_resource(ia, RESOURCE_DISPLAY_CONSOLE, ClaimPolicy::Exclusive, PreemptPolicy::Never).unwrap();
    assert_eq!(s.snapshot().active_claims, 1);
    s.teardown_instance(ia);
    assert_eq!(s.snapshot().active_claims, 0);
    assert!(s.claim_resource(ib, RESOURCE_DISPLAY_CONSOLE, ClaimPolicy::Exclusive, PreemptPolicy::Never).is_ok());
}

#[test]
fn stop_module_tears_instances_down() {
    let (mut s, a, b) = booted_with_two_modules();
    assert_eq!(s.stop_module(a), Err(SupervisorError::InvalidState));
    assert_eq!(s.stop_module(77), Err(SupervisorError::ModuleNotFound));
    s.realize_boot_modules().unwrap();
    assert_eq!(s.snapshot().live_instances, 2);
    assert_eq!(s.stop_module(a), Ok(()));
    let slot = s.find_module_slot(a).unwrap();
    assert_eq!(s.modules[slot].state, ModuleLifecycle::Stopped);
    assert_eq!(s.primary_instance_for_module(a), None);
    assert!(s.primary_instance_for_module(b).is_some());
    assert_eq!(s.snapshot().live_instances, 1);
}

#[test]
fn fault_with_restart_policy_brings_module_back() {
    let (mut s, a, _b) = booted_with_two_modules();
    s.realize_boot_modules().unwrap();
    let old_instance = s.primary_instance_for_module(a).unwrap();
    let slot = s.find_module_slot(a).unwrap();
    let domain = s.modules[slot].domain;
    assert_eq!(s.fault_module(a), Ok(()));
    assert_eq!(s.modules[slot].state, ModuleLifecycle::Running);
    assert_eq!(s.modules[slot].restart_generation, 1);
    assert!(!s.modules[slot].queued_restart);
    assert_eq!(s.modules[slot].domain, domain);
    let new_instance = s.primary_instance_for_module(a).unwrap();
    assert_ne!(new_instance, old_instance);
    assert_eq!(s.restart_queue.len(), 0);
}

#[test]
fn fault_with_manual_policy_stays_faulted() {
    let (mut s, _a, b) = booted_with_two_modules();
    s.realize_boot_modules().unwrap();
    assert_eq!(s.fault_module(b), Ok(()));
    let slot = s.find_module_slot(b).unwrap();
    assert_eq!(s.modules[slot].state, ModuleLifecycle::Faulted);
    assert_eq!(s.fault_module(99), Err(SupervisorError::ModuleNotFound));
    // a later explicit restart recovers it
    assert_eq!(s.restart_module(b), Ok(()));
    assert_eq!(s.modules[slot].state, ModuleLifecycle::Running);
    assert_eq!(s.modules[slot].restart_generation, 1);
}

#[test]
fn restart_queue_serves_in_order() {
    let (mut s, a, b) = booted_with_two_modules();
    s.realize_boot_modules().unwrap();
    assert_eq!(s.process_next_restart(), Ok(None));
    assert_eq!(s.enqueue_restart_module(a), Ok(()));
    assert_eq!(s.enqueue_restart_module(a), Ok(()));
    assert_eq!(s.enqueue_restart_module(b), Ok(()));
    assert_eq!(s.restart_queue.len(), 2);
    assert_eq!(s.enqueue_restart_module(5), Err(SupervisorError::ModuleNotFound));
    assert_eq!(s.process_next_restart(), Ok(Some(a)));
    assert_eq!(s.process_next_restart(), Ok(Some(b)));
    assert_eq!(s.process_next_restart(), Ok(None));
}

#[test]
fn uninstall_frees_the_slot() {
    let (mut s, a, _b) = booted_with_two_modules();
    s.realize_boot_modules().unwrap();
    assert_eq!(s.uninstall_module(a), Ok(()));
    assert_eq!(s.find_module_slot(a), Err(SupervisorError::ModuleNotFound));
    assert_eq!(s.primary_instance_for_module(a), None);
    assert_eq!(s.snapshot().installed_modules, 1);
    assert_eq!(s.uninstall_module(a), Err(SupervisorError::ModuleNotFound));
}

fn message(kind: u8, first: u8) -> ModuleMessage {
    let mut payload = [0u8; 48];
    payload[0] = first;
    payload[1] = 2;
    payload[2] = 3;
    ModuleMessage { header: MessageHeader { kind, from: 7, to: 0, token: 0, length: 3 }, payload }
}

#[test]
fn start_publishes_exports() {
    let (mut s, a, _b) = booted_with_two_modules();
    assert_eq!(s.resolve_capability(&label(b"demo"), &label(b"echo")), Err(SupervisorError::CapabilityNotFound));
    let report = s.realize_boot_modules().unwrap();
    assert_eq!(report.published_capabilities, 1);
    let token = s.resolve_capability(&label(b"demo"), &label(b"echo")).unwrap();
    let endpoint = s.endpoint_for_token(token).unwrap();
    assert_eq!(s.ipc.endpoint_owner(endpoint), Some(a));
    assert_eq!(s.endpoint_for_token(token + 100), Err(SupervisorError::CapabilityNotFound));
    let snap = s.snapshot();
    assert_eq!(snap.published_capabilities, 1);
    assert_eq!(snap.endpoints, 1);
}

#[test]
fn abi_message_round_trip_targets_endpoint_owner() {
    let (mut s, a, b) = booted_with_two_modules();
    s.realize_boot_modules().unwrap();
    let token = s.resolve_capability(&label(b"demo"), &label(b"echo")).unwrap();
    let endpoint = s.endpoint_for_token(token).unwrap();
    assert_eq!(s.abi_send_message(endpoint, message(1, 1)), ModuleCallStatus::Success);
    assert_eq!(s.snapshot().queued_messages, 1);
    assert_eq!(s.receive_message(b, endpoint), Err(SupervisorError::EndpointNotFound));
    let (status, out) = s.abi_receive_message(a, endpoint);
    assert_eq!(status, ModuleCallStatus::Success);
    let out = out.unwrap();
    assert_eq!(out.header.to, endpoint);
    assert_eq!(out.header.from, 7);
    assert_eq!(out.payload[0], 1);
    assert_eq!(out.payload[1], 2);
    assert_eq!(out.payload[2], 3);
    assert_eq!(s.receive_message(a, endpoint), Err(SupervisorError::EndpointNotFound));
    assert_eq!(s.receive_message(99, endpoint), Err(SupervisorError::ModuleNotFound));
    assert_eq!(s.ipc.post_message(endpoint + 50, message(1, 1)), Err(SupervisorError::EndpointNotFound));
}

#[test]
fn endpoints_and_subscriptions() {
    let (mut s, a, b) = booted_with_two_modules();
    s.realize_boot_modules().unwrap();
    let token = s.resolve_capability(&label(b"demo"), &label(b"echo")).unwrap();
    let provider = s.endpoint_for_token(token).unwrap();
    let consumer = s.open_endpoint(b, label(b"inbox")).unwrap();
    assert_ne!(consumer, provider);
    assert_eq!(s.open_endpoint(42, label(b"x")), Err(SupervisorError::ModuleNotFound));
    assert_eq!(s.ipc.subscribe(consumer, provider), Ok(()));
    assert_eq!(s.ipc.subscribe(consumer, 999), Err(SupervisorError::EndpointNotFound));
    assert_eq!(s.ipc.subscriptions.iter().filter(|r| r.occupied).count(), 1);
    // stopping the provider drops the subscription, its endpoint and its capability
    assert_eq!(s.stop_module(a), Ok(()));
    assert_eq!(s.ipc.subscriptions.iter().filter(|r| r.occupied).count(), 0);
    assert_eq!(s.ipc.endpoint_owner(provider), None);
    assert_eq!(s.ipc.endpoint_owner(consumer), Some(b));
    assert_eq!(s.resolve_capability(&label(b"demo"), &label(b"echo")), Err(SupervisorError::CapabilityNotFound));
}

#[test]
fn stop_drains_messages_and_restart_republishes() {
    let (mut s, a, _b) = booted_with_two_modules();
    s.realize_boot_modules().unwrap();
    let token = s.resolve_capability(&label(b"demo"), &label(b"echo")).unwrap();
    let endpoint = s.endpoint_for_token(token).unwrap();
    s.ipc.post_message(endpoint, message(1, 9)).unwrap();
    assert_eq!(s.fault_module(a), Ok(()));
    assert_eq!(s.snapshot().queued_messages, 0);
    let token2 = s.resolve_capability(&label(b"demo"), &label(b"echo")).unwrap();
    assert_ne!(token2, token);
    let endpoint2 = s.endpoint_for_token(token2).unwrap();
    assert_eq!(s.ipc.endpoint_owner(endpoint2), Some(a));
    assert_eq!(s.snapshot().published_capabilities, 1);
}

#[test]
fn labels_are_zero_padded_and_cut() {
    let l = label(b"demo");
    assert_eq!(&l[..4], b"demo");
    assert!(l[4..].iter().all(|&b| b == 0));
    let long = label(b"abcdefghijklmnopqrstuvwxyz");
    assert_eq!(&long[..], b"abcdefghijklmnop");
}

#[test]
fn abi_calls_report_status() {
    let (mut s, a, b) = booted_with_two_modules();
    s.realize_boot_modules().unwrap();
    let (st, token) = s.abi_resolve_capability(b"demo", b"echo");
    assert_eq!(st, ModuleCallStatus::Success);
    let endpoint = s.endpoint_for_token(token.unwrap()).unwrap();
    assert_eq!(s.abi_resolve_capability(b"demo", b"nope"), (ModuleCallStatus::Retry, None));
    assert_eq!(s.abi_resolve_capability(b"a-namespace-longer-than-16", b"echo"), (ModuleCallStatus::Retry, None));
    assert_eq!(s.abi_send_message(endpoint, message(2, 5)), ModuleCallStatus::Success);
    assert_eq!(s.abi_send_message(endpoint + 40, message(2, 5)), ModuleCallStatus::Denied);
    let (st, m) = s.abi_receive_message(a, endpoint);
    assert_eq!(st, ModuleCallStatus::Success);
    assert_eq!(m.unwrap().header.to, endpoint);
    assert_eq!(s.abi_receive_message(a, endpoint), (ModuleCallStatus::Retry, None));
    assert_eq!(s.abi_receive_message(77, endpoint), (ModuleCallStatus::Fault, None));
    let (st, e) = s.abi_open_endpoint(b, b"inbox");
    assert_eq!(st, ModuleCallStatus::Success);
    assert!(e.is_some());
    assert_eq!(s.abi_open_endpoint(77, b"inbox"), (ModuleCallStatus::Denied, None));
    let (st, inst) = s.abi_current_instance(a);
    assert_eq!(st, ModuleCallStatus::Success);
    assert_eq!(inst, s.primary_instance_for_module(a));
    assert_eq!(s.abi_current_instance(77), (ModuleCallStatus::Denied, None));

    assert_eq!(request_pages_status(Ok(0x1000)), ModuleCallStatus::Success);
    assert_eq!(request_pages_status(Err(SupervisorError::HeapQuotaExceeded)), ModuleCallStatus::Denied);
    assert_eq!(request_pages_status(Err(SupervisorError::NoActiveInstance)), ModuleCallStatus::Denied);
    assert_eq!(request_pages_status(Err(SupervisorError::HeapGrantTableFull)), ModuleCallStatus::Fault);
    assert_eq!(free_pages_status(Err(SupervisorError::HeapGrantNotFound)), ModuleCallStatus::Denied);
    assert_eq!(free_pages_status(Ok(())), ModuleCallStatus::Success);
    assert_eq!(claim_status(Err(SupervisorError::ResourceBusy)), ModuleCallStatus::Retry);
    assert_eq!(claim_status(Err(SupervisorError::ResourceNotFound)), ModuleCallStatus::Denied);
    assert_eq!(claim_status(Err(SupervisorError::ClaimTableFull)), ModuleCallStatus::Fault);
    assert_eq!(release_status(Err(SupervisorError::ClaimNotFound)), ModuleCallStatus::Denied);
    assert_eq!(release_status(Ok(())), ModuleCallStatus::Success);
}

#[test]
fn default_lanes_by_module_name() {
    assert_eq!(default_lane_for_module(b"K_SHELL"), ExecutionLaneClass::Control);
    assert_eq!(default_lane_for_module(b"K_CYPHER"), ExecutionLaneClass::Control);
    assert_eq!(default_lane_for_module(b"K_AI"), ExecutionLaneClass::Compute);
    assert_eq!(default_lane_for_module(b"K_CUDA"), ExecutionLaneClass::Compute);
    for io in [&b"K_VGA"[..], b"K_SERIAL", b"K_IME", b"K_NET", b"K_MOUSE", b"K_PS2", b"K_PIC", b"K_PIT"] {
        assert_eq!(default_lane_for_module(io), ExecutionLaneClass::Io);
    }
    assert_eq!(default_lane_for_module(b"K_CHAT"), ExecutionLaneClass::Background);
    assert_eq!(default_lane_for_module(b"k_shell"), ExecutionLaneClass::Background);
    assert_eq!(default_lane_for_module(b""), ExecutionLaneClass::Background);
}

#[test]
fn realize_descriptor_modules_builds_domains_and_capabilities() {
    let (mut s, provider, consumer) = booted_with_two_modules();
    let report = s.realize_boot_modules().expect("realize");
    let snapshot = s.checked_snapshot().expect("snapshot");
    assert_eq!(report.discovered_modules, 2);
    assert_eq!(report.running_modules, 2);
    assert_eq!(snapshot.installed_modules, 2);
    assert_eq!(snapshot.running_modules, 2);
    assert_eq!(snapshot.isolated_domains, 2);
    assert!(snapshot.published_capabilities >= 1);
    let token = s.resolve_capability(&label(b"demo"), &label(b"echo")).expect("capability token");
    let endpoint = s.endpoint_for_token(token).expect("endpoint");
    let provider_slot = s.find_module_slot(provider).expect("provider slot");
    let consumer_slot = s.find_module_slot(consumer).expect("consumer slot");
    assert_ne!(s.modules[provider_slot].domain.root_table_phys, 0);
    assert_ne!(s.modules[consumer_slot].domain.root_table_phys, 0);
    assert_ne!(endpoint, 0);
    // The provider's init and start entries each ran once; the consumer has none.
    assert_eq!(s.modules[provider_slot].runs, EntryRuns { init: 1, start: 1, stop: 0 });
    assert_eq!(s.modules[consumer_slot].runs, EntryRuns { init: 0, start: 0, stop: 0 });
}

#[test]
fn fault_policy_restart_restarts_descriptor_module() {
    let mut s = Supervisor::new();
    s.bootstrap(0);
    let provider = s.install_module(provider_spec()).expect("provider install");
    s.realize_boot_modules().expect("realize");
    let slot = s.find_module_slot(provider).unwrap();
    assert_eq!(s.modules[slot].runs.start, 1);
    assert_eq!(s.modules[slot].restart_generation, 0);
    s.fault_module(provider).expect("fault");
    // The start entry ran again and the stop entry never.
    assert_eq!(s.modules[slot].runs.start, 2);
    assert_eq!(s.modules[slot].runs.stop, 0);
    // Restarted once, and running again with its export republished.
    assert_eq!(s.modules[slot].state, ModuleLifecycle::Running);
    assert_eq!(s.modules[slot].restart_generation, 1);
    assert!(s.resolve_capability(&label(b"demo"), &label(b"echo")).is_ok());
}
