//! What a module sees through the supervisor's call table: each call's
//! status given the supervisor's result, and the IPC calls themselves.

use vstd::prelude::*;

use super::ipc::{
    empty_queued, free_queued, ipc_view, label, message_for, outside_ipc, spec_endpoint_owner, EndpointRecord,
    MessageHeader, ModuleMessage, QueuedMessage, free_endpoint, capability_named, label_of,
};
use super::{first_where, module_is, ResourceLease, Supervisor, SupervisorError};

verus! {

/// The status a module call returns.
#[derive(Debug, Clone, Copy, PartialEq, Eq, Structural)]
pub enum ModuleCallStatus {
    /// The call did what was asked.
    Success,
    Retry,
    Denied,
    Fault,
    Unsupported,
}

/// Sending: a full queue asks the module to retry, an unknown endpoint is
/// denied.
pub open spec fn spec_send_status(r: Result<(), SupervisorError>) -> ModuleCallStatus {
    match r {
        Ok(()) => ModuleCallStatus::Success,
        Err(SupervisorError::QueueFull) => ModuleCallStatus::Retry,
        Err(SupervisorError::EndpointNotFound) => ModuleCallStatus::Denied,
        Err(_) => ModuleCallStatus::Fault,
    }
}

pub fn send_status(r: Result<(), SupervisorError>) -> (s: ModuleCallStatus)
    ensures
        s == spec_send_status(r),
{
    match r {
        Ok(()) => ModuleCallStatus::Success,
        Err(SupervisorError::QueueFull) => ModuleCallStatus::Retry,
        Err(SupervisorError::EndpointNotFound) => ModuleCallStatus::Denied,
        Err(_) => ModuleCallStatus::Fault,
    }
}

/// Receiving: nothing queued yet asks the module to retry.
pub open spec fn spec_receive_status(r: Result<ModuleMessage, SupervisorError>) -> ModuleCallStatus {
    match r {
        Ok(_) => ModuleCallStatus::Success,
        Err(SupervisorError::EndpointNotFound) => ModuleCallStatus::Retry,
        Err(_) => ModuleCallStatus::Fault,
    }
}

pub fn receive_status(r: &Result<ModuleMessage, SupervisorError>) -> (s: ModuleCallStatus)
    ensures
        s == spec_receive_status(*r),
{
    match r {
        Ok(_) => ModuleCallStatus::Success,
        Err(SupervisorError::EndpointNotFound) => ModuleCallStatus::Retry,
        Err(_) => ModuleCallStatus::Fault,
    }
}

/// Opening an endpoint: an unknown module is denied, a full table asks the
/// module to retry.
pub open spec fn spec_open_status(r: Result<u64, SupervisorError>) -> ModuleCallStatus {
    match r {
        Ok(_) => ModuleCallStatus::Success,
        Err(SupervisorError::ModuleNotFound) => ModuleCallStatus::Denied,
        Err(SupervisorError::EndpointTableFull) => ModuleCallStatus::Retry,
        Err(_) => ModuleCallStatus::Fault,
    }
}

pub fn open_status(r: Result<u64, SupervisorError>) -> (s: ModuleCallStatus)
    ensures
        s == spec_open_status(r),
{
    match r {
        Ok(_) => ModuleCallStatus::Success,
        Err(SupervisorError::ModuleNotFound) => ModuleCallStatus::Denied,
        Err(SupervisorError::EndpointTableFull) => ModuleCallStatus::Retry,
        Err(_) => ModuleCallStatus::Fault,
    }
}

/// Requesting heap pages: over quota, no active instance or a wrong state
/// is denied.
pub open spec fn spec_request_pages_status(r: Result<u64, SupervisorError>) -> ModuleCallStatus {
    match r {
        Ok(_) => ModuleCallStatus::Success,
        Err(SupervisorError::HeapQuotaExceeded) => ModuleCallStatus::Denied,
        Err(SupervisorError::NoActiveInstance) => ModuleCallStatus::Denied,
        Err(SupervisorError::InvalidState) => ModuleCallStatus::Denied,
        Err(_) => ModuleCallStatus::Fault,
    }
}

pub fn request_pages_status(r: Result<u64, SupervisorError>) -> (s: ModuleCallStatus)
    ensures
        s == spec_request_pages_status(r),
{
    match r {
        Ok(_) => ModuleCallStatus::Success,
        Err(SupervisorError::HeapQuotaExceeded) => ModuleCallStatus::Denied,
        Err(SupervisorError::NoActiveInstance) => ModuleCallStatus::Denied,
        Err(SupervisorError::InvalidState) => ModuleCallStatus::Denied,
        Err(_) => ModuleCallStatus::Fault,
    }
}

/// Freeing heap pages: an unknown grant is denied.
pub open spec fn spec_free_pages_status(r: Result<(), SupervisorError>) -> ModuleCallStatus {
    match r {
        Ok(()) => ModuleCallStatus::Success,
        Err(SupervisorError::HeapGrantNotFound) => ModuleCallStatus::Denied,
        Err(_) => ModuleCallStatus::Fault,
    }
}

pub fn free_pages_status(r: Result<(), SupervisorError>) -> (s: ModuleCallStatus)
    ensures
        s == spec_free_pages_status(r),
{
    match r {
        Ok(()) => ModuleCallStatus::Success,
        Err(SupervisorError::HeapGrantNotFound) => ModuleCallStatus::Denied,
        Err(_) => ModuleCallStatus::Fault,
    }
}

/// Claiming a resource: busy asks the module to retry, an unknown resource
/// or instance is denied.
pub open spec fn spec_claim_status(r: Result<ResourceLease, SupervisorError>) -> ModuleCallStatus {
    match r {
        Ok(_) => ModuleCallStatus::Success,
        Err(SupervisorError::ResourceBusy) => ModuleCallStatus::Retry,
        Err(SupervisorError::ResourceNotFound) => ModuleCallStatus::Denied,
        Err(SupervisorError::InstanceNotFound) => ModuleCallStatus::Denied,
        Err(_) => ModuleCallStatus::Fault,
    }
}

pub fn claim_status(r: Result<ResourceLease, SupervisorError>) -> (s: ModuleCallStatus)
    ensures
        s == spec_claim_status(r),
{
    match r {
        Ok(_) => ModuleCallStatus::Success,
        Err(SupervisorError::ResourceBusy) => ModuleCallStatus::Retry,
        Err(SupervisorError::ResourceNotFound) => ModuleCallStatus::Denied,
        Err(SupervisorError::InstanceNotFound) => ModuleCallStatus::Denied,
        Err(_) => ModuleCallStatus::Fault,
    }
}

/// Releasing a claim: an unknown claim is denied.
pub open spec fn spec_release_status(r: Result<(), SupervisorError>) -> ModuleCallStatus {
    match r {
        Ok(()) => ModuleCallStatus::Success,
        Err(SupervisorError::ClaimNotFound) => ModuleCallStatus::Denied,
        Err(_) => ModuleCallStatus::Fault,
    }
}

pub fn release_status(r: Result<(), SupervisorError>) -> (s: ModuleCallStatus)
    ensures
        s == spec_release_status(r),
{
    match r {
        Ok(()) => ModuleCallStatus::Success,
        Err(SupervisorError::ClaimNotFound) => ModuleCallStatus::Denied,
        Err(_) => ModuleCallStatus::Fault,
    }
}

/// The result `post_message(endpoint, ..)` gives on these tables.
pub open spec fn spec_post_result(s: &Supervisor, endpoint: u64) -> Result<(), SupervisorError> {
    match spec_endpoint_owner(s.ipc.endpoints@, endpoint) {
        None => Err(SupervisorError::EndpointNotFound),
        Some(_) => match first_where(s.ipc.messages@, free_queued(), 0) {
            Some(_) => Ok(()),
            None => Err(SupervisorError::QueueFull),
        },
    }
}

impl Supervisor {
    /// The send call: queue the message for the endpoint's owner.
    pub fn abi_send_message(&mut self, endpoint: u64, message: ModuleMessage) -> (r: ModuleCallStatus)
        requires
            old(self).wf(),
        ensures
            final(self).wf(),
            outside_ipc(&*final(self), &*old(self)),
            r == spec_send_status(spec_post_result(&*old(self), endpoint)),
            final(self).ipc.endpoints@ == old(self).ipc.endpoints@,
            final(self).ipc.capabilities@ == old(self).ipc.capabilities@,
            final(self).ipc.subscriptions@ == old(self).ipc.subscriptions@,
            match spec_post_result(&*old(self), endpoint) {
                Ok(()) => final(self).ipc.messages@ == old(self).ipc.messages@.update(
                    first_where(old(self).ipc.messages@, free_queued(), 0)->Some_0,
                    QueuedMessage { occupied: true, recipient: spec_endpoint_owner(old(self).ipc.endpoints@, endpoint)->Some_0,
                        endpoint, message: ModuleMessage { header: MessageHeader { to: endpoint, ..message.header }, ..message } }),
                Err(_) => final(self).ipc.messages@ == old(self).ipc.messages@,
            },
    {
        let r = self.ipc.post_message(endpoint, message);
        send_status(r)
    }

    /// The receive call: the first message queued for the module on the
    /// endpoint, taken off the queue.
    pub fn abi_receive_message(&mut self, module: u64, endpoint: u64) -> (r: (ModuleCallStatus, Option<ModuleMessage>))
        requires
            old(self).wf(),
        ensures
            final(self).wf(),
            outside_ipc(&*final(self), &*old(self)),
            first_where(old(self).modules@, module_is(module), 0) is None
                ==> r == (ModuleCallStatus::Fault, None::<ModuleMessage>)
                    && final(self).ipc.messages@ == old(self).ipc.messages@,
            first_where(old(self).modules@, module_is(module), 0) is Some
                ==> match first_where(old(self).ipc.messages@, message_for(module, endpoint), 0) {
                    Some(k) => r == (ModuleCallStatus::Success, Some(old(self).ipc.messages@[k].message))
                        && final(self).ipc.messages@ == old(self).ipc.messages@.update(k, empty_queued()),
                    None => r == (ModuleCallStatus::Retry, None::<ModuleMessage>)
                        && final(self).ipc.messages@ == old(self).ipc.messages@,
                },
    {
        let res = self.receive_message(module, endpoint);
        let status = receive_status(&res);
        match res {
            Ok(m) => (status, Some(m)),
            Err(_) => (status, None),
        }
    }

    /// The resolve call: the token of the capability with this namespace
    /// and name.  Names longer than a label resolve to nothing.
    pub fn abi_resolve_capability(&self, namespace: &[u8], name: &[u8]) -> (r: (ModuleCallStatus, Option<u64>))
        ensures
            namespace@.len() > 16 || name@.len() > 16 ==> r == (ModuleCallStatus::Retry, None::<u64>),
            namespace@.len() <= 16 && name@.len() <= 16 ==> match first_where(self.ipc.capabilities@,
                capability_named(label_of(namespace@), label_of(name@)), 0) {
                Some(k) => r == (ModuleCallStatus::Success, Some(self.ipc.capabilities@[k].token)),
                None => r == (ModuleCallStatus::Retry, None::<u64>),
            },
    {
        if namespace.len() > 16 || name.len() > 16 {
            return (ModuleCallStatus::Retry, None);
        }
        match self.ipc.resolve_capability(&label(namespace), &label(name)) {
            Some(t) => (ModuleCallStatus::Success, Some(t)),
            None => (ModuleCallStatus::Retry, None),
        }
    }

    /// The open-endpoint call.
    pub fn abi_open_endpoint(&mut self, module: u64, name: &[u8]) -> (r: (ModuleCallStatus, Option<u64>))
        requires
            old(self).wf(),
            old(self).ipc.next_endpoint < u64::MAX,
        ensures
            final(self).wf(),
            outside_ipc(&*final(self), &*old(self)),
            first_where(old(self).modules@, module_is(module), 0) is None
                ==> r == (ModuleCallStatus::Denied, None::<u64>) && final(self).ipc == old(self).ipc,
            first_where(old(self).modules@, module_is(module), 0) is Some ==> {
                &&& final(self).ipc.capabilities@ == old(self).ipc.capabilities@
                &&& final(self).ipc.subscriptions@ == old(self).ipc.subscriptions@
                &&& final(self).ipc.messages@ == old(self).ipc.messages@
                &&& match first_where(old(self).ipc.endpoints@, free_endpoint(), 0) {
                    Some(k) => r == (ModuleCallStatus::Success, Some(old(self).ipc.next_endpoint))
                        && final(self).ipc.next_endpoint == old(self).ipc.next_endpoint + 1
                        && final(self).ipc.endpoints@ == old(self).ipc.endpoints@.update(k,
                            EndpointRecord { occupied: true, id: old(self).ipc.next_endpoint, owner: module, capability: 0 }),
                    None => r == (ModuleCallStatus::Retry, None::<u64>)
                        && ipc_view(&final(self).ipc) == ipc_view(&old(self).ipc),
                }
            },
    {
        let res = self.open_endpoint(module, label(name));
        let status = open_status(res);
        match res {
            Ok(e) => (status, Some(e)),
            Err(_) => (status, None),
        }
    }

    /// The current-instance call: the module's running instance.
    pub fn abi_current_instance(&self, module: u64) -> (r: (ModuleCallStatus, Option<u64>))
        ensures
            r.0 == (if r.1 is Some { ModuleCallStatus::Success } else { ModuleCallStatus::Denied }),
            r.1 == super::charged_instance(self, module),
    {
        match self.active_instance_for_module(module) {
            Some(id) => (ModuleCallStatus::Success, Some(id)),
            None => (ModuleCallStatus::Denied, None),
        }
    }
}

} // verus!
