//! Module IPC: endpoints owned by modules, capabilities published on them,
//! subscriptions between endpoints, and the queue of messages in flight.

use vstd::prelude::*;

use super::{count_where, first_where, lemma_count_step, lemma_first_where, module_is, Supervisor, SupervisorError};

verus! {

pub const MAX_CAPABILITIES: usize = 128;
pub const MAX_ENDPOINTS: usize = 128;
pub const MAX_SUBSCRIPTIONS: usize = 128;
pub const MAX_QUEUED_MESSAGES: usize = 256;
pub const LABEL_BYTES: usize = 16;
pub const PAYLOAD_BYTES: usize = 48;

/// A name of at most 16 bytes, zero-padded.
pub type Label = [u8; 16];

/// A published capability: its namespace and name.
#[derive(Debug, Clone, Copy, PartialEq, Eq)]
pub struct CapabilitySpec {
    pub namespace: Label,
    pub name: Label,
}

/// Routing header of a message.
#[derive(Debug, Clone, Copy, PartialEq, Eq)]
pub struct MessageHeader {
    pub kind: u8,
    pub from: u64,
    pub to: u64,
    pub token: u64,
    pub length: u16,
}

#[derive(Debug, Clone, Copy, PartialEq, Eq)]
pub struct ModuleMessage {
    pub header: MessageHeader,
    pub payload: [u8; 48],
}

#[derive(Debug, Clone, Copy, PartialEq, Eq)]
pub struct CapabilityRecord {
    pub occupied: bool,
    pub token: u64,
    pub provider: u64,
    pub endpoint: u64,
    pub spec: CapabilitySpec,
}

#[derive(Debug, Clone, Copy, PartialEq, Eq, Structural)]
pub struct EndpointRecord {
    pub occupied: bool,
    pub id: u64,
    pub owner: u64,
    pub capability: u64,
}

#[derive(Debug, Clone, Copy, PartialEq, Eq, Structural)]
pub struct SubscriptionRecord {
    pub occupied: bool,
    pub consumer_endpoint: u64,
    pub provider_endpoint: u64,
}

#[derive(Debug, Clone, Copy, PartialEq, Eq)]
pub struct QueuedMessage {
    pub occupied: bool,
    pub recipient: u64,
    pub endpoint: u64,
    pub message: ModuleMessage,
}

/// The label holding `s`: its first 16 bytes, then zeros.
pub open spec fn label_of(s: Seq<u8>) -> Seq<u8> {
    Seq::new(16, |i: int| if i < s.len() { s[i] } else { 0u8 })
}

/// The label holding `s`.
pub fn label(s: &[u8]) -> (r: Label)
    ensures
        r@ == label_of(s@),
{
    let mut out: Label = [0u8; 16];
    let mut i: usize = 0;
    while i < 16
        invariant
            i <= 16,
            out@.len() == 16,
            forall|k: int| 0 <= k < i ==> #[trigger] out@[k] == label_of(s@)[k],
            forall|k: int| i <= k < 16 ==> #[trigger] out@[k] == 0u8,
        decreases 16 - i,
    {
        if i < s.len() {
            out[i] = s[i];
        }
        i = i + 1;
    }
    assert(out@ =~= label_of(s@));
    out
}

fn label_eq(a: &Label, b: &Label) -> (r: bool)
    ensures
        r == (a@ == b@),
{
    let mut i: usize = 0;
    while i < 16
        invariant
            i <= 16,
            a@.len() == 16,
            b@.len() == 16,
            forall|k: int| 0 <= k < i ==> a@[k] == b@[k],
        decreases 16 - i,
    {
        if a[i] != b[i] {
            return false;
        }
        i = i + 1;
    }
    assert(a@ =~= b@);
    true
}

/// The all-zero label.
pub open spec fn zero_label() -> Label {
    [0u8, 0u8, 0u8, 0u8, 0u8, 0u8, 0u8, 0u8, 0u8, 0u8, 0u8, 0u8, 0u8, 0u8, 0u8, 0u8]
}

pub open spec fn empty_capability() -> CapabilityRecord {
    CapabilityRecord { occupied: false, token: 0, provider: 0, endpoint: 0,
        spec: CapabilitySpec { namespace: zero_label(), name: zero_label() } }
}

pub open spec fn empty_endpoint() -> EndpointRecord {
    EndpointRecord { occupied: false, id: 0, owner: 0, capability: 0 }
}

pub open spec fn empty_subscription() -> SubscriptionRecord {
    SubscriptionRecord { occupied: false, consumer_endpoint: 0, provider_endpoint: 0 }
}

pub open spec fn empty_message() -> ModuleMessage {
    ModuleMessage {
        header: MessageHeader { kind: 0, from: 0, to: 0, token: 0, length: 0 },
        payload: [0u8, 0u8, 0u8, 0u8, 0u8, 0u8, 0u8, 0u8, 0u8, 0u8, 0u8, 0u8, 0u8, 0u8, 0u8, 0u8, 0u8, 0u8, 0u8, 0u8, 0u8, 0u8, 0u8, 0u8, 0u8, 0u8, 0u8, 0u8, 0u8, 0u8, 0u8, 0u8, 0u8, 0u8, 0u8, 0u8, 0u8, 0u8, 0u8, 0u8, 0u8, 0u8, 0u8, 0u8, 0u8, 0u8, 0u8, 0u8],
    }
}

pub open spec fn empty_queued() -> QueuedMessage {
    QueuedMessage { occupied: false, recipient: 0, endpoint: 0, message: empty_message() }
}

fn make_empty_capability() -> (r: CapabilityRecord)
    ensures
        r == empty_capability(),
{
    CapabilityRecord { occupied: false, token: 0, provider: 0, endpoint: 0,
        spec: CapabilitySpec { namespace: [0u8, 0u8, 0u8, 0u8, 0u8, 0u8, 0u8, 0u8, 0u8, 0u8, 0u8, 0u8, 0u8, 0u8, 0u8, 0u8], name: [0u8, 0u8, 0u8, 0u8, 0u8, 0u8, 0u8, 0u8, 0u8, 0u8, 0u8, 0u8, 0u8, 0u8, 0u8, 0u8] } }
}

fn make_empty_queued() -> (r: QueuedMessage)
    ensures
        r == empty_queued(),
{
    QueuedMessage { occupied: false, recipient: 0, endpoint: 0, message: ModuleMessage {
        header: MessageHeader { kind: 0, from: 0, to: 0, token: 0, length: 0 },
        payload: [0u8, 0u8, 0u8, 0u8, 0u8, 0u8, 0u8, 0u8, 0u8, 0u8, 0u8, 0u8, 0u8, 0u8, 0u8, 0u8, 0u8, 0u8, 0u8, 0u8, 0u8, 0u8, 0u8, 0u8, 0u8, 0u8, 0u8, 0u8, 0u8, 0u8, 0u8, 0u8, 0u8, 0u8, 0u8, 0u8, 0u8, 0u8, 0u8, 0u8, 0u8, 0u8, 0u8, 0u8, 0u8, 0u8, 0u8, 0u8],
    } }
}

pub open spec fn free_endpoint() -> spec_fn(EndpointRecord) -> bool { |r: EndpointRecord| !r.occupied }
pub open spec fn free_capability() -> spec_fn(CapabilityRecord) -> bool { |r: CapabilityRecord| !r.occupied }
pub open spec fn free_subscription() -> spec_fn(SubscriptionRecord) -> bool { |r: SubscriptionRecord| !r.occupied }
pub open spec fn free_queued() -> spec_fn(QueuedMessage) -> bool { |r: QueuedMessage| !r.occupied }

pub open spec fn endpoint_is(id: u64) -> spec_fn(EndpointRecord) -> bool {
    |r: EndpointRecord| r.occupied && r.id == id
}

pub open spec fn token_is(token: u64) -> spec_fn(CapabilityRecord) -> bool {
    |r: CapabilityRecord| r.occupied && r.token == token
}

pub open spec fn capability_named(namespace: Seq<u8>, name: Seq<u8>) -> spec_fn(CapabilityRecord) -> bool {
    |r: CapabilityRecord| r.occupied && r.spec.namespace@ == namespace && r.spec.name@ == name
}

pub open spec fn message_for(module: u64, endpoint: u64) -> spec_fn(QueuedMessage) -> bool {
    |r: QueuedMessage| r.occupied && r.recipient == module && r.endpoint == endpoint
}

/// The owner of an endpoint, if it is open.
pub open spec fn spec_endpoint_owner(endpoints: Seq<EndpointRecord>, endpoint: u64) -> Option<u64> {
    match first_where(endpoints, endpoint_is(endpoint), 0) {
        Some(k) => Some(endpoints[k].owner),
        None => None,
    }
}

/// The endpoints, capabilities, subscriptions and queued messages, and the
/// next endpoint id and capability token to hand out.
pub struct IpcTables {
    pub capabilities: Vec<CapabilityRecord>,
    pub endpoints: Vec<EndpointRecord>,
    pub subscriptions: Vec<SubscriptionRecord>,
    pub messages: Vec<QueuedMessage>,
    pub next_endpoint: u64,
    pub next_capability: u64,
}

fn vec_of<T: Copy>(v: T, n: usize) -> (r: Vec<T>)
    ensures
        r@.len() == n,
        forall|i: int| 0 <= i < n ==> #[trigger] r@[i] == v,
{
    let mut out: Vec<T> = Vec::new();
    while out.len() < n
        invariant
            out@.len() <= n,
            forall|i: int| 0 <= i < out@.len() ==> #[trigger] out@[i] == v,
        decreases n - out@.len(),
    {
        out.push(v);
    }
    out
}


impl IpcTables {
    fn first_free_endpoint(&self) -> (k: usize)
        ensures
            match first_where(self.endpoints@, free_endpoint(), 0) {
                Some(j) => k == j,
                None => k == self.endpoints@.len(),
            },
    {
        let mut k: usize = 0;
        while k < self.endpoints.len()
            invariant
                k <= self.endpoints@.len(),
                first_where(self.endpoints@, free_endpoint(), 0) == first_where(self.endpoints@, free_endpoint(), k as int),
            decreases self.endpoints@.len() - k,
        {
            if !self.endpoints[k].occupied {
                return k;
            }
            k = k + 1;
        }
        k
    }

    fn endpoint_slot(&self, endpoint: u64) -> (k: usize)
        ensures
            match first_where(self.endpoints@, endpoint_is(endpoint), 0) {
                Some(j) => k == j,
                None => k == self.endpoints@.len(),
            },
    {
        let mut k: usize = 0;
        while k < self.endpoints.len()
            invariant
                k <= self.endpoints@.len(),
                first_where(self.endpoints@, endpoint_is(endpoint), 0) == first_where(self.endpoints@, endpoint_is(endpoint), k as int),
            decreases self.endpoints@.len() - k,
        {
            let e = self.endpoints[k];
            if e.occupied && e.id == endpoint {
                return k;
            }
            k = k + 1;
        }
        k
    }

    fn first_free_capability(&self) -> (k: usize)
        ensures
            match first_where(self.capabilities@, free_capability(), 0) {
                Some(j) => k == j,
                None => k == self.capabilities@.len(),
            },
    {
        let mut k: usize = 0;
        while k < self.capabilities.len()
            invariant
                k <= self.capabilities@.len(),
                first_where(self.capabilities@, free_capability(), 0) == first_where(self.capabilities@, free_capability(), k as int),
            decreases self.capabilities@.len() - k,
        {
            if !self.capabilities[k].occupied {
                return k;
            }
            k = k + 1;
        }
        k
    }

    fn first_free_subscription(&self) -> (k: usize)
        ensures
            match first_where(self.subscriptions@, free_subscription(), 0) {
                Some(j) => k == j,
                None => k == self.subscriptions@.len(),
            },
    {
        let mut k: usize = 0;
        while k < self.subscriptions.len()
            invariant
                k <= self.subscriptions@.len(),
                first_where(self.subscriptions@, free_subscription(), 0) == first_where(self.subscriptions@, free_subscription(), k as int),
            decreases self.subscriptions@.len() - k,
        {
            if !self.subscriptions[k].occupied {
                return k;
            }
            k = k + 1;
        }
        k
    }

    fn first_free_message(&self) -> (k: usize)
        ensures
            match first_where(self.messages@, free_queued(), 0) {
                Some(j) => k == j,
                None => k == self.messages@.len(),
            },
    {
        let mut k: usize = 0;
        while k < self.messages.len()
            invariant
                k <= self.messages@.len(),
                first_where(self.messages@, free_queued(), 0) == first_where(self.messages@, free_queued(), k as int),
            decreases self.messages@.len() - k,
        {
            if !self.messages[k].occupied {
                return k;
            }
            k = k + 1;
        }
        k
    }

    fn first_message_for(&self, module: u64, endpoint: u64) -> (k: usize)
        ensures
            match first_where(self.messages@, message_for(module, endpoint), 0) {
                Some(j) => k == j,
                None => k == self.messages@.len(),
            },
    {
        let mut k: usize = 0;
        while k < self.messages.len()
            invariant
                k <= self.messages@.len(),
                first_where(self.messages@, message_for(module, endpoint), 0)
                    == first_where(self.messages@, message_for(module, endpoint), k as int),
            decreases self.messages@.len() - k,
        {
            let q = &self.messages[k];
            if q.occupied && q.recipient == module && q.endpoint == endpoint {
                return k;
            }
            k = k + 1;
        }
        k
    }
}

impl IpcTables {
    /// Table sizes, and every open endpoint's id below the next one.
    pub open spec fn wf(&self) -> bool {
        &&& self.capabilities@.len() == MAX_CAPABILITIES
        &&& self.endpoints@.len() == MAX_ENDPOINTS
        &&& self.subscriptions@.len() == MAX_SUBSCRIPTIONS
        &&& self.messages@.len() == MAX_QUEUED_MESSAGES
        &&& forall|k: int| 0 <= k < MAX_ENDPOINTS && (#[trigger] self.endpoints@[k]).occupied
            ==> self.endpoints@[k].id < self.next_endpoint
    }

    /// Every table empty; ids and tokens start at 1.
    pub open spec fn is_empty(&self) -> bool {
        &&& forall|i: int| 0 <= i < MAX_CAPABILITIES ==> #[trigger] self.capabilities@[i] == empty_capability()
        &&& forall|i: int| 0 <= i < MAX_ENDPOINTS ==> #[trigger] self.endpoints@[i] == empty_endpoint()
        &&& forall|i: int| 0 <= i < MAX_SUBSCRIPTIONS ==> #[trigger] self.subscriptions@[i] == empty_subscription()
        &&& forall|i: int| 0 <= i < MAX_QUEUED_MESSAGES ==> #[trigger] self.messages@[i] == empty_queued()
        &&& self.next_endpoint == 1
        &&& self.next_capability == 1
    }

    pub fn new() -> (r: Self)
        ensures
            r.wf(),
            r.is_empty(),
    {
        IpcTables {
            capabilities: vec_of(make_empty_capability(), MAX_CAPABILITIES),
            endpoints: vec_of(EndpointRecord { occupied: false, id: 0, owner: 0, capability: 0 }, MAX_ENDPOINTS),
            subscriptions: vec_of(SubscriptionRecord { occupied: false, consumer_endpoint: 0, provider_endpoint: 0 },
                MAX_SUBSCRIPTIONS),
            messages: vec_of(make_empty_queued(), MAX_QUEUED_MESSAGES),
            next_endpoint: 1,
            next_capability: 1,
        }
    }

    /// Open an endpoint owned by `owner` in the first free slot, with the
    /// next endpoint id. The label names it for its owner but is not kept.
    pub fn allocate_endpoint(&mut self, owner: u64, capability: u64, label: Label) -> (r: Result<u64, SupervisorError>)
        requires
            old(self).wf(),
            old(self).next_endpoint < u64::MAX,
        ensures
            final(self).wf(),
            final(self).capabilities@ == old(self).capabilities@,
            final(self).subscriptions@ == old(self).subscriptions@,
            final(self).messages@ == old(self).messages@,
            final(self).next_capability == old(self).next_capability,
            match first_where(old(self).endpoints@, free_endpoint(), 0) {
                Some(k) => r == Ok::<u64, SupervisorError>(old(self).next_endpoint)
                    && final(self).next_endpoint == old(self).next_endpoint + 1
                    && final(self).endpoints@ == old(self).endpoints@.update(k,
                        EndpointRecord { occupied: true, id: old(self).next_endpoint, owner, capability }),
                None => r == Err::<u64, SupervisorError>(SupervisorError::EndpointTableFull)
                    && final(self).endpoints@ == old(self).endpoints@
                    && final(self).next_endpoint == old(self).next_endpoint,
            },
    {
        proof { lemma_first_where(self.endpoints@, free_endpoint(), 0); }
        let k = self.first_free_endpoint();
        if k == self.endpoints.len() {
            return Err(SupervisorError::EndpointTableFull);
        }
        let id = self.next_endpoint;
        self.next_endpoint = self.next_endpoint + 1;
        self.endpoints.set(k, EndpointRecord { occupied: true, id, owner, capability });
        Ok(id)
    }

    /// Publish a capability of `owner` on `endpoint` in the first free slot,
    /// with the next token.
    pub fn allocate_capability(&mut self, owner: u64, spec: CapabilitySpec, endpoint: u64)
        -> (r: Result<u64, SupervisorError>)
        requires
            old(self).wf(),
            old(self).next_capability < u64::MAX,
        ensures
            final(self).wf(),
            final(self).endpoints@ == old(self).endpoints@,
            final(self).subscriptions@ == old(self).subscriptions@,
            final(self).messages@ == old(self).messages@,
            final(self).next_endpoint == old(self).next_endpoint,
            match first_where(old(self).capabilities@, free_capability(), 0) {
                Some(k) => r == Ok::<u64, SupervisorError>(old(self).next_capability)
                    && final(self).next_capability == old(self).next_capability + 1
                    && final(self).capabilities@ == old(self).capabilities@.update(k, CapabilityRecord {
                        occupied: true, token: old(self).next_capability, provider: owner, endpoint, spec }),
                None => r == Err::<u64, SupervisorError>(SupervisorError::CapabilityTableFull)
                    && final(self).capabilities@ == old(self).capabilities@
                    && final(self).next_capability == old(self).next_capability,
            },
    {
        proof { lemma_first_where(self.capabilities@, free_capability(), 0); }
        let k = self.first_free_capability();
        if k == self.capabilities.len() {
            return Err(SupervisorError::CapabilityTableFull);
        }
        let token = self.next_capability;
        self.next_capability = self.next_capability + 1;
        self.capabilities.set(k, CapabilityRecord { occupied: true, token, provider: owner, endpoint, spec });
        Ok(token)
    }

    /// The token of the first published capability with this namespace and
    /// name.
    pub fn resolve_capability(&self, namespace: &Label, name: &Label) -> (r: Option<u64>)
        ensures
            match first_where(self.capabilities@, capability_named(namespace@, name@), 0) {
                Some(k) => r == Some(self.capabilities@[k].token),
                None => r is None,
            },
    {
        let mut k: usize = 0;
        while k < self.capabilities.len()
            invariant
                k <= self.capabilities@.len(),
                first_where(self.capabilities@, capability_named(namespace@, name@), 0)
                    == first_where(self.capabilities@, capability_named(namespace@, name@), k as int),
            decreases self.capabilities@.len() - k,
        {
            let rec = &self.capabilities[k];
            if rec.occupied && label_eq(&rec.spec.namespace, namespace) && label_eq(&rec.spec.name, name) {
                return Some(rec.token);
            }
            k = k + 1;
        }
        None
    }

    /// The module owning an open endpoint.
    pub fn endpoint_owner(&self, endpoint: u64) -> (r: Option<u64>)
        ensures
            r == spec_endpoint_owner(self.endpoints@, endpoint),
    {
        let mut k: usize = 0;
        while k < self.endpoints.len()
            invariant
                k <= self.endpoints@.len(),
                first_where(self.endpoints@, endpoint_is(endpoint), 0) == first_where(self.endpoints@, endpoint_is(endpoint), k as int),
            decreases self.endpoints@.len() - k,
        {
            let rec = self.endpoints[k];
            if rec.occupied && rec.id == endpoint {
                return Some(rec.owner);
            }
            k = k + 1;
        }
        None
    }

    /// The endpoint a capability token is published on.
    pub fn endpoint_for_token(&self, token: u64) -> (r: Option<u64>)
        ensures
            match first_where(self.capabilities@, token_is(token), 0) {
                Some(k) => r == Some(self.capabilities@[k].endpoint),
                None => r is None,
            },
    {
        let mut k: usize = 0;
        while k < self.capabilities.len()
            invariant
                k <= self.capabilities@.len(),
                first_where(self.capabilities@, token_is(token), 0) == first_where(self.capabilities@, token_is(token), k as int),
            decreases self.capabilities@.len() - k,
        {
            let rec = &self.capabilities[k];
            if rec.occupied && rec.token == token {
                return Some(rec.endpoint);
            }
            k = k + 1;
        }
        None
    }

    /// Subscribe one open endpoint to another.
    pub fn subscribe(&mut self, consumer_endpoint: u64, provider_endpoint: u64) -> (r: Result<(), SupervisorError>)
        requires
            old(self).wf(),
        ensures
            final(self).wf(),
            final(self).capabilities@ == old(self).capabilities@,
            final(self).endpoints@ == old(self).endpoints@,
            final(self).messages@ == old(self).messages@,
            final(self).next_endpoint == old(self).next_endpoint,
            final(self).next_capability == old(self).next_capability,
            spec_endpoint_owner(old(self).endpoints@, consumer_endpoint) is None
                || spec_endpoint_owner(old(self).endpoints@, provider_endpoint) is None
                ==> r == Err::<(), SupervisorError>(SupervisorError::EndpointNotFound)
                    && final(self).subscriptions@ == old(self).subscriptions@,
            spec_endpoint_owner(old(self).endpoints@, consumer_endpoint) is Some
                && spec_endpoint_owner(old(self).endpoints@, provider_endpoint) is Some
                ==> match first_where(old(self).subscriptions@, free_subscription(), 0) {
                    Some(k) => r is Ok && final(self).subscriptions@ == old(self).subscriptions@.update(k,
                        SubscriptionRecord { occupied: true, consumer_endpoint, provider_endpoint }),
                    None => r == Err::<(), SupervisorError>(SupervisorError::SubscriptionTableFull)
                        && final(self).subscriptions@ == old(self).subscriptions@,
                },
    {
        if self.endpoint_owner(consumer_endpoint).is_none() || self.endpoint_owner(provider_endpoint).is_none() {
            return Err(SupervisorError::EndpointNotFound);
        }
        proof { lemma_first_where(self.subscriptions@, free_subscription(), 0); }
        let k = self.first_free_subscription();
        if k == self.subscriptions.len() {
            return Err(SupervisorError::SubscriptionTableFull);
        }
        self.subscriptions.set(k, SubscriptionRecord { occupied: true, consumer_endpoint, provider_endpoint });
        Ok(())
    }

    /// Queue a message for the owner of `endpoint`, addressed to it.
    pub fn post_message(&mut self, endpoint: u64, message: ModuleMessage) -> (r: Result<(), SupervisorError>)
        requires
            old(self).wf(),
        ensures
            final(self).wf(),
            final(self).capabilities@ == old(self).capabilities@,
            final(self).endpoints@ == old(self).endpoints@,
            final(self).subscriptions@ == old(self).subscriptions@,
            final(self).next_endpoint == old(self).next_endpoint,
            final(self).next_capability == old(self).next_capability,
            match spec_endpoint_owner(old(self).endpoints@, endpoint) {
                None => r == Err::<(), SupervisorError>(SupervisorError::EndpointNotFound)
                    && final(self).messages@ == old(self).messages@,
                Some(owner) => match first_where(old(self).messages@, free_queued(), 0) {
                    Some(k) => r is Ok && final(self).messages@ == old(self).messages@.update(k, QueuedMessage {
                        occupied: true, recipient: owner, endpoint,
                        message: ModuleMessage { header: MessageHeader { to: endpoint, ..message.header }, ..message } }),
                    None => r == Err::<(), SupervisorError>(SupervisorError::QueueFull)
                        && final(self).messages@ == old(self).messages@,
                },
            },
    {
        let recipient = match self.endpoint_owner(endpoint) {
            Some(o) => o,
            None => return Err(SupervisorError::EndpointNotFound),
        };
        proof { lemma_first_where(self.messages@, free_queued(), 0); }
        let k = self.first_free_message();
        if k == self.messages.len() {
            return Err(SupervisorError::QueueFull);
        }
        let routed = ModuleMessage { header: MessageHeader { to: endpoint, ..message.header }, ..message };
        self.messages.set(k, QueuedMessage { occupied: true, recipient, endpoint, message: routed });
        Ok(())
    }

    /// Take the first queued message for `module` on `endpoint`.
    pub fn take_message(&mut self, module: u64, endpoint: u64) -> (r: Result<ModuleMessage, SupervisorError>)
        requires
            old(self).wf(),
        ensures
            final(self).wf(),
            final(self).capabilities@ == old(self).capabilities@,
            final(self).endpoints@ == old(self).endpoints@,
            final(self).subscriptions@ == old(self).subscriptions@,
            final(self).next_endpoint == old(self).next_endpoint,
            final(self).next_capability == old(self).next_capability,
            match first_where(old(self).messages@, message_for(module, endpoint), 0) {
                Some(k) => r == Ok::<ModuleMessage, SupervisorError>(old(self).messages@[k].message)
                    && final(self).messages@ == old(self).messages@.update(k, empty_queued()),
                None => r == Err::<ModuleMessage, SupervisorError>(SupervisorError::EndpointNotFound)
                    && final(self).messages@ == old(self).messages@,
            },
    {
        proof { lemma_first_where(self.messages@, message_for(module, endpoint), 0); }
        let k = self.first_message_for(module, endpoint);
        if k == self.messages.len() {
            return Err(SupervisorError::EndpointNotFound);
        }
        let q = self.messages[k];
        self.messages.set(k, make_empty_queued());
        Ok(q.message)
    }
}


/// Capabilities `handle` provides are withdrawn.
pub open spec fn capabilities_without(s: Seq<CapabilityRecord>, handle: u64) -> Seq<CapabilityRecord> {
    Seq::new(s.len(), |k: int| if s[k].occupied && s[k].provider == handle { empty_capability() } else { s[k] })
}

/// Endpoints `handle` owns are closed.
pub open spec fn endpoints_without(s: Seq<EndpointRecord>, handle: u64) -> Seq<EndpointRecord> {
    Seq::new(s.len(), |k: int| if s[k].occupied && s[k].owner == handle { empty_endpoint() } else { s[k] })
}

/// Subscriptions with an end on an endpoint `handle` owns (in `endpoints`)
/// are dropped.
pub open spec fn subscriptions_without(s: Seq<SubscriptionRecord>, endpoints: Seq<EndpointRecord>, handle: u64)
    -> Seq<SubscriptionRecord> {
    Seq::new(s.len(), |k: int|
        if s[k].occupied && (spec_endpoint_owner(endpoints, s[k].consumer_endpoint) == Some(handle)
            || spec_endpoint_owner(endpoints, s[k].provider_endpoint) == Some(handle)) {
            empty_subscription()
        } else {
            s[k]
        })
}

/// Messages queued for `handle` are dropped.
pub open spec fn messages_without(s: Seq<QueuedMessage>, handle: u64) -> Seq<QueuedMessage> {
    Seq::new(s.len(), |k: int| if s[k].occupied && s[k].recipient == handle { empty_queued() } else { s[k] })
}

pub open spec fn live_capability() -> spec_fn(CapabilityRecord) -> bool { |r: CapabilityRecord| r.occupied }
pub open spec fn live_endpoint() -> spec_fn(EndpointRecord) -> bool { |r: EndpointRecord| r.occupied }
pub open spec fn live_message() -> spec_fn(QueuedMessage) -> bool { |r: QueuedMessage| r.occupied }

impl IpcTables {
    /// Close every endpoint `handle` owns, first dropping the subscriptions
    /// on them.
    pub fn disconnect_endpoints(&mut self, handle: u64)
        requires
            old(self).wf(),
        ensures
            final(self).wf(),
            final(self).capabilities@ == old(self).capabilities@,
            final(self).messages@ == old(self).messages@,
            final(self).next_endpoint == old(self).next_endpoint,
            final(self).next_capability == old(self).next_capability,
            final(self).subscriptions@ == subscriptions_without(old(self).subscriptions@, old(self).endpoints@, handle),
            final(self).endpoints@ == endpoints_without(old(self).endpoints@, handle),
    {
        let mut k: usize = 0;
        while k < self.subscriptions.len()
            invariant
                k <= MAX_SUBSCRIPTIONS,
                old(self).wf(),
                self.wf(),
                self.capabilities@ == old(self).capabilities@,
                self.messages@ == old(self).messages@,
                self.endpoints@ == old(self).endpoints@,
                self.next_endpoint == old(self).next_endpoint,
                self.next_capability == old(self).next_capability,
                forall|j: int| 0 <= j < k ==> #[trigger] self.subscriptions@[j]
                    == subscriptions_without(old(self).subscriptions@, old(self).endpoints@, handle)[j],
                forall|j: int| k <= j < MAX_SUBSCRIPTIONS ==> #[trigger] self.subscriptions@[j] == old(self).subscriptions@[j],
            decreases MAX_SUBSCRIPTIONS - k,
        {
            let sub = self.subscriptions[k];
            if sub.occupied {
                let consumer_owned = match self.endpoint_owner(sub.consumer_endpoint) {
                    Some(o) => o == handle,
                    None => false,
                };
                let provider_owned = match self.endpoint_owner(sub.provider_endpoint) {
                    Some(o) => o == handle,
                    None => false,
                };
                if consumer_owned || provider_owned {
                    self.subscriptions.set(k, SubscriptionRecord { occupied: false, consumer_endpoint: 0, provider_endpoint: 0 });
                }
            }
            k = k + 1;
        }
        assert(self.subscriptions@ =~= subscriptions_without(old(self).subscriptions@, old(self).endpoints@, handle));
        let mut k: usize = 0;
        while k < self.endpoints.len()
            invariant
                k <= MAX_ENDPOINTS,
                old(self).wf(),
                self.wf(),
                self.capabilities@ == old(self).capabilities@,
                self.messages@ == old(self).messages@,
                self.subscriptions@ == subscriptions_without(old(self).subscriptions@, old(self).endpoints@, handle),
                self.next_endpoint == old(self).next_endpoint,
                self.next_capability == old(self).next_capability,
                forall|j: int| 0 <= j < k ==> #[trigger] self.endpoints@[j] == endpoints_without(old(self).endpoints@, handle)[j],
                forall|j: int| k <= j < MAX_ENDPOINTS ==> #[trigger] self.endpoints@[j] == old(self).endpoints@[j],
            decreases MAX_ENDPOINTS - k,
        {
            let e = self.endpoints[k];
            if e.occupied && e.owner == handle {
                self.endpoints.set(k, EndpointRecord { occupied: false, id: 0, owner: 0, capability: 0 });
            }
            k = k + 1;
        }
        assert(self.endpoints@ =~= endpoints_without(old(self).endpoints@, handle));
    }

    /// Withdraw every capability `handle` provides and close its endpoints.
    pub fn revoke_capabilities(&mut self, handle: u64)
        requires
            old(self).wf(),
        ensures
            final(self).wf(),
            final(self).messages@ == old(self).messages@,
            final(self).next_endpoint == old(self).next_endpoint,
            final(self).next_capability == old(self).next_capability,
            final(self).capabilities@ == capabilities_without(old(self).capabilities@, handle),
            final(self).subscriptions@ == subscriptions_without(old(self).subscriptions@, old(self).endpoints@, handle),
            final(self).endpoints@ == endpoints_without(old(self).endpoints@, handle),
            ipc_view(&*final(self)) == revoke_view(ipc_view(&*old(self)), handle),
    {
        let mut k: usize = 0;
        while k < self.capabilities.len()
            invariant
                k <= MAX_CAPABILITIES,
                old(self).wf(),
                self.wf(),
                self.endpoints@ == old(self).endpoints@,
                self.subscriptions@ == old(self).subscriptions@,
                self.messages@ == old(self).messages@,
                self.next_endpoint == old(self).next_endpoint,
                self.next_capability == old(self).next_capability,
                forall|j: int| 0 <= j < k ==> #[trigger] self.capabilities@[j] == capabilities_without(old(self).capabilities@, handle)[j],
                forall|j: int| k <= j < MAX_CAPABILITIES ==> #[trigger] self.capabilities@[j] == old(self).capabilities@[j],
            decreases MAX_CAPABILITIES - k,
        {
            let occupied = self.capabilities[k].occupied;
            let provider = self.capabilities[k].provider;
            if occupied && provider == handle {
                self.capabilities.set(k, make_empty_capability());
            }
            k = k + 1;
        }
        assert(self.capabilities@ =~= capabilities_without(old(self).capabilities@, handle));
        self.disconnect_endpoints(handle);
    }

    /// Drop every message queued for `handle`.
    pub fn drain_messages(&mut self, handle: u64)
        requires
            old(self).wf(),
        ensures
            final(self).wf(),
            final(self).capabilities@ == old(self).capabilities@,
            final(self).endpoints@ == old(self).endpoints@,
            final(self).subscriptions@ == old(self).subscriptions@,
            final(self).next_endpoint == old(self).next_endpoint,
            final(self).next_capability == old(self).next_capability,
            final(self).messages@ == messages_without(old(self).messages@, handle),
            ipc_view(&*final(self)) == drain_view(ipc_view(&*old(self)), handle),
    {
        let mut k: usize = 0;
        while k < self.messages.len()
            invariant
                k <= MAX_QUEUED_MESSAGES,
                old(self).wf(),
                self.wf(),
                self.capabilities@ == old(self).capabilities@,
                self.endpoints@ == old(self).endpoints@,
                self.subscriptions@ == old(self).subscriptions@,
                self.next_endpoint == old(self).next_endpoint,
                self.next_capability == old(self).next_capability,
                forall|j: int| 0 <= j < k ==> #[trigger] self.messages@[j] == messages_without(old(self).messages@, handle)[j],
                forall|j: int| k <= j < MAX_QUEUED_MESSAGES ==> #[trigger] self.messages@[j] == old(self).messages@[j],
            decreases MAX_QUEUED_MESSAGES - k,
        {
            let occupied = self.messages[k].occupied;
            let recipient = self.messages[k].recipient;
            if occupied && recipient == handle {
                self.messages.set(k, make_empty_queued());
            }
            k = k + 1;
        }
        assert(self.messages@ =~= messages_without(old(self).messages@, handle));
    }

    /// How many capabilities, endpoints and queued messages there are.
    pub fn counts(&self) -> (r: (usize, usize, usize))
        requires
            self.wf(),
        ensures
            r.0 == count_where(self.capabilities@, live_capability()),
            r.1 == count_where(self.endpoints@, live_endpoint()),
            r.2 == count_where(self.messages@, live_message()),
    {
        let mut c: usize = 0;
        let mut i: usize = 0;
        while i < self.capabilities.len()
            invariant
                i <= self.capabilities@.len(),
                self.capabilities@.len() == MAX_CAPABILITIES,
                c == count_where(self.capabilities@.take(i as int), live_capability()),
                c <= i,
            decreases self.capabilities@.len() - i,
        {
            proof { lemma_count_step(self.capabilities@, live_capability(), i as int); }
            if self.capabilities[i].occupied { c = c + 1; }
            i = i + 1;
        }
        assert(self.capabilities@.take(MAX_CAPABILITIES as int) =~= self.capabilities@);
        let mut e: usize = 0;
        let mut i: usize = 0;
        while i < self.endpoints.len()
            invariant
                i <= self.endpoints@.len(),
                self.endpoints@.len() == MAX_ENDPOINTS,
                e == count_where(self.endpoints@.take(i as int), live_endpoint()),
                e <= i,
            decreases self.endpoints@.len() - i,
        {
            proof { lemma_count_step(self.endpoints@, live_endpoint(), i as int); }
            if self.endpoints[i].occupied { e = e + 1; }
            i = i + 1;
        }
        assert(self.endpoints@.take(MAX_ENDPOINTS as int) =~= self.endpoints@);
        let mut m: usize = 0;
        let mut i: usize = 0;
        while i < self.messages.len()
            invariant
                i <= self.messages@.len(),
                self.messages@.len() == MAX_QUEUED_MESSAGES,
                m == count_where(self.messages@.take(i as int), live_message()),
                m <= i,
            decreases self.messages@.len() - i,
        {
            proof { lemma_count_step(self.messages@, live_message(), i as int); }
            if self.messages[i].occupied { m = m + 1; }
            i = i + 1;
        }
        assert(self.messages@.take(MAX_QUEUED_MESSAGES as int) =~= self.messages@);
        (c, e, m)
    }
}


/// Entries a module exports; `None` entries are unused.
pub const MAX_EXPORTS: usize = 4;
pub type Exports = [Option<CapabilitySpec>; 4];

/// The tables a publication changes: capabilities, endpoints, and the next
/// endpoint id and capability token.
pub type PubTables = (Seq<CapabilityRecord>, Seq<EndpointRecord>, u64, u64);

/// Publish one export of `handle`: open an endpoint, publish the capability
/// on it, and record the capability's token on the endpoint.  Failing to
/// find a capability slot leaves the new endpoint open.
pub open spec fn publish_one(t: PubTables, handle: u64, spec: CapabilitySpec) -> (PubTables, Result<(), SupervisorError>) {
    let (caps, eps, ne, nc) = t;
    match first_where(eps, free_endpoint(), 0) {
        None => (t, Err(SupervisorError::EndpointTableFull)),
        Some(e) => {
            let eps1 = eps.update(e, EndpointRecord { occupied: true, id: ne, owner: handle, capability: 0 });
            match first_where(caps, free_capability(), 0) {
                None => ((caps, eps1, (ne + 1) as u64, nc), Err(SupervisorError::CapabilityTableFull)),
                Some(c) => {
                    let caps1 = caps.update(c, CapabilityRecord { occupied: true, token: nc, provider: handle, endpoint: ne, spec });
                    let eps2 = eps.update(e, EndpointRecord { occupied: true, id: ne, owner: handle, capability: nc });
                    ((caps1, eps2, (ne + 1) as u64, (nc + 1) as u64), Ok(()))
                },
            }
        },
    }
}

/// The first `i` export entries published in order, stopping at the first
/// failure.
pub open spec fn publish_prefix(t: PubTables, handle: u64, exports: Seq<Option<CapabilitySpec>>, i: int)
    -> (PubTables, Result<(), SupervisorError>)
    decreases i,
{
    if i <= 0 {
        (t, Ok(()))
    } else {
        let (t1, r1) = publish_prefix(t, handle, exports, i - 1);
        if r1 is Err {
            (t1, r1)
        } else {
            match exports[i - 1] {
                None => (t1, Ok(())),
                Some(spec) => publish_one(t1, handle, spec),
            }
        }
    }
}


/// Some capability `spec` provided by `h` is published in `caps`.
pub open spec fn has_capability(caps: Seq<CapabilityRecord>, h: u64, spec: CapabilitySpec) -> bool {
    exists|c: int| 0 <= c < caps.len() && (#[trigger] caps[c]).occupied && caps[c].provider == h && caps[c].spec == spec
}

/// Every export of `h` is published in `caps`.
pub open spec fn exports_published(caps: Seq<CapabilityRecord>, h: u64, exports: Seq<Option<CapabilitySpec>>) -> bool {
    forall|i: int| 0 <= i < exports.len() && (#[trigger] exports[i]) is Some ==> has_capability(caps, h, exports[i]->Some_0)
}

/// Publishing keeps every published capability and, when it succeeds,
/// publishes each of the first `n` exports.
pub proof fn lemma_publish_keeps(t: PubTables, h: u64, exports: Seq<Option<CapabilitySpec>>, n: int)
    ensures
        publish_prefix(t, h, exports, n).0.0.len() == t.0.len(),
        forall|c: int| 0 <= c < t.0.len() && (#[trigger] t.0[c]).occupied ==> publish_prefix(t, h, exports, n).0.0[c] == t.0[c],
        publish_prefix(t, h, exports, n).1 is Ok ==> forall|i: int| 0 <= i < n && i < exports.len()
            && (#[trigger] exports[i]) is Some ==> has_capability(publish_prefix(t, h, exports, n).0.0, h, exports[i]->Some_0),
    decreases n,
{
    if n > 0 {
        lemma_publish_keeps(t, h, exports, n - 1);
        let (t1, r1) = publish_prefix(t, h, exports, n - 1);
        if r1 is Ok {
            match exports[n - 1] {
                None => {},
                Some(spec) => {
                    crate::supervisor::lemma_first_where(t1.1, free_endpoint(), 0);
                    crate::supervisor::lemma_first_where(t1.0, free_capability(), 0);
                    let t2 = publish_prefix(t, h, exports, n).0;
                    if publish_prefix(t, h, exports, n).1 is Ok {
                        let c = first_where(t1.0, free_capability(), 0)->Some_0;
                        assert(t2.0[c].occupied && t2.0[c].provider == h && t2.0[c].spec == spec);
                        assert forall|i: int| 0 <= i < n && i < exports.len() && (#[trigger] exports[i]) is Some
                            implies has_capability(t2.0, h, exports[i]->Some_0) by {
                            if i < n - 1 {
                                let w = choose|w: int| 0 <= w < t1.0.len() && (#[trigger] t1.0[w]).occupied
                                    && t1.0[w].provider == h && t1.0[w].spec == exports[i]->Some_0;
                                assert(t2.0[w] == t1.0[w]);
                            } else {
                                assert(t2.0[c].spec == exports[i]->Some_0);
                            }
                        }
                    }
                },
            }
        }
    }
}

/// Starting module `h` (withdrawing its capabilities, then publishing its
/// exports) keeps what another module `hq` has published, and, when the
/// publication succeeds, publishes each of `h`'s exports.
pub proof fn lemma_start_publication(v: IpcView, h: u64, exports: Seq<Option<CapabilitySpec>>, hq: u64,
    exq: Seq<Option<CapabilitySpec>>)
    requires
        exports.len() <= MAX_EXPORTS,
    ensures
        hq != h && exports_published(v.0, hq, exq) ==> exports_published(
            publish_view(revoke_view(v, h), h, exports).0.0, hq, exq),
        publish_view(revoke_view(v, h), h, exports).1 is Ok ==> exports_published(
            publish_view(revoke_view(v, h), h, exports).0.0, h, exports),
{
    let rv = revoke_view(v, h);
    let t = (rv.0, rv.1, rv.4, rv.5);
    lemma_publish_keeps(t, h, exports, MAX_EXPORTS as int);
    let fin = publish_view(rv, h, exports).0.0;
    if hq != h && exports_published(v.0, hq, exq) {
        assert forall|i: int| 0 <= i < exq.len() && (#[trigger] exq[i]) is Some
            implies has_capability(fin, hq, exq[i]->Some_0) by {
            lemma_revoke_keeps(v.0, hq, h, exq[i]->Some_0);
            let w = choose|w: int| 0 <= w < rv.0.len() && (#[trigger] rv.0[w]).occupied && rv.0[w].provider == hq
                && rv.0[w].spec == exq[i]->Some_0;
            assert(fin[w] == rv.0[w]);
        }
    }
}

/// Withdrawing `h2`'s capabilities keeps those of every other provider.
pub proof fn lemma_revoke_keeps(caps: Seq<CapabilityRecord>, h: u64, h2: u64, spec: CapabilitySpec)
    requires
        h != h2,
        has_capability(caps, h, spec),
    ensures
        has_capability(capabilities_without(caps, h2), h, spec),
{
    let w = choose|w: int| 0 <= w < caps.len() && (#[trigger] caps[w]).occupied && caps[w].provider == h && caps[w].spec == spec;
    assert(capabilities_without(caps, h2)[w] == caps[w]);
}

/// A publication fails only on a full table: no free endpoint, or no free
/// capability slot, in the tables it leaves.
pub proof fn lemma_publish_errors(t: PubTables, handle: u64, exports: Seq<Option<CapabilitySpec>>, i: int)
    ensures
        ({
            let (t1, r) = publish_prefix(t, handle, exports, i);
            match r {
                Ok(()) => true,
                Err(e) => (e == SupervisorError::EndpointTableFull && forall|j: int| 0 <= j < t1.1.len()
                        ==> (#[trigger] t1.1[j]).occupied)
                    || (e == SupervisorError::CapabilityTableFull && forall|j: int| 0 <= j < t1.0.len()
                        ==> (#[trigger] t1.0[j]).occupied),
            }
        }),
    decreases i,
{
    if i > 0 {
        lemma_publish_errors(t, handle, exports, i - 1);
        let (t1, r1) = publish_prefix(t, handle, exports, i - 1);
        if r1 is Ok {
            match exports[i - 1] {
                None => {},
                Some(spec) => {
                    crate::supervisor::lemma_first_where(t1.1, free_endpoint(), 0);
                    crate::supervisor::lemma_first_where(t1.0, free_capability(), 0);
                },
            }
        }
    }
}

/// All of the IPC state as plain values: capabilities, endpoints,
/// subscriptions, queued messages, next endpoint id, next token.
pub type IpcView = (Seq<CapabilityRecord>, Seq<EndpointRecord>, Seq<SubscriptionRecord>, Seq<QueuedMessage>, u64, u64);

pub open spec fn ipc_view(t: &IpcTables) -> IpcView {
    (t.capabilities@, t.endpoints@, t.subscriptions@, t.messages@, t.next_endpoint, t.next_capability)
}

/// `revoke_capabilities(h)`: h's capabilities withdrawn, the subscriptions
/// on its endpoints dropped, its endpoints closed.
pub open spec fn revoke_view(v: IpcView, h: u64) -> IpcView {
    (capabilities_without(v.0, h), endpoints_without(v.1, h), subscriptions_without(v.2, v.1, h), v.3, v.4, v.5)
}

/// `drain_messages(h)`: the messages queued for h dropped.
pub open spec fn drain_view(v: IpcView, h: u64) -> IpcView {
    (v.0, v.1, v.2, messages_without(v.3, h), v.4, v.5)
}

/// `publish_all(h, exports)`.
pub open spec fn publish_view(v: IpcView, h: u64, exports: Seq<Option<CapabilitySpec>>) -> (IpcView, Result<(), SupervisorError>) {
    let (t, r) = publish_prefix((v.0, v.1, v.4, v.5), h, exports, MAX_EXPORTS as int);
    ((t.0, t.1, v.2, v.3, t.2, t.3), r)
}

/// Room for one module's exports: endpoint ids and tokens to spare.
pub open spec fn publish_room(v: IpcView) -> bool {
    v.4 + MAX_EXPORTS < u64::MAX && v.5 + MAX_EXPORTS < u64::MAX
}

pub open spec fn pub_tables(t: &IpcTables) -> PubTables {
    (t.capabilities@, t.endpoints@, t.next_endpoint, t.next_capability)
}

impl IpcTables {
    /// Record `token` on the first open endpoint with id `endpoint`.
    fn set_endpoint_capability(&mut self, endpoint: u64, token: u64)
        requires
            old(self).wf(),
        ensures
            final(self).wf(),
            final(self).capabilities@ == old(self).capabilities@,
            final(self).subscriptions@ == old(self).subscriptions@,
            final(self).messages@ == old(self).messages@,
            final(self).next_endpoint == old(self).next_endpoint,
            final(self).next_capability == old(self).next_capability,
            match first_where(old(self).endpoints@, endpoint_is(endpoint), 0) {
                Some(k) => final(self).endpoints@ == old(self).endpoints@.update(k,
                    EndpointRecord { capability: token, ..old(self).endpoints@[k] }),
                None => final(self).endpoints@ == old(self).endpoints@,
            },
    {
        proof { lemma_first_where(self.endpoints@, endpoint_is(endpoint), 0); }
        let k = self.endpoint_slot(endpoint);
        if k < self.endpoints.len() {
            let e = self.endpoints[k];
            self.endpoints.set(k, EndpointRecord { capability: token, ..e });
        }
    }

    /// Publish each export of `handle` in order, as `publish_prefix` states.
    pub fn publish_all(&mut self, handle: u64, exports: &Exports) -> (r: Result<(), SupervisorError>)
        requires
            old(self).wf(),
            old(self).next_endpoint + MAX_EXPORTS < u64::MAX,
            old(self).next_capability + MAX_EXPORTS < u64::MAX,
        ensures
            final(self).wf(),
            final(self).subscriptions@ == old(self).subscriptions@,
            final(self).messages@ == old(self).messages@,
            (pub_tables(&*final(self)), r) == publish_prefix(pub_tables(&*old(self)), handle, exports@, MAX_EXPORTS as int),
            (ipc_view(&*final(self)), r) == publish_view(ipc_view(&*old(self)), handle, exports@),
    {
        let mut i: usize = 0;
        while i < MAX_EXPORTS
            invariant
                i <= MAX_EXPORTS,
                self.wf(),
                exports@.len() == MAX_EXPORTS,
                self.subscriptions@ == old(self).subscriptions@,
                self.messages@ == old(self).messages@,
                self.next_endpoint <= old(self).next_endpoint + i,
                self.next_capability <= old(self).next_capability + i,
                old(self).next_endpoint + MAX_EXPORTS < u64::MAX,
                old(self).next_capability + MAX_EXPORTS < u64::MAX,
                (pub_tables(&*self), Ok::<(), SupervisorError>(())) == publish_prefix(pub_tables(&*old(self)), handle, exports@, i as int),
            decreases MAX_EXPORTS - i,
        {
            match exports[i] {
                None => {},
                Some(spec) => {
                    let ghost t0 = pub_tables(&*self);
                    proof {
                        lemma_first_where(self.endpoints@, free_endpoint(), 0);
                        lemma_first_where(self.capabilities@, free_capability(), 0);
                    }
                    let endpoint = match self.allocate_endpoint(handle, 0, [0u8; 16]) {
                        Ok(e) => e,
                        Err(err) => {
                            proof { lemma_publish_rest(pub_tables(&*old(self)), handle, exports@, i as int + 1); }
                            return Err(err);
                        },
                    };
                    let ghost t1 = pub_tables(&*self);
                    let token = match self.allocate_capability(handle, spec, endpoint) {
                        Ok(t) => t,
                        Err(err) => {
                            proof { lemma_publish_rest(pub_tables(&*old(self)), handle, exports@, i as int + 1); }
                            return Err(err);
                        },
                    };
                    proof {
                        let e = first_where(t0.1, free_endpoint(), 0)->Some_0;
                        lemma_first_where(self.endpoints@, endpoint_is(endpoint), 0);
                        assert(endpoint_is(endpoint)(self.endpoints@[e]));
                        let f = first_where(self.endpoints@, endpoint_is(endpoint), 0);
                        if f is Some && f->Some_0 != e {
                            assert(self.endpoints@[f->Some_0] == t0.1[f->Some_0]);
                        }
                    }
                    self.set_endpoint_capability(endpoint, token);
                    proof {
                        let e = first_where(t0.1, free_endpoint(), 0)->Some_0;
                        assert(self.endpoints@ =~= t0.1.update(e,
                            EndpointRecord { occupied: true, id: t0.2, owner: handle, capability: t0.3 }));
                    }
                },
            }
            i = i + 1;
        }
        Ok(())
    }
}


/// Publishing `i` entries hands out at most `i` endpoint ids and tokens.
pub proof fn lemma_publish_bounds(t: PubTables, handle: u64, exports: Seq<Option<CapabilitySpec>>, i: int)
    requires
        0 <= i,
        t.2 + i < u64::MAX,
        t.3 + i < u64::MAX,
    ensures
        t.2 <= publish_prefix(t, handle, exports, i).0.2 <= t.2 + i,
        t.3 <= publish_prefix(t, handle, exports, i).0.3 <= t.3 + i,
    decreases i,
{
    if i > 0 {
        lemma_publish_bounds(t, handle, exports, i - 1);
    }
}

/// Once a publication has failed, later entries change nothing.
proof fn lemma_publish_rest(t: PubTables, handle: u64, exports: Seq<Option<CapabilitySpec>>, i: int)
    requires
        1 <= i <= MAX_EXPORTS,
        publish_prefix(t, handle, exports, i).1 is Err,
    ensures
        publish_prefix(t, handle, exports, MAX_EXPORTS as int) == publish_prefix(t, handle, exports, i),
    decreases MAX_EXPORTS - i,
{
    if i < MAX_EXPORTS {
        lemma_publish_rest(t, handle, exports, i + 1);
    }
}


/// Everything but the IPC tables is the same in `a` and `b`.
pub open spec fn outside_ipc(a: &Supervisor, b: &Supervisor) -> bool {
    &&& a.modules@ == b.modules@
    &&& a.instances@ == b.instances@
    &&& a.resources@ == b.resources@
    &&& a.claims@ == b.claims@
    &&& a.revocations@ == b.revocations@
    &&& a.heap_grants@ == b.heap_grants@
    &&& a.ready_control@ == b.ready_control@
    &&& a.ready_io@ == b.ready_io@
    &&& a.ready_compute@ == b.ready_compute@
    &&& a.ready_background@ == b.ready_background@
    &&& a.restart_queue@ == b.restart_queue@
    &&& a.bootstrapped == b.bootstrapped
    &&& a.boot_payload == b.boot_payload
    &&& a.next_handle == b.next_handle
    &&& a.next_instance == b.next_instance
    &&& a.next_claim == b.next_claim
    &&& a.next_domain == b.next_domain
    &&& a.next_root == b.next_root
    &&& a.active_module == b.active_module
    &&& a.active_instance == b.active_instance
}

impl Supervisor {
    /// Withdraw what a module published, then publish its exports afresh.
    pub fn publish_exports(&mut self, handle: u64) -> (r: Result<(), SupervisorError>)
        requires
            old(self).wf(),
            publish_room(ipc_view(&old(self).ipc)),
        ensures
            final(self).wf(),
            outside_ipc(&*final(self), &*old(self)),
            match first_where(old(self).modules@, module_is(handle), 0) {
                None => r == Err::<(), SupervisorError>(SupervisorError::ModuleNotFound)
                    && ipc_view(&final(self).ipc) == revoke_view(ipc_view(&old(self).ipc), handle),
                Some(k) => (ipc_view(&final(self).ipc), r) == publish_view(
                    revoke_view(ipc_view(&old(self).ipc), handle), handle, old(self).modules@[k].spec.exports@),
            },
    {
        self.ipc.revoke_capabilities(handle);
        proof { lemma_first_where(self.modules@, module_is(handle), 0); }
        let k = match self.find_module_slot(handle) {
            Ok(k) => k,
            Err(e) => return Err(e),
        };
        let exports = self.modules[k].spec.exports;
        self.ipc.publish_all(handle, &exports)
    }

    /// Open an endpoint for an installed module.
    pub fn open_endpoint(&mut self, module: u64, label: Label) -> (r: Result<u64, SupervisorError>)
        requires
            old(self).wf(),
            old(self).ipc.next_endpoint < u64::MAX,
        ensures
            final(self).wf(),
            outside_ipc(&*final(self), &*old(self)),
            first_where(old(self).modules@, module_is(module), 0) is None
                ==> r == Err::<u64, SupervisorError>(SupervisorError::ModuleNotFound) && final(self).ipc == old(self).ipc,
            first_where(old(self).modules@, module_is(module), 0) is Some ==> {
                &&& final(self).ipc.capabilities@ == old(self).ipc.capabilities@
                &&& final(self).ipc.subscriptions@ == old(self).ipc.subscriptions@
                &&& final(self).ipc.messages@ == old(self).ipc.messages@
                &&& match first_where(old(self).ipc.endpoints@, free_endpoint(), 0) {
                    Some(k) => r == Ok::<u64, SupervisorError>(old(self).ipc.next_endpoint)
                        && final(self).ipc.next_endpoint == old(self).ipc.next_endpoint + 1
                        && final(self).ipc.endpoints@ == old(self).ipc.endpoints@.update(k,
                            EndpointRecord { occupied: true, id: old(self).ipc.next_endpoint, owner: module, capability: 0 }),
                    None => r == Err::<u64, SupervisorError>(SupervisorError::EndpointTableFull)
                        && ipc_view(&final(self).ipc) == ipc_view(&old(self).ipc),
                }
            },
    {
        match self.find_module_slot(module) {
            Ok(_) => {},
            Err(e) => return Err(e),
        }
        self.ipc.allocate_endpoint(module, 0, label)
    }

    /// The first message queued for an installed module on `endpoint`.
    pub fn receive_message(&mut self, module: u64, endpoint: u64) -> (r: Result<ModuleMessage, SupervisorError>)
        requires
            old(self).wf(),
        ensures
            final(self).wf(),
            outside_ipc(&*final(self), &*old(self)),
            final(self).ipc.capabilities@ == old(self).ipc.capabilities@,
            final(self).ipc.endpoints@ == old(self).ipc.endpoints@,
            final(self).ipc.subscriptions@ == old(self).ipc.subscriptions@,
            final(self).ipc.next_endpoint == old(self).ipc.next_endpoint,
            final(self).ipc.next_capability == old(self).ipc.next_capability,
            first_where(old(self).modules@, module_is(module), 0) is None
                ==> r == Err::<ModuleMessage, SupervisorError>(SupervisorError::ModuleNotFound)
                    && final(self).ipc.messages@ == old(self).ipc.messages@,
            first_where(old(self).modules@, module_is(module), 0) is Some
                ==> match first_where(old(self).ipc.messages@, message_for(module, endpoint), 0) {
                    Some(k) => r == Ok::<ModuleMessage, SupervisorError>(old(self).ipc.messages@[k].message)
                        && final(self).ipc.messages@ == old(self).ipc.messages@.update(k, empty_queued()),
                    None => r == Err::<ModuleMessage, SupervisorError>(SupervisorError::EndpointNotFound)
                        && final(self).ipc.messages@ == old(self).ipc.messages@,
                },
    {
        match self.find_module_slot(module) {
            Ok(_) => {},
            Err(e) => return Err(e),
        }
        self.ipc.take_message(module, endpoint)
    }

    /// The token of a published capability, by namespace and name.
    pub fn resolve_capability(&self, namespace: &Label, name: &Label) -> (r: Result<u64, SupervisorError>)
        ensures
            match first_where(self.ipc.capabilities@, capability_named(namespace@, name@), 0) {
                Some(k) => r == Ok::<u64, SupervisorError>(self.ipc.capabilities@[k].token),
                None => r == Err::<u64, SupervisorError>(SupervisorError::CapabilityNotFound),
            },
    {
        match self.ipc.resolve_capability(namespace, name) {
            Some(t) => Ok(t),
            None => Err(SupervisorError::CapabilityNotFound),
        }
    }

    /// The endpoint a capability token is published on.
    pub fn endpoint_for_token(&self, token: u64) -> (r: Result<u64, SupervisorError>)
        ensures
            match first_where(self.ipc.capabilities@, token_is(token), 0) {
                Some(k) => r == Ok::<u64, SupervisorError>(self.ipc.capabilities@[k].endpoint),
                None => r == Err::<u64, SupervisorError>(SupervisorError::CapabilityNotFound),
            },
    {
        match self.ipc.endpoint_for_token(token) {
            Some(e) => Ok(e),
            None => Err(SupervisorError::CapabilityNotFound),
        }
    }
}

} // verus!
