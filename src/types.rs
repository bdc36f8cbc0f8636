use vstd::prelude::*;

verus! {

/// Position of an entry in an invocation's journal.
pub type EntryIndex = u32;

/// Identifies an invocation: the partition key it is routed by and a 128-bit unique id.
#[derive(Clone, Copy, Debug, PartialEq, Eq, Structural, Hash)]
pub struct InvocationId {
    pub partition_key: u64,
    pub invocation_uuid: u128,
}

/// A keyed service instance: the service's name and the object's key.
pub struct ServiceId {
    pub service_name: String,
    pub key: String,
}

/// What a service id stands for: its name and key as text.
pub type ServiceKey = (Seq<char>, Seq<char>);

impl ServiceId {
    pub open spec fn model(&self) -> ServiceKey {
        (self.service_name@, self.key@)
    }

    pub fn new(service_name: String, key: String) -> (r: ServiceId)
        ensures
            r.service_name == service_name,
            r.key == key,
    {
        ServiceId { service_name, key }
    }

    pub fn duplicate(&self) -> (r: ServiceId)
        ensures
            r == *self,
    {
        ServiceId { service_name: self.service_name.clone(), key: self.key.clone() }
    }

    /// Whether both ids name the same service instance.
    pub fn same_as(&self, other: &ServiceId) -> (r: bool)
        ensures
            r == (self.model() == other.model()),
    {
        self.service_name == other.service_name && self.key == other.key
    }
}

/// How a virtual object handler runs: alone, or beside others.
#[derive(Clone, Copy, Debug, PartialEq, Eq, Structural)]
pub enum VirtualObjectHandlerType {
    Exclusive,
    Shared,
}

/// How a workflow handler runs: the single run of the workflow, or a shared reader.
#[derive(Clone, Copy, Debug, PartialEq, Eq, Structural)]
pub enum WorkflowHandlerType {
    Workflow,
    Shared,
}

/// The handler an invocation addresses.
#[allow(inconsistent_fields)]
pub enum InvocationTarget {
    Service { name: String, handler: String },
    VirtualObject { name: String, key: String, handler: String, handler_type: VirtualObjectHandlerType },
    Workflow { name: String, key: String, handler: String, handler_type: WorkflowHandlerType },
}

/// What an invocation target is, over text.
#[allow(inconsistent_fields)]
pub enum TargetModel {
    Service { name: Seq<char>, handler: Seq<char> },
    VirtualObject { name: Seq<char>, key: Seq<char>, handler: Seq<char>, handler_type: VirtualObjectHandlerType },
    Workflow { name: Seq<char>, key: Seq<char>, handler: Seq<char>, handler_type: WorkflowHandlerType },
}

impl InvocationTarget {
    pub open spec fn model(&self) -> TargetModel {
        match self {
            InvocationTarget::Service { name, handler } => TargetModel::Service { name: name@, handler: handler@ },
            InvocationTarget::VirtualObject { name, key, handler, handler_type } => TargetModel::VirtualObject {
                name: name@,
                key: key@,
                handler: handler@,
                handler_type: *handler_type,
            },
            InvocationTarget::Workflow { name, key, handler, handler_type } => TargetModel::Workflow {
                name: name@,
                key: key@,
                handler: handler@,
                handler_type: *handler_type,
            },
        }
    }

    pub fn duplicate(&self) -> (r: InvocationTarget)
        ensures
            r == *self,
    {
        match self {
            InvocationTarget::Service { name, handler } => InvocationTarget::Service {
                name: name.clone(),
                handler: handler.clone(),
            },
            InvocationTarget::VirtualObject { name, key, handler, handler_type } => InvocationTarget::VirtualObject {
                name: name.clone(),
                key: key.clone(),
                handler: handler.clone(),
                handler_type: *handler_type,
            },
            InvocationTarget::Workflow { name, key, handler, handler_type } => InvocationTarget::Workflow {
                name: name.clone(),
                key: key.clone(),
                handler: handler.clone(),
                handler_type: *handler_type,
            },
        }
    }

    /// The service instance whose lock an invocation of this target must hold, if any:
    /// exclusive virtual object handlers and the run of a workflow.
    pub open spec fn locked_service(&self) -> Option<ServiceKey> {
        match self {
            InvocationTarget::Service { .. } => None,
            InvocationTarget::VirtualObject { name, key, handler_type, .. } => if *handler_type
                == VirtualObjectHandlerType::Exclusive {
                Some((name@, key@))
            } else {
                None
            },
            InvocationTarget::Workflow { name, key, handler_type, .. } => if *handler_type
                == WorkflowHandlerType::Workflow {
                Some((name@, key@))
            } else {
                None
            },
        }
    }

    /// The service instance whose lock this target needs, if any.
    pub fn lock_service_id(&self) -> (r: Option<ServiceId>)
        ensures
            r.is_some() == self.locked_service().is_some(),
            r.is_some() ==> r.unwrap().model() == self.locked_service().unwrap(),
    {
        match self {
            InvocationTarget::Service { .. } => None,
            InvocationTarget::VirtualObject { name, key, handler_type, .. } => match handler_type {
                VirtualObjectHandlerType::Exclusive => Some(ServiceId::new(name.clone(), key.clone())),
                VirtualObjectHandlerType::Shared => None,
            },
            InvocationTarget::Workflow { name, key, handler_type, .. } => match handler_type {
                WorkflowHandlerType::Workflow => Some(ServiceId::new(name.clone(), key.clone())),
                WorkflowHandlerType::Shared => None,
            },
        }
    }
}

/// Where the result of an invocation is sent once it completes.
#[derive(Clone, Copy, Debug, PartialEq, Eq, Structural)]
pub enum ResponseSink {
    /// A journal entry of a calling invocation waits for it.
    PartitionProcessor { caller: InvocationId, entry_index: EntryIndex },
    /// An ingress request waits for it.
    Ingress { request_id: u64 },
}

/// What an entry result is: the success bytes, or the failure code and message.
pub enum EntryResultModel {
    Success(Seq<u8>),
    Failure(u16, Seq<char>),
}

/// The terminal result of an invocation or of a journal entry.
pub enum EntryResult {
    Success(Vec<u8>),
    Failure(u16, String),
}

impl EntryResult {
    pub open spec fn model(&self) -> EntryResultModel {
        match self {
            EntryResult::Success(b) => EntryResultModel::Success(b@),
            EntryResult::Failure(code, message) => EntryResultModel::Failure(*code, message@),
        }
    }

    pub fn duplicate(&self) -> (r: EntryResult)
        ensures
            r.model() == self.model(),
    {
        match self {
            EntryResult::Success(b) => EntryResult::Success(b.clone()),
            EntryResult::Failure(code, message) => EntryResult::Failure(*code, message.clone()),
        }
    }
}

/// The newest service protocol version that deployments may speak.
pub const MAX_SERVICE_PROTOCOL_VERSION: i32 = 3;

/// Whether `v` names a service protocol version: from the first up to the newest.
pub open spec fn is_supported_protocol(v: i32) -> bool {
    1 <= v <= MAX_SERVICE_PROTOCOL_VERSION
}

/// The deployment an invocation was first dispatched to, kept for its whole life, with the
/// protocol version agreed with it.
pub struct PinnedDeployment {
    pub deployment_id: String,
    pub service_protocol_version: i32,
}

impl PinnedDeployment {
    pub open spec fn model(&self) -> (Seq<char>, i32) {
        (self.deployment_id@, self.service_protocol_version)
    }

    pub fn duplicate(&self) -> (r: PinnedDeployment)
        ensures
            r == *self,
    {
        PinnedDeployment { deployment_id: self.deployment_id.clone(), service_protocol_version: self.service_protocol_version }
    }
}

/// The id and protocol version of an optional pinned deployment.
pub open spec fn pinned_model(p: Option<PinnedDeployment>) -> Option<(Seq<char>, i32)> {
    match p {
        Some(d) => Some(d.model()),
        None => None,
    }
}

/// Where an invocation came from.
#[derive(Clone, Copy, Debug, PartialEq, Eq, Structural)]
pub enum Source {
    /// An ingress request.
    Ingress { request_id: u64 },
    /// An event subscription.
    Subscription { subscription_id: u64 },
    /// Another invocation.
    Service { caller: InvocationId },
    /// The runtime itself.
    Internal,
}

/// The trace an invocation belongs to.
#[derive(Clone, Copy, Debug, PartialEq, Eq, Structural)]
pub struct SpanContext {
    pub trace_id: u128,
    pub span_id: u64,
    pub trace_flags: u8,
    pub is_remote: bool,
}

/// A request header: a name and a value.
pub struct Header {
    pub name: String,
    pub value: String,
}

/// The text of each header, in order.
pub open spec fn headers_model(h: Seq<Header>) -> Seq<(Seq<char>, Seq<char>)> {
    h.map_values(|x: Header| (x.name@, x.value@))
}

/// Copies a list of headers.
pub fn copy_headers(h: &Vec<Header>) -> (r: Vec<Header>)
    ensures
        headers_model(r@) == headers_model(h@),
{
    let mut r: Vec<Header> = Vec::new();
    let mut i: usize = 0;
    while i < h.len()
        invariant
            i <= h@.len(),
            headers_model(r@) == headers_model(h@.take(i as int)),
        decreases h@.len() - i,
    {
        let x = Header { name: h[i].name.clone(), value: h[i].value.clone() };
        let ghost before = r@;
        r.push(x);
        i = i + 1;
        assert(headers_model(r@) =~= headers_model(before).push((h@[i - 1].name@, h@[i - 1].value@)));
        assert(headers_model(h@.take(i as int)) =~= headers_model(h@.take(i - 1)).push((h@[i - 1].name@, h@[i - 1].value@)));
    }
    assert(h@.take(h@.len() as int) =~= h@);
    r
}

/// Copies optional bytes.
pub fn copy_opt_bytes(b: &Option<Vec<u8>>) -> (r: Option<Vec<u8>>)
    ensures
        opt_bytes(r) == opt_bytes(*b),
{
    match b {
        Some(v) => Some(v.clone()),
        None => None,
    }
}

/// The bytes of optional bytes.
pub open spec fn opt_bytes(b: Option<Vec<u8>>) -> Option<Seq<u8>> {
    match b {
        Some(v) => Some(v@),
        None => None,
    }
}

/// Copies a list of response sinks.
pub fn copy_sinks(sinks: &Vec<ResponseSink>) -> (r: Vec<ResponseSink>)
    ensures
        r@ == sinks@,
{
    let mut r: Vec<ResponseSink> = Vec::new();
    let mut i: usize = 0;
    while i < sinks.len()
        invariant
            i <= sinks@.len(),
            r@ == sinks@.take(i as int),
        decreases sinks@.len() - i,
    {
        r.push(sinks[i]);
        i = i + 1;
        assert(r@ =~= sinks@.take(i as int));
    }
    assert(r@ =~= sinks@);
    r
}

/// Copies a list of entry indices.
pub fn copy_indices(v: &Vec<EntryIndex>) -> (r: Vec<EntryIndex>)
    ensures
        r@ == v@,
{
    let mut r: Vec<EntryIndex> = Vec::new();
    let mut i: usize = 0;
    while i < v.len()
        invariant
            i <= v@.len(),
            r@ == v@.take(i as int),
        decreases v@.len() - i,
    {
        r.push(v[i]);
        i = i + 1;
        assert(r@ =~= v@.take(i as int));
    }
    assert(r@ =~= v@);
    r
}

} // verus!
