use vstd::prelude::*;
use vstd::utf8::{decode_utf8, encode_utf8, valid_utf8};

use crate::conversion::{ConversionError, DecodeFailure};
use crate::state_machine::{EntryKind, JournalEntry, OutboxContent, OutboxMessage, ServiceInvocation, TerminationFlavor};
use crate::journal::{
    AwakeableTarget, CallEnrichment, CompletionModel, CompletionResult, EnrichedEntryHeader, StoredJournalEntry,
    completion_model, is_call_kind,
};
use crate::invocation_status::{InvocationStatus, StatusModel, StoredInvocation, StoredInvocationModel, is_pre_flight, opt_text};
use crate::timer::Timer;
use crate::types::{
    EntryResult, EntryResultModel, InvocationId, InvocationTarget, MAX_SERVICE_PROTOCOL_VERSION, PinnedDeployment,
    ResponseSink, ServiceId, ServiceKey, TargetModel, Source, SpanContext, Header, headers_model, opt_bytes, copy_opt_bytes, VirtualObjectHandlerType, WorkflowHandlerType, copy_indices,
    is_supported_protocol, pinned_model,
};
use crate::utf8_text::{text_from_utf8, text_to_utf8};
use crate::uuid_bytes::{be_bytes, be_value, lemma_uuid_bytes_round_trip, uuid_from_bytes, uuid_to_bytes};

verus! {

/// On-disk form of an invocation id.
pub struct InvocationIdRecord {
    pub partition_key: u64,
    pub invocation_uuid: Vec<u8>,
}

/// On-disk form of a result: a value, or a failure with its code and UTF-8 message.
pub enum EntryResultValue {
    Value(Vec<u8>),
    Failure { error_code: u32, message: Vec<u8> },
}

/// On-disk form of an entry result; the field may be absent.
pub struct EntryResultRecord {
    pub result: Option<EntryResultValue>,
}

/// On-disk form of an invocation target: name, handler and key as UTF-8 bytes (the key empty for
/// a plain service), its kind given by a discriminant.
pub struct InvocationTargetRecord {
    pub name: Vec<u8>,
    pub handler: Vec<u8>,
    pub key: Vec<u8>,
    pub service_and_handler_ty: i32,
}

/// On-disk form of a response sink.
pub enum ResponseSinkValue {
    PartitionProcessor { caller: Option<InvocationIdRecord>, entry_index: u32 },
    Ingress { request_id: u64 },
}

/// On-disk form of a response sink; the field may be absent.
pub struct ResponseSinkRecord {
    pub response_sink: Option<ResponseSinkValue>,
}

/// The flat on-disk form of a stored invocation, its status given by a discriminant.
pub struct InvocationStatusV2 {
    pub status: i32,
    pub invocation_target: Option<InvocationTargetRecord>,
    pub response_sinks: Vec<ResponseSinkRecord>,
    pub creation_time: u64,
    pub modification_time: u64,
    pub execution_time: Option<u64>,
    pub completion_retention_duration: Option<u64>,
    pub idempotency_key: Option<String>,
    pub inbox_sequence_number: Option<u64>,
    pub journal_length: u32,
    pub waiting_for_completed_entries: Vec<u32>,
    pub result: Option<EntryResultRecord>,
    pub deployment_id: Option<String>,
    pub service_protocol_version: Option<i32>,
    pub source: Option<SourceValue>,
    pub span_context: Option<SpanContextRecord>,
    pub headers: Vec<HeaderRecord>,
    pub argument: Option<Vec<u8>>,
    pub inboxed_transition_time: Option<u64>,
    pub scheduled_transition_time: Option<u64>,
    pub running_transition_time: Option<u64>,
    pub completed_transition_time: Option<u64>,
}

pub const STATUS_SCHEDULED: i32 = 1;
pub const STATUS_INBOXED: i32 = 2;
pub const STATUS_INVOKED: i32 = 3;
pub const STATUS_SUSPENDED: i32 = 4;
pub const STATUS_COMPLETED: i32 = 5;

pub const TARGET_SERVICE: i32 = 1;
pub const TARGET_VIRTUAL_OBJECT_EXCLUSIVE: i32 = 2;
pub const TARGET_VIRTUAL_OBJECT_SHARED: i32 = 3;
pub const TARGET_WORKFLOW_WORKFLOW: i32 = 4;
pub const TARGET_WORKFLOW_SHARED: i32 = 5;

/// Whether `r` is the outcome that `spec` describes: the same value, or an error of the same kind.
pub open spec fn outcome_is<T>(r: Result<T, ConversionError>, spec: Result<T, DecodeFailure>) -> bool {
    match (r, spec) {
        (Ok(v), Ok(w)) => v == w,
        (Err(e), Err(f)) => e.failure() == f,
        _ => false,
    }
}

// ---- invocation ids

/// What an invocation id record decodes to.
pub open spec fn decode_invocation_id(rec: InvocationIdRecord) -> Result<InvocationId, DecodeFailure> {
    if rec.invocation_uuid@.len() == 16 {
        Ok(InvocationId { partition_key: rec.partition_key, invocation_uuid: be_value(rec.invocation_uuid@) })
    } else {
        Err(DecodeFailure::InvalidData)
    }
}

/// Reads a 128-bit invocation uuid from its 16 big-endian bytes.
pub fn try_bytes_into_invocation_uuid(bytes: &Vec<u8>) -> (r: Result<u128, ConversionError>)
    ensures
        r.is_ok() == (bytes@.len() == 16),
        r matches Ok(u) ==> u == be_value(bytes@),
        r matches Err(e) ==> e.failure() == DecodeFailure::InvalidData,
{
    if bytes.len() != 16 {
        return Err(ConversionError::invalid_data("invocation uuid must be 16 bytes"));
    }
    Ok(uuid_from_bytes(bytes))
}

pub fn invocation_id_to_record(id: InvocationId) -> (r: InvocationIdRecord)
    ensures
        r.partition_key == id.partition_key,
        r.invocation_uuid@ == be_bytes(id.invocation_uuid),
{
    InvocationIdRecord { partition_key: id.partition_key, invocation_uuid: uuid_to_bytes(id.invocation_uuid) }
}

pub fn invocation_id_from_record(rec: &InvocationIdRecord) -> (r: Result<InvocationId, ConversionError>)
    ensures
        outcome_is(r, decode_invocation_id(*rec)),
{
    let uuid = try_bytes_into_invocation_uuid(&rec.invocation_uuid)?;
    Ok(InvocationId { partition_key: rec.partition_key, invocation_uuid: uuid })
}

// ---- entry results

/// What an entry result record decodes to.
pub open spec fn decode_entry_result(rec: EntryResultRecord) -> Result<EntryResultModel, DecodeFailure> {
    match rec.result {
        None => Err(DecodeFailure::MissingField("result"@)),
        Some(EntryResultValue::Value(b)) => Ok(EntryResultModel::Success(b@)),
        Some(EntryResultValue::Failure { error_code, message }) => if error_code > u16::MAX || !valid_utf8(
            message@,
        ) {
            Err(DecodeFailure::InvalidData)
        } else {
            Ok(EntryResultModel::Failure(error_code as u16, decode_utf8(message@)))
        },
    }
}

/// Whether `rec` is the on-disk form of `r`.
pub open spec fn encodes_entry_result(r: EntryResult, rec: EntryResultRecord) -> bool {
    match r {
        EntryResult::Success(b) => rec.result matches Some(EntryResultValue::Value(v)) && v@ == b@,
        EntryResult::Failure(code, message) => rec.result matches Some(
            EntryResultValue::Failure { error_code, message: m },
        ) && error_code == code as u32 && m@ == vstd::utf8::encode_utf8(message@),
    }
}

pub fn entry_result_to_record(r: &EntryResult) -> (rec: EntryResultRecord)
    ensures
        encodes_entry_result(*r, rec),
{
    match r {
        EntryResult::Success(b) => EntryResultRecord { result: Some(EntryResultValue::Value(b.clone())) },
        EntryResult::Failure(code, message) => EntryResultRecord {
            result: Some(EntryResultValue::Failure { error_code: *code as u32, message: text_to_utf8(message) }),
        },
    }
}

pub fn entry_result_from_record(rec: &EntryResultRecord) -> (r: Result<EntryResult, ConversionError>)
    ensures
        match (r, decode_entry_result(*rec)) {
            (Ok(v), Ok(m)) => v.model() == m,
            (Err(e), Err(f)) => e.failure() == f,
            _ => false,
        },
{
    match &rec.result {
        None => Err(ConversionError::missing_field("result")),
        Some(EntryResultValue::Value(b)) => Ok(EntryResult::Success(b.clone())),
        Some(EntryResultValue::Failure { error_code, message }) => {
            if *error_code > 0xffff {
                return Err(ConversionError::invalid_data("error code out of range"));
            }
            match text_from_utf8(message.clone()) {
                Some(text) => Ok(EntryResult::Failure(*error_code as u16, text)),
                None => Err(ConversionError::invalid_data("failure message is not valid UTF-8")),
            }
        },
    }
}

/// An entry result survives a trip to its on-disk form and back.
pub proof fn lemma_entry_result_round_trip(r: EntryResult, rec: EntryResultRecord)
    requires
        encodes_entry_result(r, rec),
    ensures
        decode_entry_result(rec) == Ok::<EntryResultModel, DecodeFailure>(r.model()),
{
    if let EntryResult::Failure(code, message) = r {
        vstd::utf8::encode_utf8_valid_utf8(message@);
        vstd::utf8::encode_utf8_decode_utf8(message@);
    }
}

/// An invocation id survives a trip to its on-disk form and back.
pub proof fn lemma_invocation_id_round_trip(id: InvocationId, rec: InvocationIdRecord)
    requires
        rec.partition_key == id.partition_key,
        rec.invocation_uuid@ == be_bytes(id.invocation_uuid),
    ensures
        decode_invocation_id(rec) == Ok::<InvocationId, DecodeFailure>(id),
{
    lemma_uuid_bytes_round_trip(id.invocation_uuid);
}

// ---- invocation targets

/// What an invocation target record decodes to: name and handler must be UTF-8, then the kind
/// must be known, then a keyed kind's key must be UTF-8.
pub open spec fn decode_target(rec: InvocationTargetRecord) -> Result<TargetModel, DecodeFailure> {
    let t = rec.service_and_handler_ty;
    if !valid_utf8(rec.name@) || !valid_utf8(rec.handler@) {
        Err(DecodeFailure::InvalidData)
    } else if t == TARGET_SERVICE {
        Ok(TargetModel::Service { name: decode_utf8(rec.name@), handler: decode_utf8(rec.handler@) })
    } else if TARGET_VIRTUAL_OBJECT_EXCLUSIVE <= t <= TARGET_WORKFLOW_SHARED {
        if !valid_utf8(rec.key@) {
            Err(DecodeFailure::InvalidData)
        } else {
            let name = decode_utf8(rec.name@);
            let handler = decode_utf8(rec.handler@);
            let key = decode_utf8(rec.key@);
            Ok(
                if t == TARGET_VIRTUAL_OBJECT_EXCLUSIVE {
                    TargetModel::VirtualObject { name, key, handler, handler_type: VirtualObjectHandlerType::Exclusive }
                } else if t == TARGET_VIRTUAL_OBJECT_SHARED {
                    TargetModel::VirtualObject { name, key, handler, handler_type: VirtualObjectHandlerType::Shared }
                } else if t == TARGET_WORKFLOW_WORKFLOW {
                    TargetModel::Workflow { name, key, handler, handler_type: WorkflowHandlerType::Workflow }
                } else {
                    TargetModel::Workflow { name, key, handler, handler_type: WorkflowHandlerType::Shared }
                },
            )
        }
    } else {
        Err(DecodeFailure::UnexpectedEnumVariant("ty"@, t))
    }
}

/// Whether `rec` is the on-disk form of `t`.
pub open spec fn encodes_target(t: InvocationTarget, rec: InvocationTargetRecord) -> bool {
    match t {
        InvocationTarget::Service { name, handler } => rec.name@ == encode_utf8(name@) && rec.handler@ == encode_utf8(
            handler@,
        ) && rec.key@.len() == 0 && rec.service_and_handler_ty == TARGET_SERVICE,
        InvocationTarget::VirtualObject { name, key, handler, handler_type } => rec.name@ == encode_utf8(name@)
            && rec.handler@ == encode_utf8(handler@) && rec.key@ == encode_utf8(key@) && rec.service_and_handler_ty
            == if handler_type == VirtualObjectHandlerType::Exclusive {
            TARGET_VIRTUAL_OBJECT_EXCLUSIVE
        } else {
            TARGET_VIRTUAL_OBJECT_SHARED
        },
        InvocationTarget::Workflow { name, key, handler, handler_type } => rec.name@ == encode_utf8(name@)
            && rec.handler@ == encode_utf8(handler@) && rec.key@ == encode_utf8(key@) && rec.service_and_handler_ty
            == if handler_type == WorkflowHandlerType::Workflow {
            TARGET_WORKFLOW_WORKFLOW
        } else {
            TARGET_WORKFLOW_SHARED
        },
    }
}

pub fn target_to_record(t: &InvocationTarget) -> (rec: InvocationTargetRecord)
    ensures
        encodes_target(*t, rec),
{
    match t {
        InvocationTarget::Service { name, handler } => InvocationTargetRecord {
            name: text_to_utf8(name),
            handler: text_to_utf8(handler),
            key: Vec::new(),
            service_and_handler_ty: TARGET_SERVICE,
        },
        InvocationTarget::VirtualObject { name, key, handler, handler_type } => InvocationTargetRecord {
            name: text_to_utf8(name),
            handler: text_to_utf8(handler),
            key: text_to_utf8(key),
            service_and_handler_ty: match handler_type {
                VirtualObjectHandlerType::Exclusive => TARGET_VIRTUAL_OBJECT_EXCLUSIVE,
                VirtualObjectHandlerType::Shared => TARGET_VIRTUAL_OBJECT_SHARED,
            },
        },
        InvocationTarget::Workflow { name, key, handler, handler_type } => InvocationTargetRecord {
            name: text_to_utf8(name),
            handler: text_to_utf8(handler),
            key: text_to_utf8(key),
            service_and_handler_ty: match handler_type {
                WorkflowHandlerType::Workflow => TARGET_WORKFLOW_WORKFLOW,
                WorkflowHandlerType::Shared => TARGET_WORKFLOW_SHARED,
            },
        },
    }
}

pub fn target_from_record(rec: &InvocationTargetRecord) -> (r: Result<InvocationTarget, ConversionError>)
    ensures
        match (r, decode_target(*rec)) {
            (Ok(v), Ok(w)) => v.model() == w,
            (Err(e), Err(f)) => e.failure() == f,
            _ => false,
        },
{
    let name = match text_from_utf8(rec.name.clone()) {
        Some(n) => n,
        None => {
            return Err(ConversionError::invalid_data("target name is not valid UTF-8"));
        },
    };
    let handler = match text_from_utf8(rec.handler.clone()) {
        Some(h) => h,
        None => {
            return Err(ConversionError::invalid_data("target handler is not valid UTF-8"));
        },
    };
    let t = rec.service_and_handler_ty;
    if t == TARGET_SERVICE {
        return Ok(InvocationTarget::Service { name, handler });
    }
    if t < TARGET_VIRTUAL_OBJECT_EXCLUSIVE || t > TARGET_WORKFLOW_SHARED {
        return Err(ConversionError::unexpected_enum_variant("ty", t));
    }
    let key = match text_from_utf8(rec.key.clone()) {
        Some(k) => k,
        None => {
            return Err(ConversionError::invalid_data("target key is not valid UTF-8"));
        },
    };
    if t == TARGET_VIRTUAL_OBJECT_EXCLUSIVE {
        Ok(InvocationTarget::VirtualObject { name, key, handler, handler_type: VirtualObjectHandlerType::Exclusive })
    } else if t == TARGET_VIRTUAL_OBJECT_SHARED {
        Ok(InvocationTarget::VirtualObject { name, key, handler, handler_type: VirtualObjectHandlerType::Shared })
    } else if t == TARGET_WORKFLOW_WORKFLOW {
        Ok(InvocationTarget::Workflow { name, key, handler, handler_type: WorkflowHandlerType::Workflow })
    } else {
        Ok(InvocationTarget::Workflow { name, key, handler, handler_type: WorkflowHandlerType::Shared })
    }
}

/// An invocation target survives a trip to its on-disk form and back.
pub proof fn lemma_target_round_trip(t: InvocationTarget, rec: InvocationTargetRecord)
    requires
        encodes_target(t, rec),
    ensures
        decode_target(rec) == Ok::<TargetModel, DecodeFailure>(t.model()),
{
    match t {
        InvocationTarget::Service { name, handler } => {
            vstd::utf8::encode_utf8_valid_utf8(name@);
            vstd::utf8::encode_utf8_decode_utf8(name@);
            vstd::utf8::encode_utf8_valid_utf8(handler@);
            vstd::utf8::encode_utf8_decode_utf8(handler@);
        },
        InvocationTarget::VirtualObject { name, key, handler, .. } => {
            vstd::utf8::encode_utf8_valid_utf8(name@);
            vstd::utf8::encode_utf8_decode_utf8(name@);
            vstd::utf8::encode_utf8_valid_utf8(handler@);
            vstd::utf8::encode_utf8_decode_utf8(handler@);
            vstd::utf8::encode_utf8_valid_utf8(key@);
            vstd::utf8::encode_utf8_decode_utf8(key@);
        },
        InvocationTarget::Workflow { name, key, handler, .. } => {
            vstd::utf8::encode_utf8_valid_utf8(name@);
            vstd::utf8::encode_utf8_decode_utf8(name@);
            vstd::utf8::encode_utf8_valid_utf8(handler@);
            vstd::utf8::encode_utf8_decode_utf8(handler@);
            vstd::utf8::encode_utf8_valid_utf8(key@);
            vstd::utf8::encode_utf8_decode_utf8(key@);
        },
    }
}

// ---- response sinks

/// What a response sink record decodes to.
pub open spec fn decode_sink(rec: ResponseSinkRecord) -> Result<ResponseSink, DecodeFailure> {
    match rec.response_sink {
        None => Err(DecodeFailure::MissingField("response_sink"@)),
        Some(ResponseSinkValue::Ingress { request_id }) => Ok(ResponseSink::Ingress { request_id }),
        Some(ResponseSinkValue::PartitionProcessor { caller, entry_index }) => match caller {
            None => Err(DecodeFailure::MissingField("caller"@)),
            Some(c) => match decode_invocation_id(c) {
                Ok(id) => Ok(ResponseSink::PartitionProcessor { caller: id, entry_index }),
                Err(f) => Err(f),
            },
        },
    }
}

/// What a list of response sink records decodes to: the first failure, in order, if any.
pub open spec fn decode_sinks(recs: Seq<ResponseSinkRecord>) -> Result<Seq<ResponseSink>, DecodeFailure>
    decreases recs.len(),
{
    if recs.len() == 0 {
        Ok(Seq::empty())
    } else {
        match decode_sinks(recs.drop_last()) {
            Err(f) => Err(f),
            Ok(prefix) => match decode_sink(recs.last()) {
                Err(f) => Err(f),
                Ok(s) => Ok(prefix.push(s)),
            },
        }
    }
}

/// Whether `rec` is the on-disk form of `s`.
pub open spec fn encodes_sink(s: ResponseSink, rec: ResponseSinkRecord) -> bool {
    match s {
        ResponseSink::Ingress { request_id } => rec.response_sink == Some(ResponseSinkValue::Ingress { request_id }),
        ResponseSink::PartitionProcessor { caller, entry_index } => rec.response_sink matches Some(
            ResponseSinkValue::PartitionProcessor { caller: Some(c), entry_index: e },
        ) && e == entry_index && c.partition_key == caller.partition_key && c.invocation_uuid@ == be_bytes(
            caller.invocation_uuid,
        ),
    }
}

pub fn sink_to_record(s: ResponseSink) -> (rec: ResponseSinkRecord)
    ensures
        encodes_sink(s, rec),
{
    match s {
        ResponseSink::Ingress { request_id } => ResponseSinkRecord {
            response_sink: Some(ResponseSinkValue::Ingress { request_id }),
        },
        ResponseSink::PartitionProcessor { caller, entry_index } => ResponseSinkRecord {
            response_sink: Some(
                ResponseSinkValue::PartitionProcessor { caller: Some(invocation_id_to_record(caller)), entry_index },
            ),
        },
    }
}

pub fn sink_from_record(rec: &ResponseSinkRecord) -> (r: Result<ResponseSink, ConversionError>)
    ensures
        outcome_is(r, decode_sink(*rec)),
{
    match &rec.response_sink {
        None => Err(ConversionError::missing_field("response_sink")),
        Some(ResponseSinkValue::Ingress { request_id }) => Ok(ResponseSink::Ingress { request_id: *request_id }),
        Some(ResponseSinkValue::PartitionProcessor { caller, entry_index }) => match caller {
            None => Err(ConversionError::missing_field("caller")),
            Some(c) => {
                let id = invocation_id_from_record(c)?;
                Ok(ResponseSink::PartitionProcessor { caller: id, entry_index: *entry_index })
            },
        },
    }
}

proof fn lemma_decode_sinks_failure_extends(recs: Seq<ResponseSinkRecord>, i: int)
    requires
        0 <= i <= recs.len(),
        decode_sinks(recs.take(i)) is Err,
    ensures
        decode_sinks(recs) == decode_sinks(recs.take(i)),
    decreases recs.len() - i,
{
    if i < recs.len() {
        assert(recs.take(i + 1).drop_last() =~= recs.take(i));
        lemma_decode_sinks_failure_extends(recs, i + 1);
    } else {
        assert(recs.take(i) =~= recs);
    }
}

pub fn sinks_to_records(sinks: &Vec<ResponseSink>) -> (recs: Vec<ResponseSinkRecord>)
    ensures
        recs@.len() == sinks@.len(),
        forall|i: int| 0 <= i < sinks@.len() ==> encodes_sink(sinks@[i], #[trigger] recs@[i]),
{
    let mut recs: Vec<ResponseSinkRecord> = Vec::new();
    let mut i: usize = 0;
    while i < sinks.len()
        invariant
            i <= sinks@.len(),
            recs@.len() == i,
            forall|j: int| 0 <= j < i ==> encodes_sink(sinks@[j], #[trigger] recs@[j]),
        decreases sinks@.len() - i,
    {
        recs.push(sink_to_record(sinks[i]));
        i = i + 1;
    }
    recs
}

pub fn sinks_from_records(recs: &Vec<ResponseSinkRecord>) -> (r: Result<Vec<ResponseSink>, ConversionError>)
    ensures
        match (r, decode_sinks(recs@)) {
            (Ok(v), Ok(w)) => v@ == w,
            (Err(e), Err(f)) => e.failure() == f,
            _ => false,
        },
{
    let mut out: Vec<ResponseSink> = Vec::new();
    let mut i: usize = 0;
    while i < recs.len()
        invariant
            i <= recs@.len(),
            decode_sinks(recs@.take(i as int)) == Ok::<Seq<ResponseSink>, DecodeFailure>(out@),
        decreases recs@.len() - i,
    {
        assert(recs@.take(i as int + 1).drop_last() =~= recs@.take(i as int));
        match sink_from_record(&recs[i]) {
            Ok(s) => {
                out.push(s);
            },
            Err(e) => {
                proof {
                    lemma_decode_sinks_failure_extends(recs@, i as int + 1);
                }
                return Err(e);
            },
        }
        i = i + 1;
    }
    assert(recs@.take(recs@.len() as int) =~= recs@);
    Ok(out)
}

proof fn lemma_sinks_round_trip(sinks: Seq<ResponseSink>, recs: Seq<ResponseSinkRecord>)
    requires
        recs.len() == sinks.len(),
        forall|i: int| 0 <= i < sinks.len() ==> encodes_sink(sinks[i], #[trigger] recs[i]),
    ensures
        decode_sinks(recs) == Ok::<Seq<ResponseSink>, DecodeFailure>(sinks),
    decreases recs.len(),
{
    if recs.len() > 0 {
        let n = recs.len() - 1;
        assert forall|i: int| 0 <= i < sinks.drop_last().len() implies encodes_sink(
            sinks.drop_last()[i],
            #[trigger] recs.drop_last()[i],
        ) by {
            assert(encodes_sink(sinks[i], recs[i]));
        }
        lemma_sinks_round_trip(sinks.drop_last(), recs.drop_last());
        assert(encodes_sink(sinks[n], recs[n]));
        if let ResponseSink::PartitionProcessor { caller, entry_index } = sinks[n] {
            lemma_uuid_bytes_round_trip(caller.invocation_uuid);
        }
        assert(decode_sink(recs.last()) == Ok::<ResponseSink, DecodeFailure>(sinks.last()));
        assert(sinks.drop_last().push(sinks.last()) =~= sinks);
    } else {
        assert(sinks =~= Seq::<ResponseSink>::empty());
    }
}

// ---- invocation status

/// What the status fields of a record decode to.
pub open spec fn decode_status_kind(rec: InvocationStatusV2) -> Result<StatusModel, DecodeFailure> {
    if rec.status == STATUS_SCHEDULED {
        Ok(StatusModel::Scheduled)
    } else if rec.status == STATUS_INBOXED {
        match rec.inbox_sequence_number {
            None => Err(DecodeFailure::MissingField("inbox_sequence_number"@)),
            Some(n) => Ok(StatusModel::Inboxed(n)),
        }
    } else if rec.status == STATUS_INVOKED {
        Ok(StatusModel::Invoked)
    } else if rec.status == STATUS_SUSPENDED {
        Ok(StatusModel::Suspended(rec.waiting_for_completed_entries@))
    } else if rec.status == STATUS_COMPLETED {
        match rec.result {
            None => Err(DecodeFailure::MissingField("result"@)),
            Some(r) => match decode_entry_result(r) {
                Err(f) => Err(f),
                Ok(m) => Ok(StatusModel::Completed(m)),
            },
        }
    } else {
        Err(DecodeFailure::UnexpectedEnumVariant("status"@, rec.status))
    }
}

/// What the deployment fields of a record decode to: no pinned deployment without an id; with
/// an id, the protocol version must be present and supported.
pub open spec fn decode_pinned(
    deployment_id: Option<String>,
    service_protocol_version: Option<i32>,
) -> Result<Option<(Seq<char>, i32)>, DecodeFailure> {
    match deployment_id {
        None => Ok(None),
        Some(d) => match service_protocol_version {
            None => Err(DecodeFailure::InvalidData),
            Some(v) => if is_supported_protocol(v) {
                Ok(Some((d@, v)))
            } else {
                Err(DecodeFailure::UnexpectedEnumVariant("service_protocol_version"@, v))
            },
        },
    }
}

/// The pinned deployment that the deployment fields of a record name, if any.
pub fn derive_pinned_deployment(
    deployment_id: &Option<String>,
    service_protocol_version: Option<i32>,
) -> (r: Result<Option<PinnedDeployment>, ConversionError>)
    ensures
        match (r, decode_pinned(*deployment_id, service_protocol_version)) {
            (Ok(p), Ok(q)) => pinned_model(p) == q,
            (Err(e), Err(f)) => e.failure() == f,
            _ => false,
        },
{
    match deployment_id {
        None => Ok(None),
        Some(d) => match service_protocol_version {
            None => Err(ConversionError::invalid_data("service_protocol_version has not been set")),
            Some(v) => if 1 <= v && v <= MAX_SERVICE_PROTOCOL_VERSION {
                Ok(Some(PinnedDeployment { deployment_id: d.clone(), service_protocol_version: v }))
            } else {
                Err(ConversionError::unexpected_enum_variant("service_protocol_version", v))
            },
        },
    }
}

// ---- sources, span contexts and headers

/// On-disk form of an invocation's source.
pub enum SourceValue {
    Ingress { request_id: u64 },
    Subscription { subscription_id: u64 },
    Service { caller: Option<InvocationIdRecord> },
    Internal,
}

/// What a source field decodes to.
pub open spec fn decode_source(v: Option<SourceValue>) -> Result<Source, DecodeFailure> {
    match v {
        None => Err(DecodeFailure::MissingField("source"@)),
        Some(SourceValue::Ingress { request_id }) => Ok(Source::Ingress { request_id }),
        Some(SourceValue::Subscription { subscription_id }) => Ok(Source::Subscription { subscription_id }),
        Some(SourceValue::Service { caller }) => match caller {
            None => Err(DecodeFailure::MissingField("caller"@)),
            Some(c) => match decode_invocation_id(c) {
                Err(f) => Err(f),
                Ok(id) => Ok(Source::Service { caller: id }),
            },
        },
        Some(SourceValue::Internal) => Ok(Source::Internal),
    }
}

/// Whether `v` is the on-disk form of `s`.
pub open spec fn encodes_source(s: Source, v: Option<SourceValue>) -> bool {
    match s {
        Source::Ingress { request_id } => v == Some(SourceValue::Ingress { request_id }),
        Source::Subscription { subscription_id } => v == Some(SourceValue::Subscription { subscription_id }),
        Source::Service { caller } => v matches Some(SourceValue::Service { caller: Some(c) }) && encodes_id(caller, c),
        Source::Internal => v == Some(SourceValue::Internal),
    }
}

pub fn source_to_record(s: Source) -> (r: Option<SourceValue>)
    ensures
        encodes_source(s, r),
{
    Some(
        match s {
            Source::Ingress { request_id } => SourceValue::Ingress { request_id },
            Source::Subscription { subscription_id } => SourceValue::Subscription { subscription_id },
            Source::Service { caller } => SourceValue::Service { caller: Some(invocation_id_to_record(caller)) },
            Source::Internal => SourceValue::Internal,
        },
    )
}

pub fn source_from_record(v: &Option<SourceValue>) -> (r: Result<Source, ConversionError>)
    ensures
        outcome_is(r, decode_source(*v)),
{
    match v {
        None => Err(ConversionError::missing_field("source")),
        Some(SourceValue::Ingress { request_id }) => Ok(Source::Ingress { request_id: *request_id }),
        Some(SourceValue::Subscription { subscription_id }) => Ok(Source::Subscription { subscription_id: *subscription_id }),
        Some(SourceValue::Service { caller }) => match caller {
            None => Err(ConversionError::missing_field("caller")),
            Some(c) => {
                let id = invocation_id_from_record(c)?;
                Ok(Source::Service { caller: id })
            },
        },
        Some(SourceValue::Internal) => Ok(Source::Internal),
    }
}

/// On-disk form of a span context: the trace id as 16 big-endian bytes.
pub struct SpanContextRecord {
    pub trace_id: Vec<u8>,
    pub span_id: u64,
    pub trace_flags: u32,
    pub is_remote: bool,
}

/// What a span context field decodes to.
pub open spec fn decode_span(v: Option<SpanContextRecord>) -> Result<SpanContext, DecodeFailure> {
    match v {
        None => Err(DecodeFailure::MissingField("span_context"@)),
        Some(r) => if r.trace_id@.len() != 16 || r.trace_flags > 0xff {
            Err(DecodeFailure::InvalidData)
        } else {
            Ok(
                SpanContext {
                    trace_id: be_value(r.trace_id@),
                    span_id: r.span_id,
                    trace_flags: r.trace_flags as u8,
                    is_remote: r.is_remote,
                },
            )
        },
    }
}

/// Whether `v` is the on-disk form of `c`.
pub open spec fn encodes_span(c: SpanContext, v: Option<SpanContextRecord>) -> bool {
    v matches Some(r) && r.trace_id@ == be_bytes(c.trace_id) && r.span_id == c.span_id && r.trace_flags
        == c.trace_flags as u32 && r.is_remote == c.is_remote
}

pub fn span_to_record(c: SpanContext) -> (r: Option<SpanContextRecord>)
    ensures
        encodes_span(c, r),
{
    Some(
        SpanContextRecord {
            trace_id: uuid_to_bytes(c.trace_id),
            span_id: c.span_id,
            trace_flags: c.trace_flags as u32,
            is_remote: c.is_remote,
        },
    )
}

/// Reads a 128-bit trace id from its 16 big-endian bytes.
pub fn try_bytes_into_trace_id(bytes: &Vec<u8>) -> (r: Result<u128, ConversionError>)
    ensures
        r.is_ok() == (bytes@.len() == 16),
        r matches Ok(u) ==> u == be_value(bytes@),
        r matches Err(e) ==> e.failure() == DecodeFailure::InvalidData,
{
    if bytes.len() != 16 {
        return Err(ConversionError::invalid_data("trace id must be 16 bytes"));
    }
    Ok(uuid_from_bytes(bytes))
}

pub fn span_from_record(v: &Option<SpanContextRecord>) -> (r: Result<SpanContext, ConversionError>)
    ensures
        outcome_is(r, decode_span(*v)),
{
    match v {
        None => Err(ConversionError::missing_field("span_context")),
        Some(rec) => {
            let trace_id = try_bytes_into_trace_id(&rec.trace_id)?;
            if rec.trace_flags > 0xff {
                return Err(ConversionError::invalid_data("trace flags out of range"));
            }
            Ok(
                SpanContext {
                    trace_id,
                    span_id: rec.span_id,
                    trace_flags: rec.trace_flags as u8,
                    is_remote: rec.is_remote,
                },
            )
        },
    }
}

/// On-disk form of a header.
pub struct HeaderRecord {
    pub name: String,
    pub value: String,
}

/// The text of each header record, in order.
pub open spec fn header_records_model(h: Seq<HeaderRecord>) -> Seq<(Seq<char>, Seq<char>)> {
    h.map_values(|x: HeaderRecord| (x.name@, x.value@))
}

pub fn headers_to_records(h: &Vec<Header>) -> (r: Vec<HeaderRecord>)
    ensures
        header_records_model(r@) == headers_model(h@),
{
    let mut r: Vec<HeaderRecord> = Vec::new();
    let mut i: usize = 0;
    while i < h.len()
        invariant
            i <= h@.len(),
            header_records_model(r@) == headers_model(h@.take(i as int)),
        decreases h@.len() - i,
    {
        let ghost before = r@;
        r.push(HeaderRecord { name: h[i].name.clone(), value: h[i].value.clone() });
        i = i + 1;
        assert(header_records_model(r@) =~= header_records_model(before).push((h@[i - 1].name@, h@[i - 1].value@)));
        assert(headers_model(h@.take(i as int)) =~= headers_model(h@.take(i - 1)).push((h@[i - 1].name@, h@[i - 1].value@)));
    }
    assert(h@.take(h@.len() as int) =~= h@);
    r
}

pub fn headers_from_records(h: &Vec<HeaderRecord>) -> (r: Vec<Header>)
    ensures
        headers_model(r@) == header_records_model(h@),
{
    let mut r: Vec<Header> = Vec::new();
    let mut i: usize = 0;
    while i < h.len()
        invariant
            i <= h@.len(),
            headers_model(r@) == header_records_model(h@.take(i as int)),
        decreases h@.len() - i,
    {
        let ghost before = r@;
        r.push(Header { name: h[i].name.clone(), value: h[i].value.clone() });
        i = i + 1;
        assert(headers_model(r@) =~= headers_model(before).push((h@[i - 1].name@, h@[i - 1].value@)));
        assert(header_records_model(h@.take(i as int)) =~= header_records_model(h@.take(i - 1)).push(
            (h@[i - 1].name@, h@[i - 1].value@),
        ));
    }
    assert(h@.take(h@.len() as int) =~= h@);
    r
}

/// What the argument field decodes to: required while the invocation has not started, and
/// not read otherwise.
pub open spec fn decode_argument(argument: Option<Vec<u8>>, status: StatusModel) -> Result<Option<Seq<u8>>, DecodeFailure> {
    if status is Scheduled || status is Inboxed {
        match argument {
            None => Err(DecodeFailure::MissingField("argument"@)),
            Some(a) => Ok(Some(a@)),
        }
    } else {
        Ok(None)
    }
}

/// What a flat invocation status record decodes to. The target is checked first, then the
/// source, the response sinks, the fields that the status needs, the span context, the argument
/// and the deployment fields. An absent retention duration reads as zero.
pub open spec fn decode_status(rec: InvocationStatusV2) -> Result<StoredInvocationModel, DecodeFailure> {
    match rec.invocation_target {
        None => Err(DecodeFailure::MissingField("invocation_target"@)),
        Some(t) => match decode_target(t) {
            Err(f) => Err(f),
            Ok(target) => match decode_source(rec.source) {
            Err(f) => Err(f),
            Ok(source) => match decode_sinks(rec.response_sinks@) {
                Err(f) => Err(f),
                Ok(sinks) => match decode_status_kind(rec) {
                    Err(f) => Err(f),
                    Ok(status) => match decode_span(rec.span_context) {
                    Err(f) => Err(f),
                    Ok(span_context) => match decode_argument(rec.argument, status) {
                    Err(f) => Err(f),
                    Ok(argument) => match decode_pinned(rec.deployment_id, rec.service_protocol_version) {
                    Err(f) => Err(f),
                    Ok(pinned) => Ok(
                        StoredInvocationModel {
                            status,
                            invocation_target: target,
                            response_sinks: sinks,
                            journal_length: rec.journal_length,
                            idempotency_key: opt_text(rec.idempotency_key),
                            creation_time: rec.creation_time,
                            modification_time: rec.modification_time,
                            execution_time: rec.execution_time,
                            completion_retention_duration: match rec.completion_retention_duration {
                                Some(d) => d,
                                None => 0,
                            },
                            pinned_deployment: pinned,
                            argument,
                            source,
                            span_context,
                            headers: header_records_model(rec.headers@),
                            inboxed_transition_time: rec.inboxed_transition_time,
                            scheduled_transition_time: rec.scheduled_transition_time,
                            running_transition_time: rec.running_transition_time,
                            completed_transition_time: rec.completed_transition_time,
                        },
                    ),
                    },
                    },
                    },
                },
            },
            },
        },
    }
}

/// Whether `rec` is the flat on-disk form of `s`: each field in its place, the argument present
/// exactly while the invocation has not started, and the fields that the status does not use
/// left empty.
pub open spec fn encodes_status(s: StoredInvocation, rec: InvocationStatusV2) -> bool {
    &&& (rec.invocation_target matches Some(t) && encodes_target(s.invocation_target, t))
    &&& encodes_source(s.source, rec.source)
    &&& encodes_span(s.span_context, rec.span_context)
    &&& header_records_model(rec.headers@) == headers_model(s.headers@)
    &&& if is_pre_flight(s.status) {
        rec.argument matches Some(a) && s.argument matches Some(b) && a@ == b@
    } else {
        rec.argument is None
    }
    &&& rec.response_sinks@.len() == s.response_sinks@.len()
    &&& forall|i: int|
        0 <= i < s.response_sinks@.len() ==> encodes_sink(s.response_sinks@[i], #[trigger] rec.response_sinks@[i])
    &&& rec.creation_time == s.creation_time
    &&& rec.modification_time == s.modification_time
    &&& rec.inboxed_transition_time == s.inboxed_transition_time
    &&& rec.scheduled_transition_time == s.scheduled_transition_time
    &&& rec.running_transition_time == s.running_transition_time
    &&& rec.completed_transition_time == s.completed_transition_time
    &&& rec.execution_time == s.execution_time
    &&& rec.completion_retention_duration == Some(s.completion_retention_duration)
    &&& rec.idempotency_key == s.idempotency_key
    &&& rec.journal_length == s.journal_length
    &&& match s.pinned_deployment {
        None => rec.deployment_id is None,
        Some(d) => rec.deployment_id == Some(d.deployment_id) && rec.service_protocol_version == Some(
            d.service_protocol_version,
        ),
    }
    &&& match s.status {
        InvocationStatus::Scheduled => rec.status == STATUS_SCHEDULED && rec.inbox_sequence_number is None
            && rec.waiting_for_completed_entries@.len() == 0 && rec.result is None,
        InvocationStatus::Inboxed { inbox_sequence_number } => rec.status == STATUS_INBOXED
            && rec.inbox_sequence_number == Some(inbox_sequence_number)
            && rec.waiting_for_completed_entries@.len() == 0 && rec.result is None,
        InvocationStatus::Invoked => rec.status == STATUS_INVOKED && rec.inbox_sequence_number is None
            && rec.waiting_for_completed_entries@.len() == 0 && rec.result is None,
        InvocationStatus::Suspended { waiting_for_completed_entries } => rec.status == STATUS_SUSPENDED
            && rec.inbox_sequence_number is None && rec.waiting_for_completed_entries@
            == waiting_for_completed_entries@ && rec.result is None,
        InvocationStatus::Completed { response_result } => rec.status == STATUS_COMPLETED
            && rec.inbox_sequence_number is None && rec.waiting_for_completed_entries@.len() == 0
            && (rec.result matches Some(r) && encodes_entry_result(response_result, r)),
    }
}

/// The flat on-disk form of a stored invocation. The argument is written only while the
/// invocation has not started. Only a record that keeps its argument exactly while it has not
/// started, and whose pinned deployment speaks a supported protocol, is written: any other
/// could not be read back.
pub fn status_to_record(s: &StoredInvocation) -> (rec: InvocationStatusV2)
    requires
        s.argument_matches_status(),
        s.pinned_deployment matches Some(d) ==> is_supported_protocol(d.service_protocol_version),
    ensures
        encodes_status(*s, rec),
{
    let (status, inbox_sequence_number, waiting_for_completed_entries, result) = match &s.status {
        InvocationStatus::Scheduled => (STATUS_SCHEDULED, None, Vec::new(), None),
        InvocationStatus::Inboxed { inbox_sequence_number } => (
            STATUS_INBOXED,
            Some(*inbox_sequence_number),
            Vec::new(),
            None,
        ),
        InvocationStatus::Invoked => (STATUS_INVOKED, None, Vec::new(), None),
        InvocationStatus::Suspended { waiting_for_completed_entries } => (
            STATUS_SUSPENDED,
            None,
            copy_indices(waiting_for_completed_entries),
            None,
        ),
        InvocationStatus::Completed { response_result } => (
            STATUS_COMPLETED,
            None,
            Vec::new(),
            Some(entry_result_to_record(response_result)),
        ),
    };
    InvocationStatusV2 {
        status,
        invocation_target: Some(target_to_record(&s.invocation_target)),
        response_sinks: sinks_to_records(&s.response_sinks),
        creation_time: s.creation_time,
        modification_time: s.modification_time,
        execution_time: s.execution_time,
        completion_retention_duration: Some(s.completion_retention_duration),
        idempotency_key: match &s.idempotency_key {
            Some(k) => Some(k.clone()),
            None => None,
        },
        inbox_sequence_number,
        journal_length: s.journal_length,
        waiting_for_completed_entries,
        result,
        deployment_id: match &s.pinned_deployment {
            Some(d) => Some(d.deployment_id.clone()),
            None => None,
        },
        service_protocol_version: match &s.pinned_deployment {
            Some(d) => Some(d.service_protocol_version),
            None => None,
        },
        source: source_to_record(s.source),
        span_context: span_to_record(s.span_context),
        headers: headers_to_records(&s.headers),
        argument: copy_opt_bytes(&s.argument),
        inboxed_transition_time: s.inboxed_transition_time,
        scheduled_transition_time: s.scheduled_transition_time,
        running_transition_time: s.running_transition_time,
        completed_transition_time: s.completed_transition_time,
    }
}

/// The stored invocation that a flat on-disk record holds.
pub fn status_from_record(rec: &InvocationStatusV2) -> (r: Result<StoredInvocation, ConversionError>)
    ensures
        match (r, decode_status(*rec)) {
            (Ok(v), Ok(m)) => v.model() == m,
            (Err(e), Err(f)) => e.failure() == f,
            _ => false,
        },
{
    let invocation_target = match &rec.invocation_target {
        Some(t) => target_from_record(t)?,
        None => {
            return Err(ConversionError::missing_field("invocation_target"));
        },
    };
    let source = source_from_record(&rec.source)?;
    let response_sinks = sinks_from_records(&rec.response_sinks)?;
    let status = if rec.status == STATUS_SCHEDULED {
        InvocationStatus::Scheduled
    } else if rec.status == STATUS_INBOXED {
        match rec.inbox_sequence_number {
            Some(n) => InvocationStatus::Inboxed { inbox_sequence_number: n },
            None => {
                return Err(ConversionError::missing_field("inbox_sequence_number"));
            },
        }
    } else if rec.status == STATUS_INVOKED {
        InvocationStatus::Invoked
    } else if rec.status == STATUS_SUSPENDED {
        InvocationStatus::Suspended {
            waiting_for_completed_entries: copy_indices(&rec.waiting_for_completed_entries),
        }
    } else if rec.status == STATUS_COMPLETED {
        match &rec.result {
            Some(r) => InvocationStatus::Completed { response_result: entry_result_from_record(r)? },
            None => {
                return Err(ConversionError::missing_field("result"));
            },
        }
    } else {
        return Err(ConversionError::unexpected_enum_variant("status", rec.status));
    };
    let span_context = span_from_record(&rec.span_context)?;
    let pre_flight = rec.status == STATUS_SCHEDULED || rec.status == STATUS_INBOXED;
    let argument = if pre_flight {
        match &rec.argument {
            Some(a) => Some(a.clone()),
            None => {
                return Err(ConversionError::missing_field("argument"));
            },
        }
    } else {
        None
    };
    let pinned_deployment = derive_pinned_deployment(&rec.deployment_id, rec.service_protocol_version)?;
    Ok(
        StoredInvocation {
            status,
            invocation_target,
            response_sinks,
            journal_length: rec.journal_length,
            idempotency_key: match &rec.idempotency_key {
                Some(k) => Some(k.clone()),
                None => None,
            },
            creation_time: rec.creation_time,
            modification_time: rec.modification_time,
            execution_time: rec.execution_time,
            completion_retention_duration: match rec.completion_retention_duration {
                Some(d) => d,
                None => 0,
            },
            pinned_deployment,
            argument,
            source,
            span_context,
            headers: headers_from_records(&rec.headers),
            inboxed_transition_time: rec.inboxed_transition_time,
            scheduled_transition_time: rec.scheduled_transition_time,
            running_transition_time: rec.running_transition_time,
            completed_transition_time: rec.completed_transition_time,
        },
    )
}

/// A stored invocation survives a trip to its flat on-disk form and back, given that it keeps
/// its argument exactly while it has not started and that its pinned deployment, if any, speaks
/// a supported protocol version.
pub proof fn lemma_status_round_trip(s: StoredInvocation, rec: InvocationStatusV2)
    requires
        encodes_status(s, rec),
        s.argument_matches_status(),
        s.pinned_deployment matches Some(d) ==> is_supported_protocol(d.service_protocol_version),
    ensures
        decode_status(rec) == Ok::<StoredInvocationModel, DecodeFailure>(s.model()),
{
    lemma_sinks_round_trip(s.response_sinks@, rec.response_sinks@);
    lemma_target_round_trip(s.invocation_target, rec.invocation_target.unwrap());
    lemma_uuid_bytes_round_trip(s.span_context.trace_id);
    if let Source::Service { caller } = s.source {
        lemma_uuid_bytes_round_trip(caller.invocation_uuid);
    }
    assert(decode_source(rec.source) == Ok::<Source, DecodeFailure>(s.source));
    if let InvocationStatus::Completed { response_result } = s.status {
        lemma_entry_result_round_trip(response_result, rec.result.unwrap());
    }
    assert(decode_status_kind(rec) == Ok::<StatusModel, DecodeFailure>(s.status.model()));
    assert(decode_argument(rec.argument, s.status.model()) == Ok::<Option<Seq<u8>>, DecodeFailure>(opt_bytes(s.argument)));
}

// ---- journal entries

/// The tag of a custom entry kind; its code travels beside it.
pub const ENTRY_KIND_CUSTOM: i32 = 21;

/// On-disk form of a journal entry: its kind as a tag, the custom code for custom entries,
/// and whether it is completed.
pub struct JournalEntryRecord {
    pub kind: i32,
    pub custom_code: Option<u32>,
    pub is_completed: bool,
}

/// The tag of each entry kind.
pub open spec fn entry_kind_tag(k: EntryKind) -> i32 {
    match k {
        EntryKind::Input => 1,
        EntryKind::Output => 2,
        EntryKind::GetState => 3,
        EntryKind::SetState => 4,
        EntryKind::ClearState => 5,
        EntryKind::ClearAllState => 6,
        EntryKind::GetStateKeys => 7,
        EntryKind::GetPromise => 8,
        EntryKind::PeekPromise => 9,
        EntryKind::CompletePromise => 10,
        EntryKind::Sleep => 11,
        EntryKind::Call => 12,
        EntryKind::OneWayCall => 13,
        EntryKind::Awakeable => 14,
        EntryKind::CompleteAwakeable => 15,
        EntryKind::Run => 16,
        EntryKind::CancelInvocation => 17,
        EntryKind::GetCallInvocationId => 18,
        EntryKind::AttachInvocation => 19,
        EntryKind::GetInvocationOutput => 20,
        EntryKind::Custom(_) => ENTRY_KIND_CUSTOM,
    }
}

/// The entry kind that a tag other than the custom one names, if any.
pub open spec fn entry_kind_of_tag(tag: i32) -> Option<EntryKind> {
    if tag == 1 {
        Some(EntryKind::Input)
    } else if tag == 2 {
        Some(EntryKind::Output)
    } else if tag == 3 {
        Some(EntryKind::GetState)
    } else if tag == 4 {
        Some(EntryKind::SetState)
    } else if tag == 5 {
        Some(EntryKind::ClearState)
    } else if tag == 6 {
        Some(EntryKind::ClearAllState)
    } else if tag == 7 {
        Some(EntryKind::GetStateKeys)
    } else if tag == 8 {
        Some(EntryKind::GetPromise)
    } else if tag == 9 {
        Some(EntryKind::PeekPromise)
    } else if tag == 10 {
        Some(EntryKind::CompletePromise)
    } else if tag == 11 {
        Some(EntryKind::Sleep)
    } else if tag == 12 {
        Some(EntryKind::Call)
    } else if tag == 13 {
        Some(EntryKind::OneWayCall)
    } else if tag == 14 {
        Some(EntryKind::Awakeable)
    } else if tag == 15 {
        Some(EntryKind::CompleteAwakeable)
    } else if tag == 16 {
        Some(EntryKind::Run)
    } else if tag == 17 {
        Some(EntryKind::CancelInvocation)
    } else if tag == 18 {
        Some(EntryKind::GetCallInvocationId)
    } else if tag == 19 {
        Some(EntryKind::AttachInvocation)
    } else if tag == 20 {
        Some(EntryKind::GetInvocationOutput)
    } else {
        None
    }
}

/// What a journal entry record decodes to.
pub open spec fn decode_journal_entry(rec: JournalEntryRecord) -> Result<JournalEntry, DecodeFailure> {
    if rec.kind == ENTRY_KIND_CUSTOM {
        match rec.custom_code {
            None => Err(DecodeFailure::MissingField("custom_code"@)),
            Some(c) => if c > u16::MAX {
                Err(DecodeFailure::InvalidData)
            } else {
                Ok(JournalEntry { kind: EntryKind::Custom(c as u16), is_completed: rec.is_completed })
            },
        }
    } else {
        match entry_kind_of_tag(rec.kind) {
            None => Err(DecodeFailure::UnexpectedEnumVariant("kind"@, rec.kind)),
            Some(k) => Ok(JournalEntry { kind: k, is_completed: rec.is_completed }),
        }
    }
}

/// The on-disk form of a journal entry.
pub open spec fn encode_journal_entry(e: JournalEntry) -> JournalEntryRecord {
    JournalEntryRecord {
        kind: entry_kind_tag(e.kind),
        custom_code: match e.kind {
            EntryKind::Custom(c) => Some(c as u32),
            _ => None,
        },
        is_completed: e.is_completed,
    }
}

fn kind_tag(k: EntryKind) -> (r: i32)
    ensures
        r == entry_kind_tag(k),
{
    match k {
        EntryKind::Input => 1,
        EntryKind::Output => 2,
        EntryKind::GetState => 3,
        EntryKind::SetState => 4,
        EntryKind::ClearState => 5,
        EntryKind::ClearAllState => 6,
        EntryKind::GetStateKeys => 7,
        EntryKind::GetPromise => 8,
        EntryKind::PeekPromise => 9,
        EntryKind::CompletePromise => 10,
        EntryKind::Sleep => 11,
        EntryKind::Call => 12,
        EntryKind::OneWayCall => 13,
        EntryKind::Awakeable => 14,
        EntryKind::CompleteAwakeable => 15,
        EntryKind::Run => 16,
        EntryKind::CancelInvocation => 17,
        EntryKind::GetCallInvocationId => 18,
        EntryKind::AttachInvocation => 19,
        EntryKind::GetInvocationOutput => 20,
        EntryKind::Custom(_) => ENTRY_KIND_CUSTOM,
    }
}

fn kind_of_tag(tag: i32) -> (r: Option<EntryKind>)
    ensures
        r == entry_kind_of_tag(tag),
{
    if tag == 1 {
        Some(EntryKind::Input)
    } else if tag == 2 {
        Some(EntryKind::Output)
    } else if tag == 3 {
        Some(EntryKind::GetState)
    } else if tag == 4 {
        Some(EntryKind::SetState)
    } else if tag == 5 {
        Some(EntryKind::ClearState)
    } else if tag == 6 {
        Some(EntryKind::ClearAllState)
    } else if tag == 7 {
        Some(EntryKind::GetStateKeys)
    } else if tag == 8 {
        Some(EntryKind::GetPromise)
    } else if tag == 9 {
        Some(EntryKind::PeekPromise)
    } else if tag == 10 {
        Some(EntryKind::CompletePromise)
    } else if tag == 11 {
        Some(EntryKind::Sleep)
    } else if tag == 12 {
        Some(EntryKind::Call)
    } else if tag == 13 {
        Some(EntryKind::OneWayCall)
    } else if tag == 14 {
        Some(EntryKind::Awakeable)
    } else if tag == 15 {
        Some(EntryKind::CompleteAwakeable)
    } else if tag == 16 {
        Some(EntryKind::Run)
    } else if tag == 17 {
        Some(EntryKind::CancelInvocation)
    } else if tag == 18 {
        Some(EntryKind::GetCallInvocationId)
    } else if tag == 19 {
        Some(EntryKind::AttachInvocation)
    } else if tag == 20 {
        Some(EntryKind::GetInvocationOutput)
    } else {
        None
    }
}

pub fn journal_entry_to_record(e: JournalEntry) -> (r: JournalEntryRecord)
    ensures
        r == encode_journal_entry(e),
{
    JournalEntryRecord {
        kind: kind_tag(e.kind),
        custom_code: match e.kind {
            EntryKind::Custom(c) => Some(c as u32),
            _ => None,
        },
        is_completed: e.is_completed,
    }
}

pub fn journal_entry_from_record(rec: &JournalEntryRecord) -> (r: Result<JournalEntry, ConversionError>)
    ensures
        outcome_is(r, decode_journal_entry(*rec)),
{
    if rec.kind == ENTRY_KIND_CUSTOM {
        match rec.custom_code {
            None => Err(ConversionError::missing_field("custom_code")),
            Some(c) => if c > 0xffff {
                Err(ConversionError::invalid_data("custom entry code out of range"))
            } else {
                Ok(JournalEntry { kind: EntryKind::Custom(c as u16), is_completed: rec.is_completed })
            },
        }
    } else {
        match kind_of_tag(rec.kind) {
            None => Err(ConversionError::unexpected_enum_variant("kind", rec.kind)),
            Some(k) => Ok(JournalEntry { kind: k, is_completed: rec.is_completed }),
        }
    }
}

/// A journal entry survives a trip to its on-disk form and back.
pub proof fn lemma_journal_entry_round_trip(e: JournalEntry)
    ensures
        decode_journal_entry(encode_journal_entry(e)) == Ok::<JournalEntry, DecodeFailure>(e),
{
}

// ---- stored journal entries

/// On-disk form of a call resolution; each field may be absent.
pub struct CallEnrichmentRecord {
    pub invocation_id: Option<InvocationIdRecord>,
    pub invocation_target: Option<InvocationTargetRecord>,
    pub completion_retention_time: Option<u64>,
}

/// On-disk form of an awakeable target.
pub struct AwakeableTargetRecord {
    pub invocation_id: Option<InvocationIdRecord>,
    pub entry_index: u32,
}

/// On-disk form of an enriched entry header.
pub struct EnrichedEntryHeaderRecord {
    pub header: JournalEntryRecord,
    pub call: Option<CallEnrichmentRecord>,
    pub awakeable_target: Option<AwakeableTargetRecord>,
}

/// What an enriched entry header is, over mathematical values.
pub struct EnrichedHeaderModel {
    pub header: JournalEntry,
    pub call: Option<(InvocationId, TargetModel, u64)>,
    pub awakeable_target: Option<AwakeableTarget>,
}

pub open spec fn header_model(h: EnrichedEntryHeader) -> EnrichedHeaderModel {
    EnrichedHeaderModel {
        header: h.header,
        call: match h.call {
            Some(c) => Some((c.invocation_id, c.invocation_target.model(), c.completion_retention_time)),
            None => None,
        },
        awakeable_target: h.awakeable_target,
    }
}

/// What a call resolution record decodes to; an absent retention reads as zero.
pub open spec fn decode_call(v: Option<CallEnrichmentRecord>) -> Result<(InvocationId, TargetModel, u64), DecodeFailure> {
    match v {
        None => Err(DecodeFailure::MissingField("resolution_result"@)),
        Some(c) => match decode_id_field(c.invocation_id, "invocation_id"@) {
            Err(f) => Err(f),
            Ok(id) => match c.invocation_target {
                None => Err(DecodeFailure::MissingField("invocation_target"@)),
                Some(t) => match decode_target(t) {
                    Err(f) => Err(f),
                    Ok(target) => Ok(
                        (
                            id,
                            target,
                            match c.completion_retention_time {
                                Some(d) => d,
                                None => 0,
                            },
                        ),
                    ),
                },
            },
        },
    }
}

/// What an awakeable target record decodes to.
pub open spec fn decode_awakeable(v: Option<AwakeableTargetRecord>) -> Result<AwakeableTarget, DecodeFailure> {
    match v {
        None => Err(DecodeFailure::MissingField("awakeable_target"@)),
        Some(a) => match decode_id_field(a.invocation_id, "invocation_id"@) {
            Err(f) => Err(f),
            Ok(id) => Ok(AwakeableTarget { invocation_id: id, entry_index: a.entry_index }),
        },
    }
}

/// What an enriched header record decodes to: the kind first, then the resolution of a call,
/// then the target of a `CompleteAwakeable`; the other kinds read neither.
pub open spec fn decode_header(rec: EnrichedEntryHeaderRecord) -> Result<EnrichedHeaderModel, DecodeFailure> {
    match decode_journal_entry(rec.header) {
        Err(f) => Err(f),
        Ok(h) => {
            let call: Result<Option<(InvocationId, TargetModel, u64)>, DecodeFailure> = if is_call_kind(h.kind) {
                match decode_call(rec.call) {
                    Err(f) => Err(f),
                    Ok(c) => Ok(Some(c)),
                }
            } else {
                Ok(None)
            };
            match call {
                Err(f) => Err(f),
                Ok(call) => {
                    let awakeable: Result<Option<AwakeableTarget>, DecodeFailure> = if h.kind
                        == EntryKind::CompleteAwakeable {
                        match decode_awakeable(rec.awakeable_target) {
                            Err(f) => Err(f),
                            Ok(a) => Ok(Some(a)),
                        }
                    } else {
                        Ok(None)
                    };
                    match awakeable {
                        Err(f) => Err(f),
                        Ok(awakeable_target) => Ok(EnrichedHeaderModel { header: h, call, awakeable_target }),
                    }
                },
            }
        },
    }
}

/// Whether `rec` is the on-disk form of `h`.
pub open spec fn encodes_header(h: EnrichedEntryHeader, rec: EnrichedEntryHeaderRecord) -> bool {
    &&& rec.header == encode_journal_entry(h.header)
    &&& match h.call {
        None => rec.call is None,
        Some(c) => rec.call matches Some(cr) && (cr.invocation_id matches Some(ir) && encodes_id(c.invocation_id, ir))
            && (cr.invocation_target matches Some(tr) && encodes_target(c.invocation_target, tr))
            && cr.completion_retention_time == Some(c.completion_retention_time),
    }
    &&& match h.awakeable_target {
        None => rec.awakeable_target is None,
        Some(a) => rec.awakeable_target matches Some(ar) && (ar.invocation_id matches Some(ir) && encodes_id(
            a.invocation_id,
            ir,
        )) && ar.entry_index == a.entry_index,
    }
}

pub fn header_to_record(h: &EnrichedEntryHeader) -> (r: EnrichedEntryHeaderRecord)
    ensures
        encodes_header(*h, r),
{
    EnrichedEntryHeaderRecord {
        header: journal_entry_to_record(h.header),
        call: match &h.call {
            None => None,
            Some(c) => Some(
                CallEnrichmentRecord {
                    invocation_id: Some(invocation_id_to_record(c.invocation_id)),
                    invocation_target: Some(target_to_record(&c.invocation_target)),
                    completion_retention_time: Some(c.completion_retention_time),
                },
            ),
        },
        awakeable_target: match h.awakeable_target {
            None => None,
            Some(a) => Some(
                AwakeableTargetRecord {
                    invocation_id: Some(invocation_id_to_record(a.invocation_id)),
                    entry_index: a.entry_index,
                },
            ),
        },
    }
}

pub fn header_from_record(rec: &EnrichedEntryHeaderRecord) -> (r: Result<EnrichedEntryHeader, ConversionError>)
    ensures
        match (r, decode_header(*rec)) {
            (Ok(v), Ok(m)) => header_model(v) == m,
            (Err(e), Err(f)) => e.failure() == f,
            _ => false,
        },
{
    let header = journal_entry_from_record(&rec.header)?;
    let is_call = match header.kind {
        EntryKind::Call => true,
        EntryKind::OneWayCall => true,
        _ => false,
    };
    let call = if is_call {
        match &rec.call {
            None => {
                return Err(ConversionError::missing_field("resolution_result"));
            },
            Some(c) => {
                let invocation_id = id_field_from_record(&c.invocation_id, "invocation_id")?;
                let invocation_target = match &c.invocation_target {
                    None => {
                        return Err(ConversionError::missing_field("invocation_target"));
                    },
                    Some(t) => target_from_record(t)?,
                };
                let completion_retention_time = match c.completion_retention_time {
                    Some(d) => d,
                    None => 0,
                };
                Some(CallEnrichment { invocation_id, invocation_target, completion_retention_time })
            },
        }
    } else {
        None
    };
    let awakeable_target = match header.kind {
        EntryKind::CompleteAwakeable => match &rec.awakeable_target {
            None => {
                return Err(ConversionError::missing_field("awakeable_target"));
            },
            Some(a) => {
                let invocation_id = id_field_from_record(&a.invocation_id, "invocation_id")?;
                Some(AwakeableTarget { invocation_id, entry_index: a.entry_index })
            },
        },
        _ => None,
    };
    Ok(EnrichedEntryHeader { header, call, awakeable_target })
}

/// On-disk form of a completion result; the value may be absent.
pub enum CompletionValue {
    Empty,
    Success(Vec<u8>),
    Failure { error_code: u32, message: Vec<u8> },
}

/// What a completion result field decodes to.
pub open spec fn decode_completion(v: Option<CompletionValue>) -> Result<CompletionModel, DecodeFailure> {
    match v {
        None => Err(DecodeFailure::MissingField("result"@)),
        Some(CompletionValue::Empty) => Ok(CompletionModel::Empty),
        Some(CompletionValue::Success(b)) => Ok(CompletionModel::Success(b@)),
        Some(CompletionValue::Failure { error_code, message }) => if error_code > u16::MAX || !valid_utf8(message@) {
            Err(DecodeFailure::InvalidData)
        } else {
            Ok(CompletionModel::Failure(error_code as u16, decode_utf8(message@)))
        },
    }
}

/// On-disk form of a stored journal entry; the kind may be absent.
pub enum JournalEntryValue {
    Entry { header: Option<EnrichedEntryHeaderRecord>, raw_entry: Vec<u8> },
    Completion { entry_index: u32, result: Option<CompletionValue> },
}

pub struct StoredJournalEntryRecord {
    pub kind: Option<JournalEntryValue>,
}

/// What a stored journal entry is, over mathematical values.
pub enum StoredJournalEntryModel {
    Entry { header: EnrichedHeaderModel, raw_entry: Seq<u8> },
    Completion { entry_index: u32, result: CompletionModel },
}

pub open spec fn stored_entry_model(e: StoredJournalEntry) -> StoredJournalEntryModel {
    match e {
        StoredJournalEntry::Entry { header, raw_entry } => StoredJournalEntryModel::Entry {
            header: header_model(header),
            raw_entry: raw_entry@,
        },
        StoredJournalEntry::Completion { entry_index, result } => StoredJournalEntryModel::Completion {
            entry_index,
            result: completion_model(result),
        },
    }
}

/// What a stored journal entry record decodes to.
pub open spec fn decode_stored_entry(rec: StoredJournalEntryRecord) -> Result<StoredJournalEntryModel, DecodeFailure> {
    match rec.kind {
        None => Err(DecodeFailure::MissingField("kind"@)),
        Some(JournalEntryValue::Entry { header, raw_entry }) => match header {
            None => Err(DecodeFailure::MissingField("header"@)),
            Some(h) => match decode_header(h) {
                Err(f) => Err(f),
                Ok(m) => Ok(StoredJournalEntryModel::Entry { header: m, raw_entry: raw_entry@ }),
            },
        },
        Some(JournalEntryValue::Completion { entry_index, result }) => match decode_completion(result) {
            Err(f) => Err(f),
            Ok(c) => Ok(StoredJournalEntryModel::Completion { entry_index, result: c }),
        },
    }
}

/// Whether `rec` is the on-disk form of `e`.
pub open spec fn encodes_stored_entry(e: StoredJournalEntry, rec: StoredJournalEntryRecord) -> bool {
    match e {
        StoredJournalEntry::Entry { header, raw_entry } => rec.kind matches Some(
            JournalEntryValue::Entry { header: Some(hr), raw_entry: r },
        ) && encodes_header(header, hr) && r@ == raw_entry@,
        StoredJournalEntry::Completion { entry_index, result } => rec.kind matches Some(
            JournalEntryValue::Completion { entry_index: i, result: Some(v) },
        ) && i == entry_index && match result {
            CompletionResult::Empty => v is Empty,
            CompletionResult::Success(b) => v matches CompletionValue::Success(x) && x@ == b@,
            CompletionResult::Failure(code, m) => v matches CompletionValue::Failure { error_code, message }
                && error_code == code as u32 && message@ == encode_utf8(m@),
        },
    }
}

pub fn stored_entry_to_record(e: &StoredJournalEntry) -> (r: StoredJournalEntryRecord)
    ensures
        encodes_stored_entry(*e, r),
{
    let kind = match e {
        StoredJournalEntry::Entry { header, raw_entry } => JournalEntryValue::Entry {
            header: Some(header_to_record(header)),
            raw_entry: raw_entry.clone(),
        },
        StoredJournalEntry::Completion { entry_index, result } => JournalEntryValue::Completion {
            entry_index: *entry_index,
            result: Some(
                match result {
                    CompletionResult::Empty => CompletionValue::Empty,
                    CompletionResult::Success(b) => CompletionValue::Success(b.clone()),
                    CompletionResult::Failure(code, m) => CompletionValue::Failure {
                        error_code: *code as u32,
                        message: text_to_utf8(m),
                    },
                },
            ),
        },
    };
    StoredJournalEntryRecord { kind: Some(kind) }
}

pub fn stored_entry_from_record(rec: &StoredJournalEntryRecord) -> (r: Result<StoredJournalEntry, ConversionError>)
    ensures
        match (r, decode_stored_entry(*rec)) {
            (Ok(v), Ok(m)) => stored_entry_model(v) == m,
            (Err(e), Err(f)) => e.failure() == f,
            _ => false,
        },
{
    match &rec.kind {
        None => Err(ConversionError::missing_field("kind")),
        Some(JournalEntryValue::Entry { header, raw_entry }) => match header {
            None => Err(ConversionError::missing_field("header")),
            Some(h) => {
                let header = header_from_record(h)?;
                Ok(StoredJournalEntry::Entry { header, raw_entry: raw_entry.clone() })
            },
        },
        Some(JournalEntryValue::Completion { entry_index, result }) => {
            let result = match result {
                None => {
                    return Err(ConversionError::missing_field("result"));
                },
                Some(CompletionValue::Empty) => CompletionResult::Empty,
                Some(CompletionValue::Success(b)) => CompletionResult::Success(b.clone()),
                Some(CompletionValue::Failure { error_code, message }) => {
                    if *error_code > 0xffff {
                        return Err(ConversionError::invalid_data("error code out of range"));
                    }
                    match text_from_utf8(message.clone()) {
                        Some(m) => CompletionResult::Failure(*error_code as u16, m),
                        None => {
                            return Err(ConversionError::invalid_data("failure message is not valid UTF-8"));
                        },
                    }
                },
            };
            Ok(StoredJournalEntry::Completion { entry_index: *entry_index, result })
        },
    }
}

/// A stored journal entry with a well-formed header survives a trip to its on-disk form and back.
pub proof fn lemma_stored_entry_round_trip(e: StoredJournalEntry, rec: StoredJournalEntryRecord)
    requires
        encodes_stored_entry(e, rec),
        e matches StoredJournalEntry::Entry { header, .. } ==> header.well_formed(),
    ensures
        decode_stored_entry(rec) == Ok::<StoredJournalEntryModel, DecodeFailure>(stored_entry_model(e)),
{
    match e {
        StoredJournalEntry::Entry { header, raw_entry } => {
            if let Some(JournalEntryValue::Entry { header: Some(hr), .. }) = rec.kind {
                lemma_journal_entry_round_trip(header.header);
                if let Some(c) = header.call {
                    lemma_uuid_bytes_round_trip(c.invocation_id.invocation_uuid);
                    lemma_target_round_trip(c.invocation_target, hr.call.unwrap().invocation_target.unwrap());
                }
                if let Some(a) = header.awakeable_target {
                    lemma_uuid_bytes_round_trip(a.invocation_id.invocation_uuid);
                }
                assert(decode_header(hr) == Ok::<EnrichedHeaderModel, DecodeFailure>(header_model(header)));
            }
        },
        StoredJournalEntry::Completion { result, .. } => {
            if let CompletionResult::Failure(code, m) = result {
                vstd::utf8::encode_utf8_valid_utf8(m@);
                vstd::utf8::encode_utf8_decode_utf8(m@);
            }
        },
    }
}

// ---- outbox messages

/// On-disk form of what an outbox message carries; each field may be absent.
pub enum OutboxValue {
    ServiceResponse {
        response_sink: Option<ResponseSinkRecord>,
        invocation_id: Option<InvocationIdRecord>,
        response_result: Option<EntryResultRecord>,
    },
    ServiceInvocation(ServiceInvocationRecord),
    Kill { invocation_id: Option<InvocationIdRecord> },
    Cancel { invocation_id: Option<InvocationIdRecord> },
    AttachInvocation { query: Option<InvocationIdRecord>, block_on_inflight: bool, response_sink: Option<ResponseSinkRecord> },
}

/// On-disk form of an outbox message; the content may be absent.
pub struct OutboxMessageRecord {
    pub sequence_number: u64,
    pub message: Option<OutboxValue>,
}

/// What an outbox message carries, over mathematical values.
pub enum OutboxContentModel {
    ServiceResponse { sink: ResponseSink, invocation_id: InvocationId, result: EntryResultModel },
    ServiceInvocation(ServiceInvocationModel),
    InvocationTermination { invocation_id: InvocationId, flavor: TerminationFlavor },
    AttachInvocation { query: InvocationId, block_on_inflight: bool, response_sink: ResponseSink },
}

/// What an outbox message is, over mathematical values.
pub struct OutboxMessageModel {
    pub sequence_number: u64,
    pub message: OutboxContentModel,
}

pub open spec fn outbox_model(m: OutboxMessage) -> OutboxMessageModel {
    OutboxMessageModel {
        sequence_number: m.sequence_number,
        message: match m.message {
            OutboxContent::ServiceResponse { sink, invocation_id, result } => OutboxContentModel::ServiceResponse {
                sink,
                invocation_id,
                result: result.model(),
            },
            OutboxContent::ServiceInvocation(si) => OutboxContentModel::ServiceInvocation(service_invocation_model(si)),
            OutboxContent::InvocationTermination { invocation_id, flavor } => OutboxContentModel::InvocationTermination {
                invocation_id,
                flavor,
            },
            OutboxContent::AttachInvocation { query, block_on_inflight, response_sink } => OutboxContentModel::AttachInvocation {
                query,
                block_on_inflight,
                response_sink,
            },
        },
    }
}

/// What an optional invocation id field decodes to.
pub open spec fn decode_id_field(v: Option<InvocationIdRecord>, field: Seq<char>) -> Result<InvocationId, DecodeFailure> {
    match v {
        None => Err(DecodeFailure::MissingField(field)),
        Some(ir) => decode_invocation_id(ir),
    }
}

/// What an optional response sink field decodes to.
pub open spec fn decode_sink_field(v: Option<ResponseSinkRecord>) -> Result<ResponseSink, DecodeFailure> {
    match v {
        None => Err(DecodeFailure::MissingField("response_sink"@)),
        Some(sr) => decode_sink(sr),
    }
}

/// What the content of an outbox record decodes to. A response checks its sink, then its
/// invocation id, then its result.
pub open spec fn decode_outbox_content(v: Option<OutboxValue>) -> Result<OutboxContentModel, DecodeFailure> {
    match v {
        None => Err(DecodeFailure::MissingField("outbox_message"@)),
        Some(OutboxValue::ServiceResponse { response_sink, invocation_id, response_result }) => match decode_sink_field(
            response_sink,
        ) {
            Err(f) => Err(f),
            Ok(sink) => match decode_id_field(invocation_id, "invocation_id"@) {
                Err(f) => Err(f),
                Ok(id) => match response_result {
                    None => Err(DecodeFailure::MissingField("response_result"@)),
                    Some(rr) => match decode_entry_result(rr) {
                        Err(f) => Err(f),
                        Ok(result) => Ok(OutboxContentModel::ServiceResponse { sink, invocation_id: id, result }),
                    },
                },
            },
        },
        Some(OutboxValue::ServiceInvocation(si)) => match decode_service_invocation(si) {
            Err(f) => Err(f),
            Ok(m) => Ok(OutboxContentModel::ServiceInvocation(m)),
        },
        Some(OutboxValue::Kill { invocation_id }) => match decode_id_field(invocation_id, "invocation_id"@) {
            Err(f) => Err(f),
            Ok(id) => Ok(OutboxContentModel::InvocationTermination { invocation_id: id, flavor: TerminationFlavor::Kill }),
        },
        Some(OutboxValue::Cancel { invocation_id }) => match decode_id_field(invocation_id, "invocation_id"@) {
            Err(f) => Err(f),
            Ok(id) => Ok(OutboxContentModel::InvocationTermination { invocation_id: id, flavor: TerminationFlavor::Cancel }),
        },
        Some(OutboxValue::AttachInvocation { query, block_on_inflight, response_sink }) => match decode_id_field(
            query,
            "query"@,
        ) {
            Err(f) => Err(f),
            Ok(q) => match decode_sink_field(response_sink) {
                Err(f) => Err(f),
                Ok(sink) => Ok(OutboxContentModel::AttachInvocation { query: q, block_on_inflight, response_sink: sink }),
            },
        },
    }
}

/// What an outbox record decodes to.
pub open spec fn decode_outbox_message(rec: OutboxMessageRecord) -> Result<OutboxMessageModel, DecodeFailure> {
    match decode_outbox_content(rec.message) {
        Err(f) => Err(f),
        Ok(message) => Ok(OutboxMessageModel { sequence_number: rec.sequence_number, message }),
    }
}

/// Whether `v` is the on-disk form of `c`.
pub open spec fn encodes_outbox_content(c: OutboxContent, v: Option<OutboxValue>) -> bool {
    match c {
        OutboxContent::ServiceResponse { sink, invocation_id, result } => v matches Some(
            OutboxValue::ServiceResponse { response_sink: Some(sr), invocation_id: Some(ir), response_result: Some(rr) },
        ) && encodes_sink(sink, sr) && encodes_id(invocation_id, ir) && encodes_entry_result(result, rr),
        OutboxContent::ServiceInvocation(si) => v matches Some(OutboxValue::ServiceInvocation(r))
            && encodes_service_invocation(si, r),
        OutboxContent::InvocationTermination { invocation_id, flavor } => if flavor == TerminationFlavor::Kill {
            v matches Some(OutboxValue::Kill { invocation_id: Some(ir) }) && encodes_id(invocation_id, ir)
        } else {
            v matches Some(OutboxValue::Cancel { invocation_id: Some(ir) }) && encodes_id(invocation_id, ir)
        },
        OutboxContent::AttachInvocation { query, block_on_inflight, response_sink } => v matches Some(
            OutboxValue::AttachInvocation { query: Some(q), block_on_inflight: b, response_sink: Some(sr) },
        ) && encodes_id(query, q) && b == block_on_inflight && encodes_sink(response_sink, sr),
    }
}

/// Whether `rec` is the on-disk form of `m`.
pub open spec fn encodes_outbox_message(m: OutboxMessage, rec: OutboxMessageRecord) -> bool {
    rec.sequence_number == m.sequence_number && encodes_outbox_content(m.message, rec.message)
}

pub fn outbox_message_to_record(m: &OutboxMessage) -> (r: OutboxMessageRecord)
    ensures
        encodes_outbox_message(*m, r),
{
    let message = match &m.message {
        OutboxContent::ServiceResponse { sink, invocation_id, result } => OutboxValue::ServiceResponse {
            response_sink: Some(sink_to_record(*sink)),
            invocation_id: Some(invocation_id_to_record(*invocation_id)),
            response_result: Some(entry_result_to_record(result)),
        },
        OutboxContent::ServiceInvocation(si) => OutboxValue::ServiceInvocation(service_invocation_to_record(si)),
        OutboxContent::InvocationTermination { invocation_id, flavor } => match flavor {
            TerminationFlavor::Kill => OutboxValue::Kill { invocation_id: Some(invocation_id_to_record(*invocation_id)) },
            TerminationFlavor::Cancel => OutboxValue::Cancel { invocation_id: Some(invocation_id_to_record(*invocation_id)) },
        },
        OutboxContent::AttachInvocation { query, block_on_inflight, response_sink } => OutboxValue::AttachInvocation {
            query: Some(invocation_id_to_record(*query)),
            block_on_inflight: *block_on_inflight,
            response_sink: Some(sink_to_record(*response_sink)),
        },
    };
    OutboxMessageRecord { sequence_number: m.sequence_number, message: Some(message) }
}

fn id_field_from_record(v: &Option<InvocationIdRecord>, field: &str) -> (r: Result<InvocationId, ConversionError>)
    ensures
        outcome_is(r, decode_id_field(*v, field@)),
{
    match v {
        None => Err(ConversionError::missing_field(field)),
        Some(ir) => invocation_id_from_record(ir),
    }
}

fn sink_field_from_record(v: &Option<ResponseSinkRecord>) -> (r: Result<ResponseSink, ConversionError>)
    ensures
        outcome_is(r, decode_sink_field(*v)),
{
    match v {
        None => Err(ConversionError::missing_field("response_sink")),
        Some(sr) => sink_from_record(sr),
    }
}

pub fn outbox_message_from_record(rec: &OutboxMessageRecord) -> (r: Result<OutboxMessage, ConversionError>)
    ensures
        match (r, decode_outbox_message(*rec)) {
            (Ok(v), Ok(m)) => outbox_model(v) == m,
            (Err(e), Err(f)) => e.failure() == f,
            _ => false,
        },
{
    let message = match &rec.message {
        None => {
            return Err(ConversionError::missing_field("outbox_message"));
        },
        Some(OutboxValue::ServiceResponse { response_sink, invocation_id, response_result }) => {
            let sink = sink_field_from_record(response_sink)?;
            let id = id_field_from_record(invocation_id, "invocation_id")?;
            let result = match response_result {
                Some(rr) => entry_result_from_record(rr)?,
                None => {
                    return Err(ConversionError::missing_field("response_result"));
                },
            };
            OutboxContent::ServiceResponse { sink, invocation_id: id, result }
        },
        Some(OutboxValue::ServiceInvocation(si)) => OutboxContent::ServiceInvocation(service_invocation_from_record(si)?),
        Some(OutboxValue::Kill { invocation_id }) => {
            let id = id_field_from_record(invocation_id, "invocation_id")?;
            OutboxContent::InvocationTermination { invocation_id: id, flavor: TerminationFlavor::Kill }
        },
        Some(OutboxValue::Cancel { invocation_id }) => {
            let id = id_field_from_record(invocation_id, "invocation_id")?;
            OutboxContent::InvocationTermination { invocation_id: id, flavor: TerminationFlavor::Cancel }
        },
        Some(OutboxValue::AttachInvocation { query, block_on_inflight, response_sink }) => {
            let q = id_field_from_record(query, "query")?;
            let sink = sink_field_from_record(response_sink)?;
            OutboxContent::AttachInvocation { query: q, block_on_inflight: *block_on_inflight, response_sink: sink }
        },
    };
    Ok(OutboxMessage { sequence_number: rec.sequence_number, message })
}

/// An outbox message of any kind survives a trip to its on-disk form and back.
pub proof fn lemma_outbox_message_round_trip(m: OutboxMessage, rec: OutboxMessageRecord)
    requires
        encodes_outbox_message(m, rec),
    ensures
        decode_outbox_message(rec) == Ok::<OutboxMessageModel, DecodeFailure>(outbox_model(m)),
{
    match m.message {
        OutboxContent::ServiceResponse { sink, invocation_id, result } => {
            lemma_uuid_bytes_round_trip(invocation_id.invocation_uuid);
            if let ResponseSink::PartitionProcessor { caller, entry_index } = sink {
                lemma_uuid_bytes_round_trip(caller.invocation_uuid);
            }
            if let Some(OutboxValue::ServiceResponse { response_sink, invocation_id: ir, response_result }) = rec.message {
                lemma_entry_result_round_trip(result, response_result.unwrap());
                assert(decode_sink(response_sink.unwrap()) == Ok::<ResponseSink, DecodeFailure>(sink));
            }
        },
        OutboxContent::ServiceInvocation(si) => {
            if let Some(OutboxValue::ServiceInvocation(r)) = rec.message {
                lemma_service_invocation_round_trip(si, r);
            }
        },
        OutboxContent::InvocationTermination { invocation_id, .. } => {
            lemma_uuid_bytes_round_trip(invocation_id.invocation_uuid);
        },
        OutboxContent::AttachInvocation { query, response_sink, .. } => {
            lemma_uuid_bytes_round_trip(query.invocation_uuid);
            if let ResponseSink::PartitionProcessor { caller, entry_index } = response_sink {
                lemma_uuid_bytes_round_trip(caller.invocation_uuid);
            }
            if let Some(OutboxValue::AttachInvocation { response_sink: sr, .. }) = rec.message {
                assert(decode_sink(sr.unwrap()) == Ok::<ResponseSink, DecodeFailure>(response_sink));
            }
        },
    }
}

// ---- legacy invocation status

/// Legacy on-disk metadata of an inboxed, invoked or suspended invocation.
pub struct InvocationMetadataV1 {
    pub invocation_target: Option<InvocationTargetRecord>,
    pub source: Option<SourceValue>,
    pub span_context: Option<SpanContextRecord>,
    pub headers: Vec<HeaderRecord>,
    /// The argument; only an inboxed invocation reads it.
    pub argument: Vec<u8>,
    pub response_sinks: Vec<ResponseSinkRecord>,
    pub creation_time: u64,
    pub modification_time: u64,
    pub journal_length: u32,
    pub idempotency_key: Option<String>,
    pub completion_retention_duration: Option<u64>,
}

/// Legacy on-disk status: one variant per status, each with its own fields.
pub enum InvocationStatusV1Kind {
    /// An execution time of zero stands for none.
    Inboxed { inbox_sequence_number: u64, execution_time: u64, metadata: InvocationMetadataV1 },
    Invoked { metadata: InvocationMetadataV1 },
    Suspended { metadata: InvocationMetadataV1, waiting_for_completed_entries: Vec<u32> },
    Completed {
        invocation_target: Option<InvocationTargetRecord>,
        source: Option<SourceValue>,
        result: Option<EntryResultRecord>,
        creation_time: u64,
        modification_time: u64,
        idempotency_key: Option<String>,
    },
    Free,
}

/// Legacy on-disk form of an invocation status; the variant may be absent.
pub struct InvocationStatusV1 {
    pub status: Option<InvocationStatusV1Kind>,
}

/// What legacy metadata decodes to, with `status` and `journal_length` given by its variant.
pub open spec fn decode_v1_metadata(
    m: InvocationMetadataV1,
    status: StatusModel,
    journal_length: u32,
    execution_time: Option<u64>,
) -> Result<StoredInvocationModel, DecodeFailure> {
    match m.invocation_target {
        None => Err(DecodeFailure::MissingField("invocation_target"@)),
        Some(t) => match decode_target(t) {
            Err(f) => Err(f),
            Ok(target) => match decode_source(m.source) {
            Err(f) => Err(f),
            Ok(source) => match decode_sinks(m.response_sinks@) {
                Err(f) => Err(f),
                Ok(sinks) => match decode_span(m.span_context) {
                Err(f) => Err(f),
                Ok(span_context) => Ok(
                    StoredInvocationModel {
                        status,
                        invocation_target: target,
                        response_sinks: sinks,
                        journal_length,
                        idempotency_key: opt_text(m.idempotency_key),
                        creation_time: m.creation_time,
                        modification_time: m.modification_time,
                        execution_time,
                        completion_retention_duration: match m.completion_retention_duration {
                            Some(d) => d,
                            None => 0,
                        },
                        pinned_deployment: None,
                        argument: if status is Inboxed { Some(m.argument@) } else { None },
                        source,
                        span_context,
                        headers: header_records_model(m.headers@),
                        inboxed_transition_time: None,
                        scheduled_transition_time: None,
                        running_transition_time: None,
                        completed_transition_time: None,
                    },
                ),
                },
            },
            },
        },
    }
}

/// The span context of a legacy completed invocation, which the legacy layout does not record.
pub open spec fn default_span_context() -> SpanContext {
    SpanContext { trace_id: 0, span_id: 0, trace_flags: 0, is_remote: false }
}

/// What a legacy status record decodes to: `None` for a free invocation. An inboxed
/// invocation has no journal yet, and an execution time of zero means none. A completed one
/// keeps no response sinks and no journal, and is never cleaned: the legacy layout records no
/// retention, so it reads as the largest duration.
pub open spec fn decode_status_v1(rec: InvocationStatusV1) -> Result<Option<StoredInvocationModel>, DecodeFailure> {
    match rec.status {
        None => Err(DecodeFailure::MissingField("status"@)),
        Some(InvocationStatusV1Kind::Free) => Ok(None),
        Some(InvocationStatusV1Kind::Inboxed { inbox_sequence_number, execution_time, metadata }) => match decode_v1_metadata(
            metadata,
            StatusModel::Inboxed(inbox_sequence_number),
            0,
            if execution_time == 0 { None } else { Some(execution_time) },
        ) {
            Err(f) => Err(f),
            Ok(m) => Ok(Some(m)),
        },
        Some(InvocationStatusV1Kind::Invoked { metadata }) => match decode_v1_metadata(
            metadata,
            StatusModel::Invoked,
            metadata.journal_length,
            None,
        ) {
            Err(f) => Err(f),
            Ok(m) => Ok(Some(m)),
        },
        Some(InvocationStatusV1Kind::Suspended { metadata, waiting_for_completed_entries }) => match decode_v1_metadata(
            metadata,
            StatusModel::Suspended(waiting_for_completed_entries@),
            metadata.journal_length,
            None,
        ) {
            Err(f) => Err(f),
            Ok(m) => Ok(Some(m)),
        },
        Some(
            InvocationStatusV1Kind::Completed {
                invocation_target,
                source,
                result,
                creation_time,
                modification_time,
                idempotency_key,
            },
        ) => match invocation_target {
            None => Err(DecodeFailure::MissingField("invocation_target"@)),
            Some(t) => match decode_target(t) {
                Err(f) => Err(f),
                Ok(target) => match decode_source(source) {
                Err(f) => Err(f),
                Ok(source) => match result {
                    None => Err(DecodeFailure::MissingField("result"@)),
                    Some(r) => match decode_entry_result(r) {
                        Err(f) => Err(f),
                        Ok(res) => Ok(
                            Some(
                                StoredInvocationModel {
                                    status: StatusModel::Completed(res),
                                    invocation_target: target,
                                    response_sinks: Seq::empty(),
                                    journal_length: 0,
                                    idempotency_key: opt_text(idempotency_key),
                                    creation_time,
                                    modification_time,
                                    execution_time: None,
                                    completion_retention_duration: u64::MAX,
                                    pinned_deployment: None,
                                    argument: None,
                                    source,
                                    span_context: default_span_context(),
                                    headers: Seq::empty(),
                                    inboxed_transition_time: None,
                                    scheduled_transition_time: None,
                                    running_transition_time: None,
                                    completed_transition_time: None,
                                },
                            ),
                        ),
                    },
                },
                },
            },
        },
    }
}

fn v1_metadata_from_record(
    m: &InvocationMetadataV1,
    status: InvocationStatus,
    journal_length: u32,
    execution_time: Option<u64>,
) -> (r: Result<StoredInvocation, ConversionError>)
    ensures
        match (r, decode_v1_metadata(*m, status.model(), journal_length, execution_time)) {
            (Ok(v), Ok(w)) => v.model() == w,
            (Err(e), Err(f)) => e.failure() == f,
            _ => false,
        },
{
    let invocation_target = match &m.invocation_target {
        Some(t) => target_from_record(t)?,
        None => {
            return Err(ConversionError::missing_field("invocation_target"));
        },
    };
    let source = source_from_record(&m.source)?;
    let response_sinks = sinks_from_records(&m.response_sinks)?;
    let span_context = span_from_record(&m.span_context)?;
    let argument = match status {
        InvocationStatus::Inboxed { .. } => Some(m.argument.clone()),
        _ => None,
    };
    Ok(
        StoredInvocation {
            status,
            invocation_target,
            response_sinks,
            journal_length,
            idempotency_key: match &m.idempotency_key {
                Some(k) => Some(k.clone()),
                None => None,
            },
            creation_time: m.creation_time,
            modification_time: m.modification_time,
            execution_time,
            completion_retention_duration: match m.completion_retention_duration {
                Some(d) => d,
                None => 0,
            },
            pinned_deployment: None,
            argument,
            source,
            span_context,
            headers: headers_from_records(&m.headers),
            inboxed_transition_time: None,
            scheduled_transition_time: None,
            running_transition_time: None,
            completed_transition_time: None,
        },
    )
}

/// The stored invocation that a legacy status record holds; `None` for a free invocation.
pub fn status_from_v1_record(rec: &InvocationStatusV1) -> (r: Result<Option<StoredInvocation>, ConversionError>)
    ensures
        match (r, decode_status_v1(*rec)) {
            (Ok(Some(v)), Ok(Some(w))) => v.model() == w,
            (Ok(None), Ok(None)) => true,
            (Err(e), Err(f)) => e.failure() == f,
            _ => false,
        },
{
    match &rec.status {
        None => Err(ConversionError::missing_field("status")),
        Some(InvocationStatusV1Kind::Free) => Ok(None),
        Some(InvocationStatusV1Kind::Inboxed { inbox_sequence_number, execution_time, metadata }) => {
            let s = v1_metadata_from_record(
                metadata,
                InvocationStatus::Inboxed { inbox_sequence_number: *inbox_sequence_number },
                0,
                if *execution_time == 0 { None } else { Some(*execution_time) },
            )?;
            Ok(Some(s))
        },
        Some(InvocationStatusV1Kind::Invoked { metadata }) => {
            let s = v1_metadata_from_record(metadata, InvocationStatus::Invoked, metadata.journal_length, None)?;
            Ok(Some(s))
        },
        Some(InvocationStatusV1Kind::Suspended { metadata, waiting_for_completed_entries }) => {
            let s = v1_metadata_from_record(
                metadata,
                InvocationStatus::Suspended { waiting_for_completed_entries: copy_indices(waiting_for_completed_entries) },
                metadata.journal_length,
                None,
            )?;
            Ok(Some(s))
        },
        Some(
            InvocationStatusV1Kind::Completed {
                invocation_target,
                source,
                result,
                creation_time,
                modification_time,
                idempotency_key,
            },
        ) => {
            let invocation_target = match invocation_target {
                Some(t) => target_from_record(t)?,
                None => {
                    return Err(ConversionError::missing_field("invocation_target"));
                },
            };
            let source = source_from_record(source)?;
            let response_result = match result {
                Some(r) => entry_result_from_record(r)?,
                None => {
                    return Err(ConversionError::missing_field("result"));
                },
            };
            let s = StoredInvocation {
                status: InvocationStatus::Completed { response_result },
                invocation_target,
                response_sinks: Vec::new(),
                journal_length: 0,
                idempotency_key: match idempotency_key {
                    Some(k) => Some(k.clone()),
                    None => None,
                },
                creation_time: *creation_time,
                modification_time: *modification_time,
                execution_time: None,
                completion_retention_duration: u64::MAX,
                pinned_deployment: None,
                argument: None,
                source,
                span_context: SpanContext { trace_id: 0, span_id: 0, trace_flags: 0, is_remote: false },
                headers: Vec::new(),
                inboxed_transition_time: None,
                scheduled_transition_time: None,
                running_transition_time: None,
                completed_transition_time: None,
            };
            proof {
                assert(s.response_sinks@ =~= Seq::<ResponseSink>::empty());
                assert(headers_model(s.headers@) =~= Seq::<(Seq<char>, Seq<char>)>::empty());
            }
            Ok(Some(s))
        },
    }
}

/// Reads a stored invocation in either layout: the current flat record, or the legacy one.
/// `None` stands for a free invocation, which only the legacy layout records.
pub fn read_invocation_status(
    current: Option<&InvocationStatusV2>,
    legacy: Option<&InvocationStatusV1>,
) -> (r: Result<Option<StoredInvocation>, ConversionError>)
    ensures
        match (current, legacy) {
            (Some(c), _) => match (r, decode_status(*c)) {
                (Ok(Some(v)), Ok(w)) => v.model() == w,
                (Err(e), Err(f)) => e.failure() == f,
                _ => false,
            },
            (None, Some(l)) => match (r, decode_status_v1(*l)) {
                (Ok(Some(v)), Ok(Some(w))) => v.model() == w,
                (Ok(None), Ok(None)) => true,
                (Err(e), Err(f)) => e.failure() == f,
                _ => false,
            },
            (None, None) => r matches Ok(None),
        },
{
    match current {
        Some(c) => {
            let s = status_from_record(c)?;
            Ok(Some(s))
        },
        None => match legacy {
            Some(l) => status_from_v1_record(l),
            None => Ok(None),
        },
    }
}

// ---- service invocations

/// On-disk form of a request to run a handler.
pub struct ServiceInvocationRecord {
    pub invocation_id: Option<InvocationIdRecord>,
    pub invocation_target: Option<InvocationTargetRecord>,
    pub response_sink: Option<ResponseSinkRecord>,
    pub idempotency_key: Option<String>,
    pub execution_time: Option<u64>,
    pub creation_time: u64,
    pub completion_retention_duration: Option<u64>,
    pub argument: Vec<u8>,
    pub source: Option<SourceValue>,
    pub span_context: Option<SpanContextRecord>,
    pub headers: Vec<HeaderRecord>,
}

/// What a service invocation is, over mathematical values.
pub struct ServiceInvocationModel {
    pub invocation_id: InvocationId,
    pub invocation_target: TargetModel,
    pub response_sink: Option<ResponseSink>,
    pub idempotency_key: Option<Seq<char>>,
    pub execution_time: Option<u64>,
    pub creation_time: u64,
    pub completion_retention_duration: u64,
    pub argument: Seq<u8>,
    pub source: Source,
    pub span_context: SpanContext,
    pub headers: Seq<(Seq<char>, Seq<char>)>,
}

pub open spec fn service_invocation_model(si: ServiceInvocation) -> ServiceInvocationModel {
    ServiceInvocationModel {
        invocation_id: si.invocation_id,
        invocation_target: si.invocation_target.model(),
        response_sink: si.response_sink,
        idempotency_key: opt_text(si.idempotency_key),
        execution_time: si.execution_time,
        creation_time: si.creation_time,
        completion_retention_duration: si.completion_retention_duration,
        argument: si.argument@,
        source: si.source,
        span_context: si.span_context,
        headers: headers_model(si.headers@),
    }
}

/// What a service invocation record decodes to: the id is checked first, then the target, then
/// the response sink if there is one. An absent retention duration reads as zero.
pub open spec fn decode_service_invocation(rec: ServiceInvocationRecord) -> Result<ServiceInvocationModel, DecodeFailure> {
    match rec.invocation_id {
        None => Err(DecodeFailure::MissingField("invocation_id"@)),
        Some(ir) => match decode_invocation_id(ir) {
            Err(f) => Err(f),
            Ok(id) => match rec.invocation_target {
                None => Err(DecodeFailure::MissingField("invocation_target"@)),
                Some(tr) => match decode_target(tr) {
                    Err(f) => Err(f),
                    Ok(target) => {
                        let sink: Result<Option<ResponseSink>, DecodeFailure> = match rec.response_sink {
                            None => Ok(None),
                            Some(sr) => match decode_sink(sr) {
                                Err(f) => Err(f),
                                Ok(s) => Ok(Some(s)),
                            },
                        };
                        match sink {
                            Err(f) => Err(f),
                            Ok(sink) => match decode_source(rec.source) {
                            Err(f) => Err(f),
                            Ok(source) => match decode_span(rec.span_context) {
                            Err(f) => Err(f),
                            Ok(span_context) => Ok(
                                ServiceInvocationModel {
                                    invocation_id: id,
                                    invocation_target: target,
                                    response_sink: sink,
                                    idempotency_key: opt_text(rec.idempotency_key),
                                    execution_time: rec.execution_time,
                                    creation_time: rec.creation_time,
                                    completion_retention_duration: match rec.completion_retention_duration {
                                        Some(d) => d,
                                        None => 0,
                                    },
                                    argument: rec.argument@,
                                    source,
                                    span_context,
                                    headers: header_records_model(rec.headers@),
                                },
                            ),
                            },
                            },
                        }
                    },
                },
            },
        },
    }
}

/// Whether `rec` is the on-disk form of `si`.
pub open spec fn encodes_service_invocation(si: ServiceInvocation, rec: ServiceInvocationRecord) -> bool {
    &&& (rec.invocation_id matches Some(ir) && ir.partition_key == si.invocation_id.partition_key
        && ir.invocation_uuid@ == be_bytes(si.invocation_id.invocation_uuid))
    &&& (rec.invocation_target matches Some(tr) && encodes_target(si.invocation_target, tr))
    &&& match si.response_sink {
        None => rec.response_sink is None,
        Some(s) => rec.response_sink matches Some(sr) && encodes_sink(s, sr),
    }
    &&& rec.idempotency_key == si.idempotency_key
    &&& rec.execution_time == si.execution_time
    &&& rec.creation_time == si.creation_time
    &&& rec.completion_retention_duration == Some(si.completion_retention_duration)
    &&& rec.argument@ == si.argument@
    &&& encodes_source(si.source, rec.source)
    &&& encodes_span(si.span_context, rec.span_context)
    &&& header_records_model(rec.headers@) == headers_model(si.headers@)
}

pub fn service_invocation_to_record(si: &ServiceInvocation) -> (r: ServiceInvocationRecord)
    ensures
        encodes_service_invocation(*si, r),
{
    ServiceInvocationRecord {
        invocation_id: Some(invocation_id_to_record(si.invocation_id)),
        invocation_target: Some(target_to_record(&si.invocation_target)),
        response_sink: match si.response_sink {
            Some(s) => Some(sink_to_record(s)),
            None => None,
        },
        idempotency_key: match &si.idempotency_key {
            Some(k) => Some(k.clone()),
            None => None,
        },
        execution_time: si.execution_time,
        creation_time: si.creation_time,
        completion_retention_duration: Some(si.completion_retention_duration),
        argument: si.argument.clone(),
        source: source_to_record(si.source),
        span_context: span_to_record(si.span_context),
        headers: headers_to_records(&si.headers),
    }
}

pub fn service_invocation_from_record(rec: &ServiceInvocationRecord) -> (r: Result<ServiceInvocation, ConversionError>)
    ensures
        match (r, decode_service_invocation(*rec)) {
            (Ok(v), Ok(w)) => service_invocation_model(v) == w,
            (Err(e), Err(f)) => e.failure() == f,
            _ => false,
        },
{
    let invocation_id = match &rec.invocation_id {
        Some(ir) => invocation_id_from_record(ir)?,
        None => {
            return Err(ConversionError::missing_field("invocation_id"));
        },
    };
    let invocation_target = match &rec.invocation_target {
        Some(tr) => target_from_record(tr)?,
        None => {
            return Err(ConversionError::missing_field("invocation_target"));
        },
    };
    let response_sink = match &rec.response_sink {
        Some(sr) => Some(sink_from_record(sr)?),
        None => None,
    };
    let source = source_from_record(&rec.source)?;
    let span_context = span_from_record(&rec.span_context)?;
    Ok(
        ServiceInvocation {
            invocation_id,
            invocation_target,
            response_sink,
            idempotency_key: match &rec.idempotency_key {
                Some(k) => Some(k.clone()),
                None => None,
            },
            execution_time: rec.execution_time,
            creation_time: rec.creation_time,
            completion_retention_duration: match rec.completion_retention_duration {
                Some(d) => d,
                None => 0,
            },
            argument: rec.argument.clone(),
            source,
            span_context,
            headers: headers_from_records(&rec.headers),
        },
    )
}

/// A service invocation survives a trip to its on-disk form and back.
pub proof fn lemma_service_invocation_round_trip(si: ServiceInvocation, rec: ServiceInvocationRecord)
    requires
        encodes_service_invocation(si, rec),
    ensures
        decode_service_invocation(rec) == Ok::<ServiceInvocationModel, DecodeFailure>(service_invocation_model(si)),
{
    lemma_uuid_bytes_round_trip(si.invocation_id.invocation_uuid);
    lemma_target_round_trip(si.invocation_target, rec.invocation_target.unwrap());
    lemma_uuid_bytes_round_trip(si.span_context.trace_id);
    if let Source::Service { caller } = si.source {
        lemma_uuid_bytes_round_trip(caller.invocation_uuid);
    }
    assert(decode_source(rec.source) == Ok::<Source, DecodeFailure>(si.source));
    if let Some(s) = si.response_sink {
        if let ResponseSink::PartitionProcessor { caller, entry_index } = s {
            lemma_uuid_bytes_round_trip(caller.invocation_uuid);
        }
        assert(decode_sink(rec.response_sink.unwrap()) == Ok::<ResponseSink, DecodeFailure>(s));
    }
}

// ---- deduplication sequence numbers

/// The last sequence number seen from a producer: a plain one, or one within a leader epoch.
#[derive(Clone, Copy, Debug, PartialEq, Eq, Structural)]
pub enum DedupSequenceNumber {
    Sn(u64),
    Esn { leader_epoch: u64, sequence_number: u64 },
}

/// On-disk form of a deduplication sequence number; the variant may be absent.
#[derive(Clone, Copy, Debug, PartialEq, Eq, Structural)]
pub enum DedupVariant {
    SequenceNumber(u64),
    EpochSequenceNumber { leader_epoch: u64, sequence_number: u64 },
}

#[derive(Clone, Copy, Debug, PartialEq, Eq, Structural)]
pub struct DedupSequenceNumberRecord {
    pub variant: Option<DedupVariant>,
}

pub fn dedup_to_record(d: DedupSequenceNumber) -> (r: DedupSequenceNumberRecord)
    ensures
        r.variant == Some(
            match d {
                DedupSequenceNumber::Sn(n) => DedupVariant::SequenceNumber(n),
                DedupSequenceNumber::Esn { leader_epoch, sequence_number } => DedupVariant::EpochSequenceNumber {
                    leader_epoch,
                    sequence_number,
                },
            },
        ),
{
    DedupSequenceNumberRecord {
        variant: Some(
            match d {
                DedupSequenceNumber::Sn(n) => DedupVariant::SequenceNumber(n),
                DedupSequenceNumber::Esn { leader_epoch, sequence_number } => DedupVariant::EpochSequenceNumber {
                    leader_epoch,
                    sequence_number,
                },
            },
        ),
    }
}

pub fn dedup_from_record(rec: DedupSequenceNumberRecord) -> (r: Result<DedupSequenceNumber, ConversionError>)
    ensures
        match rec.variant {
            None => r matches Err(e) && e.failure() == DecodeFailure::MissingField("variant"@),
            Some(DedupVariant::SequenceNumber(n)) => r == Ok::<DedupSequenceNumber, ConversionError>(DedupSequenceNumber::Sn(n)),
            Some(DedupVariant::EpochSequenceNumber { leader_epoch, sequence_number }) => r == Ok::<
                DedupSequenceNumber,
                ConversionError,
            >(DedupSequenceNumber::Esn { leader_epoch, sequence_number }),
        },
{
    match rec.variant {
        None => Err(ConversionError::missing_field("variant")),
        Some(DedupVariant::SequenceNumber(n)) => Ok(DedupSequenceNumber::Sn(n)),
        Some(DedupVariant::EpochSequenceNumber { leader_epoch, sequence_number }) => Ok(
            DedupSequenceNumber::Esn { leader_epoch, sequence_number },
        ),
    }
}

// ---- service ids and locks

/// On-disk form of a service id: name and key as UTF-8 bytes.
pub struct ServiceIdRecord {
    pub service_name: Vec<u8>,
    pub service_key: Vec<u8>,
}

/// What a service id record decodes to.
pub open spec fn decode_service_id(rec: ServiceIdRecord) -> Result<ServiceKey, DecodeFailure> {
    if valid_utf8(rec.service_name@) && valid_utf8(rec.service_key@) {
        Ok((decode_utf8(rec.service_name@), decode_utf8(rec.service_key@)))
    } else {
        Err(DecodeFailure::InvalidData)
    }
}

pub fn service_id_to_record(id: &ServiceId) -> (r: ServiceIdRecord)
    ensures
        r.service_name@ == vstd::utf8::encode_utf8(id.service_name@),
        r.service_key@ == vstd::utf8::encode_utf8(id.key@),
        decode_service_id(r) == Ok::<ServiceKey, DecodeFailure>(id.model()),
{
    ServiceIdRecord { service_name: text_to_utf8(&id.service_name), service_key: text_to_utf8(&id.key) }
}

pub fn service_id_from_record(rec: &ServiceIdRecord) -> (r: Result<ServiceId, ConversionError>)
    ensures
        match (r, decode_service_id(*rec)) {
            (Ok(v), Ok(w)) => v.model() == w,
            (Err(e), Err(f)) => e.failure() == f,
            _ => false,
        },
{
    let service_name = match text_from_utf8(rec.service_name.clone()) {
        Some(n) => n,
        None => {
            return Err(ConversionError::invalid_data("service name is not valid UTF-8"));
        },
    };
    let key = match text_from_utf8(rec.service_key.clone()) {
        Some(k) => k,
        None => {
            return Err(ConversionError::invalid_data("service key is not valid UTF-8"));
        },
    };
    Ok(ServiceId::new(service_name, key))
}

/// On-disk form of a held lock: the invocation that holds it, which may be absent.
pub struct LockedRecord {
    pub invocation_id: Option<InvocationIdRecord>,
}

/// On-disk form of a virtual object's status; only a held lock is stored, and the status may be
/// absent.
pub struct VirtualObjectStatusRecord {
    pub status: Option<LockedRecord>,
}

/// What a lock record decodes to: the invocation holding the lock.
pub open spec fn decode_lock(rec: VirtualObjectStatusRecord) -> Result<InvocationId, DecodeFailure> {
    match rec.status {
        None => Err(DecodeFailure::MissingField("status"@)),
        Some(l) => match l.invocation_id {
            None => Err(DecodeFailure::MissingField("invocation_id"@)),
            Some(ir) => decode_invocation_id(ir),
        },
    }
}

/// The stored form of the lock held by `id`.
pub fn lock_to_record(id: InvocationId) -> (r: VirtualObjectStatusRecord)
    ensures
        r.status matches Some(l) && l.invocation_id matches Some(ir) && encodes_id(id, ir),
        decode_lock(r) == Ok::<InvocationId, DecodeFailure>(id),
{
    proof {
        lemma_uuid_bytes_round_trip(id.invocation_uuid);
    }
    VirtualObjectStatusRecord { status: Some(LockedRecord { invocation_id: Some(invocation_id_to_record(id)) }) }
}

/// The invocation holding a stored lock.
pub fn lock_from_record(rec: &VirtualObjectStatusRecord) -> (r: Result<InvocationId, ConversionError>)
    ensures
        outcome_is(r, decode_lock(*rec)),
{
    match &rec.status {
        None => Err(ConversionError::missing_field("status")),
        Some(l) => match &l.invocation_id {
            Some(ir) => invocation_id_from_record(ir),
            None => Err(ConversionError::missing_field("invocation_id")),
        },
    }
}

// ---- timers

/// On-disk form of a timer's action; the value may be absent.
pub enum TimerValue {
    CompleteSleepEntry { invocation_id: Option<InvocationIdRecord>, entry_index: u32 },
    Invoke(ServiceInvocationRecord),
    ScheduledInvoke(InvocationIdRecord),
    CleanInvocationStatus { invocation_id: Option<InvocationIdRecord> },
}

pub struct TimerRecord {
    pub value: Option<TimerValue>,
}

/// What a timer is, over mathematical values.
pub enum TimerModel {
    CompleteJournalEntry { invocation_id: InvocationId, entry_index: u32 },
    Invoke(ServiceInvocationModel),
    NeoInvoke { invocation_id: InvocationId },
    CleanInvocationStatus { invocation_id: InvocationId },
}

pub open spec fn timer_model(t: Timer) -> TimerModel {
    match t {
        Timer::CompleteJournalEntry { invocation_id, entry_index } => TimerModel::CompleteJournalEntry {
            invocation_id,
            entry_index,
        },
        Timer::Invoke(si) => TimerModel::Invoke(service_invocation_model(si)),
        Timer::NeoInvoke { invocation_id } => TimerModel::NeoInvoke { invocation_id },
        Timer::CleanInvocationStatus { invocation_id } => TimerModel::CleanInvocationStatus { invocation_id },
    }
}

/// What a timer record decodes to.
pub open spec fn decode_timer(rec: TimerRecord) -> Result<TimerModel, DecodeFailure> {
    match rec.value {
        None => Err(DecodeFailure::MissingField("value"@)),
        Some(TimerValue::CompleteSleepEntry { invocation_id, entry_index }) => match decode_id_field(
            invocation_id,
            "invocation_id"@,
        ) {
            Err(f) => Err(f),
            Ok(id) => Ok(TimerModel::CompleteJournalEntry { invocation_id: id, entry_index }),
        },
        Some(TimerValue::Invoke(si)) => match decode_service_invocation(si) {
            Err(f) => Err(f),
            Ok(m) => Ok(TimerModel::Invoke(m)),
        },
        Some(TimerValue::ScheduledInvoke(ir)) => match decode_invocation_id(ir) {
            Err(f) => Err(f),
            Ok(id) => Ok(TimerModel::NeoInvoke { invocation_id: id }),
        },
        Some(TimerValue::CleanInvocationStatus { invocation_id }) => match decode_id_field(
            invocation_id,
            "invocation_id"@,
        ) {
            Err(f) => Err(f),
            Ok(id) => Ok(TimerModel::CleanInvocationStatus { invocation_id: id }),
        },
    }
}

/// Whether `rec` holds the id record of `id`.
pub open spec fn encodes_id(id: InvocationId, rec: InvocationIdRecord) -> bool {
    rec.partition_key == id.partition_key && rec.invocation_uuid@ == be_bytes(id.invocation_uuid)
}

/// Whether `rec` is the on-disk form of `t`.
pub open spec fn encodes_timer(t: Timer, rec: TimerRecord) -> bool {
    match t {
        Timer::CompleteJournalEntry { invocation_id, entry_index } => rec.value matches Some(
            TimerValue::CompleteSleepEntry { invocation_id: Some(ir), entry_index: e },
        ) && e == entry_index && encodes_id(invocation_id, ir),
        Timer::Invoke(si) => rec.value matches Some(TimerValue::Invoke(r)) && encodes_service_invocation(si, r),
        Timer::NeoInvoke { invocation_id } => rec.value matches Some(TimerValue::ScheduledInvoke(ir)) && encodes_id(
            invocation_id,
            ir,
        ),
        Timer::CleanInvocationStatus { invocation_id } => rec.value matches Some(
            TimerValue::CleanInvocationStatus { invocation_id: Some(ir) },
        ) && encodes_id(invocation_id, ir),
    }
}

pub fn timer_to_record(t: &Timer) -> (r: TimerRecord)
    ensures
        encodes_timer(*t, r),
{
    TimerRecord {
        value: Some(
            match t {
                Timer::CompleteJournalEntry { invocation_id, entry_index } => TimerValue::CompleteSleepEntry {
                    invocation_id: Some(invocation_id_to_record(*invocation_id)),
                    entry_index: *entry_index,
                },
                Timer::Invoke(si) => TimerValue::Invoke(service_invocation_to_record(si)),
                Timer::NeoInvoke { invocation_id } => TimerValue::ScheduledInvoke(invocation_id_to_record(*invocation_id)),
                Timer::CleanInvocationStatus { invocation_id } => TimerValue::CleanInvocationStatus {
                    invocation_id: Some(invocation_id_to_record(*invocation_id)),
                },
            },
        ),
    }
}

pub fn timer_from_record(rec: &TimerRecord) -> (r: Result<Timer, ConversionError>)
    ensures
        match (r, decode_timer(*rec)) {
            (Ok(v), Ok(m)) => timer_model(v) == m,
            (Err(e), Err(f)) => e.failure() == f,
            _ => false,
        },
{
    match &rec.value {
        None => Err(ConversionError::missing_field("value")),
        Some(TimerValue::CompleteSleepEntry { invocation_id, entry_index }) => {
            let id = id_field_from_record(invocation_id, "invocation_id")?;
            Ok(Timer::CompleteJournalEntry { invocation_id: id, entry_index: *entry_index })
        },
        Some(TimerValue::Invoke(si)) => {
            let si = service_invocation_from_record(si)?;
            Ok(Timer::Invoke(si))
        },
        Some(TimerValue::ScheduledInvoke(ir)) => {
            let id = invocation_id_from_record(ir)?;
            Ok(Timer::NeoInvoke { invocation_id: id })
        },
        Some(TimerValue::CleanInvocationStatus { invocation_id }) => {
            let id = id_field_from_record(invocation_id, "invocation_id")?;
            Ok(Timer::CleanInvocationStatus { invocation_id: id })
        },
    }
}

/// A timer survives a trip to its on-disk form and back.
pub proof fn lemma_timer_round_trip(t: Timer, rec: TimerRecord)
    requires
        encodes_timer(t, rec),
    ensures
        decode_timer(rec) == Ok::<TimerModel, DecodeFailure>(timer_model(t)),
{
    match t {
        Timer::CompleteJournalEntry { invocation_id, .. } => lemma_uuid_bytes_round_trip(invocation_id.invocation_uuid),
        Timer::Invoke(si) => {
            if let Some(TimerValue::Invoke(r)) = rec.value {
                lemma_service_invocation_round_trip(si, r);
            }
        },
        Timer::NeoInvoke { invocation_id } => lemma_uuid_bytes_round_trip(invocation_id.invocation_uuid),
        Timer::CleanInvocationStatus { invocation_id } => lemma_uuid_bytes_round_trip(invocation_id.invocation_uuid),
    }
}

} // verus!
