use restate_partition::codec::{stored_entry_from_record, stored_entry_to_record, JournalEntryValue, StoredJournalEntryRecord};
use restate_partition::journal::{AwakeableTarget, CallEnrichment, CompletionResult, EnrichedEntryHeader, StoredJournalEntry};
use restate_partition::types::{Header, Source, SpanContext};
use restate_partition::codec::derive_pinned_deployment;
use restate_partition::types::PinnedDeployment;
use restate_partition::codec::{lock_from_record, lock_to_record, service_id_from_record, service_id_to_record, timer_from_record, timer_to_record, ServiceIdRecord, TimerRecord, TimerValue, VirtualObjectStatusRecord, LockedRecord, SourceValue, SpanContextRecord};
use restate_partition::timer::Timer;
use restate_partition::types::ServiceId;
use restate_partition::codec::{journal_entry_from_record, journal_entry_to_record, JournalEntryRecord};
use restate_partition::state_machine::{EntryKind, JournalEntry};
use restate_partition::codec::{outbox_message_from_record, outbox_message_to_record};
use restate_partition::state_machine::{OutboxContent, OutboxMessage, TerminationFlavor};
use restate_partition::codec::OutboxValue;
use restate_partition::codec::{ read_invocation_status, status_from_v1_record, InvocationMetadataV1, InvocationStatusV1, InvocationStatusV1Kind, };
use restate_partition::codec::{service_invocation_from_record, service_invocation_to_record};
use restate_partition::state_machine::ServiceInvocation;
use restate_partition::codec::{dedup_from_record, dedup_to_record, DedupSequenceNumber, DedupSequenceNumberRecord};
use restate_partition::codec::{
    entry_result_from_record, entry_result_to_record, invocation_id_from_record, invocation_id_to_record,
    sink_from_record, status_from_record, status_to_record, target_from_record, target_to_record,
    try_bytes_into_invocation_uuid, EntryResultRecord, EntryResultValue, InvocationIdRecord,
    InvocationTargetRecord, ResponseSinkRecord, ResponseSinkValue, STATUS_COMPLETED,
};
use restate_partition::conversion::ConversionError;
use restate_partition::invocation_status::{InvocationStatus, StoredInvocation};
use restate_partition::types::{
    EntryResult, InvocationId, InvocationTarget, ResponseSink, WorkflowHandlerType,
};
use restate_partition::utf8_text::{text_from_utf8, text_to_utf8};

fn stored(status: InvocationStatus) -> StoredInvocation {
    let pre_flight = matches!(status, InvocationStatus::Scheduled | InvocationStatus::Inboxed { .. });
    StoredInvocation {
        argument: if pre_flight { Some(vec![4, 2]) } else { None },
        source: Source::Service { caller: InvocationId { partition_key: 5, invocation_uuid: 6 } },
        span_context: SpanContext { trace_id: 0xabcdef, span_id: 12, trace_flags: 1, is_remote: true },
        headers: vec![Header { name: "x-a".to_string(), value: "1".to_string() }],
        inboxed_transition_time: Some(11),
        scheduled_transition_time: None,
        running_transition_time: Some(12),
        completed_transition_time: None,
        status,
        invocation_target: InvocationTarget::Workflow {
            name: "wf".to_string(),
            key: "k1".to_string(),
            handler: "run".to_string(),
            handler_type: WorkflowHandlerType::Workflow,
        },
        response_sinks: vec![
            ResponseSink::Ingress { request_id: 3 },
            ResponseSink::PartitionProcessor {
                caller: InvocationId { partition_key: 1, invocation_uuid: 0x0102_0304_0506_0708_090a_0b0c_0d0e_0f10 },
                entry_index: 2,
            },
        ],
        journal_length: 4,
        idempotency_key: Some("idem".to_string()),
        creation_time: 10,
        modification_time: 20,
        execution_time: Some(30),
        completion_retention_duration: 40,
        pinned_deployment: Some(PinnedDeployment { deployment_id: "dp_1".to_string(), service_protocol_version: 2 }),
    }
}

fn same_stored(a: &StoredInvocation, b: &StoredInvocation) -> bool {
    let status_equal = match (&a.status, &b.status) {
        (InvocationStatus::Scheduled, InvocationStatus::Scheduled) => true,
        (InvocationStatus::Invoked, InvocationStatus::Invoked) => true,
        (InvocationStatus::Inboxed { inbox_sequence_number: x }, InvocationStatus::Inboxed { inbox_sequence_number: y }) => x == y,
        (
            InvocationStatus::Suspended { waiting_for_completed_entries: x },
            InvocationStatus::Suspended { waiting_for_completed_entries: y },
        ) => x == y,
        (InvocationStatus::Completed { response_result: x }, InvocationStatus::Completed { response_result: y }) => {
            same_result(x, y)
        }
        _ => false,
    };
    status_equal
        && a.response_sinks == b.response_sinks
        && a.journal_length == b.journal_length
        && a.idempotency_key == b.idempotency_key
        && a.creation_time == b.creation_time
        && a.modification_time == b.modification_time
        && a.execution_time == b.execution_time
        && a.completion_retention_duration == b.completion_retention_duration
        && a.pinned_deployment.as_ref().map(|d| (d.deployment_id.clone(), d.service_protocol_version))
            == b.pinned_deployment.as_ref().map(|d| (d.deployment_id.clone(), d.service_protocol_version))
        && target_to_record(&a.invocation_target).service_and_handler_ty
            == target_to_record(&b.invocation_target).service_and_handler_ty
        && a.argument == b.argument
        && a.source == b.source
        && a.span_context == b.span_context
        && a.headers.len() == b.headers.len()
        && a.headers.iter().zip(b.headers.iter()).all(|(x, y)| x.name == y.name && x.value == y.value)
        && a.inboxed_transition_time == b.inboxed_transition_time
        && a.running_transition_time == b.running_transition_time
}

fn same_result(a: &EntryResult, b: &EntryResult) -> bool {
    match (a, b) {
        (EntryResult::Success(x), EntryResult::Success(y)) => x == y,
        (EntryResult::Failure(c1, m1), EntryResult::Failure(c2, m2)) => c1 == c2 && m1 == m2,
        _ => false,
    }
}

#[test]
fn status_round_trips() {
    let statuses = vec![
        InvocationStatus::Scheduled,
        InvocationStatus::Inboxed { inbox_sequence_number: 9 },
        InvocationStatus::Invoked,
        InvocationStatus::Suspended { waiting_for_completed_entries: vec![3, 5] },
        InvocationStatus::Completed { response_result: EntryResult::Failure(500, "boom ü".to_string()) },
        InvocationStatus::Completed { response_result: EntryResult::Success(vec![1, 2, 3]) },
    ];
    for status in statuses {
        let s = stored(status);
        let record = status_to_record(&s);
        let back = status_from_record(&record).unwrap();
        assert!(same_stored(&s, &back));
    }
}

#[test]
fn unknown_status_is_rejected() {
    let mut record = status_to_record(&stored(InvocationStatus::Invoked));
    record.status = 42;
    assert_eq!(
        status_from_record(&record).err(),
        Some(ConversionError::UnexpectedEnumVariant("status".to_string(), 42))
    );
}

#[test]
fn missing_target_is_rejected() {
    let mut record = status_to_record(&stored(InvocationStatus::Invoked));
    record.invocation_target = None;
    assert_eq!(
        status_from_record(&record).err(),
        Some(ConversionError::MissingField("invocation_target".to_string()))
    );
}

#[test]
fn completed_without_result_is_rejected() {
    let mut record = status_to_record(&stored(InvocationStatus::Invoked));
    record.status = STATUS_COMPLETED;
    assert_eq!(status_from_record(&record).err(), Some(ConversionError::MissingField("result".to_string())));
}

#[test]
fn missing_retention_reads_as_zero() {
    let mut record = status_to_record(&stored(InvocationStatus::Invoked));
    record.completion_retention_duration = None;
    assert_eq!(status_from_record(&record).unwrap().completion_retention_duration, 0);
}

#[test]
fn invocation_uuid_is_big_endian() {
    let bytes: Vec<u8> = (1u8..=16).collect();
    assert_eq!(try_bytes_into_invocation_uuid(&bytes).unwrap(), 0x0102_0304_0506_0708_090a_0b0c_0d0e_0f10);
    assert!(matches!(
        try_bytes_into_invocation_uuid(&vec![1, 2, 3]),
        Err(ConversionError::InvalidData(_))
    ));
    let id = InvocationId { partition_key: 77, invocation_uuid: 0xff00_0000_0000_0000_0000_0000_0000_00aa };
    let record = invocation_id_to_record(id);
    assert_eq!(record.invocation_uuid[0], 0xff);
    assert_eq!(record.invocation_uuid[15], 0xaa);
    assert_eq!(invocation_id_from_record(&record).unwrap(), id);
}

#[test]
fn entry_result_errors() {
    let missing = EntryResultRecord { result: None };
    assert_eq!(entry_result_from_record(&missing).err(), Some(ConversionError::MissingField("result".to_string())));
    let bad_text = EntryResultRecord { result: Some(EntryResultValue::Failure { error_code: 1, message: vec![0xff, 0xfe] }) };
    assert!(matches!(entry_result_from_record(&bad_text), Err(ConversionError::InvalidData(_))));
    let bad_code = EntryResultRecord {
        result: Some(EntryResultValue::Failure { error_code: 70000, message: b"x".to_vec() }),
    };
    assert!(matches!(entry_result_from_record(&bad_code), Err(ConversionError::InvalidData(_))));
    let r = EntryResult::Failure(7, "héllo".to_string());
    let back = entry_result_from_record(&entry_result_to_record(&r)).unwrap();
    assert!(same_result(&r, &back));
}

#[test]
fn target_errors() {
    let bad_key = InvocationTargetRecord {
        name: b"vo".to_vec(),
        handler: b"h".to_vec(),
        key: vec![0xff],
        service_and_handler_ty: 2,
    };
    assert!(matches!(target_from_record(&bad_key), Err(ConversionError::InvalidData(_))));
    let bad_name = InvocationTargetRecord {
        name: vec![0xc3],
        handler: b"h".to_vec(),
        key: vec![],
        service_and_handler_ty: 1,
    };
    assert!(matches!(target_from_record(&bad_name), Err(ConversionError::InvalidData(_))));
    let unknown = InvocationTargetRecord {
        name: b"vo".to_vec(),
        handler: b"h".to_vec(),
        key: vec![],
        service_and_handler_ty: 0,
    };
    assert_eq!(target_from_record(&unknown).err(), Some(ConversionError::UnexpectedEnumVariant("ty".to_string(), 0)));
}

#[test]
fn sink_errors() {
    assert_eq!(
        sink_from_record(&ResponseSinkRecord { response_sink: None }).err(),
        Some(ConversionError::MissingField("response_sink".to_string()))
    );
    let no_caller = ResponseSinkRecord {
        response_sink: Some(ResponseSinkValue::PartitionProcessor { caller: None, entry_index: 1 }),
    };
    assert_eq!(sink_from_record(&no_caller).err(), Some(ConversionError::MissingField("caller".to_string())));
    let short = ResponseSinkRecord {
        response_sink: Some(ResponseSinkValue::PartitionProcessor {
            caller: Some(InvocationIdRecord { partition_key: 1, invocation_uuid: vec![1] }),
            entry_index: 1,
        }),
    };
    assert!(matches!(sink_from_record(&short), Err(ConversionError::InvalidData(_))));
}

#[test]
fn conversion_error_constructors() {
    assert_eq!(ConversionError::missing_field("f"), ConversionError::MissingField("f".to_string()));
    assert_eq!(
        ConversionError::unexpected_enum_variant("g", 3),
        ConversionError::UnexpectedEnumVariant("g".to_string(), 3)
    );
    assert_eq!(ConversionError::invalid_data("bad"), ConversionError::InvalidData("bad".to_string()));
}

#[test]
fn utf8_text_round_trip() {
    let s = "grüße".to_string();
    let bytes = text_to_utf8(&s);
    assert_eq!(bytes, s.as_bytes().to_vec());
    assert_eq!(text_from_utf8(bytes), Some(s));
    assert_eq!(text_from_utf8(vec![0xc3]), None);
}

#[test]
fn journal_entries_round_trip() {
    for kind in [EntryKind::Input, EntryKind::Sleep, EntryKind::GetInvocationOutput, EntryKind::Custom(1234)] {
        for is_completed in [false, true] {
            let e = JournalEntry { kind, is_completed };
            assert_eq!(journal_entry_from_record(&journal_entry_to_record(e)), Ok(e));
        }
    }
    let unknown = JournalEntryRecord { kind: 99, custom_code: None, is_completed: false };
    assert_eq!(
        journal_entry_from_record(&unknown).err(),
        Some(ConversionError::UnexpectedEnumVariant("kind".to_string(), 99))
    );
    let custom = JournalEntryRecord { kind: 21, custom_code: None, is_completed: false };
    assert_eq!(journal_entry_from_record(&custom).err(), Some(ConversionError::MissingField("custom_code".to_string())));
}

#[test]
fn outbox_messages_round_trip() {
    let caller = InvocationId { partition_key: 3, invocation_uuid: 99 };
    let target = InvocationId { partition_key: 4, invocation_uuid: 5 };
    let response = OutboxMessage {
        sequence_number: 12,
        message: OutboxContent::ServiceResponse {
            sink: ResponseSink::PartitionProcessor { caller, entry_index: 1 },
            invocation_id: target,
            result: EntryResult::Failure(13, "nope".to_string()),
        },
    };
    let back = outbox_message_from_record(&outbox_message_to_record(&response)).unwrap();
    assert_eq!(back.sequence_number, 12);
    match back.message {
        OutboxContent::ServiceResponse { sink, invocation_id, result } => {
            assert_eq!(sink, ResponseSink::PartitionProcessor { caller, entry_index: 1 });
            assert_eq!(invocation_id, target);
            assert!(same_result(&result, &EntryResult::Failure(13, "nope".to_string())));
        }
        _ => panic!("expected a response"),
    }
    for flavor in [TerminationFlavor::Kill, TerminationFlavor::Cancel] {
        let m = OutboxMessage { sequence_number: 2, message: OutboxContent::InvocationTermination { invocation_id: target, flavor } };
        match outbox_message_from_record(&outbox_message_to_record(&m)).unwrap().message {
            OutboxContent::InvocationTermination { invocation_id, flavor: f } => {
                assert_eq!(invocation_id, target);
                assert_eq!(f, flavor);
            }
            _ => panic!("expected a termination"),
        }
    }
    let attach = OutboxMessage {
        sequence_number: 3,
        message: OutboxContent::AttachInvocation {
            query: target,
            block_on_inflight: true,
            response_sink: ResponseSink::Ingress { request_id: 6 },
        },
    };
    match outbox_message_from_record(&outbox_message_to_record(&attach)).unwrap().message {
        OutboxContent::AttachInvocation { query, block_on_inflight, response_sink } => {
            assert_eq!(query, target);
            assert!(block_on_inflight);
            assert_eq!(response_sink, ResponseSink::Ingress { request_id: 6 });
        }
        _ => panic!("expected an attach"),
    }
    let invocation = OutboxMessage {
        sequence_number: 4,
        message: OutboxContent::ServiceInvocation(ServiceInvocation {
            invocation_id: target,
            invocation_target: InvocationTarget::Service { name: "s".to_string(), handler: "h".to_string() },
            response_sink: None,
            idempotency_key: None,
            execution_time: None,
            creation_time: 1,
            completion_retention_duration: 2,
            argument: vec![5],
            source: Source::Service { caller },
            span_context: SpanContext { trace_id: 1, span_id: 2, trace_flags: 1, is_remote: true },
            headers: vec![Header { name: "h".to_string(), value: "v".to_string() }],
        }),
    };
    match outbox_message_from_record(&outbox_message_to_record(&invocation)).unwrap().message {
        OutboxContent::ServiceInvocation(si) => {
            assert_eq!(si.invocation_id, target);
            assert_eq!(si.argument, vec![5]);
            assert_eq!(si.source, Source::Service { caller });
            assert_eq!(si.headers[0].value, "v");
        }
        _ => panic!("expected an invocation"),
    }
    let mut record = outbox_message_to_record(&response);
    if let Some(OutboxValue::ServiceResponse { invocation_id, .. }) = &mut record.message {
        *invocation_id = None;
    }
    assert_eq!(
        outbox_message_from_record(&record).err(),
        Some(ConversionError::MissingField("invocation_id".to_string()))
    );
    record.message = None;
    assert_eq!(
        outbox_message_from_record(&record).err(),
        Some(ConversionError::MissingField("outbox_message".to_string()))
    );
}

#[test]
fn legacy_status_is_read() {
    let target = InvocationTargetRecord {
        name: b"svc".to_vec(),
        handler: b"h".to_vec(),
        key: b"k".to_vec(),
        service_and_handler_ty: 2,
    };
    let metadata = InvocationMetadataV1 {
        invocation_target: Some(target),
        source: Some(SourceValue::Ingress { request_id: 1 }),
        span_context: Some(SpanContextRecord { trace_id: vec![0; 16], span_id: 1, trace_flags: 0, is_remote: false }),
        headers: vec![],
        argument: vec![9],
        response_sinks: vec![ResponseSinkRecord { response_sink: Some(ResponseSinkValue::Ingress { request_id: 8 }) }],
        creation_time: 1,
        modification_time: 2,
        journal_length: 3,
        idempotency_key: None,
        completion_retention_duration: None,
    };
    let legacy = InvocationStatusV1 {
        status: Some(InvocationStatusV1Kind::Suspended { metadata, waiting_for_completed_entries: vec![2] }),
    };
    let s = read_invocation_status(None, Some(&legacy)).unwrap().unwrap();
    assert!(matches!(&s.status, InvocationStatus::Suspended { waiting_for_completed_entries } if waiting_for_completed_entries == &vec![2]));
    assert_eq!(s.journal_length, 3);
    assert_eq!(s.response_sinks, vec![ResponseSink::Ingress { request_id: 8 }]);
    assert_eq!(s.completion_retention_duration, 0);

    let free = InvocationStatusV1 { status: Some(InvocationStatusV1Kind::Free) };
    assert!(status_from_v1_record(&free).unwrap().is_none());
    let empty = InvocationStatusV1 { status: None };
    assert_eq!(status_from_v1_record(&empty).err(), Some(ConversionError::MissingField("status".to_string())));
    assert!(read_invocation_status(None, None).unwrap().is_none());

    let current = status_to_record(&stored(InvocationStatus::Invoked));
    let s = read_invocation_status(Some(&current), Some(&free)).unwrap().unwrap();
    assert!(matches!(s.status, InvocationStatus::Invoked));
}

#[test]
fn service_invocations_round_trip() {
    let si = ServiceInvocation {
        invocation_id: InvocationId { partition_key: 2, invocation_uuid: 77 },
        invocation_target: InvocationTarget::Service { name: "s".to_string(), handler: "h".to_string() },
        response_sink: Some(ResponseSink::Ingress { request_id: 4 }),
        idempotency_key: Some("key".to_string()),
        execution_time: Some(9),
        creation_time: 3,
        completion_retention_duration: 60,
        argument: vec![1, 2, 3],
        source: Source::Internal,
        span_context: SpanContext { trace_id: 7, span_id: 8, trace_flags: 0, is_remote: false },
        headers: vec![],
    };
    let mut record = service_invocation_to_record(&si);
    assert_eq!(service_invocation_from_record(&record).unwrap().argument, vec![1, 2, 3]);
    let back = service_invocation_from_record(&record).unwrap();
    assert_eq!(back.invocation_id, si.invocation_id);
    assert_eq!(back.response_sink, si.response_sink);
    assert_eq!(back.idempotency_key, si.idempotency_key);
    assert_eq!(back.execution_time, Some(9));
    assert_eq!(back.completion_retention_duration, 60);
    record.invocation_target = None;
    assert_eq!(
        service_invocation_from_record(&record).err(),
        Some(ConversionError::MissingField("invocation_target".to_string()))
    );
}

#[test]
fn dedup_sequence_numbers() {
    for d in [DedupSequenceNumber::Sn(5), DedupSequenceNumber::Esn { leader_epoch: 2, sequence_number: 9 }] {
        assert_eq!(dedup_from_record(dedup_to_record(d)), Ok(d));
    }
    assert_eq!(
        dedup_from_record(DedupSequenceNumberRecord { variant: None }).err(),
        Some(ConversionError::MissingField("variant".to_string()))
    );
}

#[test]
fn service_ids_round_trip() {
    let id = ServiceId::new("grüße".to_string(), "k-1".to_string());
    let record = service_id_to_record(&id);
    assert_eq!(record.service_name, "grüße".as_bytes().to_vec());
    let back = service_id_from_record(&record).unwrap();
    assert_eq!(back.service_name, "grüße");
    assert_eq!(back.key, "k-1");
    let bad = ServiceIdRecord { service_name: vec![0xff], service_key: vec![] };
    assert!(matches!(service_id_from_record(&bad), Err(ConversionError::InvalidData(_))));
}

#[test]
fn locks_round_trip() {
    let id = InvocationId { partition_key: 8, invocation_uuid: 1 << 100 };
    assert_eq!(lock_from_record(&lock_to_record(id)), Ok(id));
    assert_eq!(
        lock_from_record(&VirtualObjectStatusRecord { status: None }).err(),
        Some(ConversionError::MissingField("status".to_string()))
    );
    assert_eq!(
        lock_from_record(&VirtualObjectStatusRecord { status: Some(LockedRecord { invocation_id: None }) }).err(),
        Some(ConversionError::MissingField("invocation_id".to_string()))
    );
}

#[test]
fn timers_round_trip() {
    let id = InvocationId { partition_key: 8, invocation_uuid: 12345 };
    for t in [
        Timer::CompleteJournalEntry { invocation_id: id, entry_index: 4 },
        Timer::NeoInvoke { invocation_id: id },
        Timer::CleanInvocationStatus { invocation_id: id },
    ] {
        let back = timer_from_record(&timer_to_record(&t)).unwrap();
        match (t, back) {
            (Timer::CompleteJournalEntry { invocation_id: a, entry_index: x }, Timer::CompleteJournalEntry { invocation_id: b, entry_index: y }) => {
                assert_eq!((a, x), (b, y))
            }
            (Timer::NeoInvoke { invocation_id: a }, Timer::NeoInvoke { invocation_id: b }) => assert_eq!(a, b),
            (Timer::CleanInvocationStatus { invocation_id: a }, Timer::CleanInvocationStatus { invocation_id: b }) => assert_eq!(a, b),
            _ => panic!("timer kind changed"),
        }
    }
    let delayed = Timer::Invoke(ServiceInvocation {
        invocation_id: id,
        invocation_target: InvocationTarget::Service { name: "s".to_string(), handler: "h".to_string() },
        response_sink: None,
        idempotency_key: None,
        execution_time: Some(0),
        creation_time: 1,
        completion_retention_duration: 2,
        argument: vec![],
        source: Source::Internal,
        span_context: SpanContext { trace_id: 1, span_id: 2, trace_flags: 0, is_remote: false },
        headers: vec![],
    });
    match timer_from_record(&timer_to_record(&delayed)).unwrap() {
        Timer::Invoke(si) => {
            assert_eq!(si.invocation_id, id);
            assert_eq!(si.execution_time, Some(0));
        }
        _ => panic!("timer kind changed"),
    }
    assert_eq!(
        timer_from_record(&TimerRecord { value: None }).err(),
        Some(ConversionError::MissingField("value".to_string()))
    );
    let no_id = TimerRecord { value: Some(TimerValue::CleanInvocationStatus { invocation_id: None }) };
    assert_eq!(timer_from_record(&no_id).err(), Some(ConversionError::MissingField("invocation_id".to_string())));
}

#[test]
fn pinned_deployment_fields() {
    assert!(derive_pinned_deployment(&None, Some(2)).unwrap().is_none());
    let p = derive_pinned_deployment(&Some("dp".to_string()), Some(3)).unwrap().unwrap();
    assert_eq!(p.deployment_id, "dp");
    assert_eq!(p.service_protocol_version, 3);
    assert!(matches!(
        derive_pinned_deployment(&Some("dp".to_string()), None),
        Err(ConversionError::InvalidData(_))
    ));
    assert_eq!(
        derive_pinned_deployment(&Some("dp".to_string()), Some(0)).err(),
        Some(ConversionError::UnexpectedEnumVariant("service_protocol_version".to_string(), 0))
    );
    let mut record = status_to_record(&stored(InvocationStatus::Invoked));
    assert_eq!(record.deployment_id, Some("dp_1".to_string()));
    record.service_protocol_version = Some(99);
    assert_eq!(
        status_from_record(&record).err(),
        Some(ConversionError::UnexpectedEnumVariant("service_protocol_version".to_string(), 99))
    );
}

#[test]
fn legacy_inboxed_and_completed() {
    use_legacy();
}

fn legacy_metadata() -> InvocationMetadataV1 {
    InvocationMetadataV1 {
        invocation_target: Some(InvocationTargetRecord {
            name: b"svc".to_vec(),
            handler: b"h".to_vec(),
            key: b"k".to_vec(),
            service_and_handler_ty: 2,
        }),
        source: Some(SourceValue::Internal),
        span_context: Some(SpanContextRecord { trace_id: vec![0; 16], span_id: 1, trace_flags: 0, is_remote: false }),
        headers: vec![],
        argument: vec![9],
        response_sinks: vec![],
        creation_time: 1,
        modification_time: 2,
        journal_length: 0,
        idempotency_key: None,
        completion_retention_duration: None,
    }
}

fn use_legacy() {
    let inboxed = |t: u64| InvocationStatusV1 {
        status: Some(InvocationStatusV1Kind::Inboxed { inbox_sequence_number: 4, execution_time: t, metadata: legacy_metadata() }),
    };
    let s = status_from_v1_record(&inboxed(0)).unwrap().unwrap();
    assert_eq!(s.execution_time, None);
    assert_eq!(s.argument, Some(vec![9]));
    let s = status_from_v1_record(&inboxed(77)).unwrap().unwrap();
    assert_eq!(s.execution_time, Some(77));
    let completed = InvocationStatusV1 {
        status: Some(InvocationStatusV1Kind::Completed {
            invocation_target: legacy_metadata().invocation_target,
            source: Some(SourceValue::Internal),
            result: Some(entry_result_to_record(&EntryResult::Success(vec![1]))),
            creation_time: 1,
            modification_time: 2,
            idempotency_key: None,
        }),
    };
    let s = status_from_v1_record(&completed).unwrap().unwrap();
    assert_eq!(s.completion_retention_duration, u64::MAX);
}

#[test]
fn stored_journal_entries_round_trip() {
    let callee = InvocationId { partition_key: 1, invocation_uuid: 2 };
    let call = StoredJournalEntry::Entry {
        header: EnrichedEntryHeader {
            header: JournalEntry { kind: EntryKind::Call, is_completed: false },
            call: Some(CallEnrichment {
                invocation_id: callee,
                invocation_target: InvocationTarget::Service { name: "s".to_string(), handler: "h".to_string() },
                completion_retention_time: 30,
            }),
            awakeable_target: None,
        },
        raw_entry: vec![1, 2, 3],
    };
    match stored_entry_from_record(&stored_entry_to_record(&call)).unwrap() {
        StoredJournalEntry::Entry { header, raw_entry } => {
            assert_eq!(raw_entry, vec![1, 2, 3]);
            assert_eq!(header.header.kind, EntryKind::Call);
            let c = header.call.unwrap();
            assert_eq!(c.invocation_id, callee);
            assert_eq!(c.completion_retention_time, 30);
        }
        _ => panic!("expected an entry"),
    }
    let complete = StoredJournalEntry::Entry {
        header: EnrichedEntryHeader {
            header: JournalEntry { kind: EntryKind::CompleteAwakeable, is_completed: true },
            call: None,
            awakeable_target: Some(AwakeableTarget { invocation_id: callee, entry_index: 7 }),
        },
        raw_entry: vec![],
    };
    match stored_entry_from_record(&stored_entry_to_record(&complete)).unwrap() {
        StoredJournalEntry::Entry { header, .. } => {
            assert_eq!(header.awakeable_target, Some(AwakeableTarget { invocation_id: callee, entry_index: 7 }))
        }
        _ => panic!("expected an entry"),
    }
    for result in [CompletionResult::Empty, CompletionResult::Success(vec![4]), CompletionResult::Failure(500, "bad".to_string())] {
        let c = StoredJournalEntry::Completion { entry_index: 3, result };
        match (stored_entry_from_record(&stored_entry_to_record(&c)).unwrap(), c) {
            (StoredJournalEntry::Completion { entry_index, result: r }, StoredJournalEntry::Completion { result: e, .. }) => {
                assert_eq!(entry_index, 3);
                match (r, e) {
                    (CompletionResult::Empty, CompletionResult::Empty) => {}
                    (CompletionResult::Success(a), CompletionResult::Success(b)) => assert_eq!(a, b),
                    (CompletionResult::Failure(a, m), CompletionResult::Failure(b, n)) => assert_eq!((a, m), (b, n)),
                    _ => panic!("completion changed"),
                }
            }
            _ => panic!("expected a completion"),
        }
    }
    let mut record = stored_entry_to_record(&call);
    if let Some(JournalEntryValue::Entry { header: Some(h), .. }) = &mut record.kind {
        h.call = None;
    }
    assert_eq!(
        stored_entry_from_record(&record).err(),
        Some(ConversionError::MissingField("resolution_result".to_string()))
    );
    assert_eq!(
        stored_entry_from_record(&StoredJournalEntryRecord { kind: None }).err(),
        Some(ConversionError::MissingField("kind".to_string()))
    );
}
