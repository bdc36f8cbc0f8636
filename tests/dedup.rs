use restate_partition::codec::DedupSequenceNumber;
use restate_partition::dedup::DedupTable;
use restate_partition::state_machine::{PartitionState, ServiceInvocation};
use restate_partition::types::{EntryResult, InvocationId, InvocationTarget, ResponseSink};

#[test]
fn duplicates_are_dropped() {
    let mut table = DedupTable::new();
    assert!(table.check_and_record(1, DedupSequenceNumber::Sn(5)));
    assert!(!table.check_and_record(1, DedupSequenceNumber::Sn(5)));
    assert!(!table.check_and_record(1, DedupSequenceNumber::Sn(4)));
    assert!(table.check_and_record(1, DedupSequenceNumber::Sn(6)));
    assert!(table.check_and_record(2, DedupSequenceNumber::Sn(0)));
    assert!(table.check_and_record(3, DedupSequenceNumber::Esn { leader_epoch: 1, sequence_number: 9 }));
    assert!(!table.check_and_record(3, DedupSequenceNumber::Esn { leader_epoch: 1, sequence_number: 9 }));
    assert!(table.check_and_record(3, DedupSequenceNumber::Esn { leader_epoch: 2, sequence_number: 0 }));
    assert!(!table.check_and_record(3, DedupSequenceNumber::Esn { leader_epoch: 1, sequence_number: 10 }));
}

#[test]
fn outbox_truncation_keeps_later_messages() {
    let mut state = PartitionState::new();
    for n in 0..3u128 {
        state.invoke(ServiceInvocation {
            invocation_id: InvocationId { partition_key: 0, invocation_uuid: n },
            invocation_target: InvocationTarget::Service { name: "s".to_string(), handler: "h".to_string() },
            response_sink: Some(ResponseSink::Ingress { request_id: n as u64 }),
            idempotency_key: None,
            execution_time: None,
            creation_time: 0,
            completion_retention_duration: 0,
            argument: vec![],
            source: restate_partition::types::Source::Internal,
            span_context: restate_partition::types::SpanContext { trace_id: 1, span_id: 2, trace_flags: 0, is_remote: false },
            headers: vec![],
        });
        state.end_invocation(InvocationId { partition_key: 0, invocation_uuid: n }, EntryResult::Success(vec![]));
    }
    assert_eq!(state.outbox.len(), 3);
    state.truncate_outbox(1);
    assert_eq!(state.outbox.len(), 1);
    assert_eq!(state.outbox[0].sequence_number, 2);
    state.truncate_outbox(0);
    assert_eq!(state.outbox.len(), 1);
    state.truncate_outbox(2);
    assert!(state.outbox.is_empty());
    assert_eq!(state.next_outbox_sequence_number, 3);
}
