use restate_partition::journal::CompletionResult;
use restate_partition::invocation_status::InvocationStatus;
use restate_partition::state_machine::{
    Command, Effect, EntryKind, JournalEntry, OutboxContent, PartitionState, ServiceInvocation, TerminationFlavor,
};
use restate_partition::types::{
    PinnedDeployment, EntryResult, InvocationId, InvocationTarget, ResponseSink, ServiceId, VirtualObjectHandlerType,
};

fn id(n: u128) -> InvocationId {
    InvocationId { partition_key: 7, invocation_uuid: n }
}

fn vo(key: &str) -> InvocationTarget {
    InvocationTarget::VirtualObject {
        name: "svc".to_string(),
        key: key.to_string(),
        handler: "run".to_string(),
        handler_type: VirtualObjectHandlerType::Exclusive,
    }
}

fn service() -> InvocationTarget {
    InvocationTarget::Service { name: "greeter".to_string(), handler: "greet".to_string() }
}

fn request(n: u128, target: InvocationTarget) -> ServiceInvocation {
    ServiceInvocation {
        invocation_id: id(n),
        invocation_target: target,
        response_sink: None,
        idempotency_key: None,
        execution_time: None,
        creation_time: 100,
        completion_retention_duration: 0,
        argument: vec![],
        source: restate_partition::types::Source::Internal,
        span_context: restate_partition::types::SpanContext { trace_id: 1, span_id: 2, trace_flags: 0, is_remote: false },
        headers: vec![],
    }
}

fn status_of(state: &PartitionState, n: u128) -> Option<&InvocationStatus> {
    state.find(id(n)).map(|i| &state.invocations[i].stored.status)
}

fn entry(kind: EntryKind) -> JournalEntry {
    JournalEntry { kind, is_completed: false }
}

#[test]
fn virtual_object_lock_and_inbox() {
    let mut state = PartitionState::new();
    let fx = state.invoke(request(1, vo("x")));
    assert_eq!(fx, vec![Effect::InvokerDispatch(id(1))]);
    assert!(matches!(status_of(&state, 1), Some(InvocationStatus::Invoked)));

    let fx = state.invoke(request(2, vo("x")));
    assert!(fx.is_empty());
    assert!(matches!(status_of(&state, 2), Some(InvocationStatus::Inboxed { inbox_sequence_number: 0 })));

    let fx = state.terminate_invocation(id(1), TerminationFlavor::Kill);
    assert_eq!(
        fx,
        vec![
            Effect::InvokerAbort(id(1)),
            Effect::ScheduleCleanup { invocation_id: id(1), retention: 0 },
            Effect::InvokerDispatch(id(2)),
        ]
    );
    let dispatched: Vec<&Effect> = fx.iter().filter(|e| matches!(e, Effect::InvokerDispatch(_))).collect();
    assert_eq!(dispatched.len(), 1);
    assert!(matches!(status_of(&state, 2), Some(InvocationStatus::Invoked)));
    assert!(matches!(status_of(&state, 1), Some(InvocationStatus::Completed { .. })));
}

#[test]
fn other_keys_do_not_share_the_lock() {
    let mut state = PartitionState::new();
    assert_eq!(state.invoke(request(1, vo("x"))), vec![Effect::InvokerDispatch(id(1))]);
    assert_eq!(state.invoke(request(2, vo("y"))), vec![Effect::InvokerDispatch(id(2))]);
    assert_eq!(state.invoke(request(3, service())), vec![Effect::InvokerDispatch(id(3))]);
    assert_eq!(state.invoke(request(4, service())), vec![Effect::InvokerDispatch(id(4))]);
}

#[test]
fn inbox_is_first_in_first_out() {
    let mut state = PartitionState::new();
    state.invoke(request(1, vo("x")));
    state.invoke(request(2, vo("x")));
    state.invoke(request(3, vo("x")));
    assert!(matches!(status_of(&state, 3), Some(InvocationStatus::Inboxed { inbox_sequence_number: 1 })));
    let fx = state.end_invocation(id(1), EntryResult::Success(vec![1]));
    assert_eq!(fx, vec![Effect::ScheduleCleanup { invocation_id: id(1), retention: 0 }, Effect::InvokerDispatch(id(2))]);
    assert!(matches!(status_of(&state, 3), Some(InvocationStatus::Inboxed { .. })));
    let fx = state.end_invocation(id(2), EntryResult::Success(vec![2]));
    assert_eq!(fx, vec![Effect::ScheduleCleanup { invocation_id: id(2), retention: 0 }, Effect::InvokerDispatch(id(3))]);
}

#[test]
fn idempotency_key_merges_response_sinks() {
    let mut state = PartitionState::new();
    let mut a = request(1, service());
    a.idempotency_key = Some("once".to_string());
    a.response_sink = Some(ResponseSink::Ingress { request_id: 10 });
    let mut b = request(2, service());
    b.idempotency_key = Some("once".to_string());
    b.response_sink = Some(ResponseSink::Ingress { request_id: 11 });
    assert_eq!(state.invoke(a), vec![Effect::InvokerDispatch(id(1))]);
    assert!(state.invoke(b).is_empty());
    assert_eq!(state.invocations.len(), 1);
    assert_eq!(
        state.invocations[0].stored.response_sinks,
        vec![ResponseSink::Ingress { request_id: 10 }, ResponseSink::Ingress { request_id: 11 }]
    );
}

#[test]
fn suspend_and_resume() {
    let mut state = PartitionState::new();
    state.invoke(request(1, service()));
    for index in 1u32..=5 {
        assert!(state.append_journal_entry(id(1), index, entry(EntryKind::Sleep), vec![]).is_empty());
    }
    assert_eq!(state.invocations[0].journal.len(), 6);
    state.suspend(id(1), vec![3, 5]);
    assert!(state.complete_journal_entry(id(1), 3, CompletionResult::Empty).is_empty());
    assert!(matches!(status_of(&state, 1), Some(InvocationStatus::Suspended { .. })));
    assert_eq!(state.complete_journal_entry(id(1), 5, CompletionResult::Empty), vec![Effect::InvokerResume(id(1))]);
    assert!(matches!(status_of(&state, 1), Some(InvocationStatus::Invoked)));
    assert!(state.complete_journal_entry(id(1), 5, CompletionResult::Empty).is_empty());
}

#[test]
fn journal_appends_only_at_its_end() {
    let mut state = PartitionState::new();
    state.invoke(request(1, service()));
    state.append_journal_entry(id(1), 1, entry(EntryKind::Run), vec![]);
    state.append_journal_entry(id(1), 1, entry(EntryKind::Output), vec![]);
    state.append_journal_entry(id(1), 5, entry(EntryKind::Output), vec![]);
    assert_eq!(state.invocations[0].journal.len(), 2);
    assert_eq!(state.invocations[0].journal[1].kind, EntryKind::Run);
    assert_eq!(state.invocations[0].stored.journal_length, 2);
}

#[test]
fn completion_sends_responses_to_every_sink() {
    let mut state = PartitionState::new();
    let mut a = request(1, service());
    a.response_sink = Some(ResponseSink::PartitionProcessor { caller: id(9), entry_index: 4 });
    state.invoke(a);
    state.end_invocation(id(1), EntryResult::Success(vec![42]));
    assert_eq!(state.outbox.len(), 1);
    assert_eq!(state.outbox[0].sequence_number, 0);
    match &state.outbox[0].message {
        OutboxContent::ServiceResponse { sink, invocation_id, result } => {
            assert_eq!(*sink, ResponseSink::PartitionProcessor { caller: id(9), entry_index: 4 });
            assert_eq!(*invocation_id, id(1));
            assert!(matches!(result, EntryResult::Success(b) if b == &vec![42u8]));
        }
        _ => panic!("expected a response"),
    }
    assert_eq!(state.next_outbox_sequence_number, 1);
}

#[test]
fn future_execution_time_schedules() {
    let mut state = PartitionState::new();
    let mut a = request(1, vo("x"));
    a.execution_time = Some(500);
    assert_eq!(state.invoke(a), vec![Effect::ScheduleTimer { invocation_id: id(1), due_time: 500 }]);
    assert!(matches!(status_of(&state, 1), Some(InvocationStatus::Scheduled)));
}

#[test]
fn cancel_running_invocation_adds_entry() {
    let mut state = PartitionState::new();
    state.invoke(request(1, service()));
    state.suspend(id(1), vec![7]);
    let fx = state.terminate_invocation(id(1), TerminationFlavor::Cancel);
    assert_eq!(fx, vec![Effect::InvokerResume(id(1))]);
    assert_eq!(state.invocations[0].journal[1].kind, EntryKind::CancelInvocation);
    assert!(matches!(status_of(&state, 1), Some(InvocationStatus::Invoked)));
}

#[test]
fn cancel_inboxed_invocation_completes_it() {
    let mut state = PartitionState::new();
    state.invoke(request(1, vo("x")));
    state.invoke(request(2, vo("x")));
    assert_eq!(
        state.terminate_invocation(id(2), TerminationFlavor::Cancel),
        vec![Effect::ScheduleCleanup { invocation_id: id(2), retention: 0 }]
    );
    match status_of(&state, 2) {
        Some(InvocationStatus::Completed { response_result: EntryResult::Failure(code, message) }) => {
            assert_eq!(*code, 409);
            assert_eq!(message, "canceled");
        }
        _ => panic!("expected a canceled invocation"),
    }
    assert_eq!(
        state.end_invocation(id(1), EntryResult::Success(vec![])),
        vec![Effect::ScheduleCleanup { invocation_id: id(1), retention: 0 }]
    );
}

#[test]
fn clean_forgets_completed_invocations_only() {
    let mut state = PartitionState::new();
    state.invoke(request(1, service()));
    state.clean_invocation_status(id(1));
    assert!(state.find(id(1)).is_some());
    state.end_invocation(id(1), EntryResult::Success(vec![]));
    state.clean_invocation_status(id(1));
    assert!(state.find(id(1)).is_none());
}

#[test]
fn replayed_command_changes_nothing() {
    let mut state = PartitionState::new();
    let fx = state.apply(1, 1000, Command::Invoke(request(1, service())));
    assert_eq!(fx, vec![Effect::InvokerDispatch(id(1))]);
    let fx = state.apply(1, 1000, Command::Invoke(request(2, service())));
    assert!(fx.is_empty());
    assert_eq!(state.invocations.len(), 1);
    assert_eq!(state.applied_lsn, Some(1));
    let fx = state.apply(2, 1000, Command::CompleteJournalEntry { invocation_id: id(1), entry_index: 0, result: CompletionResult::Empty });
    assert!(fx.is_empty());
    assert_eq!(state.applied_lsn, Some(2));
}

#[test]
fn lock_holder_is_unique() {
    let mut state = PartitionState::new();
    state.invoke(request(1, vo("x")));
    state.invoke(request(2, vo("x")));
    let running = state
        .invocations
        .iter()
        .filter(|e| matches!(e.stored.status, InvocationStatus::Invoked | InvocationStatus::Suspended { .. }))
        .count();
    assert_eq!(running, 1);
}

#[test]
fn user_state_commands_apply_in_log_order() {
    let svc = || ServiceId::new("counter".to_string(), "a".to_string());
    let other = || ServiceId::new("counter".to_string(), "b".to_string());
    let mut state = PartitionState::new();
    state.apply(1, 1000, Command::SetState { service_id: svc(), key: "n".to_string(), value: vec![1] });
    state.apply(2, 1000, Command::SetState { service_id: svc(), key: "n".to_string(), value: vec![2] });
    state.apply(3, 1000, Command::SetState { service_id: svc(), key: "m".to_string(), value: vec![3] });
    state.apply(4, 1000, Command::SetState { service_id: other(), key: "n".to_string(), value: vec![4] });
    assert_eq!(state.user_state.get(&svc(), &"n".to_string()), Some(vec![2]));
    state.apply(5, 1000, Command::ClearState { service_id: svc(), key: "n".to_string() });
    assert_eq!(state.user_state.get(&svc(), &"n".to_string()), None);
    assert_eq!(state.user_state.get(&svc(), &"m".to_string()), Some(vec![3]));
    state.apply(6, 1000, Command::ClearAllState { service_id: svc() });
    assert_eq!(state.user_state.get(&svc(), &"m".to_string()), None);
    assert_eq!(state.user_state.get(&other(), &"n".to_string()), Some(vec![4]));
    assert!(state.apply(6, 1000, Command::SetState { service_id: svc(), key: "n".to_string(), value: vec![9] }).is_empty());
    assert_eq!(state.user_state.get(&svc(), &"n".to_string()), None);
}

#[test]
fn deployment_is_pinned_once() {
    let mut state = PartitionState::new();
    state.invoke(request(1, service()));
    let first = PinnedDeployment { deployment_id: "dp_a".to_string(), service_protocol_version: 2 };
    let second = PinnedDeployment { deployment_id: "dp_b".to_string(), service_protocol_version: 2 };
    state.apply(1, 1000, Command::PinDeployment { invocation_id: id(1), deployment: first });
    state.apply(2, 1000, Command::PinDeployment { invocation_id: id(1), deployment: second });
    let pinned = state.invocations[0].stored.pinned_deployment.as_ref().unwrap();
    assert_eq!(pinned.deployment_id, "dp_a");
    let mut other = PartitionState::new();
    other.invoke(request(2, service()));
    let unsupported = PinnedDeployment { deployment_id: "dp_c".to_string(), service_protocol_version: 0 };
    other.pin_deployment(id(2), unsupported);
    assert!(other.invocations[0].stored.pinned_deployment.is_none());
}

fn sample_log() -> Vec<Command> {
    vec![
        Command::Invoke(request(1, vo("x"))),
        Command::Invoke(request(2, vo("x"))),
        Command::AppendJournalEntry { invocation_id: id(1), entry_index: 1, entry: entry(EntryKind::Sleep), raw_entry: vec![] },
        Command::Suspend { invocation_id: id(1), waiting_for_completed_entries: vec![1] },
        Command::CompleteJournalEntry { invocation_id: id(1), entry_index: 1, result: CompletionResult::Empty },
        Command::End { invocation_id: id(1), result: EntryResult::Success(vec![7]) },
        Command::SetState { service_id: ServiceId::new("svc".to_string(), "x".to_string()), key: "k".to_string(), value: vec![1] },
    ]
}

#[test]
fn same_log_gives_same_state() {
    let mut a = PartitionState::new();
    let mut b = PartitionState::new();
    let mut fa = Vec::new();
    let mut fb = Vec::new();
    for (lsn, command) in sample_log().into_iter().enumerate() {
        fa.push(a.apply(lsn as u64 + 1, 1000, command));
    }
    for (lsn, command) in sample_log().into_iter().enumerate() {
        fb.push(b.apply(lsn as u64 + 1, 1000, command));
    }
    assert_eq!(fa, fb);
    assert_eq!(a.invocations.len(), b.invocations.len());
    for (x, y) in a.invocations.iter().zip(b.invocations.iter()) {
        assert_eq!(x.invocation_id, y.invocation_id);
        assert_eq!(x.journal, y.journal);
        assert_eq!(format!("{:?}", status_name(&x.stored.status)), format!("{:?}", status_name(&y.stored.status)));
    }
    assert_eq!(a.next_inbox_sequence_number, b.next_inbox_sequence_number);
    assert_eq!(a.outbox.len(), b.outbox.len());
    let svc = ServiceId::new("svc".to_string(), "x".to_string());
    assert_eq!(a.user_state.get(&svc, &"k".to_string()), b.user_state.get(&svc, &"k".to_string()));
}

fn status_name(s: &InvocationStatus) -> &'static str {
    match s {
        InvocationStatus::Scheduled => "scheduled",
        InvocationStatus::Inboxed { .. } => "inboxed",
        InvocationStatus::Invoked => "invoked",
        InvocationStatus::Suspended { .. } => "suspended",
        InvocationStatus::Completed { .. } => "completed",
    }
}

#[test]
fn resume_and_send_response() {
    let mut state = PartitionState::new();
    state.invoke(request(1, service()));
    state.append_journal_entry(id(1), 1, entry(EntryKind::Call), vec![]);
    state.suspend(id(1), vec![1]);
    assert_eq!(state.apply(1, 1000, Command::Resume { invocation_id: id(1) }), vec![Effect::InvokerResume(id(1))]);
    assert!(matches!(status_of(&state, 1), Some(InvocationStatus::Invoked)));
    assert!(state.apply(2, 1000, Command::Resume { invocation_id: id(1) }).is_empty());
    state.apply(3, 1000, Command::SendResponse { invocation_id: id(1), entry_index: 1, result: EntryResult::Success(vec![3]) });
    assert!(state.invocations[0].journal[1].is_completed);
}

#[test]
fn attach_to_completed_and_running_invocations() {
    let mut state = PartitionState::new();
    state.invoke(request(1, service()));
    state.apply(1, 1000, Command::AttachInvocation { query: id(1), block_on_inflight: false, response_sink: ResponseSink::Ingress { request_id: 5 } });
    assert!(state.invocations[0].stored.response_sinks.is_empty());
    state.apply(2, 1000, Command::AttachInvocation { query: id(1), block_on_inflight: true, response_sink: ResponseSink::Ingress { request_id: 5 } });
    assert_eq!(state.invocations[0].stored.response_sinks, vec![ResponseSink::Ingress { request_id: 5 }]);
    state.apply(3, 1000, Command::End { invocation_id: id(1), result: EntryResult::Success(vec![8]) });
    assert_eq!(state.outbox.len(), 1);
    state.apply(4, 1000, Command::AttachInvocation { query: id(1), block_on_inflight: false, response_sink: ResponseSink::Ingress { request_id: 6 } });
    assert_eq!(state.outbox.len(), 2);
    match &state.outbox[1].message {
        OutboxContent::ServiceResponse { sink, invocation_id, result } => {
            assert_eq!(*sink, ResponseSink::Ingress { request_id: 6 });
            assert_eq!(*invocation_id, id(1));
            assert!(matches!(result, EntryResult::Success(b) if b == &vec![8u8]));
        }
        _ => panic!("expected a response"),
    }
}

#[test]
fn transitions_are_stamped_with_the_log_time() {
    let mut state = PartitionState::new();
    state.apply(1, 100, Command::Invoke(request(1, vo("x"))));
    state.apply(2, 200, Command::Invoke(request(2, vo("x"))));
    let b = &state.invocations[1].stored;
    assert_eq!(b.inboxed_transition_time, Some(100));
    assert_eq!(b.running_transition_time, None);
    state.apply(3, 300, Command::Suspend { invocation_id: id(1), waiting_for_completed_entries: vec![0] });
    assert_eq!(state.invocations[0].stored.modification_time, 300);
    state.apply(4, 400, Command::End { invocation_id: id(1), result: EntryResult::Success(vec![]) });
    let a = &state.invocations[0].stored;
    assert_eq!(a.completed_transition_time, Some(400));
    assert_eq!(a.modification_time, 400);
    let b = &state.invocations[1].stored;
    assert_eq!(b.running_transition_time, Some(400));
    assert_eq!(b.modification_time, 400);
    assert_eq!(b.creation_time, 100);
}

#[test]
fn journal_keeps_payloads_and_completion_results() {
    let mut state = PartitionState::new();
    let mut r = request(1, service());
    r.argument = vec![7, 7];
    state.invoke(r);
    assert_eq!(state.invocations[0].payloads[0].raw_entry, vec![7, 7]);
    state.apply(1, 10, Command::AppendJournalEntry {
        invocation_id: id(1),
        entry_index: 1,
        entry: entry(EntryKind::Call),
        raw_entry: vec![1, 2],
    });
    state.apply(2, 20, Command::SendResponse { invocation_id: id(1), entry_index: 1, result: EntryResult::Failure(3, "no".to_string()) });
    let p = &state.invocations[0].payloads[1];
    assert_eq!(p.raw_entry, vec![1, 2]);
    assert!(matches!(&p.completion, Some(CompletionResult::Failure(3, m)) if m == "no"));
    state.apply(3, 30, Command::CompleteJournalEntry { invocation_id: id(1), entry_index: 1, result: CompletionResult::Empty });
    assert!(matches!(&state.invocations[0].payloads[1].completion, Some(CompletionResult::Failure(3, _))));
}

#[test]
fn inboxed_argument_moves_into_the_input_entry() {
    let mut state = PartitionState::new();
    state.invoke(request(1, vo("x")));
    let mut b = request(2, vo("x"));
    b.argument = vec![5];
    state.invoke(b);
    assert_eq!(state.invocations[1].stored.argument, Some(vec![5]));
    state.end_invocation(id(1), EntryResult::Success(vec![]));
    assert_eq!(state.invocations[1].stored.argument, None);
    assert_eq!(state.invocations[1].payloads[0].raw_entry, vec![5]);
}
