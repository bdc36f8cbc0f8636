use restate_partition::invocation_status::InvocationStatus;
use restate_partition::state_machine::{Command, Effect, PartitionState, ServiceInvocation};
use restate_partition::timer::{timer_for_effect, Timer, TimerKey, TimerService};
use restate_partition::types::{InvocationId, InvocationTarget, VirtualObjectHandlerType};

fn id(n: u128) -> InvocationId {
    InvocationId { partition_key: 1, invocation_uuid: n }
}

fn key(due: u64, n: u128, entry: u32) -> TimerKey {
    TimerKey { due_time: due, invocation_id: id(n), entry_index: entry }
}

#[test]
fn timers_fire_in_key_order() {
    let mut timers = TimerService::new();
    timers.add(key(20, 1, 0), Timer::NeoInvoke { invocation_id: id(1) });
    timers.add(key(10, 3, 2), Timer::CompleteJournalEntry { invocation_id: id(3), entry_index: 2 });
    timers.add(key(10, 3, 1), Timer::CompleteJournalEntry { invocation_id: id(3), entry_index: 1 });
    timers.add(key(10, 2, 5), Timer::CleanInvocationStatus { invocation_id: id(2) });
    assert!(timers.pop_due(15, false).is_none());
    assert_eq!(timers.pop_due(15, true).unwrap().0, key(10, 2, 5));
    assert_eq!(timers.pop_due(15, true).unwrap().0, key(10, 3, 1));
    assert_eq!(timers.pop_due(15, true).unwrap().0, key(10, 3, 2));
    assert!(timers.pop_due(15, true).is_none());
    assert!(matches!(timers.pop_due(20, true).unwrap().1, Timer::NeoInvoke { invocation_id } if invocation_id == id(1)));
    assert!(timers.timers.is_empty());
}

#[test]
fn adding_an_existing_key_replaces_it() {
    let mut timers = TimerService::new();
    timers.add(key(5, 1, 0), Timer::NeoInvoke { invocation_id: id(1) });
    timers.add(key(5, 1, 0), Timer::CleanInvocationStatus { invocation_id: id(1) });
    assert_eq!(timers.timers.len(), 1);
    assert!(matches!(timers.timers[0].1, Timer::CleanInvocationStatus { invocation_id } if invocation_id == id(1)));
}

fn scheduled(n: u128) -> ServiceInvocation {
    ServiceInvocation {
        invocation_id: id(n),
        invocation_target: InvocationTarget::VirtualObject {
            name: "o".to_string(),
            key: "k".to_string(),
            handler: "h".to_string(),
            handler_type: VirtualObjectHandlerType::Exclusive,
        },
        response_sink: None,
        idempotency_key: None,
        execution_time: Some(50),
        creation_time: 10,
        completion_retention_duration: 0,
        argument: vec![],
        source: restate_partition::types::Source::Internal,
        span_context: restate_partition::types::SpanContext { trace_id: 1, span_id: 2, trace_flags: 0, is_remote: false },
        headers: vec![],
    }
}

#[test]
fn scheduled_invocation_starts_when_its_timer_fires() {
    let mut state = PartitionState::new();
    let fx = state.apply(1, 1000, Command::Invoke(scheduled(1)));
    assert_eq!(fx, vec![Effect::ScheduleTimer { invocation_id: id(1), due_time: 50 }]);
    let fx = state.apply(2, 1000, Command::FireTimer(Timer::NeoInvoke { invocation_id: id(1) }));
    assert_eq!(fx, vec![Effect::InvokerDispatch(id(1))]);
    assert!(matches!(state.invocations[0].stored.status, InvocationStatus::Invoked));

    state.apply(3, 1000, Command::Invoke(scheduled(2)));
    let fx = state.apply(4, 1000, Command::FireTimer(Timer::NeoInvoke { invocation_id: id(2) }));
    assert!(fx.is_empty());
    assert!(matches!(state.invocations[1].stored.status, InvocationStatus::Inboxed { inbox_sequence_number: 0 }));
}

#[test]
fn delayed_invoke_timer_starts_the_invocation() {
    let mut state = PartitionState::new();
    let mut si = scheduled(3);
    si.execution_time = None;
    let fx = state.apply(1, 1000, Command::FireTimer(Timer::Invoke(si)));
    assert_eq!(fx, vec![Effect::InvokerDispatch(id(3))]);
}

#[test]
fn effects_become_timers_at_the_command_time() {
    let (k, t) = timer_for_effect(Effect::ScheduleTimer { invocation_id: id(1), due_time: 70 }, 5).unwrap();
    assert_eq!(k, key(70, 1, 0));
    assert!(matches!(t, Timer::NeoInvoke { invocation_id } if invocation_id == id(1)));
    let (k, t) = timer_for_effect(Effect::ScheduleCleanup { invocation_id: id(2), retention: 30 }, 100).unwrap();
    assert_eq!(k, key(130, 2, 0));
    assert!(matches!(t, Timer::CleanInvocationStatus { invocation_id } if invocation_id == id(2)));
    let (k, _) = timer_for_effect(Effect::ScheduleCleanup { invocation_id: id(2), retention: u64::MAX }, 100).unwrap();
    assert_eq!(k.due_time, u64::MAX);
    assert!(timer_for_effect(Effect::InvokerDispatch(id(3)), 1).is_none());
}
