use vstd::prelude::*;

use crate::invocation_status::{InvocationStatus, StoredInvocation, opt_text};
use crate::journal::{CompletionModel, CompletionResult, EntryPayload, completion_model, completion_of, opt_completion_model, payloads_extend};
use crate::state_table::{StateContents, StateTable, without_service};
use crate::timer::Timer;
use crate::types::{
    EntryIndex, EntryResult, EntryResultModel, InvocationId, InvocationTarget, MAX_SERVICE_PROTOCOL_VERSION, PinnedDeployment, ResponseSink,
    ServiceId, ServiceKey, is_supported_protocol, Source, SpanContext, Header,
};

verus! {

/// The kind of a journal entry.
#[derive(Clone, Copy, Debug, PartialEq, Eq, Structural)]
pub enum EntryKind {
    Input,
    Output,
    GetState,
    SetState,
    ClearState,
    ClearAllState,
    GetStateKeys,
    GetPromise,
    PeekPromise,
    CompletePromise,
    Sleep,
    Call,
    OneWayCall,
    Awakeable,
    CompleteAwakeable,
    Run,
    CancelInvocation,
    GetCallInvocationId,
    AttachInvocation,
    GetInvocationOutput,
    Custom(u16),
}

/// One step of an invocation's journal.
#[derive(Clone, Copy, Debug, PartialEq, Eq, Structural)]
pub struct JournalEntry {
    pub kind: EntryKind,
    pub is_completed: bool,
}

/// An invocation as the partition keeps it: its id, its stored status record and its journal.
pub struct InvocationEntry {
    pub invocation_id: InvocationId,
    pub stored: StoredInvocation,
    pub journal: Vec<JournalEntry>,
    /// The bytes and the completion result of each journal entry, at the entry's index.
    pub payloads: Vec<EntryPayload>,
}

/// A message queued for another partition or the ingress, in sequence order.
pub struct OutboxMessage {
    pub sequence_number: u64,
    pub message: OutboxContent,
}

/// What an outbox message carries.
pub enum OutboxContent {
    /// The result of an invocation, for one of its response sinks.
    ServiceResponse { sink: ResponseSink, invocation_id: InvocationId, result: EntryResult },
    /// A request to run a handler in the partition that owns its target.
    ServiceInvocation(ServiceInvocation),
    /// A request to kill or cancel an invocation.
    InvocationTermination { invocation_id: InvocationId, flavor: TerminationFlavor },
    /// A request to send the result of `query` to `response_sink`, waiting for it to complete
    /// if `block_on_inflight`.
    AttachInvocation { query: InvocationId, block_on_inflight: bool, response_sink: ResponseSink },
}

/// How an invocation is ended from outside.
#[derive(Clone, Copy, Debug, PartialEq, Eq, Structural)]
pub enum TerminationFlavor {
    Kill,
    Cancel,
}

/// A request to run a handler.
pub struct ServiceInvocation {
    pub invocation_id: InvocationId,
    pub invocation_target: InvocationTarget,
    pub response_sink: Option<ResponseSink>,
    pub idempotency_key: Option<String>,
    pub execution_time: Option<u64>,
    pub creation_time: u64,
    pub completion_retention_duration: u64,
    pub argument: Vec<u8>,
    pub source: Source,
    pub span_context: SpanContext,
    pub headers: Vec<Header>,
}

/// What the partition asks of the outside world once a command is committed.
#[derive(Clone, Copy, Debug, PartialEq, Eq, Structural)]
pub enum Effect {
    /// Start running the invocation in a deployment.
    InvokerDispatch(InvocationId),
    /// Resume a suspended invocation.
    InvokerResume(InvocationId),
    /// Stop running the invocation.
    InvokerAbort(InvocationId),
    /// Fire a timer for the invocation at the given time.
    ScheduleTimer { invocation_id: InvocationId, due_time: u64 },
    /// Forget the completed invocation once `retention` has elapsed from now.
    ScheduleCleanup { invocation_id: InvocationId, retention: u64 },
}

/// Whether the invocation is running: invoked or suspended.
pub open spec fn is_running(e: InvocationEntry) -> bool {
    e.stored.status is Invoked || e.stored.status is Suspended
}

/// Whether the invocation holds the lock of service instance `k`.
pub open spec fn holds_lock(e: InvocationEntry, k: ServiceKey) -> bool {
    is_running(e) && e.stored.invocation_target.locked_service() == Some(k)
}

/// Whether the invocation waits for its execution time.
pub open spec fn is_scheduled(e: InvocationEntry) -> bool {
    e.stored.status is Scheduled
}

/// Whether the invocation waits in an inbox.
pub open spec fn is_inboxed(e: InvocationEntry) -> bool {
    e.stored.status is Inboxed
}

/// Whether the invocation waits in the inbox of service instance `k`.
pub open spec fn is_inboxed_for(e: InvocationEntry, k: ServiceKey) -> bool {
    e.stored.status is Inboxed && e.stored.invocation_target.locked_service() == Some(k)
}

/// The inbox sequence number of an inboxed invocation.
pub open spec fn inbox_seq(e: InvocationEntry) -> u64 {
    match e.stored.status {
        InvocationStatus::Inboxed { inbox_sequence_number } => inbox_sequence_number,
        _ => 0,
    }
}

/// Whether only completed journal entries carry a completion result.
pub open spec fn completions_marked(e: InvocationEntry) -> bool {
    forall|j: int|
        0 <= j < e.payloads@.len() && j < e.journal@.len() && (#[trigger] e.payloads@[j]).completion is Some
            ==> e.journal@[j].is_completed
}

/// Whether `new` is `old` with entries added at the end and some entries newly marked completed.
pub open spec fn journal_extends(old: Seq<JournalEntry>, new: Seq<JournalEntry>) -> bool {
    &&& old.len() <= new.len()
    &&& forall|i: int| 0 <= i < old.len() ==> (#[trigger] new[i]).kind == old[i].kind && (old[i].is_completed ==> new[i].is_completed)
}

/// The state of a partition: its invocations with their journals, the queued responses and counters.
pub struct PartitionState {
    pub invocations: Vec<InvocationEntry>,
    pub user_state: StateTable,
    pub outbox: Vec<OutboxMessage>,
    pub next_inbox_sequence_number: u64,
    pub next_outbox_sequence_number: u64,
    pub applied_lsn: Option<u64>,
    /// The time recorded with the command being applied, fixed by the log; every timestamp the
    /// partition writes comes from it.
    pub log_time: u64,
}

impl PartitionState {
    /// The partition's invariants: invocation ids are unique; no two running invocations hold
    /// the same lock; inbox sequence numbers are unique and below the counter; every journal's
    /// recorded length is its length; outbox sequence numbers ascend below their counter.
    pub open spec fn wf(&self) -> bool {
        &&& forall|i: int, j: int|
            0 <= i < j < self.invocations@.len() ==> self.invocations@[i].invocation_id
                != self.invocations@[j].invocation_id
        &&& self.lock_exclusive()
        &&& self.user_state.wf()
        &&& forall|i: int| 0 <= i < self.invocations@.len() ==> (#[trigger] self.invocations@[i]).stored.argument_matches_status()
        &&& forall|i: int| 0 <= i < self.invocations@.len() ==> completions_marked(#[trigger] self.invocations@[i])
        &&& forall|i: int|
            0 <= i < self.invocations@.len() ==> (#[trigger] self.invocations@[i]).stored.journal_length
                == self.invocations@[i].journal@.len() && self.invocations@[i].payloads@.len()
                == self.invocations@[i].journal@.len()
        &&& forall|i: int|
            0 <= i < self.invocations@.len() && is_inboxed(#[trigger] self.invocations@[i]) ==> inbox_seq(
                self.invocations@[i],
            ) < self.next_inbox_sequence_number && self.invocations@[i].stored.invocation_target.locked_service() is Some
                && self.invocations@[i].journal@.len() == 0
        &&& forall|i: int|
            0 <= i < self.invocations@.len() && is_scheduled(#[trigger] self.invocations@[i]) ==> self.invocations@[i].journal@.len() == 0
        &&& forall|i: int, j: int|
            0 <= i < self.invocations@.len() && 0 <= j < self.invocations@.len() && i != j && is_inboxed(
                #[trigger] self.invocations@[i],
            ) && is_inboxed(#[trigger] self.invocations@[j]) ==> inbox_seq(self.invocations@[i]) != inbox_seq(
                self.invocations@[j],
            )
        &&& forall|i: int|
            0 <= i < self.outbox@.len() ==> (#[trigger] self.outbox@[i]).sequence_number
                < self.next_outbox_sequence_number
        &&& forall|i: int, j: int|
            0 <= i < j < self.outbox@.len() ==> self.outbox@[i].sequence_number < self.outbox@[j].sequence_number
    }

    /// At most one running invocation holds the lock of each service instance.
    pub open spec fn lock_exclusive(&self) -> bool {
        forall|i: int, j: int, k: ServiceKey|
            0 <= i < self.invocations@.len() && 0 <= j < self.invocations@.len() && #[trigger] holds_lock(
                self.invocations@[i],
                k,
            ) && #[trigger] holds_lock(self.invocations@[j], k) ==> i == j
    }

    /// Whether an invocation with `id` is known.
    pub open spec fn contains(&self, id: InvocationId) -> bool {
        exists|i: int| 0 <= i < self.invocations@.len() && self.invocations@[i].invocation_id == id
    }

    /// Whether every journal of `self` extends the journal it had in `before`.
    pub open spec fn journals_extend(&self, before: &PartitionState) -> bool {
        forall|i: int, j: int|
            0 <= i < before.invocations@.len() && 0 <= j < self.invocations@.len()
                && before.invocations@[i].invocation_id == self.invocations@[j].invocation_id ==> journal_extends(
                #[trigger] before.invocations@[i].journal@,
                #[trigger] self.invocations@[j].journal@,
            ) && payloads_extend(before.invocations@[i].payloads@, self.invocations@[j].payloads@)
    }

    /// A partition with nothing in it.
    pub fn new() -> (r: PartitionState)
        ensures
            r.wf(),
            r.invocations@.len() == 0,
            r.user_state@ == crate::state_table::StateContents::empty(),
            r.outbox@.len() == 0,
            r.next_inbox_sequence_number == 0,
            r.next_outbox_sequence_number == 0,
            r.applied_lsn is None,
            r.log_time == 0,
    {
        PartitionState {
            invocations: Vec::new(),
            user_state: StateTable::new(),
            outbox: Vec::new(),
            next_inbox_sequence_number: 0,
            next_outbox_sequence_number: 0,
            applied_lsn: None,
            log_time: 0,
        }
    }

    /// The position of the invocation with `id`, if any.
    pub fn find(&self, id: InvocationId) -> (r: Option<usize>)
        ensures
            match r {
                Some(i) => i < self.invocations@.len() && self.invocations@[i as int].invocation_id == id,
                None => !self.contains(id),
            },
    {
        let mut i: usize = 0;
        while i < self.invocations.len()
            invariant
                i <= self.invocations@.len(),
                forall|j: int| 0 <= j < i ==> self.invocations@[j].invocation_id != id,
            decreases self.invocations@.len() - i,
        {
            if self.invocations[i].invocation_id == id {
                return Some(i);
            }
            i = i + 1;
        }
        None
    }

    /// The position of the running invocation that holds the lock of `service`, if any.
    pub fn lock_holder(&self, service: &ServiceId) -> (r: Option<usize>)
        ensures
            match r {
                Some(i) => i < self.invocations@.len() && holds_lock(self.invocations@[i as int], service.model()),
                None => forall|j: int| 0 <= j < self.invocations@.len() ==> !holds_lock(#[trigger] self.invocations@[j], service.model()),
            },
    {
        let mut i: usize = 0;
        while i < self.invocations.len()
            invariant
                i <= self.invocations@.len(),
                forall|j: int| 0 <= j < i ==> !holds_lock(#[trigger] self.invocations@[j], service.model()),
            decreases self.invocations@.len() - i,
        {
            let e = &self.invocations[i];
            let running = match e.stored.status {
                InvocationStatus::Invoked => true,
                InvocationStatus::Suspended { .. } => true,
                _ => false,
            };
            if running {
                match e.stored.invocation_target.lock_service_id() {
                    Some(s) => {
                        if s.same_as(service) {
                            return Some(i);
                        }
                    },
                    None => {},
                }
            }
            i = i + 1;
        }
        None
    }

    /// The position of the invocation that waits longest in the inbox of `service`: the one with the
    /// lowest inbox sequence number, if any waits.
    pub fn next_inboxed(&self, service: &ServiceId) -> (r: Option<usize>)
        ensures
            match r {
                Some(i) => i < self.invocations@.len() && is_inboxed_for(self.invocations@[i as int], service.model())
                    && forall|j: int| 0 <= j < self.invocations@.len() && is_inboxed_for(#[trigger] self.invocations@[j], service.model())
                        ==> inbox_seq(self.invocations@[i as int]) <= inbox_seq(self.invocations@[j]),
                None => forall|j: int| 0 <= j < self.invocations@.len() ==> !is_inboxed_for(#[trigger] self.invocations@[j], service.model()),
            },
    {
        let mut best: Option<usize> = None;
        let mut i: usize = 0;
        while i < self.invocations.len()
            invariant
                i <= self.invocations@.len(),
                match best {
                    Some(b) => b < i && is_inboxed_for(self.invocations@[b as int], service.model())
                        && forall|j: int| 0 <= j < i && is_inboxed_for(#[trigger] self.invocations@[j], service.model())
                            ==> inbox_seq(self.invocations@[b as int]) <= inbox_seq(self.invocations@[j]),
                    None => forall|j: int| 0 <= j < i ==> !is_inboxed_for(#[trigger] self.invocations@[j], service.model()),
                },
            decreases self.invocations@.len() - i,
        {
            let e = &self.invocations[i];
            match e.stored.status {
                InvocationStatus::Inboxed { inbox_sequence_number } => {
                    match e.stored.invocation_target.lock_service_id() {
                        Some(s) => {
                            if s.same_as(service) {
                                match best {
                                    Some(b) => {
                                        let bs = match self.invocations[b].stored.status {
                                            InvocationStatus::Inboxed { inbox_sequence_number } => inbox_sequence_number,
                                            _ => 0,
                                        };
                                        if inbox_sequence_number < bs {
                                            best = Some(i);
                                        }
                                    },
                                    None => {
                                        best = Some(i);
                                    },
                                }
                            }
                        },
                        None => {},
                    }
                },
                _ => {},
            }
            i = i + 1;
        }
        best
    }
}

/// What identifies a request for idempotency: the service name, the object key (none for a
/// plain service) and the handler.
pub open spec fn idempotency_scope(t: InvocationTarget) -> (Seq<char>, Option<Seq<char>>, Seq<char>) {
    match t {
        InvocationTarget::Service { name, handler } => (name@, None, handler@),
        InvocationTarget::VirtualObject { name, key, handler, .. } => (name@, Some(key@), handler@),
        InvocationTarget::Workflow { name, key, handler, .. } => (name@, Some(key@), handler@),
    }
}

/// Whether `si` repeats the invocation `e`: the same invocation id, or the same idempotency key
/// for the same service, object and handler.
pub open spec fn repeats(e: InvocationEntry, si: ServiceInvocation) -> bool {
    ||| e.invocation_id == si.invocation_id
    ||| (si.idempotency_key matches Some(k) && e.stored.idempotency_key matches Some(k2) && k@ == k2@
        && idempotency_scope(e.stored.invocation_target) == idempotency_scope(si.invocation_target))
}

/// The response sinks after adding `sink`: unchanged if it is absent or already present.
pub open spec fn merge_sink(sinks: Seq<ResponseSink>, sink: Option<ResponseSink>) -> Seq<ResponseSink> {
    match sink {
        Some(s) => if sinks.contains(s) {
            sinks
        } else {
            sinks.push(s)
        },
        None => sinks,
    }
}

/// Whether a new invocation starts scheduled: its execution time lies after its creation time.
pub open spec fn starts_scheduled(si: ServiceInvocation) -> bool {
    si.execution_time matches Some(t) && t > si.creation_time
}

fn scope_parts(t: &InvocationTarget) -> (r: (&String, Option<&String>, &String))
    ensures
        idempotency_scope(*t) == (r.0@, match r.1 { Some(k) => Some(k@), None => None::<Seq<char>> }, r.2@),
{
    match t {
        InvocationTarget::Service { name, handler } => (name, None, handler),
        InvocationTarget::VirtualObject { name, key, handler, .. } => (name, Some(key), handler),
        InvocationTarget::Workflow { name, key, handler, .. } => (name, Some(key), handler),
    }
}

fn same_text(a: &String, b: &String) -> (r: bool)
    ensures
        r == (a@ == b@),
{
    *a == *b
}

fn same_scope(a: &InvocationTarget, b: &InvocationTarget) -> (r: bool)
    ensures
        r == (idempotency_scope(*a) == idempotency_scope(*b)),
{
    let (an, ak, ah) = scope_parts(a);
    let (bn, bk, bh) = scope_parts(b);
    let keys_equal = match (ak, bk) {
        (Some(x), Some(y)) => same_text(x, y),
        (None, None) => true,
        _ => false,
    };
    same_text(an, bn) && keys_equal && same_text(ah, bh)
}

fn is_repeat(e: &InvocationEntry, si: &ServiceInvocation) -> (r: bool)
    ensures
        r == repeats(*e, *si),
{
    if e.invocation_id == si.invocation_id {
        return true;
    }
    match (&si.idempotency_key, &e.stored.idempotency_key) {
        (Some(k), Some(k2)) => same_text(k, k2) && same_scope(&e.stored.invocation_target, &si.invocation_target),
        _ => false,
    }
}

/// Whether two entries agree in everything the partition's invariants speak of.
pub open spec fn same_shape(a: InvocationEntry, b: InvocationEntry) -> bool {
    &&& a.invocation_id == b.invocation_id
    &&& a.stored.status == b.stored.status
    &&& a.stored.invocation_target == b.stored.invocation_target
    &&& a.stored.journal_length == b.stored.journal_length
    &&& a.journal == b.journal
    &&& a.payloads == b.payloads
    &&& a.stored.argument == b.stored.argument
}

proof fn lemma_wf_same_shape(before: PartitionState, after: PartitionState)
    requires
        before.wf(),
        after.invocations@.len() == before.invocations@.len(),
        forall|j: int| 0 <= j < after.invocations@.len() ==> same_shape(before.invocations@[j], #[trigger] after.invocations@[j]),
        after.outbox == before.outbox,
        after.user_state == before.user_state,
        after.next_inbox_sequence_number == before.next_inbox_sequence_number,
        after.next_outbox_sequence_number == before.next_outbox_sequence_number,
    ensures
        after.wf(),
        after.journals_extend(&before),
{
    assert forall|i: int, j: int, k: ServiceKey|
        0 <= i < after.invocations@.len() && 0 <= j < after.invocations@.len() && #[trigger] holds_lock(
            after.invocations@[i],
            k,
        ) && #[trigger] holds_lock(after.invocations@[j], k) implies i == j by {
        assert(same_shape(before.invocations@[i], after.invocations@[i]));
        assert(same_shape(before.invocations@[j], after.invocations@[j]));
        assert(holds_lock(before.invocations@[i], k));
        assert(holds_lock(before.invocations@[j], k));
    }
    assert forall|i: int| 0 <= i < after.invocations@.len() implies (#[trigger] after.invocations@[i]).stored.argument_matches_status() by {
        assert(same_shape(before.invocations@[i], after.invocations@[i]));
        assert(before.invocations@[i].stored.argument_matches_status());
    }
    assert forall|i: int| 0 <= i < after.invocations@.len() implies (#[trigger] after.invocations@[i]).stored.journal_length
        == after.invocations@[i].journal@.len() && after.invocations@[i].payloads@.len() == after.invocations@[i].journal@.len() by {
        assert(same_shape(before.invocations@[i], after.invocations@[i]));
        assert(before.invocations@[i].stored.journal_length == before.invocations@[i].journal@.len() && before.invocations@[i].payloads@.len() == before.invocations@[i].journal@.len());
    }
    assert forall|i: int| 0 <= i < after.invocations@.len() && is_inboxed(#[trigger] after.invocations@[i]) implies inbox_seq(
        after.invocations@[i],
    ) < after.next_inbox_sequence_number && after.invocations@[i].stored.invocation_target.locked_service() is Some
        && after.invocations@[i].journal@.len() == 0 by {
        assert(same_shape(before.invocations@[i], after.invocations@[i]));
        assert(is_inboxed(before.invocations@[i]));
    }
    assert forall|i: int| 0 <= i < after.invocations@.len() && is_scheduled(#[trigger] after.invocations@[i]) implies
        after.invocations@[i].journal@.len() == 0 by {
        assert(same_shape(before.invocations@[i], after.invocations@[i]));
        assert(is_scheduled(before.invocations@[i]));
    }
    assert forall|i: int, j: int|
        0 <= i < after.invocations@.len() && 0 <= j < after.invocations@.len() && i != j && is_inboxed(
            #[trigger] after.invocations@[i],
        ) && is_inboxed(#[trigger] after.invocations@[j]) implies inbox_seq(after.invocations@[i]) != inbox_seq(
        after.invocations@[j],
    ) by {
        assert(same_shape(before.invocations@[i], after.invocations@[i]));
        assert(same_shape(before.invocations@[j], after.invocations@[j]));
        assert(is_inboxed(before.invocations@[i]));
        assert(is_inboxed(before.invocations@[j]));
    }
    assert forall|i: int, j: int|
        0 <= i < before.invocations@.len() && 0 <= j < after.invocations@.len()
            && before.invocations@[i].invocation_id == after.invocations@[j].invocation_id implies journal_extends(
        #[trigger] before.invocations@[i].journal@,
        #[trigger] after.invocations@[j].journal@,
    ) && payloads_extend(before.invocations@[i].payloads@, after.invocations@[j].payloads@) by {
        assert(same_shape(before.invocations@[j], after.invocations@[j]));
        if i != j {
            if i < j {
                assert(before.invocations@[i].invocation_id != before.invocations@[j].invocation_id);
            } else {
                assert(before.invocations@[j].invocation_id != before.invocations@[i].invocation_id);
            }
        }
    }
    assert forall|i: int, j: int| 0 <= i < j < after.invocations@.len() implies after.invocations@[i].invocation_id
        != after.invocations@[j].invocation_id by {
        assert(same_shape(before.invocations@[i], after.invocations@[i]));
        assert(same_shape(before.invocations@[j], after.invocations@[j]));
    }
}

impl PartitionState {
    fn find_repeated(&self, si: &ServiceInvocation) -> (r: Option<usize>)
        ensures
            match r {
                Some(i) => i < self.invocations@.len() && repeats(self.invocations@[i as int], *si),
                None => forall|j: int| 0 <= j < self.invocations@.len() ==> !repeats(#[trigger] self.invocations@[j], *si),
            },
    {
        let mut i: usize = 0;
        while i < self.invocations.len()
            invariant
                i <= self.invocations@.len(),
                forall|j: int| 0 <= j < i ==> !repeats(#[trigger] self.invocations@[j], *si),
            decreases self.invocations@.len() - i,
        {
            if is_repeat(&self.invocations[i], si) {
                return Some(i);
            }
            i = i + 1;
        }
        None
    }

    fn add_sink(&mut self, i: usize, sink: Option<ResponseSink>)
        requires
            old(self).wf(),
            i < old(self).invocations@.len(),
        ensures
            final(self).user_state == old(self).user_state,
            final(self).wf(),
            final(self).invocations@.len() == old(self).invocations@.len(),
            final(self).invocations@[i as int].stored.response_sinks@ == merge_sink(
                old(self).invocations@[i as int].stored.response_sinks@,
                sink,
            ),
            same_identity(old(self).invocations@[i as int], final(self).invocations@[i as int]),
            touched(old(self).invocations@[i as int], final(self).invocations@[i as int], old(self).log_time),
            final(self).invocations@[i as int].stored.pinned_deployment == old(self).invocations@[i as int].stored.pinned_deployment,
            final(self).invocations@[i as int].stored.argument == old(self).invocations@[i as int].stored.argument,
            final(self).invocations@[i as int].invocation_id == old(self).invocations@[i as int].invocation_id,
            final(self).invocations@[i as int].stored.status == old(self).invocations@[i as int].stored.status,
            final(self).invocations@[i as int].stored.invocation_target == old(self).invocations@[i as int].stored.invocation_target,
            final(self).invocations@[i as int].journal == old(self).invocations@[i as int].journal,
            final(self).invocations@[i as int].payloads == old(self).invocations@[i as int].payloads,
            final(self).invocations@[i as int].stored.journal_length == old(self).invocations@[i as int].stored.journal_length,
            forall|j: int| 0 <= j < final(self).invocations@.len() && j != i ==> final(self).invocations@[j] == old(self).invocations@[j],
            final(self).outbox == old(self).outbox,
            final(self).next_inbox_sequence_number == old(self).next_inbox_sequence_number,
            final(self).next_outbox_sequence_number == old(self).next_outbox_sequence_number,
            final(self).applied_lsn == old(self).applied_lsn,
            final(self).log_time == old(self).log_time,
    {
        if let Some(s) = sink {
            let mut present = false;
            let mut j: usize = 0;
            let n = self.invocations[i].stored.response_sinks.len();
            while j < n
                invariant
                    n == self.invocations@[i as int].stored.response_sinks@.len(),
                    i < self.invocations@.len(),
                    j <= n,
                    present == exists|m: int| 0 <= m < j && self.invocations@[i as int].stored.response_sinks@[m] == s,
                decreases n - j,
            {
                if self.invocations[i].stored.response_sinks[j] == s {
                    present = true;
                }
                j = j + 1;
            }
            if !present {
                self.invocations[i].stored.response_sinks.push(s);
            }
        }
        self.invocations[i].stored.modification_time = self.log_time;
        proof {
            lemma_wf_same_shape(*old(self), *self);
        }
    }
}

impl PartitionState {
    /// Applies `Invoke`. A request that repeats a known invocation (same id, or same idempotency
    /// key for the same service, object and handler) only adds its response sink to that
    /// invocation. Otherwise a new invocation is added: scheduled with a timer when its execution
    /// time lies ahead; inboxed with the next inbox sequence number when another invocation holds
    /// the lock it needs; invoked otherwise, with an `Input` entry and a dispatch to the invoker.
    pub fn invoke(&mut self, si: ServiceInvocation) -> (effects: Vec<Effect>)
        requires
            old(self).wf(),
            old(self).next_inbox_sequence_number < u64::MAX,
        ensures
            final(self).wf(),
            final(self).journals_extend(old(self)),
            final(self).applied_lsn == old(self).applied_lsn,
            final(self).log_time == old(self).log_time,
            invoke_outcome(*old(self), *final(self), si, effects@),
    {
        match self.find_repeated(&si) {
            Some(i) => {
                self.add_sink(i, si.response_sink);
                return Vec::new();
            },
            None => {},
        }
        let id = si.invocation_id;
        let mut effects: Vec<Effect> = Vec::new();
        let mut journal: Vec<JournalEntry> = Vec::new();
        let scheduled = match si.execution_time {
            Some(t) => t > si.creation_time,
            None => false,
        };
        let mut started_inboxed = false;
        let status = if scheduled {
            effects.push(Effect::ScheduleTimer { invocation_id: id, due_time: si.execution_time.unwrap() });
            InvocationStatus::Scheduled
        } else {
            let blocked = match si.invocation_target.lock_service_id() {
                Some(service) => self.lock_holder(&service).is_some(),
                None => false,
            };
            if blocked {
                let n = self.next_inbox_sequence_number;
                self.next_inbox_sequence_number = n + 1;
                started_inboxed = true;
                InvocationStatus::Inboxed { inbox_sequence_number: n }
            } else {
                journal.push(JournalEntry { kind: EntryKind::Input, is_completed: true });
                effects.push(Effect::InvokerDispatch(id));
                InvocationStatus::Invoked
            }
        };
        let mut payloads: Vec<EntryPayload> = Vec::new();
        let argument = if scheduled || started_inboxed {
            Some(si.argument)
        } else {
            payloads.push(EntryPayload { raw_entry: si.argument, completion: None });
            None
        };
        let mut response_sinks: Vec<ResponseSink> = Vec::new();
        if let Some(s) = si.response_sink {
            response_sinks.push(s);
        }
        proof {
            assert(merge_sink(Seq::empty(), si.response_sink) =~= response_sinks@);
        }
        let journal_length = journal.len() as u32;
        let entry = InvocationEntry {
            invocation_id: id,
            stored: StoredInvocation {
                status,
                invocation_target: si.invocation_target,
                response_sinks,
                journal_length,
                idempotency_key: si.idempotency_key,
                creation_time: si.creation_time,
                modification_time: si.creation_time,
                execution_time: si.execution_time,
                completion_retention_duration: si.completion_retention_duration,
                pinned_deployment: None,
                argument,
                source: si.source,
                span_context: si.span_context,
                headers: si.headers,
                inboxed_transition_time: if started_inboxed { Some(si.creation_time) } else { None },
                scheduled_transition_time: if scheduled { Some(si.creation_time) } else { None },
                running_transition_time: if started_inboxed || scheduled { None } else { Some(si.creation_time) },
                completed_transition_time: None,
            },
            journal,
            payloads,
        };
        let ghost before = *self;
        self.invocations.push(entry);
        proof {
            let n = before.invocations@.len() as int;
            assert(self.invocations@[n] == entry);
            assert forall|j: int| 0 <= j < n implies (#[trigger] self.invocations@[j]) == before.invocations@[j] by {}
            assert forall|a: int, b: int, k: ServiceKey|
                0 <= a < self.invocations@.len() && 0 <= b < self.invocations@.len() && #[trigger] holds_lock(
                    self.invocations@[a],
                    k,
                ) && #[trigger] holds_lock(self.invocations@[b], k) implies a == b by {
                if a != b {
                    if a == n {
                        assert(holds_lock(before.invocations@[b], k));
                    } else if b == n {
                        assert(holds_lock(before.invocations@[a], k));
                    } else {
                        assert(holds_lock(before.invocations@[a], k));
                        assert(holds_lock(before.invocations@[b], k));
                    }
                }
            }
            assert forall|a: int| 0 <= a < self.invocations@.len() && is_inboxed(#[trigger] self.invocations@[a]) implies inbox_seq(
                self.invocations@[a],
            ) < self.next_inbox_sequence_number && self.invocations@[a].stored.invocation_target.locked_service() is Some
                && self.invocations@[a].journal@.len() == 0 by {
                if a < n {
                    assert(is_inboxed(before.invocations@[a]));
                }
            }
            assert forall|a: int, b: int|
                0 <= a < self.invocations@.len() && 0 <= b < self.invocations@.len() && a != b && is_inboxed(
                    #[trigger] self.invocations@[a],
                ) && is_inboxed(#[trigger] self.invocations@[b]) implies inbox_seq(self.invocations@[a]) != inbox_seq(
                self.invocations@[b],
            ) by {
                if a < n {
                    assert(is_inboxed(before.invocations@[a]));
                }
                if b < n {
                    assert(is_inboxed(before.invocations@[b]));
                }
            }
            assert forall|a: int| 0 <= a < self.invocations@.len() && is_scheduled(#[trigger] self.invocations@[a]) implies
                self.invocations@[a].journal@.len() == 0 by {
                if a < n {
                    assert(is_scheduled(before.invocations@[a]));
                }
            }
            assert forall|a: int| 0 <= a < self.invocations@.len() implies (#[trigger] self.invocations@[a]).stored.journal_length
                == self.invocations@[a].journal@.len() && self.invocations@[a].payloads@.len() == self.invocations@[a].journal@.len() by {
                if a < n {
                    assert(before.invocations@[a].stored.journal_length == before.invocations@[a].journal@.len() && before.invocations@[a].payloads@.len() == before.invocations@[a].journal@.len());
                }
            }
            assert forall|a: int, b: int| 0 <= a < b < self.invocations@.len() implies self.invocations@[a].invocation_id
                != self.invocations@[b].invocation_id by {
                if b == n {
                    assert(!repeats(before.invocations@[a], si));
                }
            }
            assert forall|a: int, b: int|
                0 <= a < before.invocations@.len() && 0 <= b < self.invocations@.len()
                    && before.invocations@[a].invocation_id == self.invocations@[b].invocation_id implies journal_extends(
                #[trigger] before.invocations@[a].journal@,
                #[trigger] self.invocations@[b].journal@,
            ) && payloads_extend(before.invocations@[a].payloads@, self.invocations@[b].payloads@) by {
                if b == n {
                    assert(!repeats(before.invocations@[a], si));
                } else if a != b {
                    if a < b {
                        assert(before.invocations@[a].invocation_id != before.invocations@[b].invocation_id);
                    } else {
                        assert(before.invocations@[b].invocation_id != before.invocations@[a].invocation_id);
                    }
                }
            }
            assert(self.invocations@.drop_last() =~= before.invocations@);
        }
        effects
    }
}

/// Whether `before` and `after` differ at most in entry `i`, which keeps its id and target
/// and whose journal only grows.
pub open spec fn changes_only(before: PartitionState, after: PartitionState, i: int) -> bool {
    &&& 0 <= i < before.invocations@.len()
    &&& after.invocations@.len() == before.invocations@.len()
    &&& forall|j: int| 0 <= j < after.invocations@.len() && j != i ==> #[trigger] after.invocations@[j] == before.invocations@[j]
    &&& same_record(before.invocations@[i], after.invocations@[i])
    &&& after.invocations@[i].stored.journal_length == after.invocations@[i].journal@.len()
    &&& after.invocations@[i].payloads@.len() == after.invocations@[i].journal@.len()
    &&& journal_extends(before.invocations@[i].journal@, after.invocations@[i].journal@)
    &&& payloads_extend(before.invocations@[i].payloads@, after.invocations@[i].payloads@)
    &&& completions_marked(after.invocations@[i])
}

/// Whether the outbox of `s` is well ordered below its counter.
pub open spec fn outbox_ordered(s: PartitionState) -> bool {
    &&& forall|i: int| 0 <= i < s.outbox@.len() ==> (#[trigger] s.outbox@[i]).sequence_number < s.next_outbox_sequence_number
    &&& forall|i: int, j: int| 0 <= i < j < s.outbox@.len() ==> s.outbox@[i].sequence_number < s.outbox@[j].sequence_number
}

proof fn lemma_wf_update(before: PartitionState, after: PartitionState, i: int)
    requires
        before.wf(),
        changes_only(before, after, i),
        after.user_state == before.user_state,
        after.next_inbox_sequence_number == before.next_inbox_sequence_number,
        outbox_ordered(after),
        forall|k: ServiceKey| #[trigger] holds_lock(after.invocations@[i], k) ==> holds_lock(before.invocations@[i], k)
            || forall|j: int| 0 <= j < before.invocations@.len() && j != i ==> !holds_lock(#[trigger] before.invocations@[j], k),
        is_inboxed(after.invocations@[i]) ==> is_inboxed(before.invocations@[i]) && inbox_seq(after.invocations@[i])
            == inbox_seq(before.invocations@[i]) && after.invocations@[i].journal@.len() == 0,
        is_scheduled(after.invocations@[i]) ==> after.invocations@[i].journal@.len() == 0,
        after.invocations@[i].stored.argument_matches_status(),
    ensures
        after.wf(),
        after.journals_extend(&before),
{
    assert forall|a: int, b: int, k: ServiceKey|
        0 <= a < after.invocations@.len() && 0 <= b < after.invocations@.len() && #[trigger] holds_lock(
            after.invocations@[a],
            k,
        ) && #[trigger] holds_lock(after.invocations@[b], k) implies a == b by {
        if a != b {
            if a == i {
                assert(after.invocations@[b] == before.invocations@[b]);
                if holds_lock(before.invocations@[i], k) {
                    assert(holds_lock(before.invocations@[b], k));
                }
            } else if b == i {
                assert(after.invocations@[a] == before.invocations@[a]);
                if holds_lock(before.invocations@[i], k) {
                    assert(holds_lock(before.invocations@[a], k));
                }
            } else {
                assert(after.invocations@[a] == before.invocations@[a]);
                assert(after.invocations@[b] == before.invocations@[b]);
                assert(holds_lock(before.invocations@[a], k));
                assert(holds_lock(before.invocations@[b], k));
            }
        }
    }
    assert forall|a: int| 0 <= a < after.invocations@.len() implies (#[trigger] after.invocations@[a]).stored.journal_length
        == after.invocations@[a].journal@.len() && after.invocations@[a].payloads@.len() == after.invocations@[a].journal@.len() by {
        if a != i {
            assert(after.invocations@[a] == before.invocations@[a]);
            assert(before.invocations@[a].stored.journal_length == before.invocations@[a].journal@.len() && before.invocations@[a].payloads@.len() == before.invocations@[a].journal@.len());
        }
    }
    assert forall|a: int| 0 <= a < after.invocations@.len() && is_inboxed(#[trigger] after.invocations@[a]) implies inbox_seq(
        after.invocations@[a],
    ) < after.next_inbox_sequence_number && after.invocations@[a].stored.invocation_target.locked_service() is Some
        && after.invocations@[a].journal@.len() == 0 by {
        if a != i {
            assert(after.invocations@[a] == before.invocations@[a]);
        }
        assert(is_inboxed(before.invocations@[a]));
    }
    assert forall|a: int| 0 <= a < after.invocations@.len() implies (#[trigger] after.invocations@[a]).stored.argument_matches_status() by {
        if a != i {
            assert(after.invocations@[a] == before.invocations@[a]);
        }
    }
    assert forall|a: int| 0 <= a < after.invocations@.len() && is_scheduled(#[trigger] after.invocations@[a]) implies
        after.invocations@[a].journal@.len() == 0 by {
        if a != i {
            assert(after.invocations@[a] == before.invocations@[a]);
            assert(is_scheduled(before.invocations@[a]));
        }
    }
    assert forall|a: int, b: int|
        0 <= a < after.invocations@.len() && 0 <= b < after.invocations@.len() && a != b && is_inboxed(
            #[trigger] after.invocations@[a],
        ) && is_inboxed(#[trigger] after.invocations@[b]) implies inbox_seq(after.invocations@[a]) != inbox_seq(
        after.invocations@[b],
    ) by {
        if a != i {
            assert(after.invocations@[a] == before.invocations@[a]);
        }
        if b != i {
            assert(after.invocations@[b] == before.invocations@[b]);
        }
        assert(is_inboxed(before.invocations@[a]));
        assert(is_inboxed(before.invocations@[b]));
    }
    assert forall|a: int, b: int| 0 <= a < b < after.invocations@.len() implies after.invocations@[a].invocation_id
        != after.invocations@[b].invocation_id by {
        if a != i {
            assert(after.invocations@[a] == before.invocations@[a]);
        }
        if b != i {
            assert(after.invocations@[b] == before.invocations@[b]);
        }
    }
    assert forall|a: int, b: int|
        0 <= a < before.invocations@.len() && 0 <= b < after.invocations@.len()
            && before.invocations@[a].invocation_id == after.invocations@[b].invocation_id implies journal_extends(
        #[trigger] before.invocations@[a].journal@,
        #[trigger] after.invocations@[b].journal@,
    ) && payloads_extend(before.invocations@[a].payloads@, after.invocations@[b].payloads@) by {
        if a != b {
            if a < b {
                assert(before.invocations@[a].invocation_id != before.invocations@[b].invocation_id);
            } else {
                assert(before.invocations@[b].invocation_id != before.invocations@[a].invocation_id);
            }
        } else if a != i {
            assert(after.invocations@[a] == before.invocations@[a]);
        }
    }
}

/// Whether every entry in `waiting` lies in `journal` and is completed.
pub open spec fn all_completed(journal: Seq<JournalEntry>, waiting: Seq<EntryIndex>) -> bool {
    forall|w: int| 0 <= w < waiting.len() ==> (#[trigger] waiting[w]) < journal.len() && journal[waiting[w] as int].is_completed
}

fn check_all_completed(journal: &Vec<JournalEntry>, waiting: &Vec<EntryIndex>) -> (r: bool)
    ensures
        r == all_completed(journal@, waiting@),
{
    let mut w: usize = 0;
    while w < waiting.len()
        invariant
            w <= waiting@.len(),
            forall|v: int| 0 <= v < w ==> (#[trigger] waiting@[v]) < journal@.len() && journal@[waiting@[v] as int].is_completed,
        decreases waiting@.len() - w,
    {
        let idx = waiting[w];
        if idx as usize >= journal.len() || !journal[idx as usize].is_completed {
            return false;
        }
        w = w + 1;
    }
    true
}

impl PartitionState {
    /// Applies `Suspend`: an invoked invocation becomes suspended, waiting for the given entries.
    /// Any other state is left as it is.
    pub fn suspend(&mut self, id: InvocationId, waiting_for_completed_entries: Vec<EntryIndex>) -> (effects: Vec<Effect>)
        requires
            old(self).wf(),
        ensures
            final(self).wf(),
            final(self).journals_extend(old(self)),
            final(self).applied_lsn == old(self).applied_lsn,
            final(self).log_time == old(self).log_time,
            suspend_outcome(*old(self), *final(self), id, waiting_for_completed_entries@, effects@),
    {
        if let Some(i) = self.find(id) {
            if matches!(self.invocations[i].stored.status, InvocationStatus::Invoked) {
                let ghost before = *self;
                self.invocations[i].stored.status = InvocationStatus::Suspended { waiting_for_completed_entries };
                self.invocations[i].stored.modification_time = self.log_time;
                proof {
                    before.lemma_find_spec(id, i as int);
                    assert forall|k: ServiceKey| #[trigger] holds_lock(self.invocations@[i as int], k) implies holds_lock(
                        before.invocations@[i as int],
                        k,
                    ) by {}
                    lemma_wf_update(before, *self, i as int);
                }
            } else {
                proof { self.lemma_find_spec(id, i as int); }
            }
        }
        Vec::new()
    }

    /// The position of the invocation with `id`, if any.
    pub open spec fn find_spec(&self, id: InvocationId) -> Option<int> {
        if self.contains(id) {
            Some(choose|i: int| 0 <= i < self.invocations@.len() && self.invocations@[i].invocation_id == id)
        } else {
            None
        }
    }

    proof fn lemma_find_spec(&self, id: InvocationId, i: int)
        requires
            self.wf(),
            0 <= i < self.invocations@.len(),
            self.invocations@[i].invocation_id == id,
        ensures
            self.find_spec(id) == Some(i),
    {
        let j = choose|j: int| 0 <= j < self.invocations@.len() && self.invocations@[j].invocation_id == id;
        if j != i {
            if j < i {
                assert(self.invocations@[j].invocation_id != self.invocations@[i].invocation_id);
            } else {
                assert(self.invocations@[i].invocation_id != self.invocations@[j].invocation_id);
            }
        }
    }

    /// Applies `AppendJournalEntry`: when the invocation is invoked and `entry_index` is the
    /// journal's length, the entry is added at the end with its bytes `raw_entry`. Any other command is left without effect,
    /// so a replayed append changes nothing.
    pub fn append_journal_entry(
        &mut self,
        id: InvocationId,
        entry_index: EntryIndex,
        entry: JournalEntry,
        raw_entry: Vec<u8>,
    ) -> (effects: Vec<Effect>)
        requires
            old(self).wf(),
        ensures
            final(self).wf(),
            final(self).journals_extend(old(self)),
            final(self).applied_lsn == old(self).applied_lsn,
            final(self).log_time == old(self).log_time,
            append_outcome(*old(self), *final(self), id, entry_index, entry, raw_entry@, effects@),
    {
        if let Some(i) = self.find(id) {
            proof { self.lemma_find_spec(id, i as int); }
            if matches!(self.invocations[i].stored.status, InvocationStatus::Invoked) && entry_index as usize == self.invocations[i].journal.len()
                && entry_index < u32::MAX {
                let ghost before = *self;
                proof {
                    assert(before.invocations@[i as int].stored.journal_length == before.invocations@[i as int].journal@.len() && before.invocations@[i as int].payloads@.len() == before.invocations@[i as int].journal@.len());
                }
                self.invocations[i].journal.push(entry);
                self.invocations[i].stored.modification_time = self.log_time;
                self.invocations[i].payloads.push(EntryPayload { raw_entry, completion: None });
                self.invocations[i].stored.journal_length = entry_index + 1;
                proof {
                    assert(self.invocations@[i as int].payloads@.drop_last() =~= before.invocations@[i as int].payloads@);
                    assert forall|k: ServiceKey| #[trigger] holds_lock(self.invocations@[i as int], k) implies holds_lock(
                        before.invocations@[i as int],
                        k,
                    ) by {}
                    lemma_wf_update(before, *self, i as int);
                }
            }
        }
        Vec::new()
    }

    /// Applies `CompleteJournalEntry`: when entry `entry_index` exists and is not yet completed,
    /// it is marked completed and `result` is stored with it; if the invocation is suspended and now every entry it waits for
    /// is completed, it becomes invoked again and the invoker is asked to resume it. Any other
    /// command is left without effect, so a replayed completion changes nothing.
    pub fn complete_journal_entry(&mut self, id: InvocationId, entry_index: EntryIndex, result: CompletionResult) -> (effects: Vec<Effect>)
        requires
            old(self).wf(),
        ensures
            final(self).wf(),
            final(self).journals_extend(old(self)),
            final(self).applied_lsn == old(self).applied_lsn,
            final(self).log_time == old(self).log_time,
            complete_entry_outcome(*old(self), *final(self), id, entry_index, completion_model(result), effects@),
    {
        let mut effects: Vec<Effect> = Vec::new();
        if let Some(i) = self.find(id) {
            proof { self.lemma_find_spec(id, i as int); }
            let idx = entry_index as usize;
            if idx < self.invocations[i].journal.len() && !self.invocations[i].journal[idx].is_completed {
                let ghost before = *self;
                let kind = self.invocations[i].journal[idx].kind;
                self.invocations[i].journal.set(idx, JournalEntry { kind, is_completed: true });
                self.invocations[i].payloads[idx].completion = Some(result);
                self.invocations[i].stored.modification_time = self.log_time;
                let resume = match &self.invocations[i].stored.status {
                    InvocationStatus::Suspended { waiting_for_completed_entries } => check_all_completed(
                        &self.invocations[i].journal,
                        waiting_for_completed_entries,
                    ),
                    _ => false,
                };
                if resume {
                    self.invocations[i].stored.status = InvocationStatus::Invoked;
                    effects.push(Effect::InvokerResume(id));
                }
                proof {
                    assert(before.invocations@[i as int].stored.journal_length == before.invocations@[i as int].journal@.len() && before.invocations@[i as int].payloads@.len() == before.invocations@[i as int].journal@.len());
                    assert forall|k: ServiceKey| #[trigger] holds_lock(self.invocations@[i as int], k) implies holds_lock(
                        before.invocations@[i as int],
                        k,
                    ) by {}
                    lemma_wf_update(before, *self, i as int);
                }
            }
        }
        effects
    }
}

/// Whether `after`'s outbox is `before`'s with one message per sink in `sinks`, in order, each
/// carrying `id`, `result` and the next sequence number.
pub open spec fn fanned_out(
    before: PartitionState,
    after: PartitionState,
    sinks: Seq<ResponseSink>,
    id: InvocationId,
    result: crate::types::EntryResultModel,
) -> bool {
    let n = before.outbox@.len();
    &&& after.outbox@.len() == n + sinks.len()
    &&& forall|m: int| 0 <= m < n ==> #[trigger] after.outbox@[m] == before.outbox@[m]
    &&& forall|m: int|
        0 <= m < sinks.len() ==> {
            let msg = #[trigger] after.outbox@[n + m];
            &&& msg.sequence_number == before.next_outbox_sequence_number + m
            &&& msg.message matches OutboxContent::ServiceResponse { sink, invocation_id, result: r } && sink == sinks[m]
                && invocation_id == id && r.model() == result
        }
    &&& after.next_outbox_sequence_number == before.next_outbox_sequence_number + sinks.len()
}

impl PartitionState {
    fn fan_out(&mut self, i: usize, result: &EntryResult)
        requires
            old(self).wf(),
            i < old(self).invocations@.len(),
            old(self).next_outbox_sequence_number + old(self).invocations@[i as int].stored.response_sinks@.len() <= u64::MAX,
        ensures
            final(self).user_state == old(self).user_state,
            final(self).invocations == old(self).invocations,
            final(self).next_inbox_sequence_number == old(self).next_inbox_sequence_number,
            final(self).applied_lsn == old(self).applied_lsn,
            final(self).log_time == old(self).log_time,
            outbox_ordered(*final(self)),
            fanned_out(
                *old(self),
                *final(self),
                old(self).invocations@[i as int].stored.response_sinks@,
                old(self).invocations@[i as int].invocation_id,
                result.model(),
            ),
    {
        let ghost before = *self;
        let n = self.invocations[i].stored.response_sinks.len();
        let id = self.invocations[i].invocation_id;
        let mut m: usize = 0;
        while m < n
            invariant
                self.invocations == before.invocations,
                self.user_state == before.user_state,
                self.next_inbox_sequence_number == before.next_inbox_sequence_number,
                self.applied_lsn == before.applied_lsn,
                self.log_time == before.log_time,
                i < before.invocations@.len(),
                n == before.invocations@[i as int].stored.response_sinks@.len(),
                id == before.invocations@[i as int].invocation_id,
                before.next_outbox_sequence_number + n <= u64::MAX,
                m <= n,
                outbox_ordered(*self),
                fanned_out(before, *self, before.invocations@[i as int].stored.response_sinks@.take(m as int), id, result.model()),
            decreases n - m,
        {
            let sink = self.invocations[i].stored.response_sinks[m];
            let seq_no = self.next_outbox_sequence_number;
            self.outbox.push(
                OutboxMessage {
                    sequence_number: seq_no,
                    message: OutboxContent::ServiceResponse { sink, invocation_id: id, result: result.duplicate() },
                },
            );
            self.next_outbox_sequence_number = seq_no + 1;
            m = m + 1;
            proof {
                let sinks = before.invocations@[i as int].stored.response_sinks@;
                assert(sinks.take(m as int).len() == m);
                assert forall|x: int| 0 <= x < m implies #[trigger] sinks.take(m as int)[x] == sinks[x] by {}
                assert forall|x: int| 0 <= x < m - 1 implies #[trigger] sinks.take(m as int - 1)[x] == sinks[x] by {}
            }
        }
        proof {
            assert(before.invocations@[i as int].stored.response_sinks@.take(n as int)
                =~= before.invocations@[i as int].stored.response_sinks@);
        }
    }

    /// Hands the lock of `service`, which nobody holds, to the invocation that waits longest in
    /// its inbox, if any: it becomes invoked with an `Input` entry and is dispatched.
    fn release_lock(&mut self, service: &ServiceId) -> (effects: Vec<Effect>)
        requires
            old(self).wf(),
            forall|j: int| 0 <= j < old(self).invocations@.len() ==> !holds_lock(#[trigger] old(self).invocations@[j], service.model()),
        ensures
            final(self).user_state == old(self).user_state,
            final(self).wf(),
            final(self).journals_extend(old(self)),
            final(self).outbox == old(self).outbox,
            final(self).next_inbox_sequence_number == old(self).next_inbox_sequence_number,
            final(self).next_outbox_sequence_number == old(self).next_outbox_sequence_number,
            final(self).applied_lsn == old(self).applied_lsn,
            final(self).log_time == old(self).log_time,
            old(self).promotes(*final(self), service.model(), effects@),
    {
        match self.next_inboxed(service) {
            None => Vec::new(),
            Some(j) => {
                let ghost before = *self;
                proof {
                    assert(is_inboxed(before.invocations@[j as int]));
                }
                let raw_entry = match &self.invocations[j].stored.argument {
                    Some(a) => a.clone(),
                    None => Vec::new(),
                };
                self.invocations[j].journal.push(JournalEntry { kind: EntryKind::Input, is_completed: true });
                self.invocations[j].payloads.push(EntryPayload { raw_entry, completion: None });
                self.invocations[j].stored.journal_length = 1;
                self.invocations[j].stored.status = InvocationStatus::Invoked;
                self.invocations[j].stored.modification_time = self.log_time;
                self.invocations[j].stored.running_transition_time = Some(self.log_time);
                self.invocations[j].stored.argument = None;
                let id = self.invocations[j].invocation_id;
                proof {
                    assert forall|k: ServiceKey| #[trigger] holds_lock(self.invocations@[j as int], k) implies holds_lock(
                        before.invocations@[j as int],
                        k,
                    ) || forall|x: int| 0 <= x < before.invocations@.len() && x != j ==> !holds_lock(#[trigger] before.invocations@[x], k) by {
                        assert(k == service.model());
                    }
                    lemma_wf_update(before, *self, j as int);
                }
                let mut effects: Vec<Effect> = Vec::new();
                effects.push(Effect::InvokerDispatch(id));
                proof {
                    assert(effects@ =~= seq![Effect::InvokerDispatch(before.invocations@[j as int].invocation_id)]);
                    assert(is_inboxed_for(before.invocations@[j as int], service.model()));
                    assert(changes_only(before, *self, j as int));
                    assert(before.invocations@[j as int].stored.argument_matches_status());
                    assert(self.invocations@[j as int].payloads@.drop_last() =~= before.invocations@[j as int].payloads@);
                }
                effects
            },
        }
    }

    /// Whether `after` and `effects` are what handing the free lock of `k` on gives: the
    /// invocation with the lowest inbox sequence number among those waiting for `k` becomes
    /// invoked with an `Input` entry and is dispatched; with none waiting, nothing changes.
    pub open spec fn promotes(&self, after: PartitionState, k: ServiceKey, effects: Seq<Effect>) -> bool {
        if exists|j: int| 0 <= j < self.invocations@.len() && is_inboxed_for(self.invocations@[j], k) {
            exists|j: int|
                0 <= j < self.invocations@.len() && is_inboxed_for(self.invocations@[j], k)
                    && (forall|x: int|
                    0 <= x < self.invocations@.len() && is_inboxed_for(#[trigger] self.invocations@[x], k) ==> inbox_seq(
                        self.invocations@[j],
                    ) <= inbox_seq(self.invocations@[x])) && changes_only(*self, after, j)
                    && starts_running(self.invocations@[j], after.invocations@[j], self.log_time)
                    && effects == seq![Effect::InvokerDispatch(self.invocations@[j].invocation_id)]
        } else {
            after.invocations == self.invocations && effects.len() == 0
        }
    }
}

/// Whether `after` and `effects` are what completing invocation `i` of `before` with `result`
/// gives: it becomes completed with that result; one outbox message goes to each of its response
/// sinks; and if it held a lock, the invocation that waits longest for that lock becomes invoked
/// with an `Input` entry and is dispatched. Nothing else changes.
pub open spec fn completes(
    before: PartitionState,
    after: PartitionState,
    i: int,
    result: crate::types::EntryResultModel,
    effects: Seq<Effect>,
) -> bool {
    let e = before.invocations@[i];
    &&& 0 <= i < before.invocations@.len()
    &&& after.invocations@.len() == before.invocations@.len()
    &&& fanned_out(before, after, e.stored.response_sinks@, e.invocation_id, result)
    &&& after.invocations@[i].stored.status.model() == crate::invocation_status::StatusModel::Completed(result)
    &&& after.invocations@[i].stored.argument is None
    &&& same_shape_but_status(e, after.invocations@[i])
    &&& after.invocations@[i].stored.modification_time == before.log_time
    &&& after.invocations@[i].stored.completed_transition_time == Some(before.log_time)
    &&& after.invocations@[i].stored.inboxed_transition_time == e.stored.inboxed_transition_time
    &&& after.invocations@[i].stored.scheduled_transition_time == e.stored.scheduled_transition_time
    &&& after.invocations@[i].stored.running_transition_time == e.stored.running_transition_time
    &&& if is_running(e) && e.stored.invocation_target.locked_service() is Some && exists|j: int|
        0 <= j < before.invocations@.len() && is_inboxed_for(before.invocations@[j], e.stored.invocation_target.locked_service().unwrap()) {
        let k = e.stored.invocation_target.locked_service().unwrap();
        exists|j: int|
            0 <= j < before.invocations@.len() && is_inboxed_for(before.invocations@[j], k) && (forall|x: int|
                0 <= x < before.invocations@.len() && is_inboxed_for(#[trigger] before.invocations@[x], k) ==> inbox_seq(
                    before.invocations@[j],
                ) <= inbox_seq(before.invocations@[x])) && starts_running(before.invocations@[j], after.invocations@[j], before.log_time)
                && same_record(before.invocations@[j], after.invocations@[j])
                && effects == seq![Effect::InvokerDispatch(before.invocations@[j].invocation_id)]
                && forall|x: int| 0 <= x < after.invocations@.len() && x != i && x != j ==> #[trigger] after.invocations@[x] == before.invocations@[x]
    } else {
        &&& effects.len() == 0
        &&& forall|x: int| 0 <= x < after.invocations@.len() && x != i ==> #[trigger] after.invocations@[x] == before.invocations@[x]
    }
}

/// `completes`, with a request first to forget the invocation once its completion retention
/// has elapsed.
pub open spec fn completes_with_cleanup(
    before: PartitionState,
    after: PartitionState,
    i: int,
    result: crate::types::EntryResultModel,
    effects: Seq<Effect>,
) -> bool {
    &&& 0 <= i < before.invocations@.len()
    &&& effects.len() >= 1
    &&& effects[0] == (Effect::ScheduleCleanup {
        invocation_id: before.invocations@[i].invocation_id,
        retention: before.invocations@[i].stored.completion_retention_duration,
    })
    &&& completes(before, after, i, result, effects.drop_first())
}

/// Whether two entries agree but for their status.
pub open spec fn same_shape_but_status(a: InvocationEntry, b: InvocationEntry) -> bool {
    &&& same_record(a, b)
    &&& a.stored.journal_length == b.stored.journal_length
    &&& a.journal == b.journal
}

/// Whether two entries agree in everything but their status, journal, argument, response sinks,
/// pinned deployment, modification time and transition times.
pub open spec fn same_identity(a: InvocationEntry, b: InvocationEntry) -> bool {
    &&& a.invocation_id == b.invocation_id
    &&& a.stored.invocation_target == b.stored.invocation_target
    &&& a.stored.idempotency_key == b.stored.idempotency_key
    &&& a.stored.creation_time == b.stored.creation_time
    &&& a.stored.execution_time == b.stored.execution_time
    &&& a.stored.completion_retention_duration == b.stored.completion_retention_duration
    &&& a.stored.source == b.stored.source
    &&& a.stored.span_context == b.stored.span_context
    &&& a.stored.headers == b.stored.headers
}

/// Whether `a` is `b` started running at `now`: invoked, with an `Input` entry that holds the
/// argument, which the record no longer keeps, and its running transition time set.
pub open spec fn starts_running(b: InvocationEntry, a: InvocationEntry, now: u64) -> bool {
    &&& a.stored.status is Invoked
    &&& a.journal@ == b.journal@.push(JournalEntry { kind: EntryKind::Input, is_completed: true })
    &&& a.payloads@.drop_last() == b.payloads@
    &&& a.payloads@.len() == b.payloads@.len() + 1
    &&& (b.stored.argument matches Some(arg) && a.payloads@.last().raw_entry@ == arg@)
    &&& a.payloads@.last().completion is None
    &&& a.stored.argument is None
    &&& a.stored.modification_time == now
    &&& a.stored.running_transition_time == Some(now)
    &&& a.stored.inboxed_transition_time == b.stored.inboxed_transition_time
    &&& a.stored.scheduled_transition_time == b.stored.scheduled_transition_time
    &&& a.stored.completed_transition_time == b.stored.completed_transition_time
}

/// Whether two entries have the same transition times.
pub open spec fn same_times(a: InvocationEntry, b: InvocationEntry) -> bool {
    &&& a.stored.inboxed_transition_time == b.stored.inboxed_transition_time
    &&& a.stored.scheduled_transition_time == b.stored.scheduled_transition_time
    &&& a.stored.running_transition_time == b.stored.running_transition_time
    &&& a.stored.completed_transition_time == b.stored.completed_transition_time
}

/// Whether `e` was modified at `now` and kept its transition times: a change that is no
/// lifecycle transition.
pub open spec fn touched(before: InvocationEntry, e: InvocationEntry, now: u64) -> bool {
    e.stored.modification_time == now && same_times(before, e)
}

/// Whether two entries agree in everything but their status, journal and argument.
pub open spec fn same_record(a: InvocationEntry, b: InvocationEntry) -> bool {
    &&& same_identity(a, b)
    &&& a.stored.response_sinks == b.stored.response_sinks
    &&& a.stored.pinned_deployment == b.stored.pinned_deployment
}

/// The failure that a killed invocation completes with.
pub open spec fn killed_result() -> crate::types::EntryResultModel {
    crate::types::EntryResultModel::Failure(409, "killed"@)
}

/// The failure that an invocation canceled before it ran completes with.
pub open spec fn canceled_result() -> crate::types::EntryResultModel {
    crate::types::EntryResultModel::Failure(409, "canceled"@)
}

impl PartitionState {
    fn complete_invocation(&mut self, i: usize, result: EntryResult) -> (effects: Vec<Effect>)
        requires
            old(self).wf(),
            i < old(self).invocations@.len(),
            old(self).next_outbox_sequence_number + old(self).invocations@[i as int].stored.response_sinks@.len() <= u64::MAX,
        ensures
            final(self).user_state == old(self).user_state,
            final(self).wf(),
            final(self).journals_extend(old(self)),
            final(self).next_inbox_sequence_number == old(self).next_inbox_sequence_number,
            final(self).applied_lsn == old(self).applied_lsn,
            final(self).log_time == old(self).log_time,
            completes_with_cleanup(*old(self), *final(self), i as int, result.model(), effects@),
    {
        let id = self.invocations[i].invocation_id;
        let retention = self.invocations[i].stored.completion_retention_duration;
        let rest = self.complete_and_release(i, result);
        let mut effects: Vec<Effect> = Vec::new();
        effects.push(Effect::ScheduleCleanup { invocation_id: id, retention });
        let mut m: usize = 0;
        while m < rest.len()
            invariant
                m <= rest@.len(),
                effects@.len() == m + 1,
                effects@[0] == (Effect::ScheduleCleanup { invocation_id: id, retention }),
                effects@.drop_first() == rest@.take(m as int),
            decreases rest@.len() - m,
        {
            effects.push(rest[m]);
            m = m + 1;
            proof {
                assert(effects@.drop_first() =~= rest@.take(m as int));
            }
        }
        proof {
            assert(rest@.take(rest@.len() as int) =~= rest@);
        }
        effects
    }

    fn complete_and_release(&mut self, i: usize, result: EntryResult) -> (effects: Vec<Effect>)
        requires
            old(self).wf(),
            i < old(self).invocations@.len(),
            old(self).next_outbox_sequence_number + old(self).invocations@[i as int].stored.response_sinks@.len() <= u64::MAX,
        ensures
            final(self).user_state == old(self).user_state,
            final(self).wf(),
            final(self).journals_extend(old(self)),
            final(self).next_inbox_sequence_number == old(self).next_inbox_sequence_number,
            final(self).applied_lsn == old(self).applied_lsn,
            final(self).log_time == old(self).log_time,
            completes(*old(self), *final(self), i as int, result.model(), effects@),
    {
        let ghost before = *self;
        let ghost rm = result.model();
        self.fan_out(i, &result);
        let ghost fanned = *self;
        let was_running = match self.invocations[i].stored.status {
            InvocationStatus::Invoked => true,
            InvocationStatus::Suspended { .. } => true,
            _ => false,
        };
        self.invocations[i].stored.status = InvocationStatus::Completed { response_result: result };
        self.invocations[i].stored.modification_time = self.log_time;
        self.invocations[i].stored.completed_transition_time = Some(self.log_time);
        self.invocations[i].stored.argument = None;
        proof {
            assert(journal_extends(before.invocations@[i as int].journal@, self.invocations@[i as int].journal@));
            assert(before.invocations@[i as int].stored.journal_length == before.invocations@[i as int].journal@.len() && before.invocations@[i as int].payloads@.len() == before.invocations@[i as int].journal@.len());
            assert forall|k: ServiceKey| #[trigger] holds_lock(self.invocations@[i as int], k) implies holds_lock(
                fanned.invocations@[i as int],
                k,
            ) by {}
            lemma_wf_update(fanned, *self, i as int);
        }
        let ghost mid = *self;
        let lock = self.invocations[i].stored.invocation_target.lock_service_id();
        if was_running {
            if let Some(service) = lock {
                proof {
                    let k = service.model();
                    assert(holds_lock(before.invocations@[i as int], k));
                    assert forall|j: int| 0 <= j < mid.invocations@.len() implies !holds_lock(#[trigger] mid.invocations@[j], k) by {
                        if j != i {
                            assert(mid.invocations@[j] == before.invocations@[j]);
                            if holds_lock(before.invocations@[j], k) {
                                assert(before.lock_exclusive());
                            }
                        }
                    }
                }
                let effects = self.release_lock(&service);
                proof {
                    let k = service.model();
                    assert forall|j: int| 0 <= j < before.invocations@.len() implies #[trigger] is_inboxed_for(before.invocations@[j], k)
                        == is_inboxed_for(mid.invocations@[j], k) by {
                        if j != i {
                            assert(mid.invocations@[j] == before.invocations@[j]);
                        }
                    }
                    if exists|j: int| 0 <= j < before.invocations@.len() && is_inboxed_for(before.invocations@[j], k) {
                        let w = choose|j: int| 0 <= j < before.invocations@.len() && is_inboxed_for(before.invocations@[j], k);
                        assert(is_inboxed_for(mid.invocations@[w], k));
                        let j = choose|j: int|
                            0 <= j < mid.invocations@.len() && is_inboxed_for(mid.invocations@[j], k) && (forall|x: int|
                                0 <= x < mid.invocations@.len() && is_inboxed_for(#[trigger] mid.invocations@[x], k) ==> inbox_seq(
                                    mid.invocations@[j],
                                ) <= inbox_seq(mid.invocations@[x])) && changes_only(mid, *self, j)
                                && starts_running(mid.invocations@[j], self.invocations@[j], mid.log_time)
                                && effects@ == seq![Effect::InvokerDispatch(mid.invocations@[j].invocation_id)];
                        assert(j != i);
                        assert(mid.invocations@[j] == before.invocations@[j]);
                        assert(self.invocations@[i as int] == mid.invocations@[i as int]);
                        assert forall|x: int| 0 <= x < before.invocations@.len() && is_inboxed_for(#[trigger] before.invocations@[x], k)
                            implies inbox_seq(before.invocations@[j]) <= inbox_seq(before.invocations@[x]) by {
                            assert(is_inboxed_for(mid.invocations@[x], k));
                            if x != i {
                                assert(mid.invocations@[x] == before.invocations@[x]);
                            }
                        }
                        assert forall|x: int| 0 <= x < self.invocations@.len() && x != i && x != j implies #[trigger] self.invocations@[x]
                            == before.invocations@[x] by {
                            assert(mid.invocations@[x] == before.invocations@[x]);
                        }
                    } else {
                        assert forall|x: int| 0 <= x < self.invocations@.len() && x != i implies #[trigger] self.invocations@[x]
                            == before.invocations@[x] by {
                            assert(mid.invocations@[x] == before.invocations@[x]);
                        }
                    }
                }
                return effects;
            }
        }
        proof {
            assert forall|x: int| 0 <= x < self.invocations@.len() && x != i implies #[trigger] self.invocations@[x]
                == before.invocations@[x] by {
                assert(mid.invocations@[x] == before.invocations@[x]);
            }
        }
        Vec::new()
    }
}

impl PartitionState {
    /// Starts a scheduled invocation once its timer fires: inboxed with the next inbox sequence
    /// number when another invocation holds the lock it needs, invoked otherwise, with an
    /// `Input` entry and a dispatch to the invoker. Any other invocation is left as it is.
    pub fn start_scheduled(&mut self, id: InvocationId) -> (effects: Vec<Effect>)
        requires
            old(self).wf(),
            old(self).next_inbox_sequence_number < u64::MAX,
        ensures
            final(self).wf(),
            final(self).journals_extend(old(self)),
            final(self).applied_lsn == old(self).applied_lsn,
            final(self).log_time == old(self).log_time,
            start_scheduled_outcome(*old(self), *final(self), id, effects@),
    {
        let i = match self.find(id) {
            Some(i) => i,
            None => {
                return Vec::new();
            },
        };
        proof { self.lemma_find_spec(id, i as int); }
        if !matches!(self.invocations[i].stored.status, InvocationStatus::Scheduled) {
            return Vec::new();
        }
        let ghost before = *self;
        let blocked = match self.invocations[i].stored.invocation_target.lock_service_id() {
            Some(service) => self.lock_holder(&service).is_some(),
            None => false,
        };
        let mut effects: Vec<Effect> = Vec::new();
        if blocked {
            let n = self.next_inbox_sequence_number;
            self.next_inbox_sequence_number = n + 1;
            self.invocations[i].stored.status = InvocationStatus::Inboxed { inbox_sequence_number: n };
            self.invocations[i].stored.modification_time = self.log_time;
            self.invocations[i].stored.inboxed_transition_time = Some(self.log_time);
        } else {
            if self.invocations[i].journal.len() >= u32::MAX as usize {
                return Vec::new();
            }
            let len = self.invocations[i].journal.len() as u32;
            let raw_entry = match &self.invocations[i].stored.argument {
                Some(a) => a.clone(),
                None => Vec::new(),
            };
            self.invocations[i].journal.push(JournalEntry { kind: EntryKind::Input, is_completed: true });
            self.invocations[i].payloads.push(EntryPayload { raw_entry, completion: None });
            self.invocations[i].stored.journal_length = len + 1;
            self.invocations[i].stored.status = InvocationStatus::Invoked;
            self.invocations[i].stored.argument = None;
            self.invocations[i].stored.modification_time = self.log_time;
            self.invocations[i].stored.running_transition_time = Some(self.log_time);
            effects.push(Effect::InvokerDispatch(id));
        }
        proof {
            assert(before.invocations@[i as int].stored.argument_matches_status());
            if !blocked {
                assert(self.invocations@[i as int].payloads@.drop_last() =~= before.invocations@[i as int].payloads@);
            }
            let a = self.invocations@;
            let b = before.invocations@;
            assert(b[i as int].stored.journal_length == b[i as int].journal@.len() && b[i as int].payloads@.len() == b[i as int].journal@.len());
            assert forall|x: int| 0 <= x < a.len() && x != i implies #[trigger] a[x] == b[x] by {}
            assert forall|x: int, y: int, k: ServiceKey|
                0 <= x < a.len() && 0 <= y < a.len() && #[trigger] holds_lock(a[x], k) && #[trigger] holds_lock(a[y], k) implies x == y by {
                if x != y {
                    if x == i {
                        assert(holds_lock(b[y], k));
                    } else if y == i {
                        assert(holds_lock(b[x], k));
                    } else {
                        assert(holds_lock(b[x], k));
                        assert(holds_lock(b[y], k));
                    }
                }
            }
            assert forall|x: int| 0 <= x < a.len() implies (#[trigger] a[x]).stored.journal_length == a[x].journal@.len() && a[x].payloads@.len() == a[x].journal@.len() by {
                if x != i {
                    assert(b[x].stored.journal_length == b[x].journal@.len() && b[x].payloads@.len() == b[x].journal@.len());
                }
            }
            assert(is_scheduled(b[i as int]));
            assert forall|x: int| 0 <= x < a.len() && is_scheduled(#[trigger] a[x]) implies a[x].journal@.len() == 0 by {
                if x != i {
                    assert(is_scheduled(b[x]));
                }
            }
            assert forall|x: int| 0 <= x < a.len() && is_inboxed(#[trigger] a[x]) implies inbox_seq(a[x]) < self.next_inbox_sequence_number
                && a[x].stored.invocation_target.locked_service() is Some && a[x].journal@.len() == 0 by {
                if x != i {
                    assert(is_inboxed(b[x]));
                }
            }
            assert forall|x: int, y: int|
                0 <= x < a.len() && 0 <= y < a.len() && x != y && is_inboxed(#[trigger] a[x]) && is_inboxed(#[trigger] a[y])
                implies inbox_seq(a[x]) != inbox_seq(a[y]) by {
                if x != i {
                    assert(is_inboxed(b[x]));
                }
                if y != i {
                    assert(is_inboxed(b[y]));
                }
            }
            assert forall|x: int, y: int| 0 <= x < y < a.len() implies a[x].invocation_id != a[y].invocation_id by {
                assert(b[x].invocation_id != b[y].invocation_id);
            }
            assert forall|x: int, y: int|
                0 <= x < b.len() && 0 <= y < a.len() && b[x].invocation_id == a[y].invocation_id implies journal_extends(
                #[trigger] b[x].journal@,
                #[trigger] a[y].journal@,
            ) && payloads_extend(b[x].payloads@, a[y].payloads@) by {
                if x != y {
                    if x < y {
                        assert(b[x].invocation_id != b[y].invocation_id);
                    } else {
                        assert(b[y].invocation_id != b[x].invocation_id);
                    }
                }
            }
            if !blocked {
                assert(effects@ =~= seq![Effect::InvokerDispatch(id)]);
            }
        }
        effects
    }
}

/// What `invoke` does, from `before` to `after`, returning `effects`.
pub open spec fn invoke_outcome(before: PartitionState, after: PartitionState, si: ServiceInvocation, effects: Seq<Effect>) -> bool {
    &&& after.next_outbox_sequence_number == before.next_outbox_sequence_number
    &&& after.user_state == before.user_state
    &&& after.outbox == before.outbox
    &&& (exists|i: int| 0 <= i < before.invocations@.len() && repeats(before.invocations@[i], si)) ==> {
        &&& effects.len() == 0
        &&& after.next_inbox_sequence_number == before.next_inbox_sequence_number
        &&& after.invocations@.len() == before.invocations@.len()
        &&& exists|i: int|
            0 <= i < before.invocations@.len() && repeats(before.invocations@[i], si)
                && after.invocations@[i].stored.response_sinks@ == merge_sink(
                before.invocations@[i].stored.response_sinks@,
                si.response_sink,
            ) && same_shape(before.invocations@[i], after.invocations@[i])
                && same_identity(before.invocations@[i], after.invocations@[i])
                && touched(before.invocations@[i], after.invocations@[i], before.log_time)
                && after.invocations@[i].stored.pinned_deployment == before.invocations@[i].stored.pinned_deployment
                && forall|j: int| 0 <= j < after.invocations@.len() && j != i ==> after.invocations@[j]
                    == before.invocations@[j]
    }
    &&& (forall|i: int| 0 <= i < before.invocations@.len() ==> !repeats(before.invocations@[i], si)) ==> {
        let e = after.invocations@.last();
        &&& after.invocations@.len() == before.invocations@.len() + 1
        &&& after.invocations@.drop_last() == before.invocations@
        &&& e.invocation_id == si.invocation_id
        &&& e.stored.invocation_target == si.invocation_target
        &&& e.stored.response_sinks@ == merge_sink(Seq::empty(), si.response_sink)
        &&& opt_text(e.stored.idempotency_key) == opt_text(si.idempotency_key)
        &&& e.stored.creation_time == si.creation_time
        &&& e.stored.modification_time == si.creation_time
        &&& e.stored.execution_time == si.execution_time
        &&& e.stored.completion_retention_duration == si.completion_retention_duration
        &&& e.stored.pinned_deployment is None
        &&& e.stored.journal_length == e.journal@.len()
        &&& e.stored.source == si.source
        &&& e.stored.span_context == si.span_context
        &&& e.stored.headers == si.headers
        &&& e.stored.pinned_deployment is None
        &&& e.stored.completed_transition_time is None
        &&& if starts_scheduled(si) {
            &&& e.stored.status is Scheduled
            &&& (e.stored.argument matches Some(a) && a@ == si.argument@)
            &&& e.payloads@.len() == 0
            &&& e.stored.scheduled_transition_time == Some(si.creation_time)
            &&& e.stored.inboxed_transition_time is None
            &&& e.stored.running_transition_time is None
            &&& after.next_inbox_sequence_number == before.next_inbox_sequence_number
            &&& e.journal@.len() == 0
            &&& effects == seq![Effect::ScheduleTimer { invocation_id: si.invocation_id, due_time: si.execution_time.unwrap() }]
        } else if si.invocation_target.locked_service() matches Some(k) && exists|j: int|
            0 <= j < before.invocations@.len() && holds_lock(before.invocations@[j], k) {
            &&& e.stored.status == InvocationStatus::Inboxed { inbox_sequence_number: before.next_inbox_sequence_number }
            &&& (e.stored.argument matches Some(a) && a@ == si.argument@)
            &&& e.payloads@.len() == 0
            &&& e.stored.inboxed_transition_time == Some(si.creation_time)
            &&& e.stored.scheduled_transition_time is None
            &&& e.stored.running_transition_time is None
            &&& after.next_inbox_sequence_number == before.next_inbox_sequence_number + 1
            &&& e.journal@.len() == 0
            &&& effects.len() == 0
        } else {
            &&& e.stored.status is Invoked
            &&& e.stored.argument is None
            &&& e.payloads@.len() == 1
            &&& e.payloads@[0].raw_entry@ == si.argument@
            &&& e.payloads@[0].completion is None
            &&& e.stored.running_transition_time == Some(si.creation_time)
            &&& e.stored.inboxed_transition_time is None
            &&& e.stored.scheduled_transition_time is None
            &&& after.next_inbox_sequence_number == before.next_inbox_sequence_number
            &&& e.journal@ == seq![JournalEntry { kind: EntryKind::Input, is_completed: true }]
            &&& effects == seq![Effect::InvokerDispatch(si.invocation_id)]
        }
    }
}

/// What `suspend` does, from `before` to `after`, returning `effects`.
pub open spec fn suspend_outcome(before: PartitionState, after: PartitionState, id: InvocationId, waiting: Seq<EntryIndex>, effects: Seq<Effect>) -> bool {
    &&& after.next_outbox_sequence_number == before.next_outbox_sequence_number
    &&& after.user_state == before.user_state
    &&& effects.len() == 0
    &&& after.outbox == before.outbox
    &&& after.next_inbox_sequence_number == before.next_inbox_sequence_number
    &&& match before.find_spec(id) {
        Some(i) => if before.invocations@[i].stored.status is Invoked {
            &&& changes_only(before, after, i)
            &&& touched(before.invocations@[i], after.invocations@[i], before.log_time)
            &&& after.invocations@[i].stored.status.model() == crate::invocation_status::StatusModel::Suspended(waiting)
            &&& after.invocations@[i].journal == before.invocations@[i].journal
        } else {
            after.invocations == before.invocations
        },
        None => after.invocations == before.invocations
    }
}

/// What `append_journal_entry` does, from `before` to `after`, returning `effects`.
pub open spec fn append_outcome(
    before: PartitionState,
    after: PartitionState,
    id: InvocationId,
    entry_index: EntryIndex,
    entry: JournalEntry,
    raw_entry: Seq<u8>,
    effects: Seq<Effect>,
) -> bool {
    &&& after.next_outbox_sequence_number == before.next_outbox_sequence_number
    &&& after.user_state == before.user_state
    &&& effects.len() == 0
    &&& after.outbox == before.outbox
    &&& after.next_inbox_sequence_number == before.next_inbox_sequence_number
    &&& match before.find_spec(id) {
        Some(i) => if before.invocations@[i].stored.status is Invoked && entry_index
            == before.invocations@[i].journal@.len() && entry_index < u32::MAX {
            &&& changes_only(before, after, i)
            &&& touched(before.invocations@[i], after.invocations@[i], before.log_time)
            &&& after.invocations@[i].stored.status == before.invocations@[i].stored.status
            &&& after.invocations@[i].journal@ == before.invocations@[i].journal@.push(entry)
            &&& after.invocations@[i].payloads@.drop_last() == before.invocations@[i].payloads@
            &&& after.invocations@[i].payloads@.last().raw_entry@ == raw_entry
            &&& after.invocations@[i].payloads@.last().completion is None
        } else {
            after.invocations == before.invocations
        },
        None => after.invocations == before.invocations
    }
}

/// What `complete_journal_entry` does, from `before` to `after`, returning `effects`.
pub open spec fn complete_entry_outcome(
    before: PartitionState,
    after: PartitionState,
    id: InvocationId,
    entry_index: EntryIndex,
    result: CompletionModel,
    effects: Seq<Effect>,
) -> bool {
    &&& after.next_outbox_sequence_number == before.next_outbox_sequence_number
    &&& after.user_state == before.user_state
    &&& after.outbox == before.outbox
    &&& after.next_inbox_sequence_number == before.next_inbox_sequence_number
    &&& match before.find_spec(id) {
        Some(i) => if entry_index < before.invocations@[i].journal@.len()
            && !before.invocations@[i].journal@[entry_index as int].is_completed {
            let journal = before.invocations@[i].journal@.update(
                entry_index as int,
                JournalEntry { kind: before.invocations@[i].journal@[entry_index as int].kind, is_completed: true },
            );
            &&& changes_only(before, after, i)
            &&& touched(before.invocations@[i], after.invocations@[i], before.log_time)
            &&& after.invocations@[i].journal@ == journal
            &&& after.invocations@[i].payloads@.len() == before.invocations@[i].payloads@.len()
            &&& forall|j: int| 0 <= j < after.invocations@[i].payloads@.len() && j != entry_index ==> (#[trigger] after.invocations@[i].payloads@[j]) == before.invocations@[i].payloads@[j]
            &&& after.invocations@[i].payloads@[entry_index as int].raw_entry == before.invocations@[i].payloads@[entry_index as int].raw_entry
            &&& opt_completion_model(after.invocations@[i].payloads@[entry_index as int].completion) == Some(result)
            &&& match before.invocations@[i].stored.status {
                InvocationStatus::Suspended { waiting_for_completed_entries } => if all_completed(
                    journal,
                    waiting_for_completed_entries@,
                ) {
                    after.invocations@[i].stored.status is Invoked && effects == seq![Effect::InvokerResume(id)]
                } else {
                    after.invocations@[i].stored.status == before.invocations@[i].stored.status
                        && effects.len() == 0
                },
                _ => after.invocations@[i].stored.status == before.invocations@[i].stored.status
                    && effects.len() == 0,
            }
        } else {
            after.invocations == before.invocations && effects.len() == 0
        },
        None => after.invocations == before.invocations && effects.len() == 0
    }
}

/// What `start_scheduled` does, from `before` to `after`, returning `effects`.
pub open spec fn start_scheduled_outcome(before: PartitionState, after: PartitionState, id: InvocationId, effects: Seq<Effect>) -> bool {
    &&& after.next_outbox_sequence_number == before.next_outbox_sequence_number
    &&& after.user_state == before.user_state
    &&& after.outbox == before.outbox
    &&& match before.find_spec(id) {
        Some(i) => if before.invocations@[i].stored.status is Scheduled {
            let e = before.invocations@[i];
            &&& after.invocations@.len() == before.invocations@.len()
            &&& forall|j: int| 0 <= j < after.invocations@.len() && j != i ==> #[trigger] after.invocations@[j]
                == before.invocations@[j]
            &&& same_record(e, after.invocations@[i])
            &&& if e.stored.invocation_target.locked_service() matches Some(k) && exists|j: int|
                0 <= j < before.invocations@.len() && holds_lock(before.invocations@[j], k) {
                &&& after.invocations@[i].stored.status == InvocationStatus::Inboxed {
                    inbox_sequence_number: before.next_inbox_sequence_number,
                }
                &&& after.next_inbox_sequence_number == before.next_inbox_sequence_number + 1
                &&& after.invocations@[i].journal == e.journal
                &&& after.invocations@[i].payloads == e.payloads
                &&& after.invocations@[i].stored.argument == e.stored.argument
                &&& after.invocations@[i].stored.modification_time == before.log_time
                &&& after.invocations@[i].stored.inboxed_transition_time == Some(before.log_time)
                &&& after.invocations@[i].stored.scheduled_transition_time == e.stored.scheduled_transition_time
                &&& after.invocations@[i].stored.running_transition_time == e.stored.running_transition_time
                &&& after.invocations@[i].stored.completed_transition_time == e.stored.completed_transition_time
                &&& effects.len() == 0
            } else {
                &&& starts_running(e, after.invocations@[i], before.log_time)
                &&& after.next_inbox_sequence_number == before.next_inbox_sequence_number
                &&& effects == seq![Effect::InvokerDispatch(id)]
            }
        } else {
            after == before && effects.len() == 0
        },
        None => after == before && effects.len() == 0
    }
}

/// What `end_invocation` does, from `before` to `after`, returning `effects`.
pub open spec fn end_outcome(before: PartitionState, after: PartitionState, id: InvocationId, result: crate::types::EntryResultModel, effects: Seq<Effect>) -> bool {
    &&& after.user_state == before.user_state
    &&& after.next_inbox_sequence_number == before.next_inbox_sequence_number
    &&& match before.find_spec(id) {
        Some(i) => if is_running(before.invocations@[i]) && before.outbox_room(i) {
            completes_with_cleanup(before, after, i, result, effects)
        } else {
            after == before && effects.len() == 0
        },
        None => after == before && effects.len() == 0
    }
}

/// What `terminate_invocation` does, from `before` to `after`, returning `effects`.
pub open spec fn terminate_outcome(before: PartitionState, after: PartitionState, id: InvocationId, flavor: TerminationFlavor, effects: Seq<Effect>) -> bool {
    &&& after.user_state == before.user_state
    &&& after.next_inbox_sequence_number == before.next_inbox_sequence_number
    &&& match before.find_spec(id) {
        Some(i) => {
            let e = before.invocations@[i];
            if e.stored.status is Completed {
                after == before && effects.len() == 0
            } else if flavor == TerminationFlavor::Kill || !is_running(e) {
                let result = if flavor == TerminationFlavor::Kill { killed_result() } else { canceled_result() };
                if before.outbox_room(i) {
                    if is_running(e) {
                        effects.len() >= 1 && effects[0] == Effect::InvokerAbort(id) && completes_with_cleanup(
                            before,
                            after,
                            i,
                            result,
                            effects.drop_first(),
                        )
                    } else {
                        completes_with_cleanup(before, after, i, result, effects)
                    }
                } else {
                    after == before && effects.len() == 0
                }
            } else if e.journal@.len() < u32::MAX {
                &&& changes_only(before, after, i)
                &&& touched(before.invocations@[i], after.invocations@[i], before.log_time)
                &&& after.outbox == before.outbox
                &&& after.next_outbox_sequence_number == before.next_outbox_sequence_number
                &&& after.invocations@[i].journal@ == e.journal@.push(
                    JournalEntry { kind: EntryKind::CancelInvocation, is_completed: true },
                )
                &&& after.invocations@[i].stored.status is Invoked
                &&& effects == if e.stored.status is Suspended {
                    seq![Effect::InvokerResume(id)]
                } else {
                    Seq::<Effect>::empty()
                }
            } else {
                after == before && effects.len() == 0
            }
        },
        None => after == before && effects.len() == 0
    }
}

/// What `clean_invocation_status` does, from `before` to `after`, returning `effects`.
pub open spec fn clean_outcome(before: PartitionState, after: PartitionState, id: InvocationId, effects: Seq<Effect>) -> bool {
    &&& after.user_state == before.user_state
    &&& effects.len() == 0
    &&& after.outbox == before.outbox
    &&& after.next_inbox_sequence_number == before.next_inbox_sequence_number
    &&& after.next_outbox_sequence_number == before.next_outbox_sequence_number
    &&& match before.find_spec(id) {
        Some(i) => if before.invocations@[i].stored.status is Completed {
            after.invocations@ == before.invocations@.remove(i) && !after.contains(id)
        } else {
            after == before
        },
        None => after == before
    }
}

/// A command of the partition's log.
pub enum Command {
    Invoke(ServiceInvocation),
    Suspend { invocation_id: InvocationId, waiting_for_completed_entries: Vec<EntryIndex> },
    AppendJournalEntry { invocation_id: InvocationId, entry_index: EntryIndex, entry: JournalEntry, raw_entry: Vec<u8> },
    CompleteJournalEntry { invocation_id: InvocationId, entry_index: EntryIndex, result: CompletionResult },
    End { invocation_id: InvocationId, result: EntryResult },
    TerminateInvocation { invocation_id: InvocationId, flavor: TerminationFlavor },
    CleanInvocationStatus { invocation_id: InvocationId },
    /// A timer whose due time has come.
    FireTimer(Timer),
    SetState { service_id: ServiceId, key: String, value: Vec<u8> },
    ClearState { service_id: ServiceId, key: String },
    ClearAllState { service_id: ServiceId },
    PinDeployment { invocation_id: InvocationId, deployment: PinnedDeployment },
    /// The invoker resumes a suspended invocation.
    Resume { invocation_id: InvocationId },
    /// The response to a call, for the calling invocation's journal entry.
    SendResponse { invocation_id: InvocationId, entry_index: EntryIndex, result: EntryResult },
    /// A request for the result of `query`, to be sent to `response_sink`.
    AttachInvocation { query: InvocationId, block_on_inflight: bool, response_sink: ResponseSink },
}

/// What applying `command` does, from `before` to `after`, returning `effects`: the outcome
/// of the command's handler.
pub open spec fn command_outcome(before: PartitionState, after: PartitionState, command: Command, effects: Seq<Effect>) -> bool {
    match command {
        Command::Invoke(si) => invoke_outcome(before, after, si, effects),
        Command::Suspend { invocation_id, waiting_for_completed_entries } => suspend_outcome(
            before,
            after,
            invocation_id,
            waiting_for_completed_entries@,
            effects,
        ),
        Command::AppendJournalEntry { invocation_id, entry_index, entry, raw_entry } => append_outcome(
            before,
            after,
            invocation_id,
            entry_index,
            entry,
            raw_entry@,
            effects,
        ),
        Command::CompleteJournalEntry { invocation_id, entry_index, result } => complete_entry_outcome(
            before,
            after,
            invocation_id,
            entry_index,
            completion_model(result),
            effects,
        ),
        Command::End { invocation_id, result } => end_outcome(before, after, invocation_id, result.model(), effects),
        Command::TerminateInvocation { invocation_id, flavor } => terminate_outcome(before, after, invocation_id, flavor, effects),
        Command::CleanInvocationStatus { invocation_id } => clean_outcome(before, after, invocation_id, effects),
        Command::FireTimer(Timer::CompleteJournalEntry { invocation_id, entry_index }) => complete_entry_outcome(
            before,
            after,
            invocation_id,
            entry_index,
            CompletionModel::Empty,
            effects,
        ),
        Command::FireTimer(Timer::NeoInvoke { invocation_id }) => start_scheduled_outcome(before, after, invocation_id, effects),
        Command::FireTimer(Timer::Invoke(si)) => invoke_outcome(before, after, si, effects),
        Command::FireTimer(Timer::CleanInvocationStatus { invocation_id }) => clean_outcome(before, after, invocation_id, effects),
        Command::SetState { service_id, key, value } => state_outcome(
            before,
            after,
            before.user_state@.insert((service_id.model(), key@), value@),
            effects,
        ),
        Command::ClearState { service_id, key } => state_outcome(
            before,
            after,
            before.user_state@.remove((service_id.model(), key@)),
            effects,
        ),
        Command::PinDeployment { invocation_id, deployment } => pin_outcome(before, after, invocation_id, deployment, effects),
        Command::Resume { invocation_id } => resume_outcome(before, after, invocation_id, effects),
        Command::SendResponse { invocation_id, entry_index, result } => complete_entry_outcome(
            before,
            after,
            invocation_id,
            entry_index,
            match result.model() {
                EntryResultModel::Success(b) => CompletionModel::Success(b),
                EntryResultModel::Failure(c, m) => CompletionModel::Failure(c, m),
            },
            effects,
        ),
        Command::AttachInvocation { query, block_on_inflight, response_sink } => attach_outcome(
            before,
            after,
            query,
            block_on_inflight,
            response_sink,
            effects,
        ),
        Command::ClearAllState { service_id } => state_outcome(
            before,
            after,
            without_service(before.user_state@, service_id.model()),
            effects,
        ),
    }
}

/// What a state command does: the user state becomes `state`; nothing else changes and
/// nothing is dispatched.
pub open spec fn state_outcome(before: PartitionState, after: PartitionState, state: StateContents, effects: Seq<Effect>) -> bool {
    &&& after.user_state@ == state
    &&& after.invocations == before.invocations
    &&& after.outbox == before.outbox
    &&& after.next_inbox_sequence_number == before.next_inbox_sequence_number
    &&& after.next_outbox_sequence_number == before.next_outbox_sequence_number
    &&& effects.len() == 0
}

impl PartitionState {
    /// Applies `SetState`: `key` of the service instance now holds `value`.
    pub fn set_state(&mut self, service_id: ServiceId, key: String, value: Vec<u8>) -> (effects: Vec<Effect>)
        requires
            old(self).wf(),
        ensures
            final(self).wf(),
            final(self).journals_extend(old(self)),
            final(self).applied_lsn == old(self).applied_lsn,
            final(self).log_time == old(self).log_time,
            state_outcome(*old(self), *final(self), old(self).user_state@.insert((service_id.model(), key@), value@), effects@),
    {
        let ghost before = *self;
        self.user_state.set(service_id, key, value);
        proof {
            lemma_wf_other_state(before, *self);
        }
        Vec::new()
    }

    /// Applies `ClearState`: `key` of the service instance no longer holds a value.
    pub fn clear_state(&mut self, service_id: &ServiceId, key: &String) -> (effects: Vec<Effect>)
        requires
            old(self).wf(),
        ensures
            final(self).wf(),
            final(self).journals_extend(old(self)),
            final(self).applied_lsn == old(self).applied_lsn,
            final(self).log_time == old(self).log_time,
            state_outcome(*old(self), *final(self), old(self).user_state@.remove((service_id.model(), key@)), effects@),
    {
        let ghost before = *self;
        self.user_state.clear(service_id, key);
        proof {
            lemma_wf_other_state(before, *self);
        }
        Vec::new()
    }

    /// Applies `ClearAllState`: the service instance holds no state any more.
    pub fn clear_all_state(&mut self, service_id: &ServiceId) -> (effects: Vec<Effect>)
        requires
            old(self).wf(),
        ensures
            final(self).wf(),
            final(self).journals_extend(old(self)),
            final(self).applied_lsn == old(self).applied_lsn,
            final(self).log_time == old(self).log_time,
            state_outcome(*old(self), *final(self), without_service(old(self).user_state@, service_id.model()), effects@),
    {
        let ghost before = *self;
        self.user_state.clear_all(service_id);
        proof {
            lemma_wf_other_state(before, *self);
        }
        Vec::new()
    }
}

/// What `pin_deployment` does: a running invocation that has no pinned deployment yet gets
/// `deployment`, if it speaks a supported protocol version; anything else is left as it is.
pub open spec fn pin_outcome(
    before: PartitionState,
    after: PartitionState,
    id: InvocationId,
    deployment: PinnedDeployment,
    effects: Seq<Effect>,
) -> bool {
    &&& effects.len() == 0
    &&& match before.find_spec(id) {
        Some(i) => if is_running(before.invocations@[i]) && before.invocations@[i].stored.pinned_deployment is None
            && is_supported_protocol(deployment.service_protocol_version) {
            &&& after.invocations@.len() == before.invocations@.len()
            &&& forall|j: int| 0 <= j < after.invocations@.len() && j != i ==> #[trigger] after.invocations@[j] == before.invocations@[j]
            &&& same_shape(before.invocations@[i], after.invocations@[i])
            &&& same_identity(before.invocations@[i], after.invocations@[i])
            &&& touched(before.invocations@[i], after.invocations@[i], before.log_time)
            &&& after.invocations@[i].stored.response_sinks == before.invocations@[i].stored.response_sinks
            &&& after.invocations@[i].stored.pinned_deployment == Some(deployment)
            &&& after.user_state == before.user_state
            &&& after.outbox == before.outbox
            &&& after.next_inbox_sequence_number == before.next_inbox_sequence_number
            &&& after.next_outbox_sequence_number == before.next_outbox_sequence_number
        } else {
            after == before
        },
        None => after == before,
    }
}

impl PartitionState {
    /// Applies `PinDeployment`: the deployment chosen at the first dispatch of a running
    /// invocation is kept for the rest of its life; a later choice does not replace it.
    pub fn pin_deployment(&mut self, id: InvocationId, deployment: PinnedDeployment) -> (effects: Vec<Effect>)
        requires
            old(self).wf(),
        ensures
            final(self).wf(),
            final(self).journals_extend(old(self)),
            final(self).applied_lsn == old(self).applied_lsn,
            final(self).log_time == old(self).log_time,
            pin_outcome(*old(self), *final(self), id, deployment, effects@),
    {
        if let Some(i) = self.find(id) {
            proof { self.lemma_find_spec(id, i as int); }
            let running = match self.invocations[i].stored.status {
                InvocationStatus::Invoked => true,
                InvocationStatus::Suspended { .. } => true,
                _ => false,
            };
            let supported = 1 <= deployment.service_protocol_version
                && deployment.service_protocol_version <= MAX_SERVICE_PROTOCOL_VERSION;
            if running && self.invocations[i].stored.pinned_deployment.is_none() && supported {
                let ghost before = *self;
                self.invocations[i].stored.pinned_deployment = Some(deployment);
                self.invocations[i].stored.modification_time = self.log_time;
                proof {
                    assert forall|j: int| 0 <= j < self.invocations@.len() implies same_shape(
                        before.invocations@[j],
                        #[trigger] self.invocations@[j],
                    ) by {}
                    lemma_wf_same_shape(before, *self);
                }
            }
        }
        Vec::new()
    }
}

proof fn lemma_filter_keeps_all<A>(s: Seq<A>, pred: spec_fn(A) -> bool)
    requires
        forall|i: int| 0 <= i < s.len() ==> pred(#[trigger] s[i]),
    ensures
        s.filter(pred) == s,
    decreases s.len(),
{
    reveal(Seq::filter);
    if s.len() > 0 {
        lemma_filter_keeps_all(s.drop_last(), pred);
        assert(s.drop_last().push(s.last()) =~= s);
    }
}

proof fn lemma_outbox_suffix_is_filter(all: Seq<OutboxMessage>, k: int, up_to: u64)
    requires
        0 <= k <= all.len(),
        forall|i: int, j: int| 0 <= i < j < all.len() ==> all[i].sequence_number < all[j].sequence_number,
        forall|x: int| 0 <= x < k ==> (#[trigger] all[x]).sequence_number <= up_to,
        k < all.len() ==> all[k].sequence_number > up_to,
    ensures
        all.subrange(k, all.len() as int) == all.filter(|m: OutboxMessage| m.sequence_number > up_to),
{
    let pred = |m: OutboxMessage| m.sequence_number > up_to;
    let kept = all.subrange(k, all.len() as int);
    assert(all =~= all.take(k) + kept);
    Seq::filter_distributes_over_add(all.take(k), kept, pred);
    assert(all.take(k).all(|m: OutboxMessage| !pred(m)));
    all.take(k).lemma_all_neg_filter_empty(pred);
    assert(all.take(k).filter(pred) =~= Seq::<OutboxMessage>::empty());
    assert forall|x: int| 0 <= x < kept.len() implies pred(#[trigger] kept[x]) by {
        if x > 0 {
            assert(all[k].sequence_number < all[k + x].sequence_number);
        }
    }
    lemma_filter_keeps_all(kept, pred);
    assert(all.take(k) + kept == all);
}

impl PartitionState {
    /// Drops the outbox messages up to and including sequence number `up_to`, once the shipper
    /// has delivered them; the rest stay in order.
    pub fn truncate_outbox(&mut self, up_to: u64)
        requires
            old(self).wf(),
        ensures
            final(self).wf(),
            final(self).journals_extend(old(self)),
            final(self).invocations == old(self).invocations,
            final(self).user_state == old(self).user_state,
            final(self).next_inbox_sequence_number == old(self).next_inbox_sequence_number,
            final(self).next_outbox_sequence_number == old(self).next_outbox_sequence_number,
            final(self).applied_lsn == old(self).applied_lsn,
            final(self).log_time == old(self).log_time,
            final(self).outbox@ == old(self).outbox@.filter(|m: OutboxMessage| m.sequence_number > up_to),
    {
        let ghost before = *self;
        let mut k: usize = 0;
        while k < self.outbox.len() && self.outbox[k].sequence_number <= up_to
            invariant
                *self == before,
                before.wf(),
                k <= self.outbox@.len(),
                forall|x: int| 0 <= x < k ==> (#[trigger] self.outbox@[x]).sequence_number <= up_to,
            decreases self.outbox@.len() - k,
        {
            k = k + 1;
        }
        let ghost all = self.outbox@;
        let kept = self.outbox.split_off(k);
        proof {
            lemma_outbox_suffix_is_filter(all, k as int, up_to);
        }
        self.outbox = kept;
        proof {
            assert forall|a: int, b: int| 0 <= a < b < self.outbox@.len() implies self.outbox@[a].sequence_number
                < self.outbox@[b].sequence_number by {
                assert(self.outbox@[a] == all[k + a]);
                assert(self.outbox@[b] == all[k + b]);
            }
            assert forall|a: int| 0 <= a < self.outbox@.len() implies (#[trigger] self.outbox@[a]).sequence_number
                < self.next_outbox_sequence_number by {
                assert(self.outbox@[a] == all[k + a]);
            }
            lemma_wf_other_state(before, *self);
        }
    }
}

/// What `resume` does: a suspended invocation becomes invoked and the invoker is asked to resume
/// it; anything else is left as it is.
pub open spec fn resume_outcome(before: PartitionState, after: PartitionState, id: InvocationId, effects: Seq<Effect>) -> bool {
    match before.find_spec(id) {
        Some(i) => if before.invocations@[i].stored.status is Suspended {
            &&& changes_only(before, after, i)
            &&& touched(before.invocations@[i], after.invocations@[i], before.log_time)
            &&& after.invocations@[i].stored.status is Invoked
            &&& after.invocations@[i].journal == before.invocations@[i].journal
            &&& after.invocations@[i].stored.argument == before.invocations@[i].stored.argument
            &&& after.user_state == before.user_state
            &&& after.outbox == before.outbox
            &&& after.next_inbox_sequence_number == before.next_inbox_sequence_number
            &&& after.next_outbox_sequence_number == before.next_outbox_sequence_number
            &&& effects == seq![Effect::InvokerResume(id)]
        } else {
            after == before && effects.len() == 0
        },
        None => after == before && effects.len() == 0,
    }
}

/// What `attach_invocation` does: for a completed `query`, one response message with its result
/// goes to `response_sink`; for one still in flight, when asked to wait, `response_sink` joins its
/// response sinks; otherwise, or when the outbox counter has no room, nothing changes.
pub open spec fn attach_outcome(
    before: PartitionState,
    after: PartitionState,
    query: InvocationId,
    block_on_inflight: bool,
    response_sink: ResponseSink,
    effects: Seq<Effect>,
) -> bool {
    &&& effects.len() == 0
    &&& after.user_state == before.user_state
    &&& after.next_inbox_sequence_number == before.next_inbox_sequence_number
    &&& match before.find_spec(query) {
        Some(i) => match before.invocations@[i].stored.status {
            InvocationStatus::Completed { response_result } => if before.next_outbox_sequence_number < u64::MAX {
                let n = before.outbox@.len();
                &&& after.invocations == before.invocations
                &&& after.outbox@.len() == n + 1
                &&& after.outbox@.take(n as int) == before.outbox@
                &&& after.outbox@[n as int].sequence_number == before.next_outbox_sequence_number
                &&& (after.outbox@[n as int].message matches OutboxContent::ServiceResponse { sink, invocation_id, result }
                    && sink == response_sink && invocation_id == query && result.model() == response_result.model())
                &&& after.next_outbox_sequence_number == before.next_outbox_sequence_number + 1
            } else {
                after == before
            },
            _ => if block_on_inflight {
                &&& after.invocations@.len() == before.invocations@.len()
                &&& forall|j: int| 0 <= j < after.invocations@.len() && j != i ==> after.invocations@[j] == before.invocations@[j]
                &&& same_shape(before.invocations@[i], after.invocations@[i])
                &&& same_identity(before.invocations@[i], after.invocations@[i])
                &&& touched(before.invocations@[i], after.invocations@[i], before.log_time)
                &&& after.invocations@[i].stored.pinned_deployment == before.invocations@[i].stored.pinned_deployment
                &&& after.invocations@[i].stored.response_sinks@ == merge_sink(
                    before.invocations@[i].stored.response_sinks@,
                    Some(response_sink),
                )
                &&& after.outbox == before.outbox
                &&& after.next_outbox_sequence_number == before.next_outbox_sequence_number
            } else {
                after == before
            },
        },
        None => after == before,
    }
}

impl PartitionState {
    /// Applies `Resume`: see `resume_outcome`.
    pub fn resume(&mut self, id: InvocationId) -> (effects: Vec<Effect>)
        requires
            old(self).wf(),
        ensures
            final(self).wf(),
            final(self).journals_extend(old(self)),
            final(self).applied_lsn == old(self).applied_lsn,
            final(self).log_time == old(self).log_time,
            resume_outcome(*old(self), *final(self), id, effects@),
    {
        let mut effects: Vec<Effect> = Vec::new();
        if let Some(i) = self.find(id) {
            proof { self.lemma_find_spec(id, i as int); }
            if matches!(self.invocations[i].stored.status, InvocationStatus::Suspended { .. }) {
                let ghost before = *self;
                self.invocations[i].stored.status = InvocationStatus::Invoked;
                self.invocations[i].stored.modification_time = self.log_time;
                proof {
                    assert(before.invocations@[i as int].stored.journal_length == before.invocations@[i as int].journal@.len() && before.invocations@[i as int].payloads@.len() == before.invocations@[i as int].journal@.len());
                    assert(before.invocations@[i as int].stored.argument_matches_status());
                    assert forall|k: ServiceKey| #[trigger] holds_lock(self.invocations@[i as int], k) implies holds_lock(
                        before.invocations@[i as int],
                        k,
                    ) by {}
                    lemma_wf_update(before, *self, i as int);
                }
                effects.push(Effect::InvokerResume(id));
                proof {
                    assert(effects@ =~= seq![Effect::InvokerResume(id)]);
                }
            }
        }
        effects
    }

    /// Applies `AttachInvocation`: see `attach_outcome`.
    pub fn attach_invocation(&mut self, query: InvocationId, block_on_inflight: bool, response_sink: ResponseSink) -> (effects: Vec<Effect>)
        requires
            old(self).wf(),
        ensures
            final(self).wf(),
            final(self).journals_extend(old(self)),
            final(self).applied_lsn == old(self).applied_lsn,
            final(self).log_time == old(self).log_time,
            attach_outcome(*old(self), *final(self), query, block_on_inflight, response_sink, effects@),
    {
        if let Some(i) = self.find(query) {
            proof { self.lemma_find_spec(query, i as int); }
            let done = match &self.invocations[i].stored.status {
                InvocationStatus::Completed { response_result } => Some(response_result.duplicate()),
                _ => None,
            };
            match done {
                Some(result) => {
                    if self.next_outbox_sequence_number < u64::MAX {
                        let ghost before = *self;
                        let n = self.next_outbox_sequence_number;
                        self.outbox.push(
                            OutboxMessage {
                                sequence_number: n,
                                message: OutboxContent::ServiceResponse { sink: response_sink, invocation_id: query, result },
                            },
                        );
                        self.next_outbox_sequence_number = n + 1;
                        proof {
                            let m = before.outbox@.len() as int;
                            assert(self.outbox@.take(m) =~= before.outbox@);
                            assert forall|a: int, b: int| 0 <= a < b < self.outbox@.len() implies self.outbox@[a].sequence_number
                                < self.outbox@[b].sequence_number by {
                                if b == m {
                                    assert(before.outbox@[a].sequence_number < before.next_outbox_sequence_number);
                                }
                            }
                            assert forall|a: int| 0 <= a < self.outbox@.len() implies (#[trigger] self.outbox@[a]).sequence_number
                                < self.next_outbox_sequence_number by {
                                if a < m {
                                    assert(before.outbox@[a].sequence_number < before.next_outbox_sequence_number);
                                }
                            }
                            lemma_wf_other_state(before, *self);
                        }
                    }
                },
                None => {
                    if block_on_inflight {
                        self.add_sink(i, Some(response_sink));
                    }
                },
            }
        }
        Vec::new()
    }
}

proof fn lemma_wf_other_state(before: PartitionState, after: PartitionState)
    requires
        before.wf(),
        after.user_state.wf(),
        after.invocations == before.invocations,
        outbox_ordered(after),
        after.next_inbox_sequence_number == before.next_inbox_sequence_number,
    ensures
        after.wf(),
        after.journals_extend(&before),
{
    assert forall|i: int, j: int|
        0 <= i < before.invocations@.len() && 0 <= j < after.invocations@.len()
            && before.invocations@[i].invocation_id == after.invocations@[j].invocation_id implies journal_extends(
        #[trigger] before.invocations@[i].journal@,
        #[trigger] after.invocations@[j].journal@,
    ) && payloads_extend(before.invocations@[i].payloads@, after.invocations@[j].payloads@) by {
        if i != j {
            if i < j {
                assert(before.invocations@[i].invocation_id != before.invocations@[j].invocation_id);
            } else {
                assert(before.invocations@[j].invocation_id != before.invocations@[i].invocation_id);
            }
        }
    }
}

impl PartitionState {
    /// Whether the outbox counter has room for one message per response sink of invocation `i`.
    pub open spec fn outbox_room(&self, i: int) -> bool {
        self.next_outbox_sequence_number + self.invocations@[i].stored.response_sinks@.len() <= u64::MAX
    }

    fn has_outbox_room(&self, i: usize) -> (r: bool)
        requires
            i < self.invocations@.len(),
        ensures
            r == self.outbox_room(i as int),
    {
        let n = self.invocations[i].stored.response_sinks.len();
        (n as u128) + (self.next_outbox_sequence_number as u128) <= u64::MAX as u128
    }

    /// Applies `End`: a running invocation completes with `result` and its cleanup is scheduled
    /// (see `completes_with_cleanup`). When the invocation is not running, or the outbox counter
    /// has no room, nothing changes.
    pub fn end_invocation(&mut self, id: InvocationId, result: EntryResult) -> (effects: Vec<Effect>)
        requires
            old(self).wf(),
        ensures
            final(self).wf(),
            final(self).journals_extend(old(self)),
            final(self).applied_lsn == old(self).applied_lsn,
            final(self).log_time == old(self).log_time,
            end_outcome(*old(self), *final(self), id, result.model(), effects@),
    {
        if let Some(i) = self.find(id) {
            proof { self.lemma_find_spec(id, i as int); }
            let running = match self.invocations[i].stored.status {
                InvocationStatus::Invoked => true,
                InvocationStatus::Suspended { .. } => true,
                _ => false,
            };
            if running && self.has_outbox_room(i) {
                return self.complete_invocation(i, result);
            }
        }
        Vec::new()
    }

    /// Applies `TerminateInvocation`. Killing completes any invocation that is not completed yet
    /// with the `killed` failure and schedules its cleanup (see `completes_with_cleanup`), after
    /// asking the invoker to abort it if it runs. Canceling completes an invocation that has not started yet with the `canceled`
    /// failure; a running one gets a `CancelInvocation` entry to observe instead, and is resumed
    /// if it was suspended. A completed or unknown invocation, or one for which the outbox
    /// counter or the journal has no room, is left as it is.
    pub fn terminate_invocation(&mut self, id: InvocationId, flavor: TerminationFlavor) -> (effects: Vec<Effect>)
        requires
            old(self).wf(),
        ensures
            final(self).wf(),
            final(self).journals_extend(old(self)),
            final(self).applied_lsn == old(self).applied_lsn,
            final(self).log_time == old(self).log_time,
            terminate_outcome(*old(self), *final(self), id, flavor, effects@),
    {
        let i = match self.find(id) {
            Some(i) => i,
            None => {
                return Vec::new();
            },
        };
        proof { self.lemma_find_spec(id, i as int); }
        let (completed, running, suspended) = match self.invocations[i].stored.status {
            InvocationStatus::Completed { .. } => (true, false, false),
            InvocationStatus::Invoked => (false, true, false),
            InvocationStatus::Suspended { .. } => (false, true, true),
            _ => (false, false, false),
        };
        if completed {
            return Vec::new();
        }
        let kill = match flavor {
            TerminationFlavor::Kill => true,
            TerminationFlavor::Cancel => false,
        };
        if kill || !running {
            if !self.has_outbox_room(i) {
                return Vec::new();
            }
            let result = if kill {
                EntryResult::Failure(409, "killed".to_owned())
            } else {
                EntryResult::Failure(409, "canceled".to_owned())
            };
            if running {
                let rest = self.complete_invocation(i, result);
                let mut effects: Vec<Effect> = Vec::new();
                effects.push(Effect::InvokerAbort(id));
                let mut m: usize = 0;
                while m < rest.len()
                    invariant
                        m <= rest@.len(),
                        effects@.len() == m + 1,
                        effects@[0] == Effect::InvokerAbort(id),
                        effects@.drop_first() == rest@.take(m as int),
                    decreases rest@.len() - m,
                {
                    effects.push(rest[m]);
                    m = m + 1;
                    proof {
                        assert(effects@.drop_first() =~= rest@.take(m as int));
                    }
                }
                proof {
                    assert(rest@.take(rest@.len() as int) =~= rest@);
                }
                return effects;
            } else {
                return self.complete_invocation(i, result);
            }
        }
        if self.invocations[i].journal.len() >= u32::MAX as usize {
            return Vec::new();
        }
        let ghost before = *self;
        proof {
            assert(before.invocations@[i as int].stored.journal_length == before.invocations@[i as int].journal@.len() && before.invocations@[i as int].payloads@.len() == before.invocations@[i as int].journal@.len());
        }
        let len = self.invocations[i].journal.len() as u32;
        self.invocations[i].journal.push(JournalEntry { kind: EntryKind::CancelInvocation, is_completed: true });
        self.invocations[i].payloads.push(EntryPayload { raw_entry: Vec::new(), completion: None });
        self.invocations[i].stored.journal_length = len + 1;
        self.invocations[i].stored.status = InvocationStatus::Invoked;
        self.invocations[i].stored.modification_time = self.log_time;
        proof {
            assert forall|k: ServiceKey| #[trigger] holds_lock(self.invocations@[i as int], k) implies holds_lock(
                before.invocations@[i as int],
                k,
            ) by {}
            lemma_wf_update(before, *self, i as int);
        }
        let mut effects: Vec<Effect> = Vec::new();
        if suspended {
            effects.push(Effect::InvokerResume(id));
        }
        proof {
            if suspended {
                assert(effects@ =~= seq![Effect::InvokerResume(id)]);
            } else {
                assert(effects@ =~= Seq::<Effect>::empty());
            }
        }
        effects
    }

    /// Applies `CleanInvocationStatus`: a completed invocation is forgotten together with its
    /// journal. Any other is left as it is.
    pub fn clean_invocation_status(&mut self, id: InvocationId) -> (effects: Vec<Effect>)
        requires
            old(self).wf(),
        ensures
            final(self).wf(),
            final(self).applied_lsn == old(self).applied_lsn,
            final(self).log_time == old(self).log_time,
            final(self).journals_extend(old(self)),
            clean_outcome(*old(self), *final(self), id, effects@),
    {
        if let Some(i) = self.find(id) {
            proof { self.lemma_find_spec(id, i as int); }
            if matches!(self.invocations[i].stored.status, InvocationStatus::Completed { .. }) {
                let ghost before = *self;
                let _removed = self.invocations.remove(i);
                proof {
                    let b = before.invocations@;
                    let a = self.invocations@;
                    assert forall|x: int| 0 <= x < a.len() implies #[trigger] a[x] == b[if x < i { x } else { x + 1 }] by {}
                    assert forall|x: int, y: int, k: ServiceKey|
                        0 <= x < a.len() && 0 <= y < a.len() && #[trigger] holds_lock(a[x], k) && #[trigger] holds_lock(a[y], k) implies x == y by {
                        let x0 = if x < i { x } else { x + 1 };
                        let y0 = if y < i { y } else { y + 1 };
                        assert(a[x] == b[x0]);
                        assert(a[y] == b[y0]);
                        assert(holds_lock(b[x0], k));
                        assert(holds_lock(b[y0], k));
                    }
                    assert forall|x: int| 0 <= x < a.len() implies (#[trigger] a[x]).stored.journal_length == a[x].journal@.len() && a[x].payloads@.len() == a[x].journal@.len() by {
                        let x0 = if x < i { x } else { x + 1 };
                        assert(a[x] == b[x0]);
                        assert(b[x0].stored.journal_length == b[x0].journal@.len() && b[x0].payloads@.len() == b[x0].journal@.len());
                    }
                    assert forall|x: int| 0 <= x < a.len() && is_inboxed(#[trigger] a[x]) implies inbox_seq(a[x])
                        < self.next_inbox_sequence_number && a[x].stored.invocation_target.locked_service() is Some
                        && a[x].journal@.len() == 0 by {
                        let x0 = if x < i { x } else { x + 1 };
                        assert(a[x] == b[x0]);
                        assert(is_inboxed(b[x0]));
                    }
                    assert forall|x: int| 0 <= x < a.len() && is_scheduled(#[trigger] a[x]) implies a[x].journal@.len() == 0 by {
                        let x0 = if x < i { x } else { x + 1 };
                        assert(a[x] == b[x0]);
                        assert(is_scheduled(b[x0]));
                    }
                    assert forall|x: int, y: int|
                        0 <= x < a.len() && 0 <= y < a.len() && x != y && is_inboxed(#[trigger] a[x]) && is_inboxed(#[trigger] a[y])
                        implies inbox_seq(a[x]) != inbox_seq(a[y]) by {
                        let x0 = if x < i { x } else { x + 1 };
                        let y0 = if y < i { y } else { y + 1 };
                        assert(a[x] == b[x0]);
                        assert(a[y] == b[y0]);
                        assert(is_inboxed(b[x0]));
                        assert(is_inboxed(b[y0]));
                    }
                    assert forall|x: int, y: int| 0 <= x < y < a.len() implies a[x].invocation_id != a[y].invocation_id by {
                        let x0 = if x < i { x } else { x + 1 };
                        let y0 = if y < i { y } else { y + 1 };
                        assert(a[x] == b[x0]);
                        assert(a[y] == b[y0]);
                    }
                    assert forall|x: int, y: int|
                        0 <= x < b.len() && 0 <= y < a.len() && b[x].invocation_id == a[y].invocation_id implies journal_extends(
                        #[trigger] b[x].journal@,
                        #[trigger] a[y].journal@,
                    ) && payloads_extend(b[x].payloads@, a[y].payloads@) by {
                        let y0 = if y < i { y } else { y + 1 };
                        assert(a[y] == b[y0]);
                        if x != y0 {
                            if x < y0 {
                                assert(b[x].invocation_id != b[y0].invocation_id);
                            } else {
                                assert(b[y0].invocation_id != b[x].invocation_id);
                            }
                        }
                    }
                    if self.contains(id) {
                        let x = choose|x: int| 0 <= x < a.len() && a[x].invocation_id == id;
                        let x0 = if x < i { x } else { x + 1 };
                        assert(a[x] == b[x0]);
                        if x0 < i {
                            assert(b[x0].invocation_id != b[i as int].invocation_id);
                        } else {
                            assert(b[i as int].invocation_id != b[x0].invocation_id);
                        }
                    }
                }
            }
        }
        Vec::new()
    }

    /// Whether a command at `lsn` was already applied: the partition has applied that position
    /// of the log or a later one.
    pub open spec fn is_replay(&self, lsn: u64) -> bool {
        self.applied_lsn matches Some(l) && lsn <= l
    }

    /// Applies the command at log position `lsn`, recorded in the log at `timestamp`. A command
    /// at a position already applied is a replay and changes nothing; any other is applied by its
    /// handler above at that time, and the position is recorded.
    pub fn apply(&mut self, lsn: u64, timestamp: u64, command: Command) -> (effects: Vec<Effect>)
        requires
            old(self).wf(),
            old(self).next_inbox_sequence_number < u64::MAX,
        ensures
            final(self).wf(),
            final(self).journals_extend(old(self)),
            final(self).next_inbox_sequence_number <= old(self).next_inbox_sequence_number + 1,
            old(self).is_replay(lsn) ==> *final(self) == *old(self) && effects@.len() == 0,
            !old(self).is_replay(lsn) ==> final(self).applied_lsn == Some(lsn) && final(self).log_time == timestamp
                && command_outcome(
                (PartitionState { log_time: timestamp, ..*old(self) }),
                (PartitionState { applied_lsn: old(self).applied_lsn, ..*final(self) }),
                command,
                effects@,
            ),
    {
        if let Some(l) = self.applied_lsn {
            if lsn <= l {
                return Vec::new();
            }
        }
        self.log_time = timestamp;
        let effects = match command {
            Command::Invoke(si) => self.invoke(si),
            Command::Suspend { invocation_id, waiting_for_completed_entries } => self.suspend(
                invocation_id,
                waiting_for_completed_entries,
            ),
            Command::AppendJournalEntry { invocation_id, entry_index, entry, raw_entry } => self.append_journal_entry(
                invocation_id,
                entry_index,
                entry,
                raw_entry,
            ),
            Command::CompleteJournalEntry { invocation_id, entry_index, result } => self.complete_journal_entry(
                invocation_id,
                entry_index,
                result,
            ),
            Command::End { invocation_id, result } => self.end_invocation(invocation_id, result),
            Command::TerminateInvocation { invocation_id, flavor } => self.terminate_invocation(invocation_id, flavor),
            Command::CleanInvocationStatus { invocation_id } => self.clean_invocation_status(invocation_id),
            Command::FireTimer(Timer::CompleteJournalEntry { invocation_id, entry_index }) => self.complete_journal_entry(
                invocation_id,
                entry_index,
                CompletionResult::Empty,
            ),
            Command::FireTimer(Timer::NeoInvoke { invocation_id }) => self.start_scheduled(invocation_id),
            Command::FireTimer(Timer::Invoke(si)) => self.invoke(si),
            Command::FireTimer(Timer::CleanInvocationStatus { invocation_id }) => self.clean_invocation_status(
                invocation_id,
            ),
            Command::SetState { service_id, key, value } => self.set_state(service_id, key, value),
            Command::ClearState { service_id, key } => self.clear_state(&service_id, &key),
            Command::ClearAllState { service_id } => self.clear_all_state(&service_id),
            Command::PinDeployment { invocation_id, deployment } => self.pin_deployment(invocation_id, deployment),
            Command::Resume { invocation_id } => self.resume(invocation_id),
            Command::SendResponse { invocation_id, entry_index, result } => self.complete_journal_entry(
                invocation_id,
                entry_index,
                completion_of(result),
            ),
            Command::AttachInvocation { query, block_on_inflight, response_sink } => self.attach_invocation(
                query,
                block_on_inflight,
                response_sink,
            ),
        };
        self.applied_lsn = Some(lsn);
        effects
    }
}

/// Lock exclusivity: in every well-formed partition state, two running invocations that need
/// the lock of the same service instance are the same invocation.
pub proof fn lemma_lock_exclusivity(s: PartitionState, i: int, j: int, k: ServiceKey)
    requires
        s.wf(),
        0 <= i < s.invocations@.len(),
        0 <= j < s.invocations@.len(),
        is_running(s.invocations@[i]),
        is_running(s.invocations@[j]),
        s.invocations@[i].stored.invocation_target.locked_service() == Some(k),
        s.invocations@[j].stored.invocation_target.locked_service() == Some(k),
    ensures
        i == j,
{
    assert(holds_lock(s.invocations@[i], k));
    assert(holds_lock(s.invocations@[j], k));
}

/// First in, first out: when the invocation holding the lock of `k` completes, an invocation
/// that entered the inbox of `k` after another one still waiting there is not dispatched; it
/// stays inboxed.
pub proof fn lemma_inbox_fifo(
    s: PartitionState,
    after: PartitionState,
    i: int,
    result: crate::types::EntryResultModel,
    k: ServiceKey,
    a: int,
    b: int,
    effects: Seq<Effect>,
)
    requires
        s.wf(),
        0 <= i < s.invocations@.len(),
        holds_lock(s.invocations@[i], k),
        0 <= a < s.invocations@.len(),
        0 <= b < s.invocations@.len(),
        is_inboxed_for(s.invocations@[a], k),
        is_inboxed_for(s.invocations@[b], k),
        inbox_seq(s.invocations@[a]) < inbox_seq(s.invocations@[b]),
        completes_with_cleanup(s, after, i, result, effects),
    ensures
        after.invocations@[b] == s.invocations@[b],
        !effects.contains(Effect::InvokerDispatch(s.invocations@[b].invocation_id)),
{
    let rest = effects.drop_first();
    let e = s.invocations@[i];
    assert(e.stored.invocation_target.locked_service() == Some(k));
    assert(is_running(e));
    let j = choose|j: int|
        0 <= j < s.invocations@.len() && is_inboxed_for(s.invocations@[j], k) && (forall|x: int|
            0 <= x < s.invocations@.len() && is_inboxed_for(#[trigger] s.invocations@[x], k) ==> inbox_seq(
                s.invocations@[j],
            ) <= inbox_seq(s.invocations@[x])) && starts_running(s.invocations@[j], after.invocations@[j], s.log_time)
            && same_record(s.invocations@[j], after.invocations@[j])
            && rest == seq![Effect::InvokerDispatch(s.invocations@[j].invocation_id)]
            && forall|x: int| 0 <= x < after.invocations@.len() && x != i && x != j ==> #[trigger] after.invocations@[x] == s.invocations@[x];
    assert(inbox_seq(s.invocations@[j]) <= inbox_seq(s.invocations@[a]));
    assert(j != b);
    assert(b != i);
    assert(after.invocations@[b] == s.invocations@[b]);
    if b < j {
        assert(s.invocations@[b].invocation_id != s.invocations@[j].invocation_id);
    } else {
        assert(s.invocations@[j].invocation_id != s.invocations@[b].invocation_id);
    }
    assert(effects =~= seq![effects[0]] + rest);
    if effects.contains(Effect::InvokerDispatch(s.invocations@[b].invocation_id)) {
        let x = choose|x: int| 0 <= x < effects.len() && effects[x] == Effect::InvokerDispatch(s.invocations@[b].invocation_id);
        if x == 0 {
        } else {
            assert(effects[x] == rest[x - 1]);
        }
    }
}

/// First in, first out: an invocation that `Invoke` puts in an inbox is numbered after every
/// invocation already waiting in any inbox.
pub proof fn lemma_inbox_numbering(s: PartitionState, after: PartitionState, si: ServiceInvocation, effects: Seq<Effect>, a: int)
    requires
        s.wf(),
        invoke_outcome(s, after, si, effects),
        forall|i: int| 0 <= i < s.invocations@.len() ==> !repeats(#[trigger] s.invocations@[i], si),
        is_inboxed(after.invocations@.last()),
        0 <= a < s.invocations@.len(),
        is_inboxed(s.invocations@[a]),
    ensures
        inbox_seq(s.invocations@[a]) < inbox_seq(after.invocations@.last()),
{
}

/// Journals are append-only: a journal extends itself, and a journal that extends one that
/// extends a third extends the third, so over any run of commands each entry keeps its index
/// and kind, and a completed entry stays completed.
pub proof fn lemma_journals_append_only(a: PartitionState, b: PartitionState, c: PartitionState)
    requires
        a.wf(),
        b.wf(),
        b.journals_extend(&a),
        c.journals_extend(&b),
        forall|id: InvocationId| a.contains(id) ==> b.contains(id),
    ensures
        c.journals_extend(&a),
        a.journals_extend(&a),
{
    assert forall|i: int, j: int|
        0 <= i < a.invocations@.len() && 0 <= j < c.invocations@.len() && a.invocations@[i].invocation_id
            == c.invocations@[j].invocation_id implies journal_extends(
        #[trigger] a.invocations@[i].journal@,
        #[trigger] c.invocations@[j].journal@,
    ) && payloads_extend(a.invocations@[i].payloads@, c.invocations@[j].payloads@) by {
        let id = a.invocations@[i].invocation_id;
        assert(a.contains(id));
        let m = choose|m: int| 0 <= m < b.invocations@.len() && b.invocations@[m].invocation_id == id;
        assert(journal_extends(a.invocations@[i].journal@, b.invocations@[m].journal@));
        assert(journal_extends(b.invocations@[m].journal@, c.invocations@[j].journal@));
        let ja = a.invocations@[i].journal@;
        let jb = b.invocations@[m].journal@;
        let jc = c.invocations@[j].journal@;
        assert forall|x: int| 0 <= x < ja.len() implies (#[trigger] jc[x]).kind == ja[x].kind && (ja[x].is_completed
            ==> jc[x].is_completed) by {
            assert(jb[x].kind == ja[x].kind);
            assert(jc[x].kind == jb[x].kind);
        }
        assert(payloads_extend(a.invocations@[i].payloads@, b.invocations@[m].payloads@));
        assert(payloads_extend(b.invocations@[m].payloads@, c.invocations@[j].payloads@));
        let pa = a.invocations@[i].payloads@;
        let pb = b.invocations@[m].payloads@;
        let pc = c.invocations@[j].payloads@;
        assert forall|x: int| 0 <= x < pa.len() implies (#[trigger] pc[x]).raw_entry@ == pa[x].raw_entry@ && (
        pa[x].completion is Some ==> opt_completion_model(pc[x].completion) == opt_completion_model(pa[x].completion)) by {
            assert(pb[x].raw_entry@ == pa[x].raw_entry@);
            assert(pc[x].raw_entry@ == pb[x].raw_entry@);
        }
    }
    assert forall|i: int, j: int|
        0 <= i < a.invocations@.len() && 0 <= j < a.invocations@.len() && a.invocations@[i].invocation_id
            == a.invocations@[j].invocation_id implies journal_extends(
        #[trigger] a.invocations@[i].journal@,
        #[trigger] a.invocations@[j].journal@,
    ) && payloads_extend(a.invocations@[i].payloads@, a.invocations@[j].payloads@) by {
        if i != j {
            if i < j {
                assert(a.invocations@[i].invocation_id != a.invocations@[j].invocation_id);
            } else {
                assert(a.invocations@[j].invocation_id != a.invocations@[i].invocation_id);
            }
        }
    }
}


} // verus!
