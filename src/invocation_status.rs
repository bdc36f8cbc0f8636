use vstd::prelude::*;

use crate::types::{
    EntryIndex, EntryResult, EntryResultModel, InvocationTarget, PinnedDeployment, ResponseSink, TargetModel, Source, SpanContext, Header, headers_model, opt_bytes, copy_headers, copy_opt_bytes, copy_indices, copy_sinks,
    pinned_model,
};

verus! {

/// Where an invocation stands in its lifecycle.
pub enum InvocationStatus {
    /// Waiting for its execution time.
    Scheduled,
    /// Waiting in the inbox of the service instance it needs.
    Inboxed { inbox_sequence_number: u64 },
    /// Running in a deployment.
    Invoked,
    /// Waiting until one of the listed journal entries is completed.
    Suspended { waiting_for_completed_entries: Vec<EntryIndex> },
    /// Done, with its result.
    Completed { response_result: EntryResult },
}

/// What a status is, over mathematical values.
pub enum StatusModel {
    Scheduled,
    Inboxed(u64),
    Invoked,
    Suspended(Seq<EntryIndex>),
    Completed(EntryResultModel),
}

impl InvocationStatus {
    pub open spec fn model(&self) -> StatusModel {
        match self {
            InvocationStatus::Scheduled => StatusModel::Scheduled,
            InvocationStatus::Inboxed { inbox_sequence_number } => StatusModel::Inboxed(*inbox_sequence_number),
            InvocationStatus::Invoked => StatusModel::Invoked,
            InvocationStatus::Suspended { waiting_for_completed_entries } => StatusModel::Suspended(
                waiting_for_completed_entries@,
            ),
            InvocationStatus::Completed { response_result } => StatusModel::Completed(response_result.model()),
        }
    }

    pub fn duplicate(&self) -> (r: InvocationStatus)
        ensures
            r.model() == self.model(),
    {
        match self {
            InvocationStatus::Scheduled => InvocationStatus::Scheduled,
            InvocationStatus::Inboxed { inbox_sequence_number } => InvocationStatus::Inboxed {
                inbox_sequence_number: *inbox_sequence_number,
            },
            InvocationStatus::Invoked => InvocationStatus::Invoked,
            InvocationStatus::Suspended { waiting_for_completed_entries } => InvocationStatus::Suspended {
                waiting_for_completed_entries: copy_indices(waiting_for_completed_entries),
            },
            InvocationStatus::Completed { response_result } => InvocationStatus::Completed {
                response_result: response_result.duplicate(),
            },
        }
    }
}

/// Whether an invocation in `status` has not started yet.
pub open spec fn is_pre_flight(status: InvocationStatus) -> bool {
    status is Scheduled || status is Inboxed
}

/// The stored record of an invocation: its status and what is kept beside it.
pub struct StoredInvocation {
    pub status: InvocationStatus,
    pub invocation_target: InvocationTarget,
    pub response_sinks: Vec<ResponseSink>,
    pub journal_length: u32,
    pub idempotency_key: Option<String>,
    pub creation_time: u64,
    pub modification_time: u64,
    pub execution_time: Option<u64>,
    pub completion_retention_duration: u64,
    pub pinned_deployment: Option<PinnedDeployment>,
    /// The request's argument, kept while the invocation has not started.
    pub argument: Option<Vec<u8>>,
    pub source: Source,
    pub span_context: SpanContext,
    pub headers: Vec<Header>,
    pub inboxed_transition_time: Option<u64>,
    pub scheduled_transition_time: Option<u64>,
    pub running_transition_time: Option<u64>,
    pub completed_transition_time: Option<u64>,
}

/// What a stored invocation is, over mathematical values.
pub struct StoredInvocationModel {
    pub status: StatusModel,
    pub invocation_target: TargetModel,
    pub response_sinks: Seq<ResponseSink>,
    pub journal_length: u32,
    pub idempotency_key: Option<Seq<char>>,
    pub creation_time: u64,
    pub modification_time: u64,
    pub execution_time: Option<u64>,
    pub completion_retention_duration: u64,
    pub pinned_deployment: Option<(Seq<char>, i32)>,
    pub argument: Option<Seq<u8>>,
    pub source: Source,
    pub span_context: SpanContext,
    pub headers: Seq<(Seq<char>, Seq<char>)>,
    pub inboxed_transition_time: Option<u64>,
    pub scheduled_transition_time: Option<u64>,
    pub running_transition_time: Option<u64>,
    pub completed_transition_time: Option<u64>,
}

/// The text of an optional string.
pub open spec fn opt_text(s: Option<String>) -> Option<Seq<char>> {
    match s {
        Some(t) => Some(t@),
        None => None,
    }
}

impl StoredInvocation {
    pub open spec fn model(&self) -> StoredInvocationModel {
        StoredInvocationModel {
            status: self.status.model(),
            invocation_target: self.invocation_target.model(),
            response_sinks: self.response_sinks@,
            journal_length: self.journal_length,
            idempotency_key: opt_text(self.idempotency_key),
            creation_time: self.creation_time,
            modification_time: self.modification_time,
            execution_time: self.execution_time,
            completion_retention_duration: self.completion_retention_duration,
            pinned_deployment: pinned_model(self.pinned_deployment),
            argument: opt_bytes(self.argument),
            source: self.source,
            span_context: self.span_context,
            headers: headers_model(self.headers@),
            inboxed_transition_time: self.inboxed_transition_time,
            scheduled_transition_time: self.scheduled_transition_time,
            running_transition_time: self.running_transition_time,
            completed_transition_time: self.completed_transition_time,
        }
    }

    /// The argument is kept exactly while the invocation has not started: scheduled or inboxed.
    pub open spec fn argument_matches_status(&self) -> bool {
        self.argument is Some <==> is_pre_flight(self.status)
    }

    pub fn duplicate(&self) -> (r: StoredInvocation)
        ensures
            r.model() == self.model(),
    {
        StoredInvocation {
            status: self.status.duplicate(),
            invocation_target: self.invocation_target.duplicate(),
            response_sinks: copy_sinks(&self.response_sinks),
            journal_length: self.journal_length,
            idempotency_key: match &self.idempotency_key {
                Some(k) => Some(k.clone()),
                None => None,
            },
            creation_time: self.creation_time,
            modification_time: self.modification_time,
            execution_time: self.execution_time,
            completion_retention_duration: self.completion_retention_duration,
            pinned_deployment: match &self.pinned_deployment {
                Some(d) => Some(d.duplicate()),
                None => None,
            },
            argument: copy_opt_bytes(&self.argument),
            source: self.source,
            span_context: self.span_context,
            headers: copy_headers(&self.headers),
            inboxed_transition_time: self.inboxed_transition_time,
            scheduled_transition_time: self.scheduled_transition_time,
            running_transition_time: self.running_transition_time,
            completed_transition_time: self.completed_transition_time,
        }
    }
}

} // verus!
