use vstd::prelude::*;

use crate::state_machine::{EntryKind, JournalEntry};
use crate::types::{EntryIndex, EntryResult, EntryResultModel, InvocationId, InvocationTarget};

verus! {

/// How a call entry was resolved: the invocation it started, its target, and how long the
/// callee's result is retained.
pub struct CallEnrichment {
    pub invocation_id: InvocationId,
    pub invocation_target: InvocationTarget,
    pub completion_retention_time: u64,
}

/// The awakeable that a `CompleteAwakeable` entry completes: an entry of another invocation.
#[derive(Clone, Copy, Debug, PartialEq, Eq, Structural)]
pub struct AwakeableTarget {
    pub invocation_id: InvocationId,
    pub entry_index: EntryIndex,
}

/// The header of a stored journal entry: its kind and completion, and what was resolved for it.
pub struct EnrichedEntryHeader {
    pub header: JournalEntry,
    /// Present exactly for `Call` and `OneWayCall` entries.
    pub call: Option<CallEnrichment>,
    /// Present exactly for `CompleteAwakeable` entries.
    pub awakeable_target: Option<AwakeableTarget>,
}

/// Whether an entry of kind `k` carries a call resolution.
pub open spec fn is_call_kind(k: EntryKind) -> bool {
    k == EntryKind::Call || k == EntryKind::OneWayCall
}

impl EnrichedEntryHeader {
    /// The resolution and the awakeable target are present exactly for the kinds that have them.
    pub open spec fn well_formed(&self) -> bool {
        &&& (self.call is Some <==> is_call_kind(self.header.kind))
        &&& (self.awakeable_target is Some <==> self.header.kind == EntryKind::CompleteAwakeable)
    }
}

/// The result that completes a journal entry.
pub enum CompletionResult {
    Empty,
    Success(Vec<u8>),
    Failure(u16, String),
}

/// A stored journal entry: an entry the handler wrote, with its raw bytes, or the completion of
/// an earlier entry.
pub enum StoredJournalEntry {
    Entry { header: EnrichedEntryHeader, raw_entry: Vec<u8> },
    Completion { entry_index: EntryIndex, result: CompletionResult },
}

/// What a completion result is, over mathematical values.
pub enum CompletionModel {
    Empty,
    Success(Seq<u8>),
    Failure(u16, Seq<char>),
}

pub open spec fn completion_model(c: CompletionResult) -> CompletionModel {
    match c {
        CompletionResult::Empty => CompletionModel::Empty,
        CompletionResult::Success(b) => CompletionModel::Success(b@),
        CompletionResult::Failure(code, m) => CompletionModel::Failure(code, m@),
    }
}

/// The model of an optional completion result.
pub open spec fn opt_completion_model(c: Option<CompletionResult>) -> Option<CompletionModel> {
    match c {
        Some(r) => Some(completion_model(r)),
        None => None,
    }
}

/// The bytes a journal entry was written with, and the result that completed it, if any.
pub struct EntryPayload {
    pub raw_entry: Vec<u8>,
    pub completion: Option<CompletionResult>,
}

/// Whether `new` keeps every payload of `old` at its index: the same bytes, and a completion
/// result that, once set, stays.
pub open spec fn payloads_extend(old: Seq<EntryPayload>, new: Seq<EntryPayload>) -> bool {
    &&& old.len() <= new.len()
    &&& forall|i: int|
        0 <= i < old.len() ==> (#[trigger] new[i]).raw_entry@ == old[i].raw_entry@ && (old[i].completion is Some
            ==> opt_completion_model(new[i].completion) == opt_completion_model(old[i].completion))
}

/// The completion result that carries an entry result.
pub fn completion_of(result: EntryResult) -> (r: CompletionResult)
    ensures
        completion_model(r) == match result.model() {
            EntryResultModel::Success(b) => CompletionModel::Success(b),
            EntryResultModel::Failure(c, m) => CompletionModel::Failure(c, m),
        },
{
    match result {
        EntryResult::Success(b) => CompletionResult::Success(b),
        EntryResult::Failure(c, m) => CompletionResult::Failure(c, m),
    }
}

} // verus!
