use vstd::prelude::*;

use crate::state_machine::{Command, Effect, PartitionState, command_outcome};

verus! {

/// What the replicated log hands a partition processor.
pub enum ConsensusCommand {
    /// A committed command at its log position, with the time the log recorded for it.
    Commit { lsn: u64, timestamp: u64, command: Command },
    /// This node now leads the partition.
    Leader,
    /// This node now follows the partition's leader.
    Follower,
    ApplySnapshot,
    CreateSnapshot,
}

/// Why the processor refused a log command.
#[derive(Debug, PartialEq, Eq)]
pub enum ProcessorError {
    /// Snapshots are declared but not supported.
    Unsupported,
}

/// What observers see of a partition processor.
#[derive(Clone, Copy, Debug, PartialEq, Eq, Structural)]
pub struct PartitionProcessorStatus {
    pub is_leader: bool,
    pub last_applied_lsn: Option<u64>,
}

/// The per-partition actor: it applies the log to the partition state and, while it leads,
/// hands the resulting effects on for dispatch.
pub struct PartitionProcessor {
    pub id: usize,
    pub state: PartitionState,
    pub is_leader: bool,
}

impl PartitionProcessor {
    /// A processor for partition `id`, following, with an empty state.
    pub fn build(id: usize) -> (r: PartitionProcessor)
        ensures
            r.id == id,
            r.state.wf(),
            r.state.invocations@.len() == 0,
            r.state.user_state@ == crate::state_table::StateContents::empty(),
            r.state.outbox@.len() == 0,
            r.state.next_inbox_sequence_number == 0,
            r.state.next_outbox_sequence_number == 0,
            r.state.applied_lsn is None,
            r.state.log_time == 0,
            !r.is_leader,
    {
        PartitionProcessor { id, state: PartitionState::new(), is_leader: false }
    }

    /// The effects to dispatch after a commit: all of them while leading, none while following.
    pub fn apply_effects(&self, effects: Vec<Effect>) -> (r: Vec<Effect>)
        ensures
            self.is_leader ==> r@ == effects@,
            !self.is_leader ==> r@.len() == 0,
    {
        if self.is_leader {
            effects
        } else {
            Vec::new()
        }
    }

    /// Handles one command of the log: a commit is applied to the state (a replayed position
    /// changes nothing) and its effects are returned for dispatch while leading; a change of
    /// leadership is recorded; a snapshot request fails as unsupported and changes nothing.
    pub fn on_command(&mut self, command: ConsensusCommand) -> (r: Result<Vec<Effect>, ProcessorError>)
        requires
            old(self).state.wf(),
            old(self).state.next_inbox_sequence_number < u64::MAX,
        ensures
            final(self).state.wf(),
            final(self).id == old(self).id,
            final(self).state.journals_extend(&old(self).state),
            final(self).state.next_inbox_sequence_number <= old(self).state.next_inbox_sequence_number + 1,
            match command {
                ConsensusCommand::Commit { lsn, timestamp, command: c } => {
                    let applied = (PartitionState { applied_lsn: old(self).state.applied_lsn, ..final(self).state });
                    let start = (PartitionState { log_time: timestamp, ..old(self).state });
                    &&& r is Ok
                    &&& final(self).is_leader == old(self).is_leader
                    &&& (old(self).state.is_replay(lsn) ==> final(self).state == old(self).state && r.unwrap()@.len() == 0)
                    &&& (!old(self).state.is_replay(lsn) ==> final(self).state.applied_lsn == Some(lsn))
                    &&& (!old(self).state.is_replay(lsn) && old(self).is_leader ==> command_outcome(
                        start,
                        applied,
                        c,
                        r.unwrap()@,
                    ))
                    &&& (!old(self).state.is_replay(lsn) && !old(self).is_leader ==> exists|effects: Seq<Effect>|
                        command_outcome(start, applied, c, effects))
                    &&& (!old(self).is_leader ==> r.unwrap()@.len() == 0)
                },
                ConsensusCommand::Leader => r matches Ok(v) && v@.len() == 0 && final(self).is_leader
                    && final(self).state == old(self).state,
                ConsensusCommand::Follower => r matches Ok(v) && v@.len() == 0 && !final(self).is_leader
                    && final(self).state == old(self).state,
                _ => r == Err::<Vec<Effect>, ProcessorError>(ProcessorError::Unsupported) && *final(self) == *old(self),
            },
    {
        match command {
            ConsensusCommand::Commit { lsn, timestamp, command } => {
                let effects = self.state.apply(lsn, timestamp, command);
                Ok(self.apply_effects(effects))
            },
            ConsensusCommand::Leader => {
                self.is_leader = true;
                Ok(Vec::new())
            },
            ConsensusCommand::Follower => {
                self.is_leader = false;
                Ok(Vec::new())
            },
            ConsensusCommand::ApplySnapshot => Err(ProcessorError::Unsupported),
            ConsensusCommand::CreateSnapshot => Err(ProcessorError::Unsupported),
        }
    }

    /// The status that observers see.
    pub fn status(&self) -> (r: PartitionProcessorStatus)
        ensures
            r.is_leader == self.is_leader,
            r.last_applied_lsn == self.state.applied_lsn,
    {
        PartitionProcessorStatus { is_leader: self.is_leader, last_applied_lsn: self.state.applied_lsn }
    }
}

} // verus!
