use vstd::prelude::*;

use crate::state_machine::{Effect, ServiceInvocation};
use crate::types::{EntryIndex, InvocationId};

verus! {

/// What a timer does when it fires.
pub enum Timer {
    /// Completes a sleeping journal entry.
    CompleteJournalEntry { invocation_id: InvocationId, entry_index: EntryIndex },
    /// Sends a delayed request to run a handler.
    Invoke(ServiceInvocation),
    /// Starts a scheduled invocation.
    NeoInvoke { invocation_id: InvocationId },
    /// Forgets a completed invocation once its retention has elapsed.
    CleanInvocationStatus { invocation_id: InvocationId },
}

/// Orders timers: by due time, then by invocation id, then by entry index.
#[derive(Clone, Copy, Debug, PartialEq, Eq, Structural)]
pub struct TimerKey {
    pub due_time: u64,
    pub invocation_id: InvocationId,
    pub entry_index: EntryIndex,
}

/// Whether `a` fires before `b`: an earlier due time first; equal due times are ordered by
/// invocation id (partition key, then uuid) and then by entry index.
pub open spec fn key_before(a: TimerKey, b: TimerKey) -> bool {
    ||| a.due_time < b.due_time
    ||| (a.due_time == b.due_time && a.invocation_id.partition_key < b.invocation_id.partition_key)
    ||| (a.due_time == b.due_time && a.invocation_id.partition_key == b.invocation_id.partition_key
        && a.invocation_id.invocation_uuid < b.invocation_id.invocation_uuid)
    ||| (a.due_time == b.due_time && a.invocation_id == b.invocation_id && a.entry_index < b.entry_index)
}

impl TimerKey {
    /// Whether this key fires before `other`.
    pub fn before(&self, other: &TimerKey) -> (r: bool)
        ensures
            r == key_before(*self, *other),
    {
        if self.due_time != other.due_time {
            return self.due_time < other.due_time;
        }
        if self.invocation_id.partition_key != other.invocation_id.partition_key {
            return self.invocation_id.partition_key < other.invocation_id.partition_key;
        }
        if self.invocation_id.invocation_uuid != other.invocation_id.invocation_uuid {
            return self.invocation_id.invocation_uuid < other.invocation_id.invocation_uuid;
        }
        self.entry_index < other.entry_index
    }
}

/// The timers of a partition, armed while it leads.
pub struct TimerService {
    pub timers: Vec<(TimerKey, Timer)>,
}

impl TimerService {
    /// Keys are unique.
    pub open spec fn wf(&self) -> bool {
        forall|i: int, j: int| 0 <= i < j < self.timers@.len() ==> self.timers@[i].0 != self.timers@[j].0
    }

    pub fn new() -> (r: TimerService)
        ensures
            r.wf(),
            r.timers@.len() == 0,
    {
        TimerService { timers: Vec::new() }
    }

    /// Adds a timer; a timer with the same key replaces the one there.
    pub fn add(&mut self, key: TimerKey, timer: Timer)
        requires
            old(self).wf(),
        ensures
            final(self).wf(),
            exists|i: int| 0 <= i < final(self).timers@.len() && final(self).timers@[i] == (key, timer),
            forall|i: int| 0 <= i < old(self).timers@.len() && old(self).timers@[i].0 != key ==> final(self).timers@.contains(
                #[trigger] old(self).timers@[i],
            ),
            forall|i: int| 0 <= i < final(self).timers@.len() && final(self).timers@[i].0 != key ==> old(self).timers@.contains(
                #[trigger] final(self).timers@[i],
            ),
    {
        let mut i: usize = 0;
        while i < self.timers.len()
            invariant
                *self == *old(self),
                old(self).wf(),
                i <= self.timers@.len(),
                forall|j: int| 0 <= j < i ==> self.timers@[j].0 != key,
            decreases self.timers@.len() - i,
        {
            if self.timers[i].0 == key {
                let ghost before = self.timers@;
                self.timers.set(i, (key, timer));
                proof {
                    assert forall|a: int| 0 <= a < before.len() && before[a].0 != key implies self.timers@.contains(
                        #[trigger] before[a],
                    ) by {
                        assert(self.timers@[a] == before[a]);
                    }
                    assert forall|a: int| 0 <= a < self.timers@.len() && self.timers@[a].0 != key implies before.contains(
                        #[trigger] self.timers@[a],
                    ) by {
                        assert(before[a] == self.timers@[a]);
                    }
                    assert(self.timers@[i as int] == (key, timer));
                    assert forall|a: int, b: int| 0 <= a < b < self.timers@.len() implies self.timers@[a].0 != self.timers@[b].0 by {
                        assert(self.timers@[a].0 == before[a].0);
                        assert(self.timers@[b].0 == before[b].0);
                    }
                }
                return;
            }
            i = i + 1;
        }
        let ghost before = self.timers@;
        self.timers.push((key, timer));
        proof {
            assert forall|a: int| 0 <= a < before.len() && before[a].0 != key implies self.timers@.contains(#[trigger] before[a]) by {
                assert(self.timers@[a] == before[a]);
            }
            assert forall|a: int| 0 <= a < self.timers@.len() && self.timers@[a].0 != key implies before.contains(
                #[trigger] self.timers@[a],
            ) by {
                assert(before[a] == self.timers@[a]);
            }
            assert(self.timers@[before.len() as int] == (key, timer));
            assert forall|a: int, b: int| 0 <= a < b < self.timers@.len() implies self.timers@[a].0 != self.timers@[b].0 by {
                assert(self.timers@[a] == before[a]);
            }
        }
    }

    /// The position of the timer that fires first, if any.
    pub fn head(&self) -> (r: Option<usize>)
        ensures
            match r {
                Some(h) => h < self.timers@.len() && forall|j: int|
                    0 <= j < self.timers@.len() && j != h ==> !key_before(#[trigger] self.timers@[j].0, self.timers@[h as int].0),
                None => self.timers@.len() == 0,
            },
    {
        if self.timers.len() == 0 {
            return None;
        }
        let mut best: usize = 0;
        let mut i: usize = 1;
        while i < self.timers.len()
            invariant
                1 <= i <= self.timers@.len(),
                best < i,
                forall|j: int| 0 <= j < i && j != best ==> !key_before(#[trigger] self.timers@[j].0, self.timers@[best as int].0),
            decreases self.timers@.len() - i,
        {
            if self.timers[i].0.before(&self.timers[best].0) {
                best = i;
            }
            i = i + 1;
        }
        Some(best)
    }

    /// Takes out the timer that fires first if the partition leads and its due time has come.
    pub fn pop_due(&mut self, now: u64, is_leader: bool) -> (r: Option<(TimerKey, Timer)>)
        requires
            old(self).wf(),
        ensures
            final(self).wf(),
            match r {
                Some(t) => {
                    &&& is_leader
                    &&& t.0.due_time <= now
                    &&& exists|h: int| 0 <= h < old(self).timers@.len() && old(self).timers@[h] == t && final(self).timers@ == old(self).timers@.remove(h)
                    &&& forall|j: int| 0 <= j < old(self).timers@.len() ==> !key_before(#[trigger] old(self).timers@[j].0, t.0)
                },
                None => final(self).timers@ == old(self).timers@ && (!is_leader || forall|j: int|
                    0 <= j < old(self).timers@.len() ==> #[trigger] old(self).timers@[j].0.due_time > now),
            },
    {
        if !is_leader {
            return None;
        }
        match self.head() {
            None => None,
            Some(h) => {
                if self.timers[h].0.due_time > now {
                    proof {
                        assert forall|j: int| 0 <= j < self.timers@.len() implies #[trigger] self.timers@[j].0.due_time > now by {
                            if j != h {
                                assert(!key_before(self.timers@[j].0, self.timers@[h as int].0));
                            }
                        }
                    }
                    return None;
                }
                let ghost before = self.timers@;
                let t = self.timers.remove(h);
                proof {
                    assert forall|a: int, b: int| 0 <= a < b < self.timers@.len() implies self.timers@[a].0 != self.timers@[b].0 by {
                        let a0 = if a < h { a } else { a + 1 };
                        let b0 = if b < h { b } else { b + 1 };
                        assert(self.timers@[a] == before[a0]);
                        assert(self.timers@[b] == before[b0]);
                    }
                    assert forall|j: int| 0 <= j < before.len() implies !key_before(#[trigger] before[j].0, t.0) by {
                        if j == h {
                            assert(!key_before(t.0, t.0));
                        }
                    }
                }
                Some(t)
            },
        }
    }
}

/// The timer that a timer request of the partition arms, given the time `now` of the command
/// that made the request: a scheduled invocation starts at its due time; a completed invocation
/// is forgotten once its retention has elapsed from `now` (never, when that overflows). Other
/// effects arm no timer.
pub fn timer_for_effect(effect: Effect, now: u64) -> (r: Option<(TimerKey, Timer)>)
    ensures
        match effect {
            Effect::ScheduleTimer { invocation_id, due_time } => r matches Some((k, t)) && k == (TimerKey {
                due_time,
                invocation_id,
                entry_index: 0,
            }) && t == Timer::NeoInvoke { invocation_id },
            Effect::ScheduleCleanup { invocation_id, retention } => r matches Some((k, t)) && k == (TimerKey {
                due_time: if now + retention > u64::MAX { u64::MAX } else { (now + retention) as u64 },
                invocation_id,
                entry_index: 0,
            }) && t == Timer::CleanInvocationStatus { invocation_id },
            _ => r is None,
        },
{
    match effect {
        Effect::ScheduleTimer { invocation_id, due_time } => Some(
            (TimerKey { due_time, invocation_id, entry_index: 0 }, Timer::NeoInvoke { invocation_id }),
        ),
        Effect::ScheduleCleanup { invocation_id, retention } => {
            let due_time = if retention > u64::MAX - now {
                u64::MAX
            } else {
                now + retention
            };
            Some((TimerKey { due_time, invocation_id, entry_index: 0 }, Timer::CleanInvocationStatus { invocation_id }))
        },
        _ => None,
    }
}

} // verus!
