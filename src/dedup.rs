use vstd::prelude::*;

use crate::codec::DedupSequenceNumber;

verus! {

/// Whether `next` comes after `last` from the same producer: plain sequence numbers grow; a
/// sequence number within a leader epoch grows, or the epoch does. A producer that changed
/// from one kind to the other is taken to send something new.
pub open spec fn comes_after(next: DedupSequenceNumber, last: DedupSequenceNumber) -> bool {
    match (next, last) {
        (DedupSequenceNumber::Sn(n), DedupSequenceNumber::Sn(l)) => n > l,
        (
            DedupSequenceNumber::Esn { leader_epoch: e1, sequence_number: s1 },
            DedupSequenceNumber::Esn { leader_epoch: e2, sequence_number: s2 },
        ) => e1 > e2 || (e1 == e2 && s1 > s2),
        _ => true,
    }
}

fn is_after(next: DedupSequenceNumber, last: DedupSequenceNumber) -> (r: bool)
    ensures
        r == comes_after(next, last),
{
    match (next, last) {
        (DedupSequenceNumber::Sn(n), DedupSequenceNumber::Sn(l)) => n > l,
        (
            DedupSequenceNumber::Esn { leader_epoch: e1, sequence_number: s1 },
            DedupSequenceNumber::Esn { leader_epoch: e2, sequence_number: s2 },
        ) => e1 > e2 || (e1 == e2 && s1 > s2),
        _ => true,
    }
}

/// The last sequence number seen from each producer, so that a message delivered twice is
/// applied once.
pub struct DedupTable {
    entries: Vec<(u64, DedupSequenceNumber)>,
    seen: Ghost<Map<u64, DedupSequenceNumber>>,
}

impl DedupTable {
    /// The last sequence number of each producer.
    pub closed spec fn view(&self) -> Map<u64, DedupSequenceNumber> {
        self.seen@
    }

    pub closed spec fn wf(&self) -> bool {
        &&& forall|i: int, j: int| 0 <= i < j < self.entries@.len() ==> self.entries@[i].0 != self.entries@[j].0
        &&& forall|i: int|
            0 <= i < self.entries@.len() ==> #[trigger] self.seen@.contains_key(self.entries@[i].0)
                && self.seen@[self.entries@[i].0] == self.entries@[i].1
        &&& forall|p: u64| #[trigger] self.seen@.contains_key(p) ==> exists|i: int| 0 <= i < self.entries@.len() && self.entries@[i].0 == p
    }

    pub fn new() -> (r: DedupTable)
        ensures
            r.wf(),
            r@ == Map::<u64, DedupSequenceNumber>::empty(),
    {
        DedupTable { entries: Vec::new(), seen: Ghost(Map::empty()) }
    }

    /// Whether a message numbered `dsn` from `producer` is new; if so, it becomes the last one seen.
    /// A message that does not come after the last one seen is a duplicate and changes nothing.
    pub fn check_and_record(&mut self, producer: u64, dsn: DedupSequenceNumber) -> (r: bool)
        requires
            old(self).wf(),
        ensures
            final(self).wf(),
            r == (!old(self)@.contains_key(producer) || comes_after(dsn, old(self)@[producer])),
            r ==> final(self)@ == old(self)@.insert(producer, dsn),
            !r ==> final(self)@ == old(self)@,
    {
        let mut i: usize = 0;
        while i < self.entries.len()
            invariant
                *self == *old(self),
                old(self).wf(),
                i <= self.entries@.len(),
                forall|j: int| 0 <= j < i ==> self.entries@[j].0 != producer,
            decreases self.entries@.len() - i,
        {
            if self.entries[i].0 == producer {
                proof {
                    assert(self.seen@.contains_key(self.entries@[i as int].0));
                }
                if !is_after(dsn, self.entries[i].1) {
                    return false;
                }
                let ghost before = self.entries@;
                self.entries.set(i, (producer, dsn));
                self.seen = Ghost(self.seen@.insert(producer, dsn));
                proof {
                    assert forall|j: int| 0 <= j < self.entries@.len() implies #[trigger] self.seen@.contains_key(self.entries@[j].0)
                        && self.seen@[self.entries@[j].0] == self.entries@[j].1 by {
                        if j != i {
                            assert(old(self).seen@.contains_key(before[j].0));
                        }
                    }
                    assert forall|p: u64| #[trigger] self.seen@.contains_key(p) implies exists|j: int|
                        0 <= j < self.entries@.len() && self.entries@[j].0 == p by {
                        if p != producer {
                            let j = choose|j: int| 0 <= j < before.len() && before[j].0 == p;
                            assert(self.entries@[j].0 == p);
                        } else {
                            assert(self.entries@[i as int].0 == p);
                        }
                    }
                }
                return true;
            }
            i = i + 1;
        }
        proof {
            if self.seen@.contains_key(producer) {
                let j = choose|j: int| 0 <= j < self.entries@.len() && self.entries@[j].0 == producer;
            }
        }
        let ghost before = self.entries@;
        self.entries.push((producer, dsn));
        self.seen = Ghost(self.seen@.insert(producer, dsn));
        proof {
            assert forall|j: int| 0 <= j < self.entries@.len() implies #[trigger] self.seen@.contains_key(self.entries@[j].0)
                && self.seen@[self.entries@[j].0] == self.entries@[j].1 by {
                if j < before.len() {
                    assert(old(self).seen@.contains_key(before[j].0));
                }
            }
            assert forall|p: u64| #[trigger] self.seen@.contains_key(p) implies exists|j: int|
                0 <= j < self.entries@.len() && self.entries@[j].0 == p by {
                if p != producer {
                    let j = choose|j: int| 0 <= j < before.len() && before[j].0 == p;
                    assert(self.entries@[j].0 == p);
                } else {
                    assert(self.entries@[before.len() as int].0 == p);
                }
            }
        }
        true
    }
}

/// Replay safety for messages between partitions: once a message has been recorded, the same
/// message again is a duplicate.
pub proof fn lemma_redelivery_is_duplicate(table: Map<u64, DedupSequenceNumber>, producer: u64, dsn: DedupSequenceNumber)
    requires
        table.contains_key(producer),
        table[producer] == dsn,
    ensures
        !comes_after(dsn, table[producer]),
{
}

} // verus!
