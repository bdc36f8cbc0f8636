use vstd::prelude::*;

use crate::types::{ServiceId, ServiceKey};

verus! {

/// A user state entry's address: the service instance and the state key.
pub type StateKey = (ServiceKey, Seq<char>);

/// The user state of every service instance: for each instance and key, the value bytes.
pub type StateContents = Map<StateKey, Seq<u8>>;

/// The contents after removing every key of service instance `service`.
pub open spec fn without_service(contents: StateContents, service: ServiceKey) -> StateContents {
    Map::new(|k: StateKey| contents.contains_key(k) && k.0 != service, |k: StateKey| contents[k])
}

/// The per-instance key-value state that handlers read and write.
pub struct StateTable {
    entries: Vec<(ServiceId, String, Vec<u8>)>,
    contents: Ghost<StateContents>,
}

impl StateTable {
    /// The state held.
    pub closed spec fn view(&self) -> StateContents {
        self.contents@
    }

    closed spec fn addr(e: (ServiceId, String, Vec<u8>)) -> StateKey {
        (e.0.model(), e.1@)
    }

    /// Each address is stored once, and the entries are exactly the contents.
    pub closed spec fn wf(&self) -> bool {
        &&& forall|i: int, j: int|
            0 <= i < j < self.entries@.len() ==> Self::addr(self.entries@[i]) != Self::addr(self.entries@[j])
        &&& forall|i: int|
            0 <= i < self.entries@.len() ==> #[trigger] self.contents@.contains_key(Self::addr(self.entries@[i]))
                && self.contents@[Self::addr(self.entries@[i])] == self.entries@[i].2@
        &&& forall|k: StateKey|
            #[trigger] self.contents@.contains_key(k) ==> exists|i: int|
                0 <= i < self.entries@.len() && Self::addr(self.entries@[i]) == k
    }

    pub fn new() -> (r: StateTable)
        ensures
            r.wf(),
            r@ == StateContents::empty(),
    {
        StateTable { entries: Vec::new(), contents: Ghost(Map::empty()) }
    }

    fn find(&self, service: &ServiceId, key: &String) -> (r: Option<usize>)
        requires
            self.wf(),
        ensures
            match r {
                Some(i) => i < self.entries@.len() && Self::addr(self.entries@[i as int]) == (service.model(), key@),
                None => !self@.contains_key((service.model(), key@)),
            },
    {
        let mut i: usize = 0;
        while i < self.entries.len()
            invariant
                self.wf(),
                i <= self.entries@.len(),
                forall|j: int| 0 <= j < i ==> Self::addr(self.entries@[j]) != (service.model(), key@),
            decreases self.entries@.len() - i,
        {
            if self.entries[i].0.same_as(service) && self.entries[i].1 == *key {
                return Some(i);
            }
            i = i + 1;
        }
        None
    }

    /// The value of `key` for `service`, if any.
    pub fn get(&self, service: &ServiceId, key: &String) -> (r: Option<Vec<u8>>)
        requires
            self.wf(),
        ensures
            r.is_some() == self@.contains_key((service.model(), key@)),
            r matches Some(v) ==> v@ == self@[(service.model(), key@)],
    {
        match self.find(service, key) {
            Some(i) => {
                proof {
                    assert(self.contents@.contains_key(Self::addr(self.entries@[i as int])));
                }
                Some(self.entries[i].2.clone())
            },
            None => None,
        }
    }

    /// Sets `key` of `service` to `value`.
    pub fn set(&mut self, service: ServiceId, key: String, value: Vec<u8>)
        requires
            old(self).wf(),
        ensures
            final(self).wf(),
            final(self)@ == old(self)@.insert((service.model(), key@), value@),
    {
        let ghost a = (service.model(), key@);
        let ghost v = value@;
        let ghost before = self.entries@;
        match self.find(&service, &key) {
            Some(i) => {
                self.entries.set(i, (service, key, value));
                self.contents = Ghost(self.contents@.insert(a, v));
                proof {
                    assert forall|j: int| 0 <= j < self.entries@.len() implies #[trigger] self.contents@.contains_key(
                        Self::addr(self.entries@[j]),
                    ) && self.contents@[Self::addr(self.entries@[j])] == self.entries@[j].2@ by {
                        if j != i {
                            assert(old(self).contents@.contains_key(Self::addr(before[j])));
                        }
                    }
                    assert forall|k: StateKey| #[trigger] self.contents@.contains_key(k) implies exists|j: int|
                        0 <= j < self.entries@.len() && Self::addr(self.entries@[j]) == k by {
                        if k != a {
                            let j = choose|j: int| 0 <= j < before.len() && Self::addr(before[j]) == k;
                            assert(Self::addr(self.entries@[j]) == k);
                        } else {
                            assert(Self::addr(self.entries@[i as int]) == k);
                        }
                    }
                }
            },
            None => {
                self.entries.push((service, key, value));
                self.contents = Ghost(self.contents@.insert(a, v));
                proof {
                    assert forall|j: int| 0 <= j < before.len() implies Self::addr(before[j]) != a by {
                        assert(old(self).contents@.contains_key(Self::addr(before[j])));
                    }
                    assert forall|j: int| 0 <= j < self.entries@.len() implies #[trigger] self.contents@.contains_key(
                        Self::addr(self.entries@[j]),
                    ) && self.contents@[Self::addr(self.entries@[j])] == self.entries@[j].2@ by {
                        if j < before.len() {
                            assert(old(self).contents@.contains_key(Self::addr(before[j])));
                        }
                    }
                    assert forall|k: StateKey| #[trigger] self.contents@.contains_key(k) implies exists|j: int|
                        0 <= j < self.entries@.len() && Self::addr(self.entries@[j]) == k by {
                        if k != a {
                            let j = choose|j: int| 0 <= j < before.len() && Self::addr(before[j]) == k;
                            assert(Self::addr(self.entries@[j]) == k);
                        } else {
                            assert(Self::addr(self.entries@[before.len() as int]) == k);
                        }
                    }
                }
            },
        }
    }

    /// Removes `key` of `service`.
    pub fn clear(&mut self, service: &ServiceId, key: &String)
        requires
            old(self).wf(),
        ensures
            final(self).wf(),
            final(self)@ == old(self)@.remove((service.model(), key@)),
    {
        let ghost a = (service.model(), key@);
        match self.find(service, key) {
            Some(i) => {
                let ghost before = self.entries@;
                self.entries.remove(i);
                self.contents = Ghost(self.contents@.remove(a));
                proof {
                    let b = before;
                    let e = self.entries@;
                    assert forall|x: int| 0 <= x < e.len() implies #[trigger] e[x] == b[if x < i { x } else { x + 1 }] by {}
                    assert forall|x: int, y: int| 0 <= x < y < e.len() implies Self::addr(e[x]) != Self::addr(e[y]) by {
                        let x0 = if x < i { x } else { x + 1 };
                        let y0 = if y < i { y } else { y + 1 };
                        assert(e[x] == b[x0]);
                        assert(e[y] == b[y0]);
                    }
                    assert forall|x: int| 0 <= x < e.len() implies #[trigger] self.contents@.contains_key(Self::addr(e[x]))
                        && self.contents@[Self::addr(e[x])] == e[x].2@ by {
                        let x0 = if x < i { x } else { x + 1 };
                        assert(e[x] == b[x0]);
                        assert(old(self).contents@.contains_key(Self::addr(b[x0])));
                        if x0 < i {
                            assert(Self::addr(b[x0]) != Self::addr(b[i as int]));
                        } else {
                            assert(Self::addr(b[i as int]) != Self::addr(b[x0]));
                        }
                    }
                    assert forall|k: StateKey| #[trigger] self.contents@.contains_key(k) implies exists|x: int|
                        0 <= x < e.len() && Self::addr(e[x]) == k by {
                        let x0 = choose|x: int| 0 <= x < b.len() && Self::addr(b[x]) == k;
                        assert(x0 != i);
                        let x = if x0 < i { x0 } else { x0 - 1 };
                        assert(e[x] == b[x0]);
                    }
                }
            },
            None => {
                assert(self.contents@.remove(a) =~= self.contents@);
            },
        }
    }

    /// Removes every key of `service`.
    pub fn clear_all(&mut self, service: &ServiceId)
        requires
            old(self).wf(),
        ensures
            final(self).wf(),
            final(self)@ == without_service(old(self)@, service.model()),
    {
        let ghost target = without_service(self.contents@, service.model());
        let ghost b = self.entries@;
        let mut kept: Vec<(ServiceId, String, Vec<u8>)> = Vec::new();
        let mut rest: Vec<(ServiceId, String, Vec<u8>)> = Vec::new();
        std::mem::swap(&mut self.entries, &mut rest);
        proof {
            assert(rest@ == b);
        }
        let mut i: usize = 0;
        let n = rest.len();
        while i < n
            invariant
                n == b.len(),
                old(self).wf(),
                old(self).entries@ == b,
                rest@.len() == n - i,
                forall|x: int| 0 <= x < rest@.len() ==> rest@[x] == b[n - rest@.len() + x],
                i <= n,
                forall|x: int| 0 <= x < kept@.len() ==> #[trigger] Self::addr(kept@[x]).0 != service.model(),
                forall|x: int| #![trigger kept@[x]] 0 <= x < kept@.len() ==> exists|y: int| 0 <= y < i && #[trigger] b[y] == kept@[x],
                forall|y: int| 0 <= y < i && Self::addr(b[y]).0 != service.model() ==> exists|x: int|
                    0 <= x < kept@.len() && kept@[x] == #[trigger] b[y],
                forall|x: int, z: int| 0 <= x < z < kept@.len() ==> Self::addr(kept@[x]) != Self::addr(kept@[z]),
                forall|x: int, y: int| 0 <= x < kept@.len() && i <= y < n ==> Self::addr(#[trigger] kept@[x]) != Self::addr(#[trigger] b[y]),
            decreases n - i,
        {
            let e = rest.remove(0);
            proof {
                assert(e == b[i as int]);
            }
            if !e.0.same_as(service) {
                let ghost k0 = kept@;
                kept.push(e);
                proof {
                    assert forall|x: int| #![trigger kept@[x]] 0 <= x < kept@.len() implies exists|y: int| 0 <= y < i + 1 && #[trigger] b[y] == kept@[x] by {
                        if x < k0.len() {
                            assert(kept@[x] == k0[x]);
                            let y = choose|y: int| 0 <= y < i && #[trigger] b[y] == k0[x];
                        } else {
                            assert(b[i as int] == kept@[x]);
                        }
                    }
                    assert forall|y: int| 0 <= y < i + 1 && Self::addr(b[y]).0 != service.model() implies exists|x: int|
                        0 <= x < kept@.len() && kept@[x] == #[trigger] b[y] by {
                        if y < i {
                            let x = choose|x: int| 0 <= x < k0.len() && k0[x] == b[y];
                            assert(kept@[x] == k0[x]);
                        } else {
                            assert(kept@[k0.len() as int] == b[y]);
                        }
                    }
                    assert forall|x: int, z: int| 0 <= x < z < kept@.len() implies Self::addr(kept@[x]) != Self::addr(kept@[z]) by {
                        if z == k0.len() {
                            assert(kept@[x] == k0[x]);
                        } else {
                            assert(kept@[x] == k0[x]);
                            assert(kept@[z] == k0[z]);
                        }
                    }
                    assert forall|x: int, y: int| 0 <= x < kept@.len() && i + 1 <= y < n implies Self::addr(#[trigger] kept@[x]) != Self::addr(
                        #[trigger] b[y],
                    ) by {
                        if x < k0.len() {
                            assert(kept@[x] == k0[x]);
                        } else {
                            assert(kept@[x] == b[i as int]);
                        }
                    }
                }
            }
            i = i + 1;
        }
        self.entries = kept;
        self.contents = Ghost(target);
        proof {
            let e = self.entries@;
            assert forall|x: int| 0 <= x < e.len() implies #[trigger] self.contents@.contains_key(Self::addr(e[x]))
                && self.contents@[Self::addr(e[x])] == e[x].2@ by {
                let y = choose|y: int| 0 <= y < n && #[trigger] b[y] == e[x];
                assert(old(self).contents@.contains_key(Self::addr(b[y])));
            }
            assert forall|k: StateKey| #[trigger] self.contents@.contains_key(k) implies exists|x: int|
                0 <= x < e.len() && Self::addr(e[x]) == k by {
                let y = choose|y: int| 0 <= y < b.len() && Self::addr(b[y]) == k;
                let x = choose|x: int| 0 <= x < e.len() && e[x] == #[trigger] b[y];
            }
        }
    }
}

} // verus!
