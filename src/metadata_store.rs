use vstd::prelude::*;

use crate::storage_codec::{
    StorageCodecKind, StorageDecodeError, decode_frame, decode_framed, encode_framed, frame, lemma_frame_round_trip,
};
use crate::version::Version;
use vstd::utf8::{decode_utf8, valid_utf8};

verus! {

/// An opaque value together with the version that guards it.
pub struct VersionedValue {
    pub version: Version,
    pub value: Vec<u8>,
}

impl VersionedValue {
    /// What the value is: its version number and its bytes.
    pub open spec fn model(&self) -> (u32, Seq<u8>) {
        (self.version.value, self.value@)
    }

    pub fn new(version: Version, value: Vec<u8>) -> (r: VersionedValue)
        ensures
            r.model() == (version.value, value@),
    {
        VersionedValue { version, value }
    }

    pub fn version(&self) -> (r: Version)
        ensures
            r == self.version,
    {
        self.version
    }

    /// A copy that holds the same version and the same bytes.
    pub fn duplicate(&self) -> (r: VersionedValue)
        ensures
            r.model() == self.model(),
    {
        VersionedValue { version: self.version, value: self.value.clone() }
    }
}

/// The stored bytes of a value: a raw-bytes frame whose payload is the version in four
/// big-endian bytes followed by the value's bytes.
pub open spec fn value_bytes(v: (u32, Seq<u8>)) -> Seq<u8> {
    frame(StorageCodecKind::LengthPrefixedRawBytes, crate::storage_codec::u32_be(v.0) + v.1)
}

/// What stored bytes hold: the version and the value; `None` where they are no such frame.
pub open spec fn value_of_bytes(b: Seq<u8>) -> Option<(u32, Seq<u8>)> {
    match decode_frame(b) {
        Some((StorageCodecKind::LengthPrefixedRawBytes, p)) => if p.len() >= 4 {
            Some((crate::storage_codec::u32_of_be(p.subrange(0, 4)), p.subrange(4, p.len() as int)))
        } else {
            None
        },
        _ => None,
    }
}

impl VersionedValue {
    /// The bytes under which the value is kept durably.
    pub fn encode(&self) -> (r: Vec<u8>)
        requires
            self.value@.len() + 4 <= u32::MAX,
        ensures
            r@ == value_bytes(self.model()),
    {
        let n = self.version.value;
        let mut payload: Vec<u8> = Vec::new();
        payload.push((n >> 24u32) as u8);
        payload.push(((n >> 16u32) & 0xff) as u8);
        payload.push(((n >> 8u32) & 0xff) as u8);
        payload.push((n & 0xff) as u8);
        let mut i: usize = 0;
        while i < self.value.len()
            invariant
                i <= self.value@.len(),
                payload@ == crate::storage_codec::u32_be(n) + self.value@.take(i as int),
            decreases self.value@.len() - i,
        {
            payload.push(self.value[i]);
            i = i + 1;
            assert(payload@ =~= crate::storage_codec::u32_be(n) + self.value@.take(i as int));
        }
        assert(self.value@.take(self.value@.len() as int) =~= self.value@);
        encode_framed(StorageCodecKind::LengthPrefixedRawBytes, &payload)
    }

    /// The value that stored bytes hold. Fails where they are no raw-bytes frame of at least
    /// a version.
    pub fn decode(bytes: &Vec<u8>) -> (r: Result<VersionedValue, StorageDecodeError>)
        ensures
            r.is_ok() == value_of_bytes(bytes@).is_some(),
            r matches Ok(v) ==> Some(v.model()) == value_of_bytes(bytes@),
    {
        let (kind, payload) = decode_framed(bytes)?;
        match kind {
            StorageCodecKind::LengthPrefixedRawBytes => {},
            StorageCodecKind::Protobuf => {
                return Err(StorageDecodeError::UnsupportedCodecKind(bytes[0]));
            },
        }
        if payload.len() < 4 {
            return Err(StorageDecodeError::DecodeValue("value shorter than its version".to_owned()));
        }
        let version: u32 = ((payload[0] as u32) << 24u32) | ((payload[1] as u32) << 16u32) | ((payload[2] as u32) << 8u32)
            | (payload[3] as u32);
        proof {
            let p = payload@;
            assert(p.subrange(0, 4)[0] == p[0]);
            assert(p.subrange(0, 4)[1] == p[1]);
            assert(p.subrange(0, 4)[2] == p[2]);
            assert(p.subrange(0, 4)[3] == p[3]);
        }
        let mut value: Vec<u8> = Vec::new();
        let mut i: usize = 4;
        while i < payload.len()
            invariant
                4 <= i <= payload@.len(),
                value@ == payload@.subrange(4, i as int),
            decreases payload@.len() - i,
        {
            value.push(payload[i]);
            i = i + 1;
            assert(value@ =~= payload@.subrange(4, i as int));
        }
        Ok(VersionedValue { version: Version { value: version }, value })
    }
}

/// A value survives being stored as bytes and read back.
pub proof fn lemma_value_bytes_round_trip(v: (u32, Seq<u8>))
    requires
        v.1.len() + 4 <= u32::MAX,
    ensures
        value_of_bytes(value_bytes(v)) == Some(v),
{
    let p = crate::storage_codec::u32_be(v.0) + v.1;
    lemma_frame_round_trip(StorageCodecKind::LengthPrefixedRawBytes, p);
    assert(p.subrange(0, 4) =~= crate::storage_codec::u32_be(v.0));
    assert(p.subrange(4, p.len() as int) =~= v.1);
    let n = v.0;
    assert((((((n >> 24u32) as u8) as u32) << 24u32) | (((((n >> 16u32) & 0xff) as u8) as u32) << 16u32) | (((((n >> 8u32)
        & 0xff) as u8) as u32) << 8u32) | (((n & 0xff) as u8) as u32)) == n) by (bit_vector);
}

/// The condition under which a write goes ahead.
#[derive(Clone, Copy, Debug, PartialEq, Eq, Structural)]
pub enum Precondition {
    /// The write always goes ahead.
    Unconditional,
    /// The key must be absent.
    DoesNotExist,
    /// The key must be present with exactly this version.
    MatchesVersion(Version),
}

/// Why a write did not take place.
#[derive(Debug, PartialEq, Eq)]
pub enum WriteError {
    FailedPrecondition(String),
    NetworkError(String),
    Codec(String),
    Shutdown,
}

/// The contents of a store: each key's version number and bytes.
pub type StoreContents = Map<Seq<char>, (u32, Seq<u8>)>;

/// Whether `precondition` holds for `key` in `contents`.
pub open spec fn precondition_holds(contents: StoreContents, key: Seq<char>, precondition: Precondition) -> bool {
    match precondition {
        Precondition::Unconditional => true,
        Precondition::DoesNotExist => !contents.contains_key(key),
        Precondition::MatchesVersion(v) => contents.contains_key(key) && contents[key].0 == v.value,
    }
}

/// The contents after a `put`, or `None` where the precondition fails and nothing is written.
pub open spec fn put_outcome(
    contents: StoreContents,
    key: Seq<char>,
    value: (u32, Seq<u8>),
    precondition: Precondition,
) -> Option<StoreContents> {
    if precondition_holds(contents, key, precondition) {
        Some(contents.insert(key, value))
    } else {
        None
    }
}

/// The contents after a `delete`, or `None` where the precondition fails and nothing is removed.
pub open spec fn delete_outcome(
    contents: StoreContents,
    key: Seq<char>,
    precondition: Precondition,
) -> Option<StoreContents> {
    if precondition_holds(contents, key, precondition) {
        Some(contents.remove(key))
    } else {
        None
    }
}

/// The byte views of stored records: each key's UTF-8 bytes and its value's stored bytes.
pub open spec fn record_views(r: Seq<(Vec<u8>, Vec<u8>)>) -> Seq<(Seq<u8>, Seq<u8>)> {
    r.map_values(|x: (Vec<u8>, Vec<u8>)| (x.0@, x.1@))
}

/// The contents that a list of stored records holds: each record, in order, sets its key to
/// its value. `None` where a key is not UTF-8 or a value cannot be read.
pub open spec fn records_map(recs: Seq<(Seq<u8>, Seq<u8>)>) -> Option<StoreContents>
    decreases recs.len(),
{
    if recs.len() == 0 {
        Some(StoreContents::empty())
    } else {
        match records_map(recs.drop_last()) {
            None => None,
            Some(m) => {
                let (k, v) = recs.last();
                if valid_utf8(k) && value_of_bytes(v) is Some {
                    Some(m.insert(decode_utf8(k), value_of_bytes(v).unwrap()))
                } else {
                    None
                }
            },
        }
    }
}

proof fn lemma_records_map_failure_extends(recs: Seq<(Seq<u8>, Seq<u8>)>, i: int)
    requires
        0 <= i <= recs.len(),
        records_map(recs.take(i)) is None,
    ensures
        records_map(recs) is None,
    decreases recs.len() - i,
{
    if i < recs.len() {
        assert(recs.take(i + 1).drop_last() =~= recs.take(i));
        lemma_records_map_failure_extends(recs, i + 1);
    } else {
        assert(recs.take(i) =~= recs);
    }
}


/// A linearizable key-value store of versioned values, written with compare-and-set.
pub struct MetadataStore {
    entries: Vec<(String, VersionedValue)>,
    contents: Ghost<StoreContents>,
}

impl MetadataStore {
    /// The key-value pairs held by the store.
    pub closed spec fn view(&self) -> StoreContents {
        self.contents@
    }

    /// Each key is stored once, and the entries are exactly the contents.
    pub closed spec fn wf(&self) -> bool {
        &&& self.keys_unique()
        &&& self.entries_stored()
        &&& self.contents_listed()
    }

    closed spec fn keys_unique(&self) -> bool {
        forall|i: int, j: int| 0 <= i < j < self.entries@.len() ==> self.entries@[i].0@ != self.entries@[j].0@
    }

    closed spec fn entries_stored(&self) -> bool {
        forall|i: int|
            0 <= i < self.entries@.len() ==> #[trigger] self.contents@.contains_key(self.entries@[i].0@)
                && self.contents@[self.entries@[i].0@] == self.entries@[i].1.model()
    }

    closed spec fn contents_listed(&self) -> bool {
        forall|k: Seq<char>|
            #[trigger] self.contents@.contains_key(k) ==> exists|i: int| 0 <= i < self.entries@.len() && self.entries@[i].0@ == k
    }

    /// An empty store.
    pub fn new() -> (r: MetadataStore)
        ensures
            r.wf(),
            r@ == StoreContents::empty(),
    {
        MetadataStore { entries: Vec::new(), contents: Ghost(Map::empty()) }
    }

    fn find(&self, key: &String) -> (r: Option<usize>)
        requires
            self.wf(),
        ensures
            match r {
                Some(i) => i < self.entries@.len() && self.entries@[i as int].0@ == key@
                    && self@.contains_key(key@) && self@[key@] == self.entries@[i as int].1.model(),
                None => !self@.contains_key(key@),
            },
    {
        let mut i: usize = 0;
        while i < self.entries.len()
            invariant
                self.wf(),
                i <= self.entries@.len(),
                forall|j: int| 0 <= j < i ==> self.entries@[j].0@ != key@,
            decreases self.entries@.len() - i,
        {
            if self.entries[i].0 == *key {
                assert(self.contents@.contains_key(self.entries@[i as int].0@));
                return Some(i);
            }
            i = i + 1;
        }
        None
    }

    /// The stored keys, each once.
    pub fn keys(&self) -> (r: Vec<String>)
        requires
            self.wf(),
        ensures
            forall|i: int| 0 <= i < r@.len() ==> self@.contains_key(#[trigger] r@[i]@),
            forall|k: Seq<char>| #[trigger] self@.contains_key(k) ==> exists|i: int| 0 <= i < r@.len() && r@[i]@ == k,
            forall|i: int, j: int| 0 <= i < j < r@.len() ==> r@[i]@ != r@[j]@,
    {
        let mut r: Vec<String> = Vec::new();
        let mut i: usize = 0;
        while i < self.entries.len()
            invariant
                self.wf(),
                i <= self.entries@.len(),
                r@.len() == i,
                forall|j: int| 0 <= j < i ==> #[trigger] r@[j]@ == self.entries@[j].0@,
            decreases self.entries@.len() - i,
        {
            r.push(self.entries[i].0.clone());
            i = i + 1;
        }
        proof {
            assert forall|a: int| 0 <= a < r@.len() implies self@.contains_key(#[trigger] r@[a]@) by {
                assert(self.contents@.contains_key(self.entries@[a].0@));
            }
            assert forall|k: Seq<char>| #[trigger] self@.contains_key(k) implies exists|a: int| 0 <= a < r@.len() && r@[a]@ == k by {
                let a = choose|a: int| 0 <= a < self.entries@.len() && self.entries@[a].0@ == k;
                assert(r@[a]@ == k);
            }
        }
        r
    }

    /// Whether every stored value fits a stored frame.
    pub open spec fn values_fit(&self) -> bool {
        forall|k: Seq<char>| #[trigger] self@.contains_key(k) ==> self@[k].1.len() + 4 <= u32::MAX
    }

    closed spec fn prefix_contents(&self, i: int) -> StoreContents {
        Map::new(
            |k: Seq<char>| exists|j: int| 0 <= j < i && self.entries@[j].0@ == k,
            |k: Seq<char>| self.contents@[k],
        )
    }

    /// The records that make the store durable: for each key, its UTF-8 bytes and the stored
    /// bytes of its value. Reading them back with `from_records` gives the same contents.
    pub fn records(&self) -> (r: Vec<(Vec<u8>, Vec<u8>)>)
        requires
            self.wf(),
            self.values_fit(),
        ensures
            records_map(record_views(r@)) == Some(self@),
    {
        let mut r: Vec<(Vec<u8>, Vec<u8>)> = Vec::new();
        let mut i: usize = 0;
        while i < self.entries.len()
            invariant
                self.wf(),
                self.values_fit(),
                i <= self.entries@.len(),
                r@.len() == i,
                records_map(record_views(r@)) == Some(self.prefix_contents(i as int)),
            decreases self.entries@.len() - i,
        {
            let ghost before = r@;
            let key = crate::utf8_text::text_to_utf8(&self.entries[i].0);
            proof {
                assert(self.contents@.contains_key(self.entries@[i as int].0@));
                assert(self@.contains_key(self.entries@[i as int].0@));
            }
            let value = self.entries[i].1.encode();
            r.push((key, value));
            proof {
                let k = self.entries@[i as int].0@;
                let m = self.entries@[i as int].1.model();
                assert(record_views(r@).drop_last() =~= record_views(before));
                assert(record_views(r@).last() == (key@, value@));
                lemma_value_bytes_round_trip(m);
                assert(self.prefix_contents(i as int + 1) =~= self.prefix_contents(i as int).insert(k, m)) by {
                    assert forall|x: Seq<char>| #[trigger] self.prefix_contents(i as int + 1).contains_key(x) implies
                        self.prefix_contents(i as int).insert(k, m).contains_key(x) by {
                        let j = choose|j: int| 0 <= j < i + 1 && self.entries@[j].0@ == x;
                        if j < i {
                            assert(self.prefix_contents(i as int).contains_key(x));
                        }
                    }
                    assert forall|x: Seq<char>| #[trigger] self.prefix_contents(i as int).insert(k, m).contains_key(x) implies
                        self.prefix_contents(i as int + 1).contains_key(x) by {
                        if x == k {
                            assert(self.entries@[i as int].0@ == x);
                        } else {
                            let j = choose|j: int| 0 <= j < i && self.entries@[j].0@ == x;
                            assert(0 <= j < i + 1 && self.entries@[j].0@ == x);
                        }
                    }
                }
            }
            i = i + 1;
        }
        proof {
            assert(self.prefix_contents(self.entries@.len() as int) =~= self@) by {
                assert forall|x: Seq<char>| #[trigger] self@.contains_key(x) implies self.prefix_contents(
                    self.entries@.len() as int,
                ).contains_key(x) by {
                    let j = choose|j: int| 0 <= j < self.entries@.len() && self.entries@[j].0@ == x;
                }
                assert forall|x: Seq<char>| #[trigger] self.prefix_contents(self.entries@.len() as int).contains_key(x)
                    implies self@.contains_key(x) by {
                    let j = choose|j: int| 0 <= j < self.entries@.len() && self.entries@[j].0@ == x;
                    assert(self.contents@.contains_key(self.entries@[j].0@));
                }
            }
        }
        r
    }

    /// The store that durable records hold, as after a restart; fails where a key is not UTF-8
    /// or a value cannot be read.
    pub fn from_records(recs: &Vec<(Vec<u8>, Vec<u8>)>) -> (r: Result<MetadataStore, StorageDecodeError>)
        ensures
            r.is_ok() == records_map(record_views(recs@)) is Some,
            r matches Ok(s) ==> s.wf() && Some(s@) == records_map(record_views(recs@)),
    {
        let mut store = MetadataStore::new();
        let mut i: usize = 0;
        while i < recs.len()
            invariant
                i <= recs@.len(),
                store.wf(),
                records_map(record_views(recs@).take(i as int)) == Some(store@),
            decreases recs@.len() - i,
        {
            let ghost views = record_views(recs@);
            proof {
                assert(views.take(i as int + 1).drop_last() =~= views.take(i as int));
                assert(views.take(i as int + 1).last() == (recs@[i as int].0@, recs@[i as int].1@));
            }
            let key = match crate::utf8_text::text_from_utf8(recs[i].0.clone()) {
                Some(k) => k,
                None => {
                    proof {
                        lemma_records_map_failure_extends(views, i as int + 1);
                    }
                    return Err(StorageDecodeError::DecodeValue("metadata key is not valid UTF-8".to_owned()));
                },
            };
            let value = match VersionedValue::decode(&recs[i].1) {
                Ok(v) => v,
                Err(e) => {
                    proof {
                        lemma_records_map_failure_extends(views, i as int + 1);
                    }
                    return Err(e);
                },
            };
            let _ = store.put(key, value, Precondition::Unconditional);
            i = i + 1;
        }
        proof {
            assert(record_views(recs@).take(recs@.len() as int) =~= record_views(recs@));
        }
        Ok(store)
    }

    /// The value stored under `key`, if any.
    pub fn get(&self, key: &String) -> (r: Option<VersionedValue>)
        requires
            self.wf(),
        ensures
            r.is_some() == self@.contains_key(key@),
            r.is_some() ==> r.unwrap().model() == self@[key@],
    {
        match self.find(key) {
            Some(i) => Some(self.entries[i].1.duplicate()),
            None => None,
        }
    }

    /// The version stored under `key`, if any.
    pub fn get_version(&self, key: &String) -> (r: Option<Version>)
        requires
            self.wf(),
        ensures
            r.is_some() == self@.contains_key(key@),
            r.is_some() ==> r.unwrap().value == self@[key@].0,
    {
        match self.find(key) {
            Some(i) => Some(self.entries[i].1.version),
            None => None,
        }
    }

    /// Writes `value` under `key` if `precondition` holds; otherwise leaves the store unchanged.
    pub fn put(&mut self, key: String, value: VersionedValue, precondition: Precondition) -> (r: Result<(), WriteError>)
        requires
            old(self).wf(),
        ensures
            final(self).wf(),
            r.is_ok() == precondition_holds(old(self)@, key@, precondition),
            r.is_ok() ==> put_outcome(old(self)@, key@, value.model(), precondition) == Some(final(self)@),
            r.is_err() ==> final(self)@ == old(self)@ && r matches Err(WriteError::FailedPrecondition(_)),
    {
        let found = self.find(&key);
        let holds = match precondition {
            Precondition::Unconditional => true,
            Precondition::DoesNotExist => found.is_none(),
            Precondition::MatchesVersion(v) => match found {
                Some(i) => self.entries[i].1.version.value == v.value,
                None => false,
            },
        };
        if !holds {
            return Err(WriteError::FailedPrecondition("precondition does not hold".to_string()));
        }
        let ghost model = value.model();
        let ghost k = key@;
        match found {
            Some(i) => {
                let ghost before = self.entries@;
                self.entries.set(i, (key, value));
                self.contents = Ghost(self.contents@.insert(k, model));
                assert forall|j: int| 0 <= j < self.entries@.len() implies
                    #[trigger] self.contents@.contains_key(self.entries@[j].0@)
                    && self.contents@[self.entries@[j].0@] == self.entries@[j].1.model() by {
                    if j != i {
                        assert(old(self).contents@.contains_key(before[j].0@));
                    }
                }
                assert forall|k2: Seq<char>| #[trigger] self.contents@.contains_key(k2) implies exists|j: int|
                    0 <= j < self.entries@.len() && self.entries@[j].0@ == k2 by {
                    if k2 != k {
                        let j = choose|j: int| 0 <= j < old(self).entries@.len() && old(self).entries@[j].0@ == k2;
                        assert(self.entries@[j].0@ == k2);
                    } else {
                        assert(self.entries@[i as int].0@ == k2);
                    }
                }
            },
            None => {
                let ghost before = self.entries@;
                self.entries.push((key, value));
                self.contents = Ghost(self.contents@.insert(k, model));
                assert forall|j: int| 0 <= j < before.len() implies before[j].0@ != k by {
                    assert(old(self).contents@.contains_key(before[j].0@));
                }
                assert forall|j: int| 0 <= j < self.entries@.len() implies
                    #[trigger] self.contents@.contains_key(self.entries@[j].0@)
                    && self.contents@[self.entries@[j].0@] == self.entries@[j].1.model() by {
                    if j < before.len() {
                        assert(old(self).contents@.contains_key(before[j].0@));
                    }
                }
                assert forall|k2: Seq<char>| #[trigger] self.contents@.contains_key(k2) implies exists|j: int|
                    0 <= j < self.entries@.len() && self.entries@[j].0@ == k2 by {
                    if k2 != k {
                        let j = choose|j: int| 0 <= j < old(self).entries@.len() && old(self).entries@[j].0@ == k2;
                        assert(self.entries@[j].0@ == k2);
                    } else {
                        assert(self.entries@[self.entries@.len() - 1].0@ == k2);
                    }
                }
            },
        }
        Ok(())
    }

    /// Removes `key` if `precondition` holds; otherwise leaves the store unchanged.
    pub fn delete(&mut self, key: &String, precondition: Precondition) -> (r: Result<(), WriteError>)
        requires
            old(self).wf(),
        ensures
            final(self).wf(),
            r.is_ok() == precondition_holds(old(self)@, key@, precondition),
            r.is_ok() ==> delete_outcome(old(self)@, key@, precondition) == Some(final(self)@),
            r.is_err() ==> final(self)@ == old(self)@ && r matches Err(WriteError::FailedPrecondition(_)),
    {
        let found = self.find(key);
        let holds = match precondition {
            Precondition::Unconditional => true,
            Precondition::DoesNotExist => found.is_none(),
            Precondition::MatchesVersion(v) => match found {
                Some(i) => self.entries[i].1.version.value == v.value,
                None => false,
            },
        };
        if !holds {
            return Err(WriteError::FailedPrecondition("precondition does not hold".to_string()));
        }
        let ghost k = key@;
        match found {
            Some(i) => {
                let ghost before = self.entries@;
                self.entries.remove(i);
                self.contents = Ghost(self.contents@.remove(k));
                assert forall|a: int, b: int| 0 <= a < b < self.entries@.len() implies
                    self.entries@[a].0@ != self.entries@[b].0@ by {
                    let a0 = if a < i { a } else { a + 1 };
                    let b0 = if b < i { b } else { b + 1 };
                    assert(self.entries@[a] == before[a0]);
                    assert(self.entries@[b] == before[b0]);
                }
                assert forall|j: int| 0 <= j < self.entries@.len() implies
                    #[trigger] self.contents@.contains_key(self.entries@[j].0@)
                    && self.contents@[self.entries@[j].0@] == self.entries@[j].1.model() by {
                    let j0 = if j < i { j } else { j + 1 };
                    assert(self.entries@[j] == before[j0]);
                    assert(before[j0].0@ != before[i as int].0@);
                    assert(old(self).contents@.contains_key(before[j0].0@));
                }
                assert forall|k2: Seq<char>| #[trigger] self.contents@.contains_key(k2) implies exists|j: int|
                    0 <= j < self.entries@.len() && self.entries@[j].0@ == k2 by {
                    let j0 = choose|j: int| 0 <= j < before.len() && before[j].0@ == k2;
                    assert(j0 != i);
                    let j = if j0 < i { j0 } else { j0 - 1 };
                    assert(self.entries@[j] == before[j0]);
                }
                assert(self.keys_unique());
                assert(self.entries_stored());
                assert(self.contents_listed());
            },
            None => {
                assert(self.contents@.remove(k) =~= self.contents@);
            },
        }
        Ok(())
    }
}

/// A successful write leaves the key holding exactly the written value, so the key's version
/// becomes the value's version.
pub proof fn lemma_put_sets_version(
    contents: StoreContents,
    key: Seq<char>,
    value: (u32, Seq<u8>),
    precondition: Precondition,
)
    requires
        put_outcome(contents, key, value, precondition) is Some,
    ensures
        put_outcome(contents, key, value, precondition).unwrap().contains_key(key),
        put_outcome(contents, key, value, precondition).unwrap()[key] == value,
{
}

/// Versions only move forward under read-modify-write: a write guarded by the version it read,
/// carrying the next version, succeeds exactly when the key still holds the version read, and
/// then raises the key's version by one. A write that a concurrent writer overtook fails and
/// leaves the version where the other writer put it.
pub proof fn lemma_read_modify_write_bumps_version(
    contents: StoreContents,
    key: Seq<char>,
    read: Version,
    value: (u32, Seq<u8>),
)
    requires
        value.0 == read.value + 1,
    ensures
        put_outcome(contents, key, value, Precondition::MatchesVersion(read)) is Some <==> (contents.contains_key(key)
            && contents[key].0 == read.value),
        put_outcome(contents, key, value, Precondition::MatchesVersion(read)) matches Some(after) ==> after[key].0
            == contents[key].0 + 1,
{
}

/// Versions never decrease under writes that carry a version above the stored one: every
/// such successful write raises the key's version by at least one.
pub proof fn lemma_version_never_decreases(
    contents: StoreContents,
    key: Seq<char>,
    value: (u32, Seq<u8>),
    precondition: Precondition,
)
    requires
        put_outcome(contents, key, value, precondition) is Some,
        contents.contains_key(key) ==> value.0 > contents[key].0,
    ensures
        contents.contains_key(key) ==> put_outcome(contents, key, value, precondition).unwrap()[key].0 >= contents[key].0 + 1,
{
}

} // verus!
