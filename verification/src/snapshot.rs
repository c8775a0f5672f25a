//! The snapshot: every counter with the instant at which its window ends,
//! and its encoding as the bytes that are kept in shared storage.
//!
//! The bytes are bincode's encoding of a `HashMap` from limitador's
//! `Counter` to `SystemTime`. Nothing of the encoding is proved here: what
//! the bytes decode to has a name, `decoded_snapshot`, and the library is
//! proved against that name. A map is written in the order in which its
//! hash table is walked, so one snapshot has many encodings; all of them
//! decode to it.

use vstd::prelude::*;
use bincode::ErrorKind;
use limitador::counter::Counter as EngineCounter;
use limitador::limit::Limit as EngineLimit;
use std::collections::HashMap;
use std::time::{Duration, SystemTime, UNIX_EPOCH};
use crate::attributes::lemma_pairs_map_names;
use crate::counter::{
    counters_map, identities, lemma_counters_map_at, lemma_counters_map_from, Counter,
    CounterIdentity, CounterReport, CounterSet,
};
use crate::error::{DecodeError, FilterError};
use crate::limit::{strings_set, LimitDefinition};

verus! {

/// What a snapshot holds of one counter: what the counter said of its usage
/// when the snapshot was taken, and the instant at which its window ends,
/// in nanoseconds since the Unix epoch.
pub struct StoredCounter {
    pub remaining: Option<int>,
    pub expires_in: Option<nat>,
    pub expires_at: nat,
}

/// One counter of a snapshot.
#[derive(Clone, Debug, PartialEq, Eq)]
pub struct SnapshotEntry {
    pub counter: Counter,
    /// The instant at which the counter's window ends, in nanoseconds since
    /// the Unix epoch.
    pub expires_at: u128,
}

/// A run of the filter can have written this: the instant and the
/// time-to-live are such as the host clock can report, the allowance is
/// above `i64::MIN`, and every variable with a value is one of the limit.
pub open spec fn stored_valid(identity: CounterIdentity, stored: StoredCounter) -> bool {
    &&& stored.expires_at <= u64::MAX
    &&& stored.expires_in matches Some(nanos) ==> nanos <= u64::MAX
    &&& stored.remaining matches Some(hits) ==> i64::MIN < hits <= i64::MAX
    &&& identity.set_variables.dom().subset_of(identity.limit.variables)
}

/// Every counter of the snapshot is valid.
pub open spec fn snapshot_valid(snapshot: Map<CounterIdentity, StoredCounter>) -> bool {
    forall|identity: CounterIdentity| #[trigger]
        snapshot.contains_key(identity) ==> stored_valid(identity, snapshot[identity])
}

impl SnapshotEntry {
    /// What the snapshot holds of the counter.
    pub open spec fn stored(&self) -> StoredCounter {
        StoredCounter {
            remaining: self.counter.report().remaining,
            expires_in: self.counter.report().expires_in,
            expires_at: self.expires_at as nat,
        }
    }

    /// The entry is valid.
    pub open spec fn valid(&self) -> bool {
        stored_valid(self.counter.identity(), self.stored())
    }
}

/// The nanoseconds of a time-to-live; none where the counter does not say.
pub open spec fn time_to_live(expires_in: Option<nat>) -> nat {
    match expires_in {
        Some(nanos) => nanos,
        None => 0,
    }
}

/// The snapshot of what a limiter reports at `now`: each counter with what
/// it reports, and with `now` and its time-to-live as the instant at which
/// its window ends.
pub open spec fn stamped(reports: Map<CounterIdentity, CounterReport>, now: nat) -> Map<
    CounterIdentity,
    StoredCounter,
> {
    reports.map_values(
        |report: CounterReport|
            StoredCounter {
                remaining: report.remaining,
                expires_in: report.expires_in,
                expires_at: now + time_to_live(report.expires_in),
            },
    )
}

/// The identities of a list of entries, in its order.
pub open spec fn entry_identities(entries: Seq<SnapshotEntry>) -> Seq<CounterIdentity> {
    entries.map_values(|entry: SnapshotEntry| entry.counter.identity())
}

/// What a list of entries holds, by identity.
pub open spec fn entries_map(entries: Seq<SnapshotEntry>) -> Map<CounterIdentity, StoredCounter> {
    Map::new(
        |identity: CounterIdentity| entry_identities(entries).contains(identity),
        |identity: CounterIdentity| entries[entry_identities(entries).index_of(identity)].stored(),
    )
}

/// In a list without repeated identities, the entry at `index` is the one
/// that its identity finds.
pub proof fn lemma_entries_map_at(entries: Seq<SnapshotEntry>, index: int)
    requires
        entry_identities(entries).no_duplicates(),
        0 <= index < entries.len(),
    ensures
        entries_map(entries).contains_key(entries[index].counter.identity()),
        entries_map(entries)[entries[index].counter.identity()] == entries[index].stored(),
{
    let ids = entry_identities(entries);
    assert(ids[index] == entries[index].counter.identity());
    assert(ids.contains(ids[index]));
    let found = ids.index_of(ids[index]);
    assert(0 <= found < ids.len() && ids[found] == ids[index]);
    assert(found == index);
}

/// Every counter that a list of entries holds stands somewhere in the list.
pub proof fn lemma_entries_map_from(entries: Seq<SnapshotEntry>, identity: CounterIdentity) -> (index: int)
    requires
        entries_map(entries).contains_key(identity),
    ensures
        0 <= index < entries.len(),
        entries[index].counter.identity() == identity,
        entries_map(entries)[identity] == entries[index].stored(),
{
    let ids = entry_identities(entries);
    assert(ids.contains(identity));
    let found = ids.index_of(identity);
    assert(0 <= found < ids.len() && ids[found] == identity);
    found
}

/// In a list without repeated identities, one entry more of the list is
/// one counter more in what it holds.
pub proof fn lemma_entries_map_take(entries: Seq<SnapshotEntry>, count: int)
    requires
        entry_identities(entries).no_duplicates(),
        0 <= count < entries.len(),
    ensures
        entry_identities(entries.take(count)).no_duplicates(),
        !entries_map(entries.take(count)).contains_key(entries[count].counter.identity()),
        entries_map(entries.take(count + 1)) == entries_map(entries.take(count)).insert(
            entries[count].counter.identity(),
            entries[count].stored(),
        ),
{
    let sooner = entries.take(count);
    let later = entries.take(count + 1);
    let added = entries[count].counter.identity();
    assert forall|i: int, j: int| 0 <= i < later.len() && 0 <= j < later.len() && i != j implies entry_identities(
        later,
    )[i] != entry_identities(later)[j] by {
        assert(entry_identities(entries)[i] != entry_identities(entries)[j]);
    }
    assert forall|i: int, j: int| 0 <= i < sooner.len() && 0 <= j < sooner.len() && i != j implies entry_identities(
        sooner,
    )[i] != entry_identities(sooner)[j] by {
        assert(entry_identities(entries)[i] != entry_identities(entries)[j]);
    }
    if entries_map(sooner).contains_key(added) {
        let k = lemma_entries_map_from(sooner, added);
        assert(entry_identities(entries)[k] != entry_identities(entries)[count]);
    }
    let expected = entries_map(sooner).insert(added, entries[count].stored());
    assert forall|identity: CounterIdentity| #[trigger]
        entries_map(later).contains_key(identity) implies expected.contains_key(identity) && expected[identity]
        == entries_map(later)[identity] by {
        let k = lemma_entries_map_from(later, identity);
        if k < count {
            lemma_entries_map_at(sooner, k);
        }
    }
    assert forall|identity: CounterIdentity| #[trigger]
        expected.contains_key(identity) implies entries_map(later).contains_key(identity) by {
        if identity == added {
            lemma_entries_map_at(later, count);
        } else {
            let k = lemma_entries_map_from(sooner, identity);
            lemma_entries_map_at(later, k);
        }
    }
    assert(entries_map(later) =~= expected);
}

/// The counters that the filter keeps between requests. No counter is held
/// twice and every entry is valid.
#[derive(Clone, Debug, PartialEq, Eq)]
pub struct Snapshot {
    entries: Vec<SnapshotEntry>,
}

impl View for Snapshot {
    type V = Map<CounterIdentity, StoredCounter>;

    closed spec fn view(&self) -> Map<CounterIdentity, StoredCounter> {
        entries_map(self.entries@)
    }
}

/// The snapshot that bincode's `deserialize` reads from the bytes as a map
/// from limitador's `Counter` to `SystemTime`; `None` where it returns an
/// error.
pub uninterp spec fn decoded_snapshot(bytes: Seq<u8>) -> Option<Map<CounterIdentity, StoredCounter>>;

/// bincode's `ErrorKind`, boxed in the error of its calls.
#[verifier::external_type_specification]
#[verifier::external_body]
pub struct ExErrorKind(ErrorKind);

/// `bincode::deserialize` to a `HashMap` from limitador's `Counter` to
/// `SystemTime`, a function of the bytes: an error, or every entry of that
/// map once, each counter with the fields that its getters give and each
/// `SystemTime` as its nanoseconds since the Unix epoch. No two keys of the
/// map are equal, so no two entries are the same counter. serde reads a
/// `SystemTime` as the epoch and a duration after it; should one lie before
/// the epoch all the same, std's error is handed on as bincode's.
#[verifier::external_body]
fn bincode_deserialize(bytes: &[u8]) -> (r: Result<Vec<SnapshotEntry>, Box<ErrorKind>>)
    ensures
        r is Err <==> decoded_snapshot(bytes@) is None,
        r matches Ok(entries) ==> entry_identities(entries@).no_duplicates(),
        r matches Ok(entries) ==> decoded_snapshot(bytes@) == Some(entries_map(entries@)),
{
    let decoded = bincode::deserialize::<HashMap<EngineCounter, SystemTime>>(bytes)?;
    decoded.into_iter().map(|(c, t)| Ok(SnapshotEntry {
        counter: Counter {
            limit: LimitDefinition { namespace: c.namespace().as_ref().to_string(), max_value: c.max_value(), seconds: c.seconds(), conditions: Vec::from_iter(c.limit().conditions()), variables: Vec::from_iter(c.limit().variables()) },
            set_variables: Vec::from_iter(c.set_variables().clone()),
            remaining: c.remaining(),
            expires_in: c.expires_in().map(|d| d.as_nanos()),
        },
        expires_at: t.duration_since(UNIX_EPOCH).map_err(|e| ErrorKind::Custom(e.to_string()))?.as_nanos(),
    })).collect()
}

/// `bincode::serialize` of the entries as a `HashMap` from limitador's
/// `Counter` to `SystemTime`. It returns bytes, and `deserialize` reads an
/// equal map back from them: that is what bincode is for, and its
/// documentation opens with it. Nothing is claimed of the bytes themselves,
/// which follow the order in which the hash table is walked.
///
/// It returns bytes because nothing on its way can fail on such a map: it
/// sets no limit on the number of bytes and writes into a `Vec`; its
/// serializer refuses only a sequence or map without a length, and every
/// one here has a length; and of serde's impls for the types in the map
/// only the one for `SystemTime` can fail, on a time before the epoch,
/// which the epoch and a duration after it never is.
///
/// The entries are valid, so that `Counter::new` keeps every value and
/// every time fits the `u64` that it is cast to.
#[verifier::external_body]
fn bincode_serialize(entries: &Vec<SnapshotEntry>) -> (r: Result<Vec<u8>, Box<ErrorKind>>)
    requires
        entry_identities(entries@).no_duplicates(),
        forall|i: int| 0 <= i < entries.len() ==> (#[trigger] entries[i]).valid(),
    ensures
        r is Ok,
        r matches Ok(bytes) ==> decoded_snapshot(bytes@) == Some(entries_map(entries@)),
{
    let snapshot: HashMap<EngineCounter, SystemTime> = entries.iter().map(|e| {
        let limit = EngineLimit::new(e.counter.limit.namespace.as_str(), e.counter.limit.max_value, e.counter.limit.seconds, e.counter.limit.conditions.clone(), e.counter.limit.variables.clone());
        let mut counter = EngineCounter::new(limit, e.counter.set_variables.iter().cloned().collect());
        if let Some(hits) = e.counter.remaining { counter.set_remaining(hits); }
        if let Some(nanos) = e.counter.expires_in { counter.set_expires_in(Duration::from_nanos(nanos as u64)); }
        (counter, UNIX_EPOCH + Duration::from_nanos(e.expires_at as u64))
    }).collect();
    bincode::serialize(&snapshot)
}

/// The bytes decode to the snapshot.
pub open spec fn is_encoding_of(bytes: Seq<u8>, snapshot: Map<CounterIdentity, StoredCounter>) -> bool {
    decoded_snapshot(bytes) == Some(snapshot)
}

/// What decoding the bytes gives: the snapshot that they hold if it is
/// valid, and otherwise the reason why there is none.
pub open spec fn decoding(bytes: Seq<u8>) -> Result<Map<CounterIdentity, StoredCounter>, DecodeError> {
    match decoded_snapshot(bytes) {
        None => Err(DecodeError::Malformed),
        Some(snapshot) => if snapshot_valid(snapshot) {
            Ok(snapshot)
        } else {
            Err(DecodeError::OutOfRange)
        },
    }
}

/// Decoding an encoding of a valid snapshot gives that snapshot.
pub proof fn lemma_round_trip(snapshot: Map<CounterIdentity, StoredCounter>, bytes: Seq<u8>)
    requires
        snapshot_valid(snapshot),
        is_encoding_of(bytes, snapshot),
    ensures
        decoding(bytes) == Ok::<Map<CounterIdentity, StoredCounter>, DecodeError>(snapshot),
{
}

/// `name` is one of `names`.
fn contains_name(names: &Vec<String>, name: &String) -> (found: bool)
    ensures
        found == strings_set(names@).contains(name@),
{
    let mut i: usize = 0;
    while i < names.len()
        invariant
            i <= names.len(),
            forall|k: int| 0 <= k < i ==> (#[trigger] names@[k])@ != name@,
        decreases names.len() - i,
    {
        if names[i] == *name {
            return true;
        }
        i += 1;
    }
    false
}

/// Every variable of the counter that has a value is one of its limit.
fn is_normalized(counter: &Counter) -> (normalized: bool)
    ensures
        normalized == counter.normalized(),
{
    let mut i: usize = 0;
    while i < counter.set_variables.len()
        invariant
            i <= counter.set_variables.len(),
            forall|k: int|
                0 <= k < i ==> counter.limit@.variables.contains((#[trigger] counter.set_variables@[k]).0@),
        decreases counter.set_variables.len() - i,
    {
        if !contains_name(&counter.limit.variables, &counter.set_variables[i].0) {
            proof {
                lemma_pairs_map_names(counter.set_variables@, counter.set_variables@[i as int].0@);
            }
            return false;
        }
        i += 1;
    }
    proof {
        assert forall|name: Seq<char>| #[trigger]
            counter.identity().set_variables.dom().contains(name) implies counter.limit@.variables.contains(
            name,
        ) by {
            lemma_pairs_map_names(counter.set_variables@, name);
        }
    }
    true
}

/// The entry is valid.
fn is_valid_entry(entry: &SnapshotEntry) -> (valid: bool)
    ensures
        valid == entry.valid(),
{
    if entry.expires_at > u64::MAX as u128 {
        return false;
    }
    match entry.counter.expires_in {
        Some(nanos) => {
            if nanos > u64::MAX as u128 {
                return false;
            }
        },
        None => {},
    }
    match entry.counter.remaining {
        Some(hits) => {
            if hits == i64::MIN {
                return false;
            }
        },
        None => {},
    }
    is_normalized(&entry.counter)
}

impl Snapshot {
    /// The entries, in no particular order.
    pub closed spec fn listing(&self) -> Seq<SnapshotEntry> {
        self.entries@
    }

    /// No counter is held twice and every entry is valid.
    pub closed spec fn wf(&self) -> bool {
        &&& entry_identities(self.entries@).no_duplicates()
        &&& forall|i: int| 0 <= i < self.entries@.len() ==> (#[trigger] self.entries@[i]).valid()
    }

    /// A well-formed snapshot lists each of its counters once, and is a
    /// valid snapshot.
    pub proof fn lemma_wf(&self)
        requires
            self.wf(),
        ensures
            self@ == entries_map(self.listing()),
            entry_identities(self.listing()).no_duplicates(),
            forall|i: int| 0 <= i < self.listing().len() ==> (#[trigger] self.listing()[i]).valid(),
            snapshot_valid(self@),
    {
        assert forall|identity: CounterIdentity| #[trigger] self@.contains_key(identity) implies stored_valid(
            identity,
            self@[identity],
        ) by {
            let index = lemma_entries_map_from(self.entries@, identity);
        }
    }

    /// The snapshot without counters: what an absent slot stands for. It
    /// lists no entry.
    pub fn empty() -> (snapshot: Snapshot)
        ensures
            snapshot.wf(),
            snapshot@ == Map::<CounterIdentity, StoredCounter>::empty(),
            snapshot.listing() == Seq::<SnapshotEntry>::empty(),
    {
        let snapshot = Snapshot { entries: Vec::new() };
        assert(snapshot@ =~= Map::<CounterIdentity, StoredCounter>::empty());
        snapshot
    }

    /// How many counters the snapshot holds.
    pub fn len(&self) -> (n: usize)
        ensures
            n == self.listing().len(),
    {
        self.entries.len()
    }

    /// The entry at `index` of the listing.
    pub fn get(&self, index: usize) -> (entry: &SnapshotEntry)
        requires
            index < self.listing().len(),
        ensures
            *entry == self.listing()[index as int],
    {
        &self.entries[index]
    }

    /// The snapshot of what a limiter reports at `now`, the reading of its
    /// clock in nanoseconds since the Unix epoch: each counter with `now`
    /// and its time-to-live as the end of its window. There is none where
    /// that would not be a valid snapshot.
    pub fn from_counters(counters: CounterSet, now: u64) -> (r: Option<Snapshot>)
        requires
            counters.wf(),
        ensures
            match r {
                Some(snapshot) => {
                    &&& snapshot_valid(stamped(counters@, now as nat))
                    &&& snapshot.wf()
                    &&& snapshot@ == stamped(counters@, now as nat)
                },
                None => !snapshot_valid(stamped(counters@, now as nat)),
            },
    {
        let ghost all = counters.listing();
        let ghost reports = counters@;
        proof {
            counters.lemma_view();
        }
        let mut rest = counters;
        let mut entries: Vec<SnapshotEntry> = Vec::new();
        while rest.len() > 0
            invariant
                reports == counters@,
                reports == counters_map(all),
                identities(all).no_duplicates(),
                rest.listing().len() <= all.len(),
                rest.listing() == all.take(rest.listing().len() as int),
                entries@.len() + rest.listing().len() == all.len(),
                forall|k: int|
                    0 <= k < entries@.len() ==> {
                        &&& (#[trigger] entries@[k]).counter == all[all.len() - 1 - k]
                        &&& entries@[k].expires_at == now + time_to_live(entries@[k].counter.report().expires_in)
                        &&& entries@[k].valid()
                    },
            decreases rest.listing().len(),
        {
            let ghost at = rest.listing().len() - 1;
            let taken = rest.pop();
            match taken {
                Some(counter) => {
                    proof {
                        assert(counter == all[at]);
                        lemma_counters_map_at(all, at);
                        assert(stamped(reports, now as nat).contains_key(counter.identity()));
                        assert(rest.listing() =~= all.take(at));
                    }
                    let ttl: u128 = match counter.expires_in {
                        Some(nanos) => nanos,
                        None => 0,
                    };
                    if ttl > u64::MAX as u128 {
                        return None;
                    }
                    let expires_at: u128 = now as u128 + ttl;
                    let entry = SnapshotEntry { counter, expires_at };
                    if !is_valid_entry(&entry) {
                        assert(stamped(reports, now as nat)[entry.counter.identity()] == entry.stored());
                        return None;
                    }
                    entries.push(entry);
                },
                None => {},
            }
        }
        let snapshot = Snapshot { entries };
        proof {
            let listed = snapshot.entries@;
            assert forall|i: int, j: int| 0 <= i < listed.len() && 0 <= j < listed.len() && i != j implies entry_identities(
                listed,
            )[i] != entry_identities(listed)[j] by {
                assert(listed[i].counter == all[all.len() - 1 - i]);
                assert(listed[j].counter == all[all.len() - 1 - j]);
                assert(identities(all)[all.len() - 1 - i] != identities(all)[all.len() - 1 - j]);
            }
            assert forall|k: int| 0 <= k < listed.len() implies {
                &&& stamped(reports, now as nat).contains_key(listed[k].counter.identity())
                &&& stamped(reports, now as nat)[listed[k].counter.identity()] == (#[trigger] listed[k]).stored()
            } by {
                lemma_counters_map_at(all, all.len() - 1 - k);
            }
            assert forall|identity: CounterIdentity| #[trigger]
                stamped(reports, now as nat).contains_key(identity) implies entries_map(listed).contains_key(
                identity,
            ) by {
                let m = lemma_counters_map_from(all, identity);
                lemma_entries_map_at(listed, all.len() - 1 - m);
            }
            assert forall|identity: CounterIdentity| #[trigger]
                entries_map(listed).contains_key(identity) implies stamped(reports, now as nat).contains_key(
                identity,
            ) && stamped(reports, now as nat)[identity] == entries_map(listed)[identity] by {
                let k = lemma_entries_map_from(listed, identity);
            }
            assert(snapshot@ =~= stamped(reports, now as nat));
            snapshot.lemma_wf();
        }
        Some(snapshot)
    }

    /// Checks what the decoder read: the snapshot if every entry is valid.
    pub fn checked(entries: Vec<SnapshotEntry>) -> (r: Result<Snapshot, DecodeError>)
        requires
            entry_identities(entries@).no_duplicates(),
        ensures
            match r {
                Ok(snapshot) => snapshot.wf() && snapshot@ == entries_map(entries@) && snapshot_valid(
                    entries_map(entries@),
                ),
                Err(reason) => reason == DecodeError::OutOfRange && !snapshot_valid(entries_map(entries@)),
            },
    {
        let mut i: usize = 0;
        while i < entries.len()
            invariant
                i <= entries.len(),
                entry_identities(entries@).no_duplicates(),
                forall|k: int| 0 <= k < i ==> (#[trigger] entries@[k]).valid(),
            decreases entries.len() - i,
        {
            if !is_valid_entry(&entries[i]) {
                proof {
                    lemma_entries_map_at(entries@, i as int);
                }
                return Err(DecodeError::OutOfRange);
            }
            i += 1;
        }
        let snapshot = Snapshot { entries };
        proof {
            snapshot.lemma_wf();
        }
        Ok(snapshot)
    }

    /// Decodes a stored snapshot. Bytes that are not an encoding, and bytes
    /// that hold an invalid entry, give an error: never an empty snapshot.
    pub fn decode(bytes: &[u8]) -> (r: Result<Snapshot, DecodeError>)
        ensures
            match decoding(bytes@) {
                Ok(snapshot) => r matches Ok(read) && read.wf() && read@ == snapshot,
                Err(reason) => r == Err::<Snapshot, DecodeError>(reason),
            },
    {
        match bincode_deserialize(bytes) {
            Ok(entries) => Snapshot::checked(entries),
            Err(_) => Err(DecodeError::Malformed),
        }
    }

    /// What the encoder returned, as the filter reports it.
    pub fn encoded(result: Result<Vec<u8>, Box<ErrorKind>>) -> (r: Result<Vec<u8>, FilterError>)
        ensures
            match result {
                Ok(bytes) => r == Ok::<Vec<u8>, FilterError>(bytes),
                Err(_) => r == Err::<Vec<u8>, FilterError>(FilterError::Storage),
            },
    {
        match result {
            Ok(bytes) => Ok(bytes),
            Err(_) => Err(FilterError::Storage),
        }
    }

    /// Encodes the snapshot: there are always bytes, and they decode to
    /// this snapshot.
    pub fn encode(&self) -> (r: Result<Vec<u8>, FilterError>)
        requires
            self.wf(),
        ensures
            r matches Ok(bytes) && is_encoding_of(bytes@, self@) && decoding(bytes@) == Ok::<
                Map<CounterIdentity, StoredCounter>,
                DecodeError,
            >(self@),
    {
        proof {
            self.lemma_wf();
        }
        Snapshot::encoded(bincode_serialize(&self.entries))
    }
}

} // verus!
