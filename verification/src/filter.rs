//! The filter: what happens to one request.
//!
//! The host hands over what it read (the time, the stored snapshot, the
//! fields of the request) and gets a decision back: to let the request
//! through and store a new snapshot, to answer it with `429`, or to halt it
//! because a step failed.
//!
//! A step that fails halts the request: it is neither let through nor
//! answered, and no step is tried again. A failure is never turned into an
//! allowance or a denial.
//!
//! The snapshot is read whole and stored whole, without a lock and without
//! a check that the slot is still what was read. Of two requests that read
//! the same snapshot, the one that stores last overwrites what the other
//! stored, and that request's hit is lost: the limits hold exactly for
//! requests that come one after the other, and as far as they overlap a
//! few more than the maximum may pass.

use vstd::prelude::*;
use vstd::string::StringExecFns;
use crate::attributes::{attributes_of, fields_view, to_lowercase, AttributeMap};
use crate::clock::RateLimitFilterClock;
use crate::counter::{CounterIdentity, CounterSet};
use crate::engine::{limit_applies, CounterStore, Limiter};
use crate::error::{DecodeError, FilterError};
use crate::limit::{LimitDefinition, LimitModel, LimitRegistry};
use crate::limit::standard_limit;
use crate::model::{
    charged_table, concerns, counter_key, lemma_charged_sound, lemma_check_fits, limits_valid,
    rate_limited, reported, table_sound, windows_fit, CounterState, NANOS_PER_SECOND,
};
use crate::snapshot::{
    decoding, entries_map, is_encoding_of, lemma_entries_map_take, snapshot_valid, stamped,
    stored_valid, Snapshot, StoredCounter,
};

verus! {

/// The namespace of the filter's limits and counters.
pub const NAMESPACE: &'static str = "ratelimitfilter";

/// The key of the shared-storage slot that holds the snapshot.
pub const KEY: &'static str = "counters";

/// The cost of one request.
pub const COST: i64 = 1;

/// The status of the answer to a denied request.
pub const TOO_MANY_REQUESTS: u32 = 429;

/// The body of the answer to a denied request.
pub const DENIAL_BODY: &'static str = "Too many requests.\n";

/// What the host does with the request.
#[derive(Clone, Copy, Debug, PartialEq, Eq, Structural)]
pub enum HostAction {
    /// The request goes on.
    Continue,
    /// The request is halted.
    Pause,
}

/// The answer that ends a denied request.
#[derive(Clone, Copy, Debug, PartialEq, Eq)]
pub struct Answer {
    pub status: u32,
    pub body: &'static str,
}

/// How a request ended.
#[derive(Clone, Debug, PartialEq, Eq)]
pub enum Decision {
    /// The request is within its limits and was counted. The bytes are the
    /// new snapshot, to be stored in place of the old one.
    Allowed { snapshot: Vec<u8> },
    /// The request is over a limit. Nothing was counted and nothing is to
    /// be stored.
    Denied,
    /// A step failed. Nothing is to be stored, and the request is neither
    /// let through nor answered.
    Failed { reason: FilterError },
}

impl Decision {
    /// What the host does with the request: only an allowed one goes on.
    pub fn action(&self) -> (action: HostAction)
        ensures
            action == HostAction::Continue <==> self is Allowed,
    {
        match self {
            Decision::Allowed { .. } => HostAction::Continue,
            _ => HostAction::Pause,
        }
    }

    /// The answer that the host sends: `429` with the denial's body for a
    /// denied request, and none otherwise.
    pub fn answer(&self) -> (answer: Option<Answer>)
        ensures
            match answer {
                Some(sent) => self is Denied && sent.status == 429 && sent.body@ == "Too many requests.\n"@,
                None => !(self is Denied),
            },
    {
        match self {
            Decision::Denied => Some(Answer { status: TOO_MANY_REQUESTS, body: DENIAL_BODY }),
            _ => None,
        }
    }
}

/// What is owed to a request.
pub enum Verdict {
    /// It is let through, and `next` becomes the snapshot.
    Allowed { next: Map<CounterIdentity, StoredCounter> },
    /// It is answered with `429`.
    Denied,
    /// It is halted for `reason`.
    Failed { reason: FilterError },
}

/// What the host read from the shared slot, as bytes.
pub open spec fn slot_bytes(shared_data: Option<Vec<u8>>) -> Option<Seq<u8>> {
    match shared_data {
        Some(data) => Some(data@),
        None => None,
    }
}

/// The snapshot that a slot holds: none of its counters where the slot is
/// absent, what its bytes decode to where it is present.
pub open spec fn loaded(shared_data: Option<Seq<u8>>) -> Result<Map<CounterIdentity, StoredCounter>, DecodeError> {
    match shared_data {
        None => Ok(Map::empty()),
        Some(bytes) => decoding(bytes),
    }
}

/// The table that a limiter starts from: each counter of the snapshot with
/// the hits that it had left, none where it does not say, and the end of
/// its window.
pub open spec fn seeded(snapshot: Map<CounterIdentity, StoredCounter>) -> Map<CounterIdentity, CounterState> {
    snapshot.map_values(
        |stored: StoredCounter|
            CounterState {
                remaining: match stored.remaining {
                    Some(hits) => hits,
                    None => 0,
                },
                expires_at: stored.expires_at,
            },
    )
}

/// A request with the attributes `values` at `now` is over a limit.
pub open spec fn denies(
    limits: Set<LimitModel>,
    snapshot: Map<CounterIdentity, StoredCounter>,
    now: nat,
    values: Map<Seq<char>, Seq<char>>,
) -> bool {
    rate_limited(limits, seeded(snapshot), now, NAMESPACE@, values, 1)
}

/// The table after a request with the attributes `values` was counted at
/// `now`.
pub open spec fn counted(
    limits: Set<LimitModel>,
    snapshot: Map<CounterIdentity, StoredCounter>,
    now: nat,
    values: Map<Seq<char>, Seq<char>>,
) -> Map<CounterIdentity, CounterState> {
    charged_table(limits, seeded(snapshot), now, NAMESPACE@, values, 1)
}

/// The snapshot after a request with the attributes `values` was counted at
/// `now`: the counters of the namespace whose window is then open.
pub open spec fn next_snapshot(
    limits: Set<LimitModel>,
    snapshot: Map<CounterIdentity, StoredCounter>,
    now: nat,
    values: Map<Seq<char>, Seq<char>>,
) -> Map<CounterIdentity, StoredCounter> {
    stamped(reported(counted(limits, snapshot, now, values), now, NAMESPACE@), now)
}

/// What is owed to a request with the attributes `values` at `now`, on a
/// snapshot that was read. A request that is over a limit is denied. One
/// that is not is counted and allowed, unless the window of a limit that
/// concerns it, opened at `now`, would end after the last instant that the
/// host clock can report: then it is halted.
pub open spec fn judged(
    limits: Set<LimitModel>,
    snapshot: Map<CounterIdentity, StoredCounter>,
    now: nat,
    values: Map<Seq<char>, Seq<char>>,
) -> Verdict {
    if denies(limits, snapshot, now, values) {
        Verdict::Denied
    } else if !windows_fit(limits, NAMESPACE@, values, now) {
        Verdict::Failed { reason: FilterError::Evaluation }
    } else {
        Verdict::Allowed { next: next_snapshot(limits, snapshot, now, values) }
    }
}

/// What is owed to a request, from what the host read for it: the slot, the
/// time and the fields of the request.
pub open spec fn verdict(
    limits: Set<LimitModel>,
    shared_data: Option<Seq<u8>>,
    reading: Option<u64>,
    fields: Seq<(Seq<char>, Seq<char>)>,
) -> Verdict {
    match loaded(shared_data) {
        Err(reason) => Verdict::Failed { reason: FilterError::Decode(reason) },
        Ok(snapshot) => match reading {
            None => Verdict::Failed { reason: FilterError::Clock },
            Some(now) => judged(limits, snapshot, now as nat, attributes_of(fields)),
        },
    }
}

impl Decision {
    /// The decision gives the request what it is owed. An allowed request
    /// is let through with an encoding of the next snapshot.
    pub open spec fn meets(&self, owed: Verdict) -> bool {
        match owed {
            Verdict::Allowed { next } => self matches Decision::Allowed { snapshot } && is_encoding_of(
                snapshot@,
                next,
            ),
            Verdict::Denied => *self == Decision::Denied,
            Verdict::Failed { reason } => *self == Decision::Failed { reason },
        }
    }
}

/// A valid snapshot seeds a sound table.
pub proof fn lemma_seeded_sound(snapshot: Map<CounterIdentity, StoredCounter>)
    requires
        snapshot_valid(snapshot),
    ensures
        table_sound(seeded(snapshot)),
{
    assert forall|key: CounterIdentity| #[trigger] seeded(snapshot).contains_key(key) implies {
        &&& i64::MIN < seeded(snapshot)[key].remaining <= i64::MAX
        &&& seeded(snapshot)[key].expires_at <= u64::MAX
        &&& key.set_variables.dom().subset_of(key.limit.variables)
    } by {
        assert(snapshot.contains_key(key));
    }
}

/// What a sound table reports is a valid snapshot.
pub proof fn lemma_reported_valid(table: Map<CounterIdentity, CounterState>, now: nat, namespace: Seq<char>)
    requires
        table_sound(table),
    ensures
        snapshot_valid(stamped(reported(table, now, namespace), now)),
{
    let taken = stamped(reported(table, now, namespace), now);
    assert forall|key: CounterIdentity| #[trigger] taken.contains_key(key) implies stored_valid(
        key,
        taken[key],
    ) by {
        assert(reported(table, now, namespace).contains_key(key));
        assert(table.contains_key(key));
    }
}

/// One element more of a list is one element more in its set.
pub proof fn lemma_take_one_more(limits: Seq<LimitModel>, count: int)
    requires
        0 <= count < limits.len(),
    ensures
        limits.take(count + 1).to_set() == limits.take(count).to_set().insert(limits[count]),
{
    let sooner = limits.take(count);
    let later = limits.take(count + 1);
    assert(later =~= sooner.push(limits[count]));
    assert forall|limit: LimitModel| later.to_set().contains(limit) <==> sooner.to_set().insert(
        limits[count],
    ).contains(limit) by {
        if later.contains(limit) {
            let k = choose|k: int| 0 <= k < later.len() && later[k] == limit;
            if k < count {
                assert(sooner[k] == limit);
            }
        }
        if sooner.contains(limit) {
            let k = choose|k: int| 0 <= k < sooner.len() && sooner[k] == limit;
            assert(later[k] == limit);
        }
        assert(later[count] == limits[count]);
    }
    assert(later.to_set() =~= sooner.to_set().insert(limits[count]));
}

/// The filter of a process: the limits that every request is held to.
pub struct RateLimitFilter {
    registry: LimitRegistry,
}

impl RateLimitFilter {
    /// The registry is well-formed.
    #[verifier::type_invariant]
    spec fn registry_wf(self) -> bool {
        self.registry.wf()
    }

    /// The limits that every request is held to.
    pub closed spec fn limits(&self) -> Set<LimitModel> {
        self.registry.limits()
    }

    /// The filter with the standard limit.
    pub fn new() -> (filter: RateLimitFilter)
        ensures
            filter.limits() == set![standard_limit()],
    {
        let filter = RateLimitFilter { registry: LimitRegistry::standard() };
        assert(filter.limits() =~= set![standard_limit()]) by {
            assert(filter.registry@[0] == standard_limit());
        }
        filter
    }

    /// The filter with the limits of `registry`.
    pub fn with_registry(registry: LimitRegistry) -> (filter: RateLimitFilter)
        requires
            registry.wf(),
        ensures
            filter.limits() == registry.limits(),
    {
        RateLimitFilter { registry }
    }

    /// The snapshot that the shared slot holds: an empty one where the slot
    /// is absent. A slot with bytes that do not decode to a valid snapshot
    /// is an error.
    pub fn get_ratelimit_counters(&self, shared_data: Option<Vec<u8>>) -> (r: Result<Snapshot, FilterError>)
        ensures
            match loaded(slot_bytes(shared_data)) {
                Ok(snapshot) => r matches Ok(counters) && counters.wf() && counters@ == snapshot,
                Err(reason) => r == Err::<Snapshot, FilterError>(FilterError::Decode(reason)),
            },
    {
        match shared_data {
            Some(data) => {
                match Snapshot::decode(data.as_slice()) {
                    Ok(counters) => Ok(counters),
                    Err(reason) => Err(FilterError::Decode(reason)),
                }
            },
            None => Ok(Snapshot::empty()),
        }
    }

    /// The bytes to store for the counters that the limiter reports at the
    /// clock's instant: an encoding of their snapshot, in which each counter
    /// expires at the instant plus its time-to-live. The next request reads
    /// exactly that snapshot from the bytes. Counters whose snapshot would
    /// not be valid are not stored.
    pub fn set_ratelimit_counters(&self, counters: CounterSet, clock: &RateLimitFilterClock) -> (r: Result<
        Vec<u8>,
        FilterError,
    >)
        requires
            counters.wf(),
        ensures
            match r {
                Ok(bytes) => {
                    &&& snapshot_valid(stamped(counters@, clock@))
                    &&& is_encoding_of(bytes@, stamped(counters@, clock@))
                    &&& loaded(Some(bytes@)) == Ok::<Map<CounterIdentity, StoredCounter>, DecodeError>(
                        stamped(counters@, clock@),
                    )
                },
                Err(reason) => reason == FilterError::Storage && !snapshot_valid(stamped(counters@, clock@)),
            },
    {
        match Snapshot::from_counters(counters, clock.now()) {
            Some(shared_data) => shared_data.encode(),
            None => Err(FilterError::Storage),
        }
    }

    /// The attributes of a request with the given fields: the method as
    /// `req.method`, every header as `req.headers.` and its name in
    /// lowercase, and no other field of the protocol. Of two fields kept
    /// under one name the later one counts.
    pub fn extract_required_headers(&self, request_headers: &[(String, String)]) -> (required_headers:
        AttributeMap)
        ensures
            required_headers.wf(),
            required_headers@ == attributes_of(fields_view(request_headers@)),
    {
        let mut required_headers = AttributeMap::new();
        let method = ":method".to_string();
        let mut i: usize = 0;
        while i < request_headers.len()
            invariant
                i <= request_headers.len(),
                method@ == ":method"@,
                required_headers.wf(),
                required_headers@ == attributes_of(fields_view(request_headers@).take(i as int)),
            decreases request_headers.len() - i,
        {
            let key = &request_headers[i].0;
            let value = &request_headers[i].1;
            proof {
                let fields = fields_view(request_headers@);
                assert(fields.take(i + 1).drop_last() =~= fields.take(i as int));
                assert(fields.take(i + 1).last() == (key@, value@));
            }
            if key.as_str().unicode_len() > 0 && key.as_str().get_char(0) == ':' {
                if *key == method {
                    required_headers.insert("req.method".to_string(), value.clone());
                }
            } else {
                let mut name = "req.headers.".to_string();
                name.append(to_lowercase(key.as_str()).as_str());
                required_headers.insert(name, value.clone());
            }
            i += 1;
        }
        proof {
            let fields = fields_view(request_headers@);
            assert(fields.take(request_headers.len() as int) =~= fields);
        }
        required_headers
    }

    /// The store that the limiter of a request starts from: every counter
    /// of the snapshot with the hits that it had left and the end of its
    /// window, read against `clock`.
    pub fn seed_counters(&self, clock: RateLimitFilterClock, counters: &Snapshot) -> (storage: CounterStore)
        requires
            counters.wf(),
        ensures
            storage.wf(),
            storage.counters() == seeded(counters@),
            storage.now() == clock@,
    {
        let mut storage = CounterStore::new(clock);
        let mut i: usize = 0;
        proof {
            counters.lemma_wf();
            assert(seeded(entries_map(counters.listing().take(0))) =~= storage.counters());
        }
        while i < counters.len()
            invariant
                i <= counters.listing().len(),
                counters.wf(),
                storage.wf(),
                storage.now() == clock@,
                storage.counters() == seeded(entries_map(counters.listing().take(i as int))),
            decreases counters.listing().len() - i,
        {
            let entry = counters.get(i);
            let remaining_time: i64 = match entry.counter.remaining {
                Some(hits) => hits,
                None => 0,
            };
            proof {
                let sooner = entries_map(counters.listing().take(i as int));
                let identity = entry.counter.identity();
                counters.lemma_wf();
                lemma_entries_map_take(counters.listing(), i as int);
                assert(entry.valid());
                assert(identity.set_variables.restrict(identity.limit.variables) =~= identity.set_variables);
                assert(counter_key(entry.counter.limit@, identity.set_variables) =~= identity);
                assert(seeded(sooner.insert(identity, entry.stored())) =~= seeded(sooner).insert(
                    identity,
                    CounterState { remaining: remaining_time as int, expires_at: entry.expires_at as nat },
                ));
            }
            storage.add_counter(&entry.counter, remaining_time, entry.expires_at as u64);
            i += 1;
        }
        proof {
            counters.lemma_wf();
            assert(counters.listing().take(i as int) =~= counters.listing());
        }
        storage
    }

    /// The limiter of a request: over the counters of `storage`, with the
    /// filter's limits in force.
    pub fn make_limiter_per_req(&self, storage: CounterStore) -> (r: Result<Limiter, FilterError>)
        requires
            storage.wf(),
        ensures
            r matches Ok(limiter) && {
                &&& limits_valid(limiter.limits())
                &&& limiter.limits() == self.limits()
                &&& limiter.counters() == storage.counters()
                &&& limiter.now() == storage.now()
            },
    {
        proof {
            use_type_invariant(self);
        }
        let limits = self.registry.all();
        let ghost models = self.registry@;
        let mut limiter = Limiter::new_with_storage(storage);
        let mut j: usize = 0;
        proof {
            assert(models.take(0).to_set() =~= Set::<LimitModel>::empty());
        }
        while j < limits.len()
            invariant
                j <= limits.len(),
                limits@.map_values(|limit: LimitDefinition| limit@) == models,
                limiter.limits() == models.take(j as int).to_set(),
                limiter.counters() == storage.counters(),
                limiter.now() == storage.now(),
            decreases limits.len() - j,
        {
            assert(models[j as int] == limits@[j as int]@);
            match limiter.add_limit(&limits[j]) {
                Ok(()) => {},
                Err(reason) => {
                    return Err(reason);
                },
            }
            proof {
                lemma_take_one_more(models, j as int);
            }
            j += 1;
        }
        proof {
            assert(models.take(limits.len() as int) =~= models);
            assert forall|limit: LimitModel| #[trigger] limiter.limits().contains(limit) implies limit.valid() by {
                let k = choose|k: int| 0 <= k < models.len() && models[k] == limit;
                assert(models[k].valid());
            }
        }
        Ok(limiter)
    }

    /// Whether the window of every limit that concerns a request with the
    /// attributes `values`, opened at `now`, ends at an instant that the
    /// host clock can report.
    pub fn windows_fit(&self, values: &AttributeMap, now: u64) -> (fit: bool)
        ensures
            fit == windows_fit(self.limits(), NAMESPACE@, values@, now as nat),
    {
        proof {
            use_type_invariant(self);
        }
        let limits = self.registry.all();
        let ghost models = self.registry@;
        let namespace = NAMESPACE.to_string();
        let mut i: usize = 0;
        while i < limits.len()
            invariant
                i <= limits.len(),
                namespace@ == NAMESPACE@,
                limits@.map_values(|limit: LimitDefinition| limit@) == models,
                models == self.registry@,
                self.registry.wf(),
                forall|k: int|
                    0 <= k < i && concerns(models.to_set(), NAMESPACE@, values@, #[trigger] models[k]) ==> now
                        + models[k].seconds * NANOS_PER_SECOND as nat <= u64::MAX,
            decreases limits.len() - i,
        {
            assert(models[i as int] == limits@[i as int]@);
            assert(models.to_set().contains(models[i as int]));
            assert(models[i as int].valid());
            let end: u128 = now as u128 + limits[i].seconds as u128 * NANOS_PER_SECOND as u128;
            if end > u64::MAX as u128 && limits[i].namespace == namespace && limit_applies(&limits[i], values) {
                assert(concerns(self.limits(), NAMESPACE@, values@, models[i as int]));
                return false;
            }
            i += 1;
        }
        proof {
            assert forall|limit: LimitModel| #[trigger]
                concerns(models.to_set(), NAMESPACE@, values@, limit) implies now + limit.seconds
                * NANOS_PER_SECOND as nat <= u64::MAX by {
                let k = choose|k: int| 0 <= k < models.len() && models[k] == limit;
                assert(concerns(models.to_set(), NAMESPACE@, values@, models[k]));
            }
        }
        true
    }

    /// Decides on one request, from what the host read for it: the time
    /// (`None` where the host gave none), the shared slot (`None` where it is
    /// absent) and the fields of the request.
    pub fn on_http_request_headers(
        &mut self,
        reading: Option<u64>,
        shared_data: Option<Vec<u8>>,
        request_headers: &[(String, String)],
    ) -> (decision: Decision)
        ensures
            final(self).limits() == old(self).limits(),
            decision.meets(
                verdict(old(self).limits(), slot_bytes(shared_data), reading, fields_view(request_headers@)),
            ),
    {
        let counters = match self.get_ratelimit_counters(shared_data) {
            Ok(counters) => counters,
            Err(reason) => {
                return Decision::Failed { reason };
            },
        };
        let clock = match RateLimitFilterClock::from_reading(reading) {
            Ok(clock) => clock,
            Err(reason) => {
                return Decision::Failed { reason };
            },
        };
        let storage = self.seed_counters(clock, &counters);
        let mut limiter = match self.make_limiter_per_req(storage) {
            Ok(limiter) => limiter,
            Err(reason) => {
                return Decision::Failed { reason };
            },
        };
        let required_headers = self.extract_required_headers(request_headers);
        proof {
            counters.lemma_wf();
            lemma_seeded_sound(counters@);
            lemma_check_fits(limiter.limits(), limiter.counters(), limiter.now(), NAMESPACE@, required_headers@);
        }
        match limiter.is_rate_limited(NAMESPACE, &required_headers, COST) {
            Ok(is_limited) => {
                if is_limited {
                    return Decision::Denied;
                }
            },
            Err(reason) => {
                return Decision::Failed { reason };
            },
        }
        if !self.windows_fit(&required_headers, clock.now()) {
            return Decision::Failed { reason: FilterError::Evaluation };
        }
        proof {
            lemma_charged_sound(limiter.limits(), limiter.counters(), limiter.now(), NAMESPACE@, required_headers@);
            lemma_reported_valid(
                counted(self.limits(), counters@, clock@, required_headers@),
                clock@,
                NAMESPACE@,
            );
        }
        match limiter.update_counters(NAMESPACE, &required_headers, COST) {
            Ok(()) => {},
            Err(reason) => {
                return Decision::Failed { reason };
            },
        }
        match limiter.get_counters(NAMESPACE) {
            Ok(found) => {
                match self.set_ratelimit_counters(found, &clock) {
                    Ok(snapshot) => Decision::Allowed { snapshot },
                    Err(reason) => Decision::Failed { reason },
                }
            },
            Err(reason) => Decision::Failed { reason },
        }
    }
}

} // verus!
