//! The limiting engine of one request.
//!
//! The engine is limitador's `RateLimiter` over its `WasmStorage`, the
//! storage that keeps its counters in a table in memory and reads the time
//! from a clock handed to it. Nothing of the engine is proved here. This
//! module states, in the terms of `model`, what the engine's calls do to
//! that table as limitador's source shows it, and offers them as
//! `CounterStore` and `Limiter`; the rest of the library is proved against
//! these statements.
//!
//! Every instant of this library is a number of nanoseconds since the Unix
//! epoch that fits a `u64`, the range of the host's clock. It goes to the
//! engine as `UNIX_EPOCH + Duration::from_nanos(..)`. That a `SystemTime`
//! holds each such instant, and holds it to the nanosecond, is taken for
//! granted, as it is by the host interface, which builds every reading of
//! the clock in this way. std documents the precision of `SystemTime` as
//! depending on the platform. It keeps nanoseconds on Linux and on wasm32,
//! the platforms that this library is written for; on a platform that
//! keeps less, what is stated here of an expiry does not hold to the
//! nanosecond.

use vstd::prelude::*;
use limitador::counter::Counter as EngineCounter;
use limitador::limit::Limit as EngineLimit;
use limitador::errors::LimitadorError;
use limitador::storage::wasm::WasmStorage;
use limitador::RateLimiter;
use std::collections::HashMap;
use std::time::{Duration, UNIX_EPOCH};
use crate::attributes::AttributeMap;
use crate::clock::RateLimitFilterClock;
use crate::counter::{pairs_map, Counter, CounterIdentity, CounterSet};
use crate::error::FilterError;
use crate::limit::{engine_applies, LimitDefinition, LimitModel};
use crate::model::{
    charge_fits, charged_table, check_fits, counter_key, limits_valid, rate_limited, reported,
    table_sound, CounterState,
};

verus! {

/// limitador's `storage::wasm::WasmStorage`.
#[verifier::external_type_specification]
#[verifier::external_body]
pub struct ExWasmStorage(WasmStorage);

/// limitador's `RateLimiter`.
#[verifier::external_type_specification]
#[verifier::external_body]
pub struct ExRateLimiter(RateLimiter);

/// limitador's `errors::LimitadorError`.
#[verifier::external_type_specification]
#[verifier::external_body]
pub struct ExLimitadorError(LimitadorError);

/// The table of a `WasmStorage`: for each counter that is a key of its
/// cache, the value and the instant of expiry that the cache holds for it.
pub uninterp spec fn storage_counters(storage: WasmStorage) -> Map<CounterIdentity, CounterState>;

/// The instant that the clock of a `WasmStorage` reports, where the clock
/// is a `RateLimitFilterClock`.
pub uninterp spec fn storage_now(storage: WasmStorage) -> nat;

/// The limits that a `WasmStorage` holds.
pub uninterp spec fn storage_limits(storage: WasmStorage) -> Set<LimitModel>;

/// The table of the storage of a `RateLimiter`.
pub uninterp spec fn engine_counters(engine: RateLimiter) -> Map<CounterIdentity, CounterState>;

/// The limits that the storage of a `RateLimiter` holds.
pub uninterp spec fn engine_limits(engine: RateLimiter) -> Set<LimitModel>;

/// The instant that the clock of the storage of a `RateLimiter` reports.
pub uninterp spec fn engine_now(engine: RateLimiter) -> nat;

/// `WasmStorage::new`: a storage with an empty cache and no limits that
/// reads the time from `clock`, which reports its one reading whenever it
/// is asked.
#[verifier::external_body]
fn storage_new(clock: RateLimitFilterClock) -> (storage: WasmStorage)
    ensures
        storage_counters(storage) == (Map::<CounterIdentity, CounterState>::empty()),
        storage_limits(storage) == (Set::<LimitModel>::empty()),
        storage_now(storage) == clock@,
{
    WasmStorage::new(Box::new(clock))
}

/// `WasmStorage::add_counter`: puts the value and the instant of expiry
/// into the cache under the counter, in place of what the cache held for
/// it, and leaves every other key, the limits and the clock alone. The key is made by `Counter::new`,
/// which keeps of the given values those of the limit's variables; two keys
/// are equal when their limits and these values are.
#[verifier::external_body]
fn storage_add_counter(storage: &mut WasmStorage, counter: &Counter, value: i64, expires_at: u64)
    ensures
        storage_counters(*final(storage)) == storage_counters(*old(storage)).insert(
            counter_key(counter.limit@, pairs_map(counter.set_variables@)),
            (CounterState { remaining: value as int, expires_at: expires_at as nat }),
        ),
        storage_limits(*final(storage)) == storage_limits(*old(storage)),
        storage_now(*final(storage)) == storage_now(*old(storage)),
{
    let limit = EngineLimit::new(counter.limit.namespace.as_str(), counter.limit.max_value, counter.limit.seconds, counter.limit.conditions.clone(), counter.limit.variables.clone());
    let key = EngineCounter::new(limit, counter.set_variables.iter().cloned().collect());
    storage.add_counter(&key, value, UNIX_EPOCH + Duration::from_nanos(expires_at));
}

/// `RateLimiter::new_with_storage`: a limiter over the storage as it is,
/// with its cache, its limits and its clock.
#[verifier::external_body]
fn engine_new(storage: WasmStorage) -> (engine: RateLimiter)
    ensures
        engine_counters(engine) == storage_counters(storage),
        engine_limits(engine) == storage_limits(storage),
        engine_now(engine) == storage_now(storage),
{
    RateLimiter::new_with_storage(Box::new(storage))
}

/// `RateLimiter::add_limit`, which on a `WasmStorage` records the limit
/// under its namespace, leaves the cache alone and returns `Ok(())`.
#[verifier::external_body]
fn engine_add_limit(engine: &mut RateLimiter, limit: &LimitDefinition) -> (r: Result<(), LimitadorError>)
    ensures
        r is Ok,
        engine_limits(*final(engine)) == engine_limits(*old(engine)).insert(limit@),
        engine_counters(*final(engine)) == engine_counters(*old(engine)),
        engine_now(*final(engine)) == engine_now(*old(engine)),
{
    engine.add_limit(&EngineLimit::new(limit.namespace.as_str(), limit.max_value, limit.seconds, limit.conditions.clone(), limit.variables.clone()))
}

/// limitador's `Limit::applies`, a function of the limit's conditions and
/// variables and of the values: every variable of the limit has a value,
/// and every condition applies: the value of its left operand is its right
/// operand. It finds the operands by splitting the condition at `" == "`
/// and taking the first two parts, and panics where there is one part
/// only; a valid limit's conditions hold that text, which gives two parts
/// or more. Where a condition holds it once, the two parts are what stands
/// before it and what stands after it.
#[verifier::external_body]
pub(crate) fn limit_applies(limit: &LimitDefinition, values: &AttributeMap) -> (applies: bool)
    requires
        limit@.valid(),
    ensures
        applies == engine_applies(limit@.conditions, limit@.variables, values@),
        limit@.reads_as_equalities() ==> applies == limit@.applies(values@),
{
    EngineLimit::new(limit.namespace.as_str(), limit.max_value, limit.seconds, limit.conditions.clone(), limit.variables.clone()).applies(&values.entries.iter().cloned().collect())
}

/// `RateLimiter::is_rate_limited` on a `WasmStorage`: `Ok`, and `true`
/// exactly when, of the limits of the namespace for which `Limit::applies`
/// is true of the values, one has a counter for which the storage's
/// `counter_is_within_limits` is false. `Limit::applies` panics on a
/// condition without `" == "`, which no valid limit has. The storage
/// computes `value - delta` or `max_value - delta` in `i64`.
#[verifier::external_body]
fn engine_is_rate_limited(engine: &RateLimiter, namespace: &str, values: &AttributeMap, delta: i64) -> (r: Result<bool, LimitadorError>)
    requires
        limits_valid(engine_limits(*engine)),
        check_fits(engine_limits(*engine), engine_counters(*engine), engine_now(*engine), namespace@, values@, delta as int),
    ensures
        r is Ok,
        r matches Ok(limited) ==> limited == rate_limited(engine_limits(*engine), engine_counters(*engine), engine_now(*engine), namespace@, values@, delta as int),
{
    engine.is_rate_limited(namespace, &values.entries.iter().cloned().collect::<HashMap<String, String>>(), delta)
}

/// `RateLimiter::update_counters` on a `WasmStorage`: `Ok(())`, after the
/// storage's `insert_or_update_counter` for the counter of each limit of
/// the namespace that applies to the values. That takes `delta` from the
/// value of a counter that has not expired, and gives any other the limit's
/// maximum less `delta` until the clock's instant and the limit's seconds:
/// arithmetic in `i64` and on `SystemTime`. The limits and the clock stay.
#[verifier::external_body]
fn engine_update_counters(engine: &mut RateLimiter, namespace: &str, values: &AttributeMap, delta: i64) -> (r: Result<(), LimitadorError>)
    requires
        limits_valid(engine_limits(*old(engine))),
        charge_fits(engine_limits(*old(engine)), engine_counters(*old(engine)), engine_now(*old(engine)), namespace@, values@, delta as int),
    ensures
        r is Ok,
        engine_counters(*final(engine)) == charged_table(engine_limits(*old(engine)), engine_counters(*old(engine)), engine_now(*old(engine)), namespace@, values@, delta as int),
        engine_limits(*final(engine)) == engine_limits(*old(engine)),
        engine_now(*final(engine)) == engine_now(*old(engine)),
{
    engine.update_counters(namespace, &values.entries.iter().cloned().collect::<HashMap<String, String>>(), delta)
}

/// `RateLimiter::get_counters` on a `WasmStorage`: `Ok` with the counters of
/// the namespace that have not expired, each once, with the cache's value
/// as `remaining` and the time from the clock's instant to the end of the
/// window as `expires_in`. Each is made anew by `Counter::new`, which keeps
/// of a counter's values those of its limit's variables: on a sound table
/// that is all of them.
#[verifier::external_body]
fn engine_get_counters(engine: &RateLimiter, namespace: &str) -> (r: Result<CounterSet, LimitadorError>)
    requires
        table_sound(engine_counters(*engine)),
    ensures
        r is Ok,
        r matches Ok(found) ==> found.wf(),
        r matches Ok(found) ==> found@ == reported(engine_counters(*engine), engine_now(*engine), namespace@),
{
    let found = engine.get_counters(namespace)?;
    Ok(CounterSet { counters: found.into_iter().map(|c| Counter {
        limit: LimitDefinition { namespace: c.namespace().as_ref().to_string(), max_value: c.max_value(), seconds: c.seconds(), conditions: c.limit().conditions().into_iter().collect(), variables: c.limit().variables().into_iter().collect() },
        set_variables: c.set_variables().clone().into_iter().collect(),
        remaining: c.remaining(),
        expires_in: c.expires_in().map(|d| d.as_nanos()),
    }).collect() })
}

/// The counters that a limiter starts from: the table that is filled
/// before the limiter is made, and the reading of its clock.
pub struct CounterStore {
    storage: WasmStorage,
    reading: u64,
}

impl CounterStore {
    /// The reading is what the storage's clock reports, and the storage
    /// holds no limits.
    pub closed spec fn wf(&self) -> bool {
        &&& storage_now(self.storage) == self.reading
        &&& storage_limits(self.storage) == Set::<LimitModel>::empty()
    }

    /// The table.
    pub closed spec fn counters(&self) -> Map<CounterIdentity, CounterState> {
        storage_counters(self.storage)
    }

    /// The instant that the store's clock reports.
    pub closed spec fn now(&self) -> nat {
        self.reading as nat
    }

    /// An empty store that reads the time from `clock`.
    pub fn new(clock: RateLimitFilterClock) -> (store: CounterStore)
        ensures
            store.wf(),
            store.counters() == Map::<CounterIdentity, CounterState>::empty(),
            store.now() == clock@,
    {
        let reading: u64 = clock.now();
        CounterStore { storage: storage_new(clock), reading }
    }

    /// The instant that the store's clock reports.
    pub fn reading(&self) -> (now: u64)
        ensures
            now == self.now(),
    {
        self.reading
    }

    /// Gives the counter `value` hits that remain until `expires_at`, in
    /// place of what the store held for it. Of the counter's variables
    /// those of its limit count.
    pub fn add_counter(&mut self, counter: &Counter, value: i64, expires_at: u64)
        requires
            old(self).wf(),
        ensures
            final(self).wf(),
            final(self).counters() == old(self).counters().insert(
                counter_key(counter.limit@, counter.identity().set_variables),
                CounterState { remaining: value as int, expires_at: expires_at as nat },
            ),
            final(self).now() == old(self).now(),
    {
        storage_add_counter(&mut self.storage, counter, value, expires_at);
    }
}

/// The limiter of one request.
pub struct Limiter {
    engine: RateLimiter,
}

impl Limiter {
    /// The table of counters.
    pub closed spec fn counters(&self) -> Map<CounterIdentity, CounterState> {
        engine_counters(self.engine)
    }

    /// The limits in force.
    pub closed spec fn limits(&self) -> Set<LimitModel> {
        engine_limits(self.engine)
    }

    /// The instant that the limiter's clock reports.
    pub closed spec fn now(&self) -> nat {
        engine_now(self.engine)
    }

    /// A limiter over the counters of `store`, without limits.
    pub fn new_with_storage(store: CounterStore) -> (limiter: Limiter)
        requires
            store.wf(),
        ensures
            limiter.counters() == store.counters(),
            limiter.limits() == Set::<LimitModel>::empty(),
            limiter.now() == store.now(),
    {
        Limiter { engine: engine_new(store.storage) }
    }

    /// Puts `limit` in force. The counters stay as they are.
    pub fn add_limit(&mut self, limit: &LimitDefinition) -> (r: Result<(), FilterError>)
        ensures
            r is Ok,
            final(self).limits() == old(self).limits().insert(limit@),
            final(self).counters() == old(self).counters(),
            final(self).now() == old(self).now(),
    {
        match engine_add_limit(&mut self.engine, limit) {
            Ok(()) => Ok(()),
            Err(_) => Err(FilterError::Evaluation),
        }
    }

    /// Whether `delta` more hits of a request with the attributes `values`
    /// would take a limit of the namespace over its maximum. Nothing
    /// changes.
    pub fn is_rate_limited(&self, namespace: &str, values: &AttributeMap, delta: i64) -> (r: Result<
        bool,
        FilterError,
    >)
        requires
            limits_valid(self.limits()),
            check_fits(self.limits(), self.counters(), self.now(), namespace@, values@, delta as int),
        ensures
            r == Ok::<bool, FilterError>(
                rate_limited(self.limits(), self.counters(), self.now(), namespace@, values@, delta as int),
            ),
    {
        match engine_is_rate_limited(&self.engine, namespace, values, delta) {
            Ok(limited) => Ok(limited),
            Err(_) => Err(FilterError::Evaluation),
        }
    }

    /// Counts `delta` hits of a request with the attributes `values`
    /// against every limit of the namespace that applies to it.
    pub fn update_counters(&mut self, namespace: &str, values: &AttributeMap, delta: i64) -> (r: Result<
        (),
        FilterError,
    >)
        requires
            limits_valid(old(self).limits()),
            charge_fits(
                old(self).limits(),
                old(self).counters(),
                old(self).now(),
                namespace@,
                values@,
                delta as int,
            ),
        ensures
            r is Ok,
            final(self).counters() == charged_table(
                old(self).limits(),
                old(self).counters(),
                old(self).now(),
                namespace@,
                values@,
                delta as int,
            ),
            final(self).limits() == old(self).limits(),
            final(self).now() == old(self).now(),
    {
        match engine_update_counters(&mut self.engine, namespace, values, delta) {
            Ok(()) => Ok(()),
            Err(_) => Err(FilterError::Evaluation),
        }
    }

    /// The counters of the namespace whose window is open, each with the
    /// hits that remain and the time until its window ends.
    pub fn get_counters(&self, namespace: &str) -> (r: Result<CounterSet, FilterError>)
        requires
            table_sound(self.counters()),
        ensures
            r matches Ok(found) && found.wf() && found@ == reported(
                self.counters(),
                self.now(),
                namespace@,
            ),
    {
        match engine_get_counters(&self.engine, namespace) {
            Ok(found) => Ok(found),
            Err(_) => Err(FilterError::Evaluation),
        }
    }
}

} // verus!
