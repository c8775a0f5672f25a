//! What the limiting engine does, as functions on its table of counters.
//!
//! The table maps a counter's identity to the hits that remain in its
//! window and to the instant at which the window ends. Instants are
//! nanoseconds since the Unix epoch.

use vstd::prelude::*;
use crate::counter::{CounterIdentity, CounterReport};
use crate::limit::LimitModel;

verus! {

/// The nanoseconds of a second.
pub const NANOS_PER_SECOND: u64 = 1_000_000_000;

/// One line of the table.
pub struct CounterState {
    /// The hits that remain in the window.
    pub remaining: int,
    /// The instant at which the window ends.
    pub expires_at: nat,
}

/// The counter of `limit` that a request with the attributes `values`
/// counts against: the limit with the values of its variables.
pub open spec fn counter_key(limit: LimitModel, values: Map<Seq<char>, Seq<char>>) -> CounterIdentity {
    CounterIdentity { limit, set_variables: values.restrict(limit.variables) }
}

/// The table has the counter and its window has not ended at `now`. A
/// window that ends at `now` is still open.
pub open spec fn is_live(table: Map<CounterIdentity, CounterState>, now: nat, key: CounterIdentity) -> bool {
    table.contains_key(key) && now <= table[key].expires_at
}

/// The hits that the counter still allows at `now`: what the table says
/// while its window is open, the limit's maximum otherwise.
pub open spec fn allowance(table: Map<CounterIdentity, CounterState>, now: nat, key: CounterIdentity) -> int {
    if is_live(table, now, key) {
        table[key].remaining
    } else {
        key.limit.max_value
    }
}

/// The counter allows `delta` more hits at `now`.
pub open spec fn within_limits(
    table: Map<CounterIdentity, CounterState>,
    now: nat,
    key: CounterIdentity,
    delta: int,
) -> bool {
    allowance(table, now, key) - delta >= 0
}

/// `limit` is registered, is of the namespace, and applies to `values`.
pub open spec fn concerns(
    limits: Set<LimitModel>,
    namespace: Seq<char>,
    values: Map<Seq<char>, Seq<char>>,
    limit: LimitModel,
) -> bool {
    limits.contains(limit) && limit.namespace == namespace && limit.applies(values)
}

/// Some limit that concerns the request does not allow `delta` more hits.
pub open spec fn rate_limited(
    limits: Set<LimitModel>,
    table: Map<CounterIdentity, CounterState>,
    now: nat,
    namespace: Seq<char>,
    values: Map<Seq<char>, Seq<char>>,
    delta: int,
) -> bool {
    exists|limit: LimitModel| #[trigger]
        concerns(limits, namespace, values, limit) && !within_limits(
            table,
            now,
            counter_key(limit, values),
            delta,
        )
}

/// `key` is the counter of a limit that concerns the request.
pub open spec fn is_charged(
    limits: Set<LimitModel>,
    namespace: Seq<char>,
    values: Map<Seq<char>, Seq<char>>,
    key: CounterIdentity,
) -> bool {
    concerns(limits, namespace, values, key.limit) && key == counter_key(key.limit, values)
}

/// The counter's line after `delta` hits at `now`: `delta` fewer remain
/// while its window is open; otherwise a new window starts at `now` with the
/// limit's maximum less `delta`.
pub open spec fn charge(
    table: Map<CounterIdentity, CounterState>,
    now: nat,
    key: CounterIdentity,
    delta: int,
) -> CounterState {
    if is_live(table, now, key) {
        CounterState { remaining: table[key].remaining - delta, expires_at: table[key].expires_at }
    } else {
        CounterState {
            remaining: key.limit.max_value - delta,
            expires_at: now + key.limit.seconds * NANOS_PER_SECOND as nat,
        }
    }
}

/// The table after a request was counted: the counter of every limit that
/// concerns it is charged, and no other line changes.
pub open spec fn charged_table(
    limits: Set<LimitModel>,
    table: Map<CounterIdentity, CounterState>,
    now: nat,
    namespace: Seq<char>,
    values: Map<Seq<char>, Seq<char>>,
    delta: int,
) -> Map<CounterIdentity, CounterState> {
    Map::new(
        |key: CounterIdentity| table.contains_key(key) || is_charged(limits, namespace, values, key),
        |key: CounterIdentity|
            if is_charged(limits, namespace, values, key) {
                charge(table, now, key, delta)
            } else {
                table[key]
            },
    )
}

/// What the engine reports of a namespace at `now`: the counters of that
/// namespace whose window is open, each with the hits that remain and the
/// time until its window ends.
pub open spec fn reported(
    table: Map<CounterIdentity, CounterState>,
    now: nat,
    namespace: Seq<char>,
) -> Map<CounterIdentity, CounterReport> {
    Map::new(
        |key: CounterIdentity| is_live(table, now, key) && key.limit.namespace == namespace,
        |key: CounterIdentity|
            CounterReport {
                remaining: Some(table[key].remaining),
                expires_in: Some((table[key].expires_at - now) as nat),
            },
    )
}

/// The engine's 64-bit arithmetic on a check is exact: no allowance less
/// `delta` leaves the range of `i64`.
pub open spec fn check_fits(
    limits: Set<LimitModel>,
    table: Map<CounterIdentity, CounterState>,
    now: nat,
    namespace: Seq<char>,
    values: Map<Seq<char>, Seq<char>>,
    delta: int,
) -> bool {
    forall|limit: LimitModel| #[trigger]
        concerns(limits, namespace, values, limit) ==> i64::MIN <= allowance(
            table,
            now,
            counter_key(limit, values),
        ) - delta <= i64::MAX
}

/// The window of every limit that concerns the request, opened at `now`,
/// ends at an instant that the host clock can report.
pub open spec fn windows_fit(
    limits: Set<LimitModel>,
    namespace: Seq<char>,
    values: Map<Seq<char>, Seq<char>>,
    now: nat,
) -> bool {
    forall|limit: LimitModel| #[trigger]
        concerns(limits, namespace, values, limit) ==> now + limit.seconds * NANOS_PER_SECOND as nat
            <= u64::MAX
}

/// The engine's arithmetic on an update is exact: the check's is, and the
/// end of every window that the update can open is an instant that the
/// host clock can report.
pub open spec fn charge_fits(
    limits: Set<LimitModel>,
    table: Map<CounterIdentity, CounterState>,
    now: nat,
    namespace: Seq<char>,
    values: Map<Seq<char>, Seq<char>>,
    delta: int,
) -> bool {
    &&& check_fits(limits, table, now, namespace, values, delta)
    &&& windows_fit(limits, namespace, values, now)
}

/// Every limit of the set is valid.
pub open spec fn limits_valid(limits: Set<LimitModel>) -> bool {
    forall|limit: LimitModel| #[trigger] limits.contains(limit) ==> limit.valid()
}

/// Every line of the table is one that a run of the filter can have
/// written: the hits are above `i64::MIN`, the window ends at an instant
/// that the host clock can report, and every variable with a value is one
/// of the counter's limit.
pub open spec fn table_sound(table: Map<CounterIdentity, CounterState>) -> bool {
    forall|key: CounterIdentity| #[trigger]
        table.contains_key(key) ==> {
            &&& i64::MIN < table[key].remaining <= i64::MAX
            &&& table[key].expires_at <= u64::MAX
            &&& key.set_variables.dom().subset_of(key.limit.variables)
        }
}

/// On a sound table and valid limits the engine's arithmetic on a check of
/// one hit is exact.
pub proof fn lemma_check_fits(
    limits: Set<LimitModel>,
    table: Map<CounterIdentity, CounterState>,
    now: nat,
    namespace: Seq<char>,
    values: Map<Seq<char>, Seq<char>>,
)
    requires
        limits_valid(limits),
        table_sound(table),
    ensures
        check_fits(limits, table, now, namespace, values, 1),
{
    assert forall|limit: LimitModel| #[trigger]
        concerns(limits, namespace, values, limit) implies i64::MIN <= allowance(
        table,
        now,
        counter_key(limit, values),
    ) - 1 <= i64::MAX by {
        assert(limits.contains(limit));
        assert(limit.valid());
    }
}

/// Counting one hit that no limit refuses keeps the table sound.
pub proof fn lemma_charged_sound(
    limits: Set<LimitModel>,
    table: Map<CounterIdentity, CounterState>,
    now: nat,
    namespace: Seq<char>,
    values: Map<Seq<char>, Seq<char>>,
)
    requires
        limits_valid(limits),
        table_sound(table),
        windows_fit(limits, namespace, values, now),
        !rate_limited(limits, table, now, namespace, values, 1),
    ensures
        charge_fits(limits, table, now, namespace, values, 1),
        table_sound(charged_table(limits, table, now, namespace, values, 1)),
{
    lemma_check_fits(limits, table, now, namespace, values);
    let charged = charged_table(limits, table, now, namespace, values, 1);
    assert forall|key: CounterIdentity| #[trigger] charged.contains_key(key) implies {
        &&& i64::MIN < charged[key].remaining <= i64::MAX
        &&& charged[key].expires_at <= u64::MAX
        &&& key.set_variables.dom().subset_of(key.limit.variables)
    } by {
        if is_charged(limits, namespace, values, key) {
            assert(concerns(limits, namespace, values, key.limit));
            assert(within_limits(table, now, counter_key(key.limit, values), 1));
            assert(key.limit.valid());
        }
    }
}

} // verus!
