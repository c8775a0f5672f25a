//! What holds of the filter over one request and over runs of requests.

use vstd::prelude::*;
use crate::attributes::{attribute_name, attributes_of, fields_view, lemma_lowered_stays};
use crate::counter::CounterIdentity;
use crate::error::{DecodeError, FilterError};
use crate::filter::{
    counted, denies, judged, lemma_reported_valid, lemma_seeded_sound, loaded, next_snapshot,
    seeded, verdict, Decision, Verdict, NAMESPACE,
};
use crate::limit::{lemma_standard_limit_applies, standard_limit, LimitModel};
use crate::model::{
    allowance, charge, concerns, counter_key, is_charged, is_live, lemma_charged_sound, limits_valid,
    reported, windows_fit, within_limits, NANOS_PER_SECOND,
};
use crate::snapshot::{
    decoding, is_encoding_of, lemma_round_trip, snapshot_valid, StoredCounter,
};

verus! {

/// One request: when it arrives and what its attributes are.
pub struct Request {
    /// The reading of the clock, in nanoseconds since the Unix epoch.
    pub now: nat,
    pub values: Map<Seq<char>, Seq<char>>,
}

/// The end of the window in which a request at `first` finds the counter:
/// the end that the snapshot holds while that window is open, and otherwise
/// the end of the window that the request opens.
pub open spec fn window_end(snapshot: Map<CounterIdentity, StoredCounter>, key: CounterIdentity, first: nat) -> nat {
    if is_live(seeded(snapshot), first, key) {
        seeded(snapshot)[key].expires_at
    } else {
        first + key.limit.seconds * NANOS_PER_SECOND as nat
    }
}

/// The attributes that are extracted depend on the texts of the fields
/// alone: two lists of fields with the same texts give the same attributes.
pub proof fn lemma_extraction_is_a_function(first: Seq<(String, String)>, second: Seq<(String, String)>)
    requires
        fields_view(first) == fields_view(second),
    ensures
        attributes_of(fields_view(first)) == attributes_of(fields_view(second)),
{
}

/// A slot that is present and corrupt owes the request a failure with the
/// reason of the decoder, whatever the time and the request are; a decision
/// that meets this is that failure, and never an allowance or a denial on
/// an empty snapshot.
pub proof fn lemma_corrupt_snapshot_fails(
    limits: Set<LimitModel>,
    bytes: Seq<u8>,
    reading: Option<u64>,
    fields: Seq<(Seq<char>, Seq<char>)>,
    decision: Decision,
)
    requires
        decoding(bytes) is Err,
        decision.meets(verdict(limits, Some(bytes), reading, fields)),
    ensures
        decision == (Decision::Failed { reason: FilterError::Decode(decoding(bytes)->Err_0) }),
{
}

/// Counting a request that is within its limits keeps a valid snapshot
/// valid.
pub proof fn lemma_next_snapshot_valid(
    limits: Set<LimitModel>,
    snapshot: Map<CounterIdentity, StoredCounter>,
    now: nat,
    values: Map<Seq<char>, Seq<char>>,
)
    requires
        limits_valid(limits),
        windows_fit(limits, NAMESPACE@, values, now),
        snapshot_valid(snapshot),
        !denies(limits, snapshot, now, values),
    ensures
        snapshot_valid(next_snapshot(limits, snapshot, now, values)),
{
    lemma_seeded_sound(snapshot);
    lemma_charged_sound(limits, seeded(snapshot), now, NAMESPACE@, values);
    lemma_reported_valid(counted(limits, snapshot, now, values), now, NAMESPACE@);
}

/// What an allowed request stores is what the next request reads: bytes
/// that encode the next snapshot load as that snapshot, which is valid if
/// the snapshot before it was.
pub proof fn lemma_stored_snapshot_is_read_back(
    limits: Set<LimitModel>,
    snapshot: Map<CounterIdentity, StoredCounter>,
    now: nat,
    values: Map<Seq<char>, Seq<char>>,
    bytes: Seq<u8>,
)
    requires
        limits_valid(limits),
        windows_fit(limits, NAMESPACE@, values, now),
        snapshot_valid(snapshot),
        !denies(limits, snapshot, now, values),
        is_encoding_of(bytes, next_snapshot(limits, snapshot, now, values)),
    ensures
        loaded(Some(bytes)) == Ok::<Map<CounterIdentity, StoredCounter>, DecodeError>(
            next_snapshot(limits, snapshot, now, values),
        ),
{
    lemma_next_snapshot_valid(limits, snapshot, now, values);
    lemma_round_trip(next_snapshot(limits, snapshot, now, values), bytes);
}

/// What the next snapshot holds, counter by counter. The counter of a limit
/// that concerns the request is there with one hit less than it allowed
/// and with the end of the window in which the request found it. Any other
/// counter is there exactly if it is of the filter's namespace and its
/// window is open, and then with the hits and the end that it had. No
/// other hit is counted and none is lost.
pub proof fn lemma_one_hit_is_counted(
    limits: Set<LimitModel>,
    snapshot: Map<CounterIdentity, StoredCounter>,
    now: nat,
    values: Map<Seq<char>, Seq<char>>,
    key: CounterIdentity,
)
    ensures
        ({
            let next = next_snapshot(limits, snapshot, now, values);
            let table = seeded(snapshot);
            if is_charged(limits, NAMESPACE@, values, key) {
                &&& next.contains_key(key)
                &&& next[key].remaining == Some(allowance(table, now, key) - 1)
                &&& next[key].expires_at == window_end(snapshot, key, now)
                &&& next[key].expires_in == Some((window_end(snapshot, key, now) - now) as nat)
            } else {
                &&& next.contains_key(key) <==> is_live(table, now, key) && key.limit.namespace == NAMESPACE@
                &&& next.contains_key(key) ==> {
                    &&& next[key].remaining == Some(table[key].remaining)
                    &&& next[key].expires_at == table[key].expires_at
                    &&& next[key].expires_in == Some((table[key].expires_at - now) as nat)
                }
            }
        }),
{
    let table = counted(limits, snapshot, now, values);
    if is_charged(limits, NAMESPACE@, values, key) {
        assert(table.contains_key(key));
        assert(is_live(table, now, key));
        assert(reported(table, now, NAMESPACE@).contains_key(key));
    } else {
        if is_live(seeded(snapshot), now, key) && key.limit.namespace == NAMESPACE@ {
            assert(reported(table, now, NAMESPACE@).contains_key(key));
        }
    }
}

/// A limit that does not apply to a request has no part in it: the request
/// is denied exactly when it would be without that limit, and no counter of
/// that limit is charged, added or changed.
pub proof fn lemma_unconcerned_limit(
    limits: Set<LimitModel>,
    snapshot: Map<CounterIdentity, StoredCounter>,
    now: nat,
    values: Map<Seq<char>, Seq<char>>,
    limit: LimitModel,
)
    requires
        !limit.applies(values),
    ensures
        denies(limits, snapshot, now, values) == denies(limits.remove(limit), snapshot, now, values),
        forall|key: CounterIdentity|
            key.limit == limit ==> {
                &&& !is_charged(limits, NAMESPACE@, values, key)
                &&& (#[trigger] counted(limits, snapshot, now, values).contains_key(key)) == seeded(
                    snapshot,
                ).contains_key(key)
                &&& seeded(snapshot).contains_key(key) ==> counted(limits, snapshot, now, values)[key]
                    == seeded(snapshot)[key]
            },
{
    let table = seeded(snapshot);
    if denies(limits, snapshot, now, values) {
        let refusing = choose|refusing: LimitModel| #[trigger]
            concerns(limits, NAMESPACE@, values, refusing) && !within_limits(
                table,
                now,
                counter_key(refusing, values),
                1,
            );
        assert(concerns(limits.remove(limit), NAMESPACE@, values, refusing));
    }
    if denies(limits.remove(limit), snapshot, now, values) {
        let refusing = choose|refusing: LimitModel| #[trigger]
            concerns(limits.remove(limit), NAMESPACE@, values, refusing) && !within_limits(
                table,
                now,
                counter_key(refusing, values),
                1,
            );
        assert(concerns(limits, NAMESPACE@, values, refusing));
    }
}

/// A stored counter whose window has ended counts for nothing: a request
/// that arrives after the end sees the counter with the full allowance of
/// its limit, and is judged as if the snapshot did not hold the counter,
/// whatever the snapshot holds for it.
pub proof fn lemma_expired_counter_is_fresh(
    limits: Set<LimitModel>,
    snapshot: Map<CounterIdentity, StoredCounter>,
    now: nat,
    values: Map<Seq<char>, Seq<char>>,
    key: CounterIdentity,
)
    requires
        snapshot.contains_key(key),
        now > snapshot[key].expires_at,
    ensures
        allowance(seeded(snapshot), now, key) == key.limit.max_value,
        judged(limits, snapshot, now, values) == judged(limits, snapshot.remove(key), now, values),
{
    let with = seeded(snapshot);
    let without = seeded(snapshot.remove(key));
    assert(without =~= with.remove(key));
    assert forall|other: CounterIdentity| is_live(with, now, other) == is_live(without, now, other) by {}
    assert forall|other: CounterIdentity| allowance(with, now, other) == allowance(without, now, other) by {}
    assert(denies(limits, snapshot, now, values) == denies(limits, snapshot.remove(key), now, values)) by {
        if denies(limits, snapshot, now, values) {
            let refusing = choose|refusing: LimitModel| #[trigger]
                concerns(limits, NAMESPACE@, values, refusing) && !within_limits(
                    with,
                    now,
                    counter_key(refusing, values),
                    1,
                );
            assert(!within_limits(without, now, counter_key(refusing, values), 1));
        }
        if denies(limits, snapshot.remove(key), now, values) {
            let refusing = choose|refusing: LimitModel| #[trigger]
                concerns(limits, NAMESPACE@, values, refusing) && !within_limits(
                    without,
                    now,
                    counter_key(refusing, values),
                    1,
                );
            assert(!within_limits(with, now, counter_key(refusing, values), 1));
        }
    }
    let counted_with = counted(limits, snapshot, now, values);
    let counted_without = counted(limits, snapshot.remove(key), now, values);
    assert forall|other: CounterIdentity|
        is_live(counted_with, now, other) == is_live(counted_without, now, other) && (is_live(
            counted_with,
            now,
            other,
        ) ==> counted_with[other] == counted_without[other]) by {
        assert(charge(with, now, other, 1) == charge(without, now, other, 1));
    }
    assert(reported(counted_with, now, NAMESPACE@) =~= reported(counted_without, now, NAMESPACE@));
}

/// The snapshot after each of the requests, in their order, was allowed;
/// `None` where one of them is denied or halted.
pub open spec fn after_allowed(
    limits: Set<LimitModel>,
    start: Map<CounterIdentity, StoredCounter>,
    requests: Seq<Request>,
) -> Option<Map<CounterIdentity, StoredCounter>>
    decreases requests.len(),
{
    if requests.len() == 0 {
        Some(start)
    } else {
        match after_allowed(limits, start, requests.drop_last()) {
            None => None,
            Some(snapshot) => match judged(limits, snapshot, requests.last().now, requests.last().values) {
                Verdict::Allowed { next } => Some(next),
                _ => None,
            },
        }
    }
}

/// Every request counts against the counter `key` of the limit `limit`, and
/// arrives in the window in which the first of them finds the counter.
pub open spec fn in_one_window(
    limits: Set<LimitModel>,
    start: Map<CounterIdentity, StoredCounter>,
    requests: Seq<Request>,
    limit: LimitModel,
    key: CounterIdentity,
) -> bool {
    &&& limits.contains(limit)
    &&& limit.namespace == NAMESPACE@
    &&& forall|i: int|
        0 <= i < requests.len() ==> {
            &&& limit.applies((#[trigger] requests[i]).values)
            &&& counter_key(limit, requests[i].values) == key
            &&& requests[i].now <= window_end(start, key, requests[0].now)
        }
}

/// After requests that were all allowed in one window of a counter, the
/// snapshot holds the counter with the end of that window and with what
/// the first request found, less one hit for each request.
pub proof fn lemma_window_count(
    limits: Set<LimitModel>,
    start: Map<CounterIdentity, StoredCounter>,
    requests: Seq<Request>,
    limit: LimitModel,
    key: CounterIdentity,
)
    requires
        requests.len() > 0,
        in_one_window(limits, start, requests, limit, key),
        after_allowed(limits, start, requests) is Some,
    ensures
        ({
            let reached = after_allowed(limits, start, requests)->Some_0;
            let found = allowance(seeded(start), requests[0].now, key);
            &&& reached.contains_key(key)
            &&& reached[key].expires_at == window_end(start, key, requests[0].now)
            &&& reached[key].remaining == Some(found - requests.len())
            &&& found - requests.len() >= 0
        }),
    decreases requests.len(),
{
    let sooner = requests.drop_last();
    let last = requests.last();
    let before = after_allowed(limits, start, sooner)->Some_0;
    let end = window_end(start, key, requests[0].now);
    let found = allowance(seeded(start), requests[0].now, key);
    assert(last == requests[requests.len() - 1]);
    assert(key.limit == limit);
    assert(!denies(limits, before, last.now, last.values));
    assert(concerns(limits, NAMESPACE@, last.values, limit));
    assert(within_limits(seeded(before), last.now, counter_key(limit, last.values), 1));
    assert(is_charged(limits, NAMESPACE@, last.values, key));
    if sooner.len() > 0 {
        assert(sooner[0] == requests[0]);
        assert(in_one_window(limits, start, sooner, limit, key)) by {
            assert forall|i: int| 0 <= i < sooner.len() implies {
                &&& limit.applies((#[trigger] sooner[i]).values)
                &&& counter_key(limit, sooner[i].values) == key
                &&& sooner[i].now <= window_end(start, key, sooner[0].now)
            } by {
                assert(sooner[i] == requests[i]);
            }
        }
        lemma_window_count(limits, start, sooner, limit, key);
        assert(is_live(seeded(before), last.now, key));
    } else {
        assert(before == start);
        assert(last == requests[0]);
    }
    let table = counted(limits, before, last.now, last.values);
    assert(table.contains_key(key));
    assert(table[key] == charge(seeded(before), last.now, key, 1));
    assert(table[key].expires_at == end);
    assert(table[key].remaining == found - requests.len());
    assert(is_live(table, last.now, key));
    assert(reported(table, last.now, NAMESPACE@).contains_key(key));
}

/// The admission bound. Let a limit allow `max_value` hits in a window, and
/// let `max_value + 1` requests count against one counter of it, all in the
/// window in which the first of them finds the counter, which then allows
/// no more than `max_value` hits. If all but the last are allowed, one
/// after the other and with nothing in between, the last is denied.
pub proof fn lemma_admission_bound(
    limits: Set<LimitModel>,
    start: Map<CounterIdentity, StoredCounter>,
    requests: Seq<Request>,
    limit: LimitModel,
    key: CounterIdentity,
)
    requires
        0 <= limit.max_value,
        requests.len() == limit.max_value + 1,
        in_one_window(limits, start, requests, limit, key),
        allowance(seeded(start), requests[0].now, key) <= limit.max_value,
        after_allowed(limits, start, requests.drop_last()) is Some,
    ensures
        denies(
            limits,
            after_allowed(limits, start, requests.drop_last())->Some_0,
            requests.last().now,
            requests.last().values,
        ),
        after_allowed(limits, start, requests) is None,
{
    let sooner = requests.drop_last();
    let last = requests.last();
    let before = after_allowed(limits, start, sooner)->Some_0;
    assert(last == requests[requests.len() - 1]);
    assert(key.limit == limit);
    assert(concerns(limits, NAMESPACE@, last.values, limit));
    if sooner.len() > 0 {
        assert(sooner[0] == requests[0]);
        assert(in_one_window(limits, start, sooner, limit, key)) by {
            assert forall|i: int| 0 <= i < sooner.len() implies {
                &&& limit.applies((#[trigger] sooner[i]).values)
                &&& counter_key(limit, sooner[i].values) == key
                &&& sooner[i].now <= window_end(start, key, sooner[0].now)
            } by {
                assert(sooner[i] == requests[i]);
            }
        }
        lemma_window_count(limits, start, sooner, limit, key);
        assert(is_live(seeded(before), last.now, key));
        assert(allowance(seeded(before), last.now, key) == 0);
    } else {
        assert(before == start);
        assert(last == requests[0]);
    }
    assert(!within_limits(seeded(before), last.now, counter_key(limit, last.values), 1));
}

/// The admission bound from a fresh start. Let `max_value + 1` requests
/// count against one counter of a limit, the first when the snapshot holds
/// no open window of the counter, and each no later than the limit's
/// window after the first. If all but the last are allowed, one after the
/// other and with nothing in between, the last is denied.
pub proof fn lemma_admission_bound_from_fresh(
    limits: Set<LimitModel>,
    start: Map<CounterIdentity, StoredCounter>,
    requests: Seq<Request>,
    limit: LimitModel,
    key: CounterIdentity,
)
    requires
        0 <= limit.max_value,
        requests.len() == limit.max_value + 1,
        limits.contains(limit),
        limit.namespace == NAMESPACE@,
        forall|i: int|
            0 <= i < requests.len() ==> {
                &&& limit.applies((#[trigger] requests[i]).values)
                &&& counter_key(limit, requests[i].values) == key
                &&& requests[i].now <= requests[0].now + limit.seconds * NANOS_PER_SECOND as nat
            },
        !is_live(seeded(start), requests[0].now, key),
        after_allowed(limits, start, requests.drop_last()) is Some,
    ensures
        denies(
            limits,
            after_allowed(limits, start, requests.drop_last())->Some_0,
            requests.last().now,
            requests.last().values,
        ),
{
    assert(key.limit == limit) by {
        assert(counter_key(limit, requests[0].values) == key);
    }
    lemma_admission_bound(limits, start, requests, limit, key);
}

/// The fields of a request of `method` by `user`: the method and the
/// header `x-user-id`.
pub open spec fn request_fields(method: Seq<char>, user: Seq<char>) -> Seq<(Seq<char>, Seq<char>)> {
    seq![(":method"@, method), ("x-user-id"@, user)]
}

/// The attributes of a request of `method` by `user`.
pub open spec fn request_attributes(method: Seq<char>, user: Seq<char>) -> Map<Seq<char>, Seq<char>> {
    Map::empty().insert("req.method"@, method).insert("req.headers.x-user-id"@, user)
}

/// The attributes that are extracted from a request of `method` by `user`
/// are its method as `req.method` and the user as `req.headers.x-user-id`.
pub proof fn lemma_request_attributes(method: Seq<char>, user: Seq<char>)
    ensures
        attributes_of(request_fields(method, user)) == request_attributes(method, user),
{
    reveal_strlit(":method");
    reveal_strlit("x-user-id");
    reveal_strlit("req.headers.");
    reveal_strlit("req.headers.x-user-id");
    let fields = request_fields(method, user);
    let header = "x-user-id"@;
    lemma_lowered_stays(header);
    assert("req.headers."@ + header =~= "req.headers.x-user-id"@);
    assert(attribute_name(header) == Some("req.headers.x-user-id"@));
    assert(attribute_name(":method"@) == Some("req.method"@));
    let sooner = fields.drop_last();
    assert(sooner =~= seq![(":method"@, method)]);
    assert(sooner.drop_last() =~= Seq::<(Seq<char>, Seq<char>)>::empty());
    assert(attributes_of(sooner.drop_last()) == Map::<Seq<char>, Seq<char>>::empty());
    assert(sooner.last() == (":method"@, method));
    assert(attributes_of(sooner) == Map::<Seq<char>, Seq<char>>::empty().insert("req.method"@, method));
    assert(fields.last() == (header, user));
}

/// The standard limit concerns a request of `method` by `user` exactly if
/// the method is `GET`, and counts it against the counter of that user.
pub proof fn lemma_standard_limit_on_request(method: Seq<char>, user: Seq<char>)
    ensures
        standard_limit().valid(),
        standard_limit().namespace == NAMESPACE@,
        standard_limit().applies(request_attributes(method, user)) <==> method == "GET"@,
        counter_key(standard_limit(), request_attributes(method, user)) == (CounterIdentity {
            limit: standard_limit(),
            set_variables: Map::empty().insert("req.headers.x-user-id"@, user),
        }),
{
    reveal_strlit("req.method");
    reveal_strlit("req.headers.x-user-id");
    let values = request_attributes(method, user);
    lemma_standard_limit_applies(values);
    assert("req.method"@ != "req.headers.x-user-id"@) by {
        assert("req.method"@.len() != "req.headers.x-user-id"@.len());
    }
    assert(values.restrict(standard_limit().variables) =~= Map::<Seq<char>, Seq<char>>::empty().insert(
        "req.headers.x-user-id"@,
        user,
    ));
}

/// With the standard limit, the windows fit for a request of `method` by
/// `user` unless it is a `GET` and twenty seconds after it are past the
/// last instant that the host clock can report.
pub proof fn lemma_standard_window_fits(now: nat, method: Seq<char>, user: Seq<char>)
    ensures
        windows_fit(set![standard_limit()], NAMESPACE@, attributes_of(request_fields(method, user)), now) <==> (
        method == "GET"@ ==> now + 20_000_000_000 <= u64::MAX),
{
    lemma_request_attributes(method, user);
    lemma_standard_limit_on_request(method, user);
    let values = attributes_of(request_fields(method, user));
    if method == "GET"@ {
        assert(concerns(set![standard_limit()], NAMESPACE@, values, standard_limit()));
    }
}

/// With the standard limit, a request whose method is not `GET` is
/// allowed, whatever the snapshot holds and whenever it arrives.
pub proof fn lemma_other_methods_pass(
    snapshot: Map<CounterIdentity, StoredCounter>,
    now: nat,
    method: Seq<char>,
    user: Seq<char>,
)
    requires
        method != "GET"@,
    ensures
        !denies(set![standard_limit()], snapshot, now, attributes_of(request_fields(method, user))),
        judged(set![standard_limit()], snapshot, now, attributes_of(request_fields(method, user))) is Allowed,
{
    lemma_standard_window_fits(now, method, user);
    lemma_request_attributes(method, user);
    lemma_standard_limit_on_request(method, user);
    lemma_unconcerned_limit(
        set![standard_limit()],
        snapshot,
        now,
        request_attributes(method, user),
        standard_limit(),
    );
    assert(set![standard_limit()].remove(standard_limit()) =~= Set::<LimitModel>::empty());
}

/// `GET` requests of one user at the given times.
pub open spec fn gets_of(user: Seq<char>, times: Seq<nat>) -> Seq<Request> {
    Seq::new(
        times.len(),
        |i: int| Request { now: times[i], values: attributes_of(request_fields("GET"@, user)) },
    )
}

/// The counter of the standard limit for `user`.
pub open spec fn user_counter(user: Seq<char>) -> CounterIdentity {
    CounterIdentity {
        limit: standard_limit(),
        set_variables: Map::empty().insert("req.headers.x-user-id"@, user),
    }
}

/// With the standard limit, a `GET` request of a user is denied exactly if
/// the user's counter allows no hit more.
pub proof fn lemma_get_is_denied_exactly(
    snapshot: Map<CounterIdentity, StoredCounter>,
    now: nat,
    user: Seq<char>,
)
    ensures
        denies(set![standard_limit()], snapshot, now, attributes_of(request_fields("GET"@, user)))
            <==> allowance(seeded(snapshot), now, user_counter(user)) < 1,
        is_charged(
            set![standard_limit()],
            NAMESPACE@,
            attributes_of(request_fields("GET"@, user)),
            user_counter(user),
        ),
{
    lemma_request_attributes("GET"@, user);
    lemma_standard_limit_on_request("GET"@, user);
    let limits = set![standard_limit()];
    let values = attributes_of(request_fields("GET"@, user));
    assert(concerns(limits, NAMESPACE@, values, standard_limit()));
    if denies(limits, snapshot, now, values) {
        let refusing = choose|refusing: LimitModel| #[trigger]
            concerns(limits, NAMESPACE@, values, refusing) && !within_limits(
                seeded(snapshot),
                now,
                counter_key(refusing, values),
                1,
            );
        assert(refusing == standard_limit());
    }
}

/// With the standard limit, a `GET` request of a user that arrives after
/// the window of the user's stored counter has ended is not denied,
/// whatever hits the snapshot holds for the counter, and the next snapshot
/// holds the counter with two hits left until twenty seconds after the
/// request.
pub proof fn lemma_get_after_expiry(
    snapshot: Map<CounterIdentity, StoredCounter>,
    now: nat,
    user: Seq<char>,
)
    requires
        snapshot.contains_key(user_counter(user)),
        now > snapshot[user_counter(user)].expires_at,
    ensures
        !denies(set![standard_limit()], snapshot, now, attributes_of(request_fields("GET"@, user))),
        now + 20_000_000_000 <= u64::MAX ==> judged(
            set![standard_limit()],
            snapshot,
            now,
            attributes_of(request_fields("GET"@, user)),
        ) is Allowed,
        ({
            let next = next_snapshot(
                set![standard_limit()],
                snapshot,
                now,
                attributes_of(request_fields("GET"@, user)),
            );
            &&& next.contains_key(user_counter(user))
            &&& next[user_counter(user)].remaining == Some(2int)
            &&& next[user_counter(user)].expires_at == now + 20_000_000_000
        }),
{
    let values = attributes_of(request_fields("GET"@, user));
    lemma_get_is_denied_exactly(snapshot, now, user);
    lemma_standard_window_fits(now, "GET"@, user);
    lemma_one_hit_is_counted(set![standard_limit()], snapshot, now, values, user_counter(user));
}

/// With the standard limit, of four `GET` requests of one user, the first
/// when the snapshot holds no open window of the user's counter and each no
/// later than twenty seconds after the first, the fourth is denied if the
/// first three are allowed, one after the other and with nothing in
/// between.
pub proof fn lemma_fourth_get_is_denied(
    start: Map<CounterIdentity, StoredCounter>,
    user: Seq<char>,
    times: Seq<nat>,
)
    requires
        times.len() == 4,
        forall|i: int| 0 <= i < 4 ==> (#[trigger] times[i]) <= times[0] + 20_000_000_000,
        !is_live(
            seeded(start),
            times[0],
            counter_key(standard_limit(), attributes_of(request_fields("GET"@, user))),
        ),
        after_allowed(set![standard_limit()], start, gets_of(user, times).drop_last()) is Some,
    ensures
        denies(
            set![standard_limit()],
            after_allowed(set![standard_limit()], start, gets_of(user, times).drop_last())->Some_0,
            times[3],
            attributes_of(request_fields("GET"@, user)),
        ),
{
    lemma_request_attributes("GET"@, user);
    lemma_standard_limit_on_request("GET"@, user);
    let requests = gets_of(user, times);
    let values = attributes_of(request_fields("GET"@, user));
    assert(requests.last() == requests[3]);
    lemma_admission_bound_from_fresh(
        set![standard_limit()],
        start,
        requests,
        standard_limit(),
        counter_key(standard_limit(), values),
    );
}

} // verus!
