use limitador::storage::wasm::Clock;
use ratelimit_filter::attributes::AttributeMap;
use ratelimit_filter::clock::RateLimitFilterClock;
use ratelimit_filter::counter::Counter;
use ratelimit_filter::engine::{CounterStore, Limiter};
use ratelimit_filter::error::{ConflictError, FilterError};
use ratelimit_filter::filter::{Decision, RateLimitFilter, COST, KEY, NAMESPACE};
use ratelimit_filter::limit::{LimitDefinition, LimitRegistry};
use ratelimit_filter::snapshot::Snapshot;
use std::time::{Duration, UNIX_EPOCH};

const SECOND: u64 = 1_000_000_000;
const START: u64 = 1_700_000_000 * SECOND;

fn attributes(pairs: &[(&str, &str)]) -> AttributeMap {
    let mut attributes = AttributeMap::new();
    for (name, value) in pairs {
        attributes.insert(name.to_string(), value.to_string());
    }
    attributes
}

fn get(user: &str) -> AttributeMap {
    attributes(&[("req.method", "GET"), ("req.headers.x-user-id", user)])
}

fn counter(user: &str) -> Counter {
    Counter {
        limit: LimitDefinition::standard(),
        set_variables: vec![("req.headers.x-user-id".to_string(), user.to_string())],
        remaining: None,
        expires_in: None,
    }
}

fn limiter_over(store: CounterStore) -> Limiter {
    let mut limiter = Limiter::new_with_storage(store);
    assert_eq!(limiter.add_limit(&LimitDefinition::standard()), Ok(()));
    limiter
}

fn fields(method: &str, user: &str) -> Vec<(String, String)> {
    vec![(":method".to_string(), method.to_string()), ("x-user-id".to_string(), user.to_string())]
}

#[test]
fn the_clock_reports_its_reading() {
    let clock = RateLimitFilterClock::new(START);
    assert_eq!(clock.now(), START);
    assert_eq!(clock.get_current_time(), UNIX_EPOCH + Duration::from_nanos(START));
    assert_eq!(clock.get_current_time(), clock.get_current_time());
    assert_eq!(RateLimitFilterClock::new(0).get_current_time(), UNIX_EPOCH);
    assert_eq!(RateLimitFilterClock::from_reading(Some(7)), Ok(RateLimitFilterClock::new(7)));
    assert_eq!(RateLimitFilterClock::from_reading(None), Err(FilterError::Clock));
}

#[test]
fn the_names_of_the_filter() {
    assert_eq!(NAMESPACE, "ratelimitfilter");
    assert_eq!(KEY, "counters");
    assert_eq!(COST, 1);
}

#[test]
fn the_standard_limit() {
    let limit = LimitDefinition::standard();
    assert_eq!(
        limit,
        LimitDefinition::new(
            "ratelimitfilter".to_string(),
            3,
            20,
            vec!["req.method == GET".to_string()],
            vec!["req.headers.x-user-id".to_string()],
        )
    );
}

#[test]
fn a_fresh_counter_allows_the_maximum() {
    let store = CounterStore::new(RateLimitFilterClock::new(START));
    assert_eq!(store.reading(), START);
    let mut limiter = limiter_over(store);
    assert_eq!(limiter.is_rate_limited(NAMESPACE, &get("u1"), 3), Ok(false));
    assert_eq!(limiter.is_rate_limited(NAMESPACE, &get("u1"), 4), Ok(true));
    assert_eq!(limiter.get_counters(NAMESPACE).unwrap().len(), 0);
    assert_eq!(limiter.update_counters(NAMESPACE, &get("u1"), 1), Ok(()));
    let found = limiter.get_counters(NAMESPACE).unwrap();
    assert_eq!(found.len(), 1);
    let mut expected = counter("u1");
    expected.remaining = Some(2);
    expected.expires_in = Some((20 * SECOND) as u128);
    assert_eq!(*found.get(0), expected);
    assert_eq!(limiter.is_rate_limited(NAMESPACE, &get("u1"), 2), Ok(false));
    assert_eq!(limiter.is_rate_limited(NAMESPACE, &get("u1"), 3), Ok(true));
}

#[test]
fn a_seeded_counter_is_counted_down() {
    let mut store = CounterStore::new(RateLimitFilterClock::new(START));
    store.add_counter(&counter("u1"), 1, START + 5 * SECOND);
    store.add_counter(&counter("u2"), 0, START + 7 * SECOND);
    let mut limiter = limiter_over(store);
    assert_eq!(limiter.is_rate_limited(NAMESPACE, &get("u1"), 1), Ok(false));
    assert_eq!(limiter.is_rate_limited(NAMESPACE, &get("u2"), 1), Ok(true));
    assert_eq!(limiter.is_rate_limited(NAMESPACE, &get("u3"), 1), Ok(false));
    assert_eq!(limiter.update_counters(NAMESPACE, &get("u1"), 1), Ok(()));
    assert_eq!(limiter.is_rate_limited(NAMESPACE, &get("u1"), 1), Ok(true));
    let mut found = limiter.get_counters(NAMESPACE).unwrap();
    assert_eq!(found.len(), 2);
    let mut lines = Vec::new();
    while let Some(counter) = found.pop() {
        lines.push((counter.set_variables[0].1.clone(), counter.remaining, counter.expires_in));
    }
    lines.sort();
    assert_eq!(
        lines,
        vec![
            ("u1".to_string(), Some(0), Some((5 * SECOND) as u128)),
            ("u2".to_string(), Some(0), Some((7 * SECOND) as u128)),
        ]
    );
    assert_eq!(found.len(), 0);
}

#[test]
fn a_later_seed_takes_the_place_of_an_earlier_one() {
    let mut store = CounterStore::new(RateLimitFilterClock::new(START));
    store.add_counter(&counter("u1"), 0, START + 5 * SECOND);
    store.add_counter(&counter("u1"), 2, START + 9 * SECOND);
    let limiter = limiter_over(store);
    let found = limiter.get_counters(NAMESPACE).unwrap();
    assert_eq!(found.len(), 1);
    assert_eq!(found.get(0).remaining, Some(2));
    assert_eq!(found.get(0).expires_in, Some((9 * SECOND) as u128));
}

#[test]
fn an_expired_counter_is_fresh_whatever_it_held() {
    for held in [0, -5, 1, 1000, i64::MAX, i64::MIN + 1] {
        let mut store = CounterStore::new(RateLimitFilterClock::new(START));
        store.add_counter(&counter("u1"), held, START - 1);
        let mut limiter = limiter_over(store);
        assert_eq!(limiter.get_counters(NAMESPACE).unwrap().len(), 0);
        assert_eq!(limiter.is_rate_limited(NAMESPACE, &get("u1"), 1), Ok(false));
        assert_eq!(limiter.is_rate_limited(NAMESPACE, &get("u1"), 3), Ok(false));
        assert_eq!(limiter.is_rate_limited(NAMESPACE, &get("u1"), 4), Ok(true));
        assert_eq!(limiter.update_counters(NAMESPACE, &get("u1"), 1), Ok(()));
        let found = limiter.get_counters(NAMESPACE).unwrap();
        assert_eq!(found.get(0).remaining, Some(2));
        assert_eq!(found.get(0).expires_in, Some((20 * SECOND) as u128));
    }
}

#[test]
fn a_window_is_open_at_its_last_instant() {
    let mut store = CounterStore::new(RateLimitFilterClock::new(START));
    store.add_counter(&counter("u1"), 0, START);
    let limiter = limiter_over(store);
    assert_eq!(limiter.is_rate_limited(NAMESPACE, &get("u1"), 1), Ok(true));
    let found = limiter.get_counters(NAMESPACE).unwrap();
    assert_eq!(found.get(0).expires_in, Some(0));
}

#[test]
fn a_limit_that_does_not_apply_is_not_charged() {
    let mut store = CounterStore::new(RateLimitFilterClock::new(START));
    store.add_counter(&counter("u1"), 0, START + SECOND);
    let mut limiter = limiter_over(store);
    let post = attributes(&[("req.method", "POST"), ("req.headers.x-user-id", "u1")]);
    let no_user = attributes(&[("req.method", "GET")]);
    let no_method = attributes(&[("req.headers.x-user-id", "u1")]);
    let lowercase = attributes(&[("req.method", "get"), ("req.headers.x-user-id", "u1")]);
    for request in [&post, &no_user, &no_method, &lowercase, &AttributeMap::new()] {
        assert_eq!(limiter.is_rate_limited(NAMESPACE, request, 1), Ok(false));
        assert_eq!(limiter.update_counters(NAMESPACE, request, 1), Ok(()));
        let found = limiter.get_counters(NAMESPACE).unwrap();
        assert_eq!(found.len(), 1);
        assert_eq!(found.get(0).remaining, Some(0));
        assert_eq!(found.get(0).expires_in, Some(SECOND as u128));
    }
    assert_eq!(limiter.is_rate_limited(NAMESPACE, &get("u1"), 1), Ok(true));
}

#[test]
fn other_attributes_are_no_part_of_the_counter() {
    let store = CounterStore::new(RateLimitFilterClock::new(START));
    let mut limiter = limiter_over(store);
    let first = attributes(&[("req.method", "GET"), ("req.headers.x-user-id", "u1"), ("req.headers.accept", "a")]);
    let second = attributes(&[("req.headers.x-user-id", "u1"), ("req.headers.accept", "b"), ("req.method", "GET")]);
    assert_eq!(limiter.update_counters(NAMESPACE, &first, 1), Ok(()));
    assert_eq!(limiter.update_counters(NAMESPACE, &second, 1), Ok(()));
    let found = limiter.get_counters(NAMESPACE).unwrap();
    assert_eq!(found.len(), 1);
    assert_eq!(found.get(0).remaining, Some(1));
    assert_eq!(found.get(0).set_variables, counter("u1").set_variables);
}

#[test]
fn a_seed_keeps_the_values_of_the_limits_variables() {
    let mut store = CounterStore::new(RateLimitFilterClock::new(START));
    let mut seeded = counter("u1");
    seeded.set_variables.push(("req.headers.accept".to_string(), "a".to_string()));
    store.add_counter(&seeded, 0, START + SECOND);
    let limiter = limiter_over(store);
    assert_eq!(limiter.is_rate_limited(NAMESPACE, &get("u1"), 1), Ok(true));
    let found = limiter.get_counters(NAMESPACE).unwrap();
    assert_eq!(found.get(0).set_variables, counter("u1").set_variables);
}

#[test]
fn counters_are_reported_by_namespace() {
    let mut store = CounterStore::new(RateLimitFilterClock::new(START));
    store.add_counter(&counter("u1"), 1, START + SECOND);
    let mut elsewhere = counter("u1");
    elsewhere.limit.namespace = "other".to_string();
    store.add_counter(&elsewhere, 5, START + 2 * SECOND);
    let mut limiter = limiter_over(store);
    let mut other = LimitDefinition::standard();
    other.namespace = "other".to_string();
    assert_eq!(limiter.add_limit(&other), Ok(()));
    assert_eq!(limiter.get_counters(NAMESPACE).unwrap().len(), 1);
    assert_eq!(limiter.get_counters(NAMESPACE).unwrap().get(0).remaining, Some(1));
    assert_eq!(limiter.get_counters("other").unwrap().get(0).remaining, Some(5));
    assert_eq!(limiter.get_counters("none").unwrap().len(), 0);
    assert_eq!(limiter.update_counters("other", &get("u1"), 2), Ok(()));
    assert_eq!(limiter.get_counters("other").unwrap().get(0).remaining, Some(3));
    assert_eq!(limiter.get_counters(NAMESPACE).unwrap().get(0).remaining, Some(1));
}

#[test]
fn a_limiter_without_limits_limits_nothing() {
    let mut store = CounterStore::new(RateLimitFilterClock::new(START));
    store.add_counter(&counter("u1"), 0, START + SECOND);
    let mut limiter = Limiter::new_with_storage(store);
    assert_eq!(limiter.is_rate_limited(NAMESPACE, &get("u1"), 1), Ok(false));
    assert_eq!(limiter.update_counters(NAMESPACE, &get("u1"), 1), Ok(()));
    assert_eq!(limiter.get_counters(NAMESPACE).unwrap().get(0).remaining, Some(0));
}

#[test]
fn the_registry_refuses_a_second_limit_of_a_namespace() {
    let mut registry = LimitRegistry::new();
    assert_eq!(registry.all().len(), 0);
    assert_eq!(registry.register(LimitDefinition::standard()), Ok(()));
    let again = LimitDefinition::new("ratelimitfilter".to_string(), 10, 60, vec![], vec![]);
    assert_eq!(registry.register(again), Err(ConflictError));
    assert_eq!(registry.register(LimitDefinition::standard()), Err(ConflictError));
    assert_eq!(registry.all(), &vec![LimitDefinition::standard()]);
    let other = LimitDefinition::new("other".to_string(), 10, 60, vec!["a == b".to_string()], vec![]);
    assert_eq!(registry.register(other.clone()), Ok(()));
    assert_eq!(registry.all(), &vec![LimitDefinition::standard(), other]);
    assert_eq!(LimitRegistry::standard().all(), &vec![LimitDefinition::standard()]);
}

#[test]
fn a_filter_is_made_of_its_steps() {
    let filter = RateLimitFilter::new();
    let clock = RateLimitFilterClock::new(START);
    let counters = filter.get_ratelimit_counters(None).unwrap();
    let storage = filter.seed_counters(clock, &counters);
    let mut limiter = filter.make_limiter_per_req(storage).ok().unwrap();
    let required_headers = filter.extract_required_headers(&fields("GET", "u1"));
    assert_eq!(limiter.is_rate_limited(NAMESPACE, &required_headers, COST), Ok(false));
    assert_eq!(limiter.update_counters(NAMESPACE, &required_headers, COST), Ok(()));
    let found = limiter.get_counters(NAMESPACE).unwrap();
    let bytes = filter.set_ratelimit_counters(found, &clock).unwrap();
    let stored = filter.get_ratelimit_counters(Some(bytes.clone())).unwrap();
    assert_eq!(stored.len(), 1);
    assert_eq!(stored.get(0).counter.remaining, Some(2));
    assert_eq!(stored.get(0).counter.expires_in, Some((20 * SECOND) as u128));
    assert_eq!(stored.get(0).expires_at, (START + 20 * SECOND) as u128);
    let mut whole = RateLimitFilter::new();
    assert_eq!(
        whole.on_http_request_headers(Some(START), None, &fields("GET", "u1")),
        Decision::Allowed { snapshot: bytes.clone() }
    );
    let later = RateLimitFilterClock::new(START + 4 * SECOND);
    let storage = filter.seed_counters(later, &stored);
    assert_eq!(storage.reading(), START + 4 * SECOND);
    let limiter = filter.make_limiter_per_req(storage).ok().unwrap();
    let found = limiter.get_counters(NAMESPACE).unwrap();
    assert_eq!(found.get(0).remaining, Some(2));
    assert_eq!(found.get(0).expires_in, Some((16 * SECOND) as u128));
    let rewritten = Snapshot::decode(&filter.set_ratelimit_counters(found, &later).unwrap()).unwrap();
    assert_eq!(rewritten.get(0).expires_at, (START + 20 * SECOND) as u128);
}

#[test]
fn a_window_fits_up_to_the_last_instant() {
    let filter = RateLimitFilter::new();
    let late = CounterStore::new(RateLimitFilterClock::new(u64::MAX));
    let limiter = filter.make_limiter_per_req(late).ok().unwrap();
    assert_eq!(limiter.is_rate_limited(NAMESPACE, &get("u1"), 3), Ok(false));
    assert_eq!(limiter.is_rate_limited(NAMESPACE, &get("u1"), 4), Ok(true));
    let last_fit = u64::MAX - 20 * SECOND;
    assert!(filter.windows_fit(&get("u1"), 0));
    assert!(filter.windows_fit(&get("u1"), last_fit));
    assert!(!filter.windows_fit(&get("u1"), last_fit + 1));
    assert!(!filter.windows_fit(&get("u1"), u64::MAX));
    let post = attributes(&[("req.method", "POST"), ("req.headers.x-user-id", "u1")]);
    let no_user = attributes(&[("req.method", "GET")]);
    for unconcerned in [&post, &no_user, &AttributeMap::new()] {
        assert!(filter.windows_fit(unconcerned, last_fit + 1));
        assert!(filter.windows_fit(unconcerned, u64::MAX));
    }
    assert!(RateLimitFilter::with_registry(LimitRegistry::new()).windows_fit(&get("u1"), u64::MAX));
}

#[test]
fn a_window_is_asked_for_in_the_filters_namespace_only() {
    let mut registry = LimitRegistry::new();
    let long = LimitDefinition::new("other".to_string(), 1, u64::MAX, vec![], vec![]);
    assert_eq!(registry.register(long), Ok(()));
    assert_eq!(registry.register(LimitDefinition::standard()), Ok(()));
    let filter = RateLimitFilter::with_registry(registry);
    assert!(filter.windows_fit(&get("u1"), START));
    assert!(filter.windows_fit(&AttributeMap::new(), u64::MAX));
    let mut registry = LimitRegistry::new();
    let long = LimitDefinition::new(NAMESPACE.to_string(), 1, u64::MAX / SECOND, vec![], vec![]);
    assert_eq!(registry.register(long), Ok(()));
    let filter = RateLimitFilter::with_registry(registry);
    let room = u64::MAX - (u64::MAX / SECOND) * SECOND;
    assert!(filter.windows_fit(&AttributeMap::new(), room));
    assert!(!filter.windows_fit(&AttributeMap::new(), room + 1));
    let longer = LimitDefinition::new(NAMESPACE.to_string(), 1, u64::MAX, vec![], vec![]);
    let mut registry = LimitRegistry::new();
    assert_eq!(registry.register(longer), Ok(()));
    assert!(!RateLimitFilter::with_registry(registry).windows_fit(&AttributeMap::new(), 0));
}

#[test]
fn counters_that_are_no_valid_snapshot_are_not_stored() {
    let filter = RateLimitFilter::new();
    let clock = RateLimitFilterClock::new(START);
    let mut limiter = filter.make_limiter_per_req(CounterStore::new(clock)).ok().unwrap();
    assert_eq!(limiter.update_counters(NAMESPACE, &get("u1"), 1), Ok(()));
    let last = RateLimitFilterClock::new(u64::MAX - 20 * SECOND);
    let bytes = filter.set_ratelimit_counters(limiter.get_counters(NAMESPACE).unwrap(), &last).unwrap();
    assert_eq!(Snapshot::decode(&bytes).unwrap().get(0).expires_at, u64::MAX as u128);
    let late = RateLimitFilterClock::new(u64::MAX - 20 * SECOND + 1);
    assert_eq!(
        filter.set_ratelimit_counters(limiter.get_counters(NAMESPACE).unwrap(), &late),
        Err(FilterError::Storage)
    );
    assert!(Snapshot::from_counters(limiter.get_counters(NAMESPACE).unwrap(), u64::MAX).is_none());
    let stored = Snapshot::from_counters(limiter.get_counters(NAMESPACE).unwrap(), 5).unwrap();
    assert_eq!(stored.len(), 1);
    assert_eq!(stored.get(0).expires_at, (5 + 20 * SECOND) as u128);
    assert_eq!(Snapshot::from_counters(limiter.get_counters("none").unwrap(), u64::MAX), Some(Snapshot::empty()));
}

#[test]
fn a_limit_of_one_allows_one() {
    let mut registry = LimitRegistry::new();
    let limit = LimitDefinition::new(
        NAMESPACE.to_string(),
        1,
        60,
        vec!["req.method == GET".to_string(), "req.headers.x-tier == free".to_string()],
        vec!["req.headers.x-user-id".to_string()],
    );
    assert_eq!(registry.register(limit), Ok(()));
    let mut filter = RateLimitFilter::with_registry(registry);
    let mut request = fields("GET", "u1");
    request.push(("X-Tier".to_string(), "free".to_string()));
    let first = filter.on_http_request_headers(Some(START), None, &request);
    let slot = match first {
        Decision::Allowed { snapshot } => snapshot,
        other => panic!("expected an allowed request, got {:?}", other),
    };
    let second = filter.on_http_request_headers(Some(START + 60 * SECOND), Some(slot.clone()), &request);
    assert_eq!(second, Decision::Denied);
    let paying = filter.on_http_request_headers(Some(START + SECOND), Some(slot.clone()), &fields("GET", "u1"));
    assert!(matches!(paying, Decision::Allowed { .. }));
    let third = filter.on_http_request_headers(Some(START + 60 * SECOND + 1), Some(slot), &request);
    assert!(matches!(third, Decision::Allowed { .. }));
}

#[test]
fn a_limit_of_none_allows_none() {
    let mut registry = LimitRegistry::new();
    let limit = LimitDefinition::new(NAMESPACE.to_string(), 0, 60, vec![], vec![]);
    assert_eq!(registry.register(limit), Ok(()));
    let mut filter = RateLimitFilter::with_registry(registry);
    assert_eq!(filter.on_http_request_headers(Some(START), None, &[]), Decision::Denied);
    assert_eq!(filter.on_http_request_headers(Some(START), None, &fields("POST", "u1")), Decision::Denied);
}

#[test]
fn a_filter_without_limits_allows_everything() {
    let mut filter = RateLimitFilter::with_registry(LimitRegistry::new());
    for i in 0..5u64 {
        let decision = filter.on_http_request_headers(Some(u64::MAX - i), None, &fields("GET", "u1"));
        assert_eq!(decision, Decision::Allowed { snapshot: vec![0u8; 8] });
    }
}

#[test]
fn the_limiter_counts_as_its_table_says() {
    for held in [-3i64, 0, 1, 2, 3, 7] {
        for offset in [-2i64, -1, 0, 1, 5] {
            for delta in [1i64, 2, 3, 4] {
                let expires_at = (START as i64 + offset) as u64;
                let open = START <= expires_at;
                let allowance = if open { held } else { 3 };
                let mut store = CounterStore::new(RateLimitFilterClock::new(START));
                store.add_counter(&counter("u1"), held, expires_at);
                let mut limiter = limiter_over(store);
                assert_eq!(limiter.get_counters(NAMESPACE).unwrap().len(), if open { 1 } else { 0 });
                assert_eq!(limiter.is_rate_limited(NAMESPACE, &get("u1"), delta), Ok(allowance - delta < 0));
                assert_eq!(limiter.update_counters(NAMESPACE, &get("u1"), delta), Ok(()));
                let found = limiter.get_counters(NAMESPACE).unwrap();
                assert_eq!(found.len(), 1);
                assert_eq!(found.get(0).remaining, Some(allowance - delta));
                let left = if open { expires_at - START } else { 20 * SECOND };
                assert_eq!(found.get(0).expires_in, Some(left as u128));
                assert_eq!(
                    limiter.is_rate_limited(NAMESPACE, &get("u1"), delta),
                    Ok(allowance - 2 * delta < 0)
                );
            }
        }
    }
}

fn lines(mut found: ratelimit_filter::counter::CounterSet) -> Vec<(i64, Option<i64>, Option<u128>)> {
    let mut lines = Vec::new();
    while let Some(counter) = found.pop() {
        lines.push((counter.limit.max_value, counter.remaining, counter.expires_in));
    }
    lines.sort();
    lines
}

#[test]
fn every_limit_that_applies_is_charged() {
    let mut limiter = Limiter::new_with_storage(CounterStore::new(RateLimitFilterClock::new(START)));
    let gets = LimitDefinition::new(
        "n".to_string(),
        1,
        10,
        vec!["req.method == GET".to_string()],
        vec!["req.headers.x-user-id".to_string()],
    );
    let all = LimitDefinition::new("n".to_string(), 5, 30, vec![], vec!["req.headers.x-user-id".to_string()]);
    assert_eq!(limiter.add_limit(&gets), Ok(()));
    assert_eq!(limiter.add_limit(&all), Ok(()));
    let post = attributes(&[("req.method", "POST"), ("req.headers.x-user-id", "u1")]);
    assert_eq!(limiter.is_rate_limited("n", &get("u1"), 1), Ok(false));
    assert_eq!(limiter.update_counters("n", &get("u1"), 1), Ok(()));
    assert_eq!(
        lines(limiter.get_counters("n").unwrap()),
        vec![(1, Some(0), Some((10 * SECOND) as u128)), (5, Some(4), Some((30 * SECOND) as u128))]
    );
    assert_eq!(limiter.is_rate_limited("n", &get("u1"), 1), Ok(true));
    assert_eq!(limiter.is_rate_limited("n", &post, 1), Ok(false));
    assert_eq!(limiter.is_rate_limited("n", &post, 4), Ok(false));
    assert_eq!(limiter.is_rate_limited("n", &post, 5), Ok(true));
    assert_eq!(limiter.update_counters("n", &post, 3), Ok(()));
    assert_eq!(
        lines(limiter.get_counters("n").unwrap()),
        vec![(1, Some(0), Some((10 * SECOND) as u128)), (5, Some(1), Some((30 * SECOND) as u128))]
    );
    assert_eq!(limiter.get_counters(NAMESPACE).unwrap().len(), 0);
}

#[test]
fn a_limit_added_again_keeps_its_counters() {
    let mut store = CounterStore::new(RateLimitFilterClock::new(START));
    store.add_counter(&counter("u1"), 1, START + SECOND);
    let mut limiter = limiter_over(store);
    assert_eq!(limiter.update_counters(NAMESPACE, &get("u1"), 1), Ok(()));
    assert_eq!(limiter.add_limit(&LimitDefinition::standard()), Ok(()));
    let mut reordered = LimitDefinition::standard();
    reordered.conditions.push("req.method == GET".to_string());
    assert_eq!(limiter.add_limit(&reordered), Ok(()));
    assert_eq!(limiter.is_rate_limited(NAMESPACE, &get("u1"), 1), Ok(true));
    assert_eq!(lines(limiter.get_counters(NAMESPACE).unwrap()), vec![(3, Some(0), Some(SECOND as u128))]);
    assert_eq!(limiter.update_counters(NAMESPACE, &get("u2"), 1), Ok(()));
    assert_eq!(
        lines(limiter.get_counters(NAMESPACE).unwrap()),
        vec![(3, Some(0), Some(SECOND as u128)), (3, Some(2), Some((20 * SECOND) as u128))]
    );
}
