use ratelimit_filter::attributes::AttributeMap;
use ratelimit_filter::clock::RateLimitFilterClock;
use ratelimit_filter::engine::{CounterStore, Limiter};
use ratelimit_filter::limit::{holds_separator, LimitDefinition};

fn limit(max_value: i64, conditions: &[&str]) -> LimitDefinition {
    LimitDefinition::new(
        "n".to_string(),
        max_value,
        1,
        conditions.iter().map(|condition| condition.to_string()).collect(),
        vec![],
    )
}

fn applies(condition: &str, pairs: &[(&str, &str)]) -> bool {
    let definition = limit(0, &[condition]);
    assert!(definition.is_valid());
    let mut limiter = Limiter::new_with_storage(CounterStore::new(RateLimitFilterClock::new(0)));
    assert_eq!(limiter.add_limit(&definition), Ok(()));
    let mut values = AttributeMap::new();
    for (name, value) in pairs {
        values.insert(name.to_string(), value.to_string());
    }
    limiter.is_rate_limited("n", &values, 1).unwrap()
}

#[test]
fn a_condition_holds_the_separator() {
    for good in [
        "req.method == GET", "a == b", " == ", "a == ", " == b", "a b == c d", "é == ü", "a==b == c=d",
        "a  ==  b", "a == b == c", "a == == b", " ==  == ", "xyz == ",
    ] {
        assert!(holds_separator(&good.to_string()), "{:?}", good);
    }
    for bad in ["", "a", "a==b", "a = b", "a ==b", "a== b", "==", " ==", "== ", "a != b", " = = ", "é==ü"] {
        assert!(!holds_separator(&bad.to_string()), "{:?}", bad);
    }
}

#[test]
fn a_valid_limit_has_equalities_and_a_maximum_to_count_down_from() {
    assert!(LimitDefinition::standard().is_valid());
    assert!(limit(0, &[]).is_valid());
    assert!(limit(-1, &["a == b", "c == d"]).is_valid());
    assert!(limit(i64::MAX, &["a == b"]).is_valid());
    assert!(limit(i64::MIN + 1, &[]).is_valid());
    assert!(!limit(i64::MIN, &[]).is_valid());
    assert!(!limit(3, &["a == b", "c"]).is_valid());
    assert!(!limit(3, &["a==b"]).is_valid());
    assert!(limit(3, &["a == b == c"]).is_valid());
}

#[test]
fn a_condition_with_more_separators_is_left_to_the_engine() {
    assert!(applies("a == b == c", &[("a", "b")]));
    assert!(!applies("a == b == c", &[("a", "b == c")]));
    assert!(!applies("a == b == c", &[("a", "c")]));
    let mut registry = ratelimit_filter::limit::LimitRegistry::new();
    let odd = LimitDefinition::new(
        "ratelimitfilter".to_string(),
        0,
        1,
        vec!["req.method == GET == x".to_string()],
        vec![],
    );
    assert!(odd.is_valid());
    assert_eq!(registry.register(odd), Ok(()));
    let mut filter = ratelimit_filter::filter::RateLimitFilter::with_registry(registry);
    let get = vec![(":method".to_string(), "GET".to_string())];
    let post = vec![(":method".to_string(), "POST".to_string())];
    assert_eq!(filter.on_http_request_headers(Some(0), None, &get), ratelimit_filter::filter::Decision::Denied);
    assert!(matches!(
        filter.on_http_request_headers(Some(u64::MAX), None, &post),
        ratelimit_filter::filter::Decision::Allowed { .. }
    ));
    assert_eq!(
        filter.on_http_request_headers(Some(u64::MAX), None, &get),
        ratelimit_filter::filter::Decision::Denied
    );
}

#[test]
fn a_condition_asks_for_the_value_of_its_attribute() {
    assert!(applies("a == b", &[("a", "b")]));
    assert!(!applies("a == b", &[("a", "c")]));
    assert!(!applies("a == b", &[("b", "a")]));
    assert!(!applies("a == b", &[]));
    assert!(applies("a == b", &[("a", "c"), ("x", "y"), ("a", "b")]));
    assert!(applies("req.headers.user-agent == curl 8", &[("req.headers.user-agent", "curl 8")]));
    assert!(!applies("req.headers.user-agent == curl 8", &[("req.headers.user-agent", "curl")]));
    assert!(applies("a b == c", &[("a b", "c")]));
    assert!(applies("a == ", &[("a", "")]));
    assert!(!applies("a == ", &[("a", " ")]));
    assert!(applies(" == b", &[("", "b")]));
    assert!(applies("a==b == c=d", &[("a==b", "c=d")]));
    assert!(applies("a  ==  b", &[("a ", " b")]));
    assert!(!applies("a  ==  b", &[("a", "b")]));
}

#[test]
fn every_condition_and_every_variable_counts() {
    let definition = LimitDefinition::new(
        "n".to_string(),
        0,
        1,
        vec!["a == 1".to_string(), "b == 2".to_string()],
        vec!["c".to_string(), "d".to_string()],
    );
    assert!(definition.is_valid());
    let mut limiter = Limiter::new_with_storage(CounterStore::new(RateLimitFilterClock::new(0)));
    assert_eq!(limiter.add_limit(&definition), Ok(()));
    let check = |pairs: &[(&str, &str)]| {
        let mut values = AttributeMap::new();
        for (name, value) in pairs {
            values.insert(name.to_string(), value.to_string());
        }
        limiter.is_rate_limited("n", &values, 1).unwrap()
    };
    assert!(check(&[("a", "1"), ("b", "2"), ("c", "x"), ("d", "y")]));
    assert!(check(&[("a", "1"), ("b", "2"), ("c", ""), ("d", ""), ("e", "")]));
    assert!(!check(&[("a", "1"), ("b", "2"), ("c", "x")]));
    assert!(!check(&[("a", "1"), ("b", "2"), ("d", "y")]));
    assert!(!check(&[("a", "1"), ("c", "x"), ("d", "y")]));
    assert!(!check(&[("a", "1"), ("b", "3"), ("c", "x"), ("d", "y")]));
    assert!(!check(&[("a", "2"), ("b", "1"), ("c", "x"), ("d", "y")]));
}
