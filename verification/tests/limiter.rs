use room_finder::limiter::{QueryCounter, QueryError, QUERY_LIMIT, UNLIMITED_HOST};

#[test]
fn fourth_request_to_a_host_is_refused() {
    let mut counter = QueryCounter::new();
    for _ in 0..QUERY_LIMIT {
        assert_eq!(counter.register_host("nominatim.openstreetmap.org"), Ok(()));
    }
    let full = vec![("nominatim.openstreetmap.org".to_string(), 3)];
    assert_eq!(
        counter.register_host("nominatim.openstreetmap.org"),
        Err(QueryError::TooManyQueries(full.clone()))
    );
    assert_eq!(counter.count("nominatim.openstreetmap.org"), 3);
    assert_eq!(
        counter.register_host("nominatim.openstreetmap.org"),
        Err(QueryError::TooManyQueries(full))
    );
    assert_eq!(counter.count("nominatim.openstreetmap.org"), 3);
}

#[test]
fn router_is_never_limited() {
    let mut counter = QueryCounter::new();
    for _ in 0..10 {
        assert_eq!(counter.register_host(UNLIMITED_HOST), Ok(()));
    }
    assert_eq!(counter.count(UNLIMITED_HOST), 10);
}

#[test]
fn hosts_are_counted_apart() {
    let mut counter = QueryCounter::new();
    assert_eq!(counter.register_host("a.example"), Ok(()));
    assert_eq!(counter.register_host("a.example"), Ok(()));
    assert_eq!(counter.register_host("b.example"), Ok(()));
    assert_eq!(counter.register_host("a.example"), Ok(()));
    assert_eq!(counter.register_host("b.example"), Ok(()));
    assert_eq!(
        counter.register_host("a.example"),
        Err(QueryError::TooManyQueries(vec![("a.example".to_string(), 3), ("b.example".to_string(), 2)]))
    );
    assert_eq!(counter.count("a.example"), 3);
    assert_eq!(counter.count("b.example"), 2);
    assert_eq!(counter.count("c.example"), 0);
}

#[test]
fn requests_are_counted_under_the_host_of_their_url() {
    let mut counter = QueryCounter::new();
    assert_eq!(counter.register("https://www.wgzimmer.ch/en/a.html"), Ok(()));
    assert_eq!(counter.register("https://www.wgzimmer.ch/en/b.html?x=1"), Ok(()));
    assert_eq!(counter.register("http://www.wgzimmer.ch/"), Ok(()));
    assert_eq!(
        counter.register("https://www.wgzimmer.ch/c"),
        Err(QueryError::TooManyQueries(vec![("www.wgzimmer.ch".to_string(), 3)]))
    );
    assert_eq!(counter.count("www.wgzimmer.ch"), 3);
    for _ in 0..5 {
        assert_eq!(
            counter.register("http://router.project-osrm.org/route/v1/driving/1,2;3,4"),
            Ok(())
        );
    }
    assert_eq!(counter.count(UNLIMITED_HOST), 5);
}

#[test]
fn urls_without_host_share_the_empty_host() {
    let mut counter = QueryCounter::new();
    assert_eq!(counter.register("https://x.example/"), Ok(()));
    assert_eq!(counter.register("data:text/plain,hello"), Ok(()));
    assert_eq!(counter.register("not a url"), Ok(()));
    assert_eq!(counter.count(""), 2);
    assert_eq!(counter.try_register("mailto:someone@example.com"), Some(Ok(())));
    assert_eq!(
        counter.try_register("also not a url"),
        Some(Err(QueryError::TooManyQueries(vec![("x.example".to_string(), 1), (String::new(), 3)])))
    );
}
