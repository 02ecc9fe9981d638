use concurrent_scraper::fetcher::{Action, FetchError, Fetcher};
use std::time::Duration;

fn urls(names: &[&str]) -> Vec<String> {
    names.iter().map(|name| name.to_string()).collect()
}

fn body(text: &str) -> Result<Vec<u8>, String> {
    Ok(text.as_bytes().to_vec())
}

fn failure(description: &str) -> Result<Vec<u8>, String> {
    Err(description.to_string())
}

fn start_index(fetcher: &mut Fetcher) -> Option<usize> {
    match fetcher.next_action() {
        Action::Start(index, _) => Some(index),
        _ => None,
    }
}

fn start(fetcher: &mut Fetcher) -> Option<(usize, String)> {
    match fetcher.next_action() {
        Action::Start(index, url) => Some((index, url)),
        _ => None,
    }
}

#[test]
fn test_concurrent_fetching() {
    let mut fetcher = Fetcher::new(5).unwrap();
    let urls = vec![
        "https://www.rust-lang.org".to_string(),
        "https://www.python.org".to_string(),
    ];
    let reports = vec![
        (body("<html>rust</html>"), Duration::from_millis(120)),
        (body("<html>python</html>"), Duration::from_millis(80)),
    ];

    let results = fetcher.fetch_urls(urls, reports);
    assert_eq!(results.len(), 2);

    // Print metrics after fetching
    println!("{}", fetcher.get_metrics());
}

#[test]
fn a_batch_with_one_transport_error_keeps_the_order() {
    let mut fetcher = Fetcher::new(2).unwrap();
    let results = fetcher.fetch_urls(
        urls(&["ok1", "ok2", "bad1"]),
        vec![
            (body("first"), Duration::from_millis(10)),
            (body("second"), Duration::from_millis(20)),
            (failure("connection refused"), Duration::from_millis(30)),
        ],
    );

    assert_eq!(results.len(), 3);
    assert_eq!(results[0].as_ref().unwrap(), "first");
    assert_eq!(results[1].as_ref().unwrap(), "second");
    match &results[2] {
        Err(FetchError::RequestFailed(description)) => assert_eq!(description, "connection refused"),
        other => panic!("unexpected outcome {:?}", other),
    }
    assert_eq!(fetcher.metrics().successful_requests(), 2);
    assert_eq!(fetcher.metrics().failed_requests(), 1);
    assert_eq!(fetcher.metrics().total_bytes(), 11);
    assert_eq!(
        fetcher.get_metrics(),
        "Performance Summary:\nTotal Requests: 3\nSuccessful: 2\nFailed: 1\nAverage Duration: 20.00ms\nTotal Data: 11 bytes"
    );
}

#[test]
fn a_limit_of_zero_is_refused() {
    match Fetcher::new(0) {
        Err(FetchError::ZeroConcurrency) => {}
        other => panic!("unexpected result {:?}", other),
    }
    assert_eq!(Fetcher::new(1).unwrap().max_concurrent(), 1);
}

#[test]
fn no_more_requests_are_in_flight_than_the_limit() {
    let mut fetcher = Fetcher::new(2).unwrap();
    assert!(fetcher.begin(urls(&["a", "b", "c", "d", "e"])));

    assert_eq!(start(&mut fetcher), Some((0, "a".to_string())));
    assert_eq!(fetcher.in_flight(), 1);
    assert_eq!(start(&mut fetcher), Some((1, "b".to_string())));
    assert_eq!(fetcher.in_flight(), 2);
    // The limit is reached: three requests wait, and none of them may start.
    assert!(matches!(fetcher.next_action(), Action::Wait));
    assert!(matches!(fetcher.next_action(), Action::Wait));
    assert_eq!(fetcher.in_flight(), 2);

    // A failure gives its permit back as a success does.
    assert!(fetcher.complete(1, failure("timed out"), Duration::from_millis(5)));
    assert_eq!(fetcher.in_flight(), 1);
    assert_eq!(start(&mut fetcher), Some((2, "c".to_string())));
    assert!(matches!(fetcher.next_action(), Action::Wait));

    assert!(fetcher.complete(0, body("A"), Duration::from_millis(5)));
    assert!(fetcher.complete(2, body("C"), Duration::from_millis(5)));
    assert_eq!(fetcher.in_flight(), 0);
    assert_eq!(start(&mut fetcher), Some((3, "d".to_string())));
    assert_eq!(start(&mut fetcher), Some((4, "e".to_string())));
    assert!(matches!(fetcher.next_action(), Action::Wait));
    assert!(fetcher.finish().is_none());

    assert!(fetcher.complete(4, body("E"), Duration::from_millis(5)));
    assert!(fetcher.complete(3, body("D"), Duration::from_millis(5)));
    assert!(matches!(fetcher.next_action(), Action::Finished));

    let results = fetcher.finish().unwrap();
    assert_eq!(results.len(), 5);
    assert_eq!(results[0].as_ref().unwrap(), "A");
    assert!(matches!(&results[1], Err(FetchError::RequestFailed(text)) if text == "timed out"));
    assert_eq!(results[2].as_ref().unwrap(), "C");
    assert_eq!(results[3].as_ref().unwrap(), "D");
    assert_eq!(results[4].as_ref().unwrap(), "E");
    assert_eq!(fetcher.metrics().successful_requests(), 4);
    assert_eq!(fetcher.metrics().failed_requests(), 1);
}

#[test]
fn a_report_on_a_request_that_is_not_in_flight_is_refused() {
    let mut fetcher = Fetcher::new(1).unwrap();
    assert!(fetcher.begin(urls(&["a", "b"])));
    assert!(!fetcher.complete(0, body("early"), Duration::from_millis(1)));
    assert_eq!(start(&mut fetcher), Some((0, "a".to_string())));
    assert!(!fetcher.complete(1, body("waiting"), Duration::from_millis(1)));
    assert!(!fetcher.complete(2, body("absent"), Duration::from_millis(1)));
    assert!(fetcher.complete(0, body("A"), Duration::from_millis(1)));
    assert!(!fetcher.complete(0, body("again"), Duration::from_millis(1)));
    assert_eq!(fetcher.metrics().successful_requests(), 1);
    assert_eq!(fetcher.metrics().total_bytes(), 1);
}

#[test]
fn a_second_batch_waits_for_the_first() {
    let mut fetcher = Fetcher::new(3).unwrap();
    assert!(fetcher.begin(urls(&["a"])));
    assert!(!fetcher.begin(urls(&["b"])));
    assert_eq!(start(&mut fetcher), Some((0, "a".to_string())));
    assert!(fetcher.complete(0, body("A"), Duration::from_millis(1)));
    assert_eq!(fetcher.finish().unwrap().len(), 1);
    assert!(fetcher.begin(urls(&["b"])));
}

#[test]
fn a_closed_gate_refuses_what_waits_and_lets_the_rest_finish() {
    let mut fetcher = Fetcher::new(1).unwrap();
    assert!(fetcher.begin(urls(&["a", "b", "c"])));
    assert_eq!(start(&mut fetcher), Some((0, "a".to_string())));
    assert!(!fetcher.is_closed());
    fetcher.close();
    assert!(fetcher.is_closed());
    assert_eq!(fetcher.in_flight(), 1);
    assert!(matches!(fetcher.next_action(), Action::Wait));
    assert!(fetcher.complete(0, body("A"), Duration::from_millis(1)));
    assert!(matches!(fetcher.next_action(), Action::Finished));

    let results = fetcher.finish().unwrap();
    assert_eq!(results[0].as_ref().unwrap(), "A");
    assert!(matches!(results[1], Err(FetchError::TooManyRequests)));
    assert!(matches!(results[2], Err(FetchError::TooManyRequests)));
    // Only the request that was sent is in the metrics.
    assert_eq!(fetcher.metrics().successful_requests(), 1);
    assert_eq!(fetcher.metrics().failed_requests(), 0);

    // A later batch is refused as a whole.
    let later = fetcher.fetch_urls(
        urls(&["d", "e"]),
        vec![
            (body("D"), Duration::from_millis(1)),
            (failure("unused"), Duration::from_millis(1)),
        ],
    );
    assert_eq!(later.len(), 2);
    assert!(matches!(later[0], Err(FetchError::TooManyRequests)));
    assert!(matches!(later[1], Err(FetchError::TooManyRequests)));
    assert_eq!(fetcher.metrics().successful_requests(), 1);
    assert_eq!(fetcher.metrics().failed_requests(), 0);
}

#[test]
fn a_body_that_is_no_valid_utf8_is_decoded_with_replacement() {
    let mut fetcher = Fetcher::new(1).unwrap();
    let results = fetcher.fetch_urls(
        urls(&["binary", "accented"]),
        vec![
            (Ok(vec![b'a', 0xff, b'b']), Duration::from_millis(1)),
            (Ok(vec![0xc3, 0xa9]), Duration::from_millis(1)),
        ],
    );
    assert_eq!(results[0].as_ref().unwrap(), "a\u{fffd}b");
    assert_eq!(results[1].as_ref().unwrap(), "\u{e9}");
    // The bytes counted are those of the bodies, not of the decoded texts.
    assert_eq!(fetcher.metrics().total_bytes(), 5);
}

#[test]
fn the_byte_total_is_the_sum_of_the_fetched_bodies() {
    let mut fetcher = Fetcher::new(2).unwrap();
    let results = fetcher.fetch_urls(
        urls(&["a", "b", "c", "d"]),
        vec![
            (body("12345"), Duration::from_millis(1)),
            (failure("reset"), Duration::from_millis(1)),
            (body(""), Duration::from_millis(1)),
            (body("1234567"), Duration::from_millis(1)),
        ],
    );
    assert_eq!(results.len(), 4);
    assert_eq!(fetcher.metrics().total_bytes(), 12);
    assert_eq!(
        fetcher.metrics().successful_requests() + fetcher.metrics().failed_requests(),
        4
    );
}

#[test]
fn an_address_fetched_twice_is_counted_twice() {
    let mut fetcher = Fetcher::new(3).unwrap();
    let results = fetcher.fetch_urls(
        urls(&["same", "other", "same"]),
        vec![
            (body("1234"), Duration::from_millis(1)),
            (failure("refused"), Duration::from_millis(1)),
            (body("1234"), Duration::from_millis(1)),
        ],
    );
    assert_eq!(results.len(), 3);
    assert_eq!(fetcher.metrics().total_bytes(), 8);
    assert_eq!(fetcher.metrics().successful_requests(), 2);
    assert_eq!(fetcher.metrics().failed_requests(), 1);
}

#[test]
fn the_start_of_a_batch_is_marked_in_the_metrics() {
    let mut fetcher = Fetcher::new(1).unwrap();
    assert!(fetcher.metrics().start_time().is_none());
    assert!(fetcher.begin(urls(&["a"])));
    let start = fetcher.metrics().start_time();
    assert!(start.is_some());
    assert_eq!(start_index(&mut fetcher), Some(0));
    assert!(fetcher.complete(0, body("A"), Duration::from_millis(1)));
    assert_eq!(fetcher.metrics().start_time(), start);
    assert_eq!(fetcher.finish().unwrap().len(), 1);
    assert_eq!(fetcher.metrics().start_time(), start);
}

#[test]
fn an_empty_batch_has_no_outcomes() {
    let mut fetcher = Fetcher::new(4).unwrap();
    let results = fetcher.fetch_urls(Vec::new(), Vec::new());
    assert!(results.is_empty());
    assert_eq!(fetcher.metrics().successful_requests(), 0);
    assert_eq!(fetcher.metrics().failed_requests(), 0);
    assert!(matches!(fetcher.next_action(), Action::Finished));
}

#[test]
fn metrics_go_on_from_batch_to_batch() {
    let mut fetcher = Fetcher::new(2).unwrap();
    fetcher.fetch_urls(urls(&["a"]), vec![(body("1"), Duration::from_secs(1))]);
    fetcher.fetch_urls(urls(&["a"]), vec![(body("22"), Duration::from_secs(3))]);
    assert_eq!(fetcher.metrics().successful_requests(), 2);
    assert_eq!(fetcher.metrics().total_bytes(), 3);
    // The address was timed twice and keeps the later duration: three seconds over two requests.
    assert_eq!(
        fetcher.get_metrics(),
        "Performance Summary:\nTotal Requests: 2\nSuccessful: 2\nFailed: 0\nAverage Duration: 1.50s\nTotal Data: 3 bytes"
    );
}

#[test]
fn fetch_errors_have_their_texts() {
    assert_eq!(
        FetchError::RequestFailed("dns failure".to_string()).message(),
        "Request failed: dns failure"
    );
    assert_eq!(FetchError::TooManyRequests.message(), "Too many requests");
    assert_eq!(
        FetchError::ZeroConcurrency.message(),
        "Concurrency limit must be positive"
    );
}
