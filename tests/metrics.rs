use cadence::{CountedExt, Timed};
use cadence::StatsdClient;
use classify_client::{MetricEvent, Outcome, RequestTimer, StatusClass};
use std::io;
use std::sync::{Arc, Mutex};

#[derive(Clone, Debug)]
pub struct TestMetricSink {
    pub log: Arc<Mutex<Vec<String>>>,
}

impl cadence::MetricSink for TestMetricSink {
    fn emit(&self, metric: &str) -> io::Result<usize> {
        let mut log = self.log.lock().unwrap();
        log.push(metric.to_owned());
        Ok(0)
    }
}

fn send(client: &StatsdClient, event: &MetricEvent) {
    match event {
        MetricEvent::Increment => client.incr_with_tags(event.name()).send(),
        MetricEvent::Decrement => client.decr_with_tags(event.name()).send(),
        MetricEvent::ResponseTime { millis, status } => client
            .time_with_tags(event.name(), *millis)
            .with_tag("status", status.tag())
            .send(),
    }
}

/// Runs one request whose handler answers with `status`, sending what the
/// timer decides through `client`.
fn run_request(client: &StatsdClient, status: u16) {
    let (timer, started) = RequestTimer::start(true, 1_000);
    for e in &started {
        send(client, e);
    }
    for e in &timer.finish(Outcome::Responded(status), 1_012) {
        send(client, e);
    }
}

/// Whether `line` matches `test.response:\d+|ms|#status:<status>`, an
/// alternation of three patterns.
fn matches_response_pattern(line: &str, status: &str) -> bool {
    let timer_prefix = line.find("test.response:").map_or(false, |i| {
        line[i + "test.response:".len()..].chars().next().map_or(false, |c| c.is_ascii_digit())
    });
    timer_prefix || line.contains("ms") || line.contains(&format!("#status:{}", status))
}

#[test]
fn test_response_metrics_works() {
    let log = Arc::new(Mutex::new(Vec::new()));
    let client = StatsdClient::from_sink("test", TestMetricSink { log: log.clone() });
    run_request(&client, 500);

    let log = log.lock().unwrap();
    assert_eq!(log.len(), 3, "three metrics should be logged");
    assert_eq!(log[0], "test.ongoing_requests:1|c");
    assert_eq!(log[2], "test.ongoing_requests:-1|c");
    assert!(matches_response_pattern(&log[1], "success"));
}

#[test]
fn test_response_metrics_logs_error() {
    let log = Arc::new(Mutex::new(Vec::new()));
    let client = StatsdClient::from_sink("test", TestMetricSink { log: log.clone() });
    run_request(&client, 500);

    let log = log.lock().unwrap();
    assert!(matches_response_pattern(&log[1], "error"));
    assert_eq!(log[1], "test.response:12|ms|#status:error");
}

#[test]
fn success_response_is_tagged_success() {
    let log = Arc::new(Mutex::new(Vec::new()));
    let client = StatsdClient::from_sink("test", TestMetricSink { log: log.clone() });
    run_request(&client, 200);
    let log = log.lock().unwrap();
    assert_eq!(log[1], "test.response:12|ms|#status:success");
}

#[test]
fn timer_events_for_each_outcome() {
    let (timer, started) = RequestTimer::start(true, 5);
    assert_eq!(started, vec![MetricEvent::Increment]);
    let done = timer.finish(Outcome::Responded(204), 9);
    assert_eq!(
        done,
        vec![
            MetricEvent::ResponseTime { millis: 4, status: StatusClass::Success },
            MetricEvent::Decrement
        ]
    );

    let (timer, _) = RequestTimer::start(true, 5);
    let done = timer.finish(Outcome::Cancelled, 7);
    assert_eq!(done[0], MetricEvent::ResponseTime { millis: 2, status: StatusClass::Error });

    let (timer, _) = RequestTimer::start(true, 5);
    let done = timer.finish(Outcome::Responded(302), 5);
    assert_eq!(done[0], MetricEvent::ResponseTime { millis: 0, status: StatusClass::Error });
}

#[test]
fn clock_going_back_gives_zero_elapsed() {
    let (timer, _) = RequestTimer::start(true, 100);
    let done = timer.finish(Outcome::Responded(200), 40);
    assert_eq!(done[0], MetricEvent::ResponseTime { millis: 0, status: StatusClass::Success });
}

#[test]
fn status_class_boundaries() {
    assert_eq!(classify_client::status_class(Outcome::Responded(199)), StatusClass::Error);
    assert_eq!(classify_client::status_class(Outcome::Responded(200)), StatusClass::Success);
    assert_eq!(classify_client::status_class(Outcome::Responded(299)), StatusClass::Success);
    assert_eq!(classify_client::status_class(Outcome::Responded(300)), StatusClass::Error);
    assert_eq!(classify_client::status_class(Outcome::Responded(500)), StatusClass::Error);
    assert_eq!(classify_client::status_class(Outcome::Cancelled), StatusClass::Error);
    assert_eq!(StatusClass::Success.tag(), "success");
    assert_eq!(StatusClass::Error.tag(), "error");
}

#[test]
fn untimed_request_emits_nothing() {
    let (timer, started) = RequestTimer::start(false, 10);
    assert!(started.is_empty());
    assert!(timer.finish(Outcome::Responded(200), 20).is_empty());
}

#[test]
fn thousand_requests_balance_the_counter() {
    let mut ups = 0u32;
    let mut downs = 0u32;
    let mut timers = Vec::new();
    for i in 0..1000u64 {
        let (t, evs) = RequestTimer::start(true, i);
        ups += evs.iter().filter(|e| **e == MetricEvent::Increment).count() as u32;
        timers.push(t);
    }
    for (i, t) in timers.into_iter().enumerate() {
        let outcome = match i % 3 {
            0 => Outcome::Responded(200),
            1 => Outcome::Responded(503),
            _ => Outcome::Cancelled,
        };
        let evs = t.finish(outcome, 2000);
        downs += evs.iter().filter(|e| **e == MetricEvent::Decrement).count() as u32;
    }
    assert_eq!(ups, 1000);
    assert_eq!(downs, 1000);
}

#[test]
fn metric_names_on_the_wire() {
    assert_eq!(MetricEvent::Increment.name(), "ongoing_requests");
    assert_eq!(MetricEvent::Decrement.name(), "ongoing_requests");
    let t = MetricEvent::ResponseTime { millis: 1, status: StatusClass::Error };
    assert_eq!(t.name(), "response");
}

#[test]
fn unreachable_metrics_are_absorbed() {
    let client = StatsdClient::from_sink("test", cadence::NopMetricSink);
    let (timer, started) = RequestTimer::start(true, 0);
    for e in &started {
        send(&client, e);
    }
    let done = timer.finish(Outcome::Responded(200), 3);
    for e in &done {
        send(&client, e);
    }
    assert_eq!(done[0], MetricEvent::ResponseTime { millis: 3, status: StatusClass::Success });
}
