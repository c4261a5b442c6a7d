use heartbeat_iot::backoff::next_delay_ms;
use heartbeat_iot::edge::{
    health, heartbeat_acknowledged, reading_accepted, DeliveryOutcome, EdgeState, ForwardAction, ForwardRetry, ReadingWindow, RegisterAction, RegisterRetry, Sample,
    WINDOW_SIZE,
};

fn node() -> EdgeState<f64> {
    EdgeState::new("edge-1".to_string(), 500)
}

#[test]
fn window_keeps_the_latest_ten() {
    let mut w: ReadingWindow<u32> = ReadingWindow::new();
    for v in 1..=12u32 {
        w.push(Sample { value: v, over_threshold: false });
    }
    assert_eq!(w.len(), WINDOW_SIZE);
    let values: Vec<u32> = w.samples().iter().map(|s| s.value).collect();
    assert_eq!(values, (3..=12).collect::<Vec<u32>>());
}

#[test]
fn anomaly_leaves_with_its_sample() {
    let mut w: ReadingWindow<u32> = ReadingWindow::new();
    w.push(Sample { value: 40, over_threshold: true });
    assert!(w.anomaly_detected());
    for v in 0..9u32 {
        w.push(Sample { value: v, over_threshold: false });
    }
    assert!(w.anomaly_detected());
    w.push(Sample { value: 9, over_threshold: false });
    assert!(!w.anomaly_detected());
}

#[test]
fn reading_and_report() {
    let mut n = node();
    n.record_reading(20.0, false, 1_000);
    n.record_reading(39.0, true, 1_500);
    assert_eq!(n.total_readings(), 2);
    assert_eq!(n.last_reading_ts(), 1_500);
    let r = n.build_report(29.5, 1_500, 1_700);
    assert_eq!(r.edge_id, "edge-1");
    assert_eq!(r.window_avg, 29.5);
    assert!(r.anomaly_detected);
    assert_eq!(r.sample_count, 2);
    assert_eq!(r.latency_ms, 200);
    assert_eq!(r.latest_sensor_ts, 1_500);
    // a sensor clock ahead of the edge's gives zero latency
    let late = n.build_report(29.5, 2_000, 1_700);
    assert_eq!(late.latency_ms, 0);
}

#[test]
fn registration_request_names_address() {
    let n = node();
    let req = n.registration_request(8080);
    assert_eq!(req.node_id, "edge-1");
    assert_eq!(req.role, "edge");
    assert_eq!(req.address, "http://edge-1:8080");
    assert_eq!(n.registration_request(0).address, "http://edge-1:0");
}

#[test]
fn heartbeat_names_the_edge() {
    let hb = node().heartbeat(42);
    assert_eq!(hb.node_id, "edge-1");
    assert_eq!(hb.role, "edge");
    assert_eq!(hb.timestamp_ms, 42);
}

#[test]
fn every_fifth_delivered_report_sends_heartbeat() {
    let mut n = node();
    let mut beats = Vec::new();
    for _ in 0..10 {
        match n.forward_outcome(ForwardRetry::start(500), DeliveryOutcome::Accepted) {
            ForwardAction::Delivered { send_heartbeat } => beats.push(send_heartbeat),
            _ => panic!("a delivered report is done"),
        }
    }
    assert_eq!(beats, vec![false, false, false, false, true, false, false, false, false, true]);
    assert_eq!(n.reports_sent(), 10);
    assert!(n.coordinator_reachable());
}

#[test]
fn failed_forward_backs_off_then_gives_up() {
    let mut n = node();
    let mut retry = ForwardRetry::start(500);
    let mut delays = Vec::new();
    loop {
        assert!(retry.attempt() <= 5);
        match n.forward_outcome(retry, DeliveryOutcome::Unreachable) {
            ForwardAction::RetryAfter { delay_ms, next } => {
                delays.push(delay_ms);
                retry = next;
            },
            ForwardAction::GiveUp => break,
            ForwardAction::Delivered { .. } => panic!("nothing was delivered"),
        }
    }
    assert_eq!(delays, vec![500, 1_000, 2_000, 4_000]);
    assert!(!n.coordinator_reachable());
    assert_eq!(n.reports_sent(), 0);
}

#[test]
fn rejected_forward_keeps_reachability() {
    let mut n = node();
    n.forward_outcome(ForwardRetry::start(500), DeliveryOutcome::Accepted);
    match n.forward_outcome(ForwardRetry::start(500), DeliveryOutcome::Rejected) {
        ForwardAction::RetryAfter { delay_ms, next } => {
            assert_eq!(delay_ms, 500);
            assert_eq!(next.attempt(), 2);
            assert_eq!(next.delay_ms(), 1_000);
        },
        _ => panic!("a rejected first attempt is retried"),
    }
    assert!(n.coordinator_reachable());
}

#[test]
fn backoff_is_capped() {
    assert_eq!(next_delay_ms(500), 1_000);
    assert_eq!(next_delay_ms(20_000), 30_000);
    assert_eq!(next_delay_ms(30_000), 30_000);
    assert_eq!(next_delay_ms(40_000), 30_000);
    assert_eq!(next_delay_ms(0), 0);
    // a first delay above the ceiling is used once, then the ceiling applies
    let mut n = node();
    match n.forward_outcome(ForwardRetry::start(40_000), DeliveryOutcome::Rejected) {
        ForwardAction::RetryAfter { delay_ms, next } => {
            assert_eq!(delay_ms, 40_000);
            assert_eq!(next.delay_ms(), 30_000);
        },
        _ => panic!("a rejected first attempt is retried"),
    }
}

#[test]
fn registration_retries_until_accepted() {
    let mut n = node();
    let mut retry = RegisterRetry::start(16_000);
    let mut delays = Vec::new();
    for _ in 0..3 {
        match n.registration_outcome(retry, DeliveryOutcome::Unreachable) {
            RegisterAction::RetryAfter { delay_ms, next } => {
                delays.push(delay_ms);
                retry = next;
            },
            RegisterAction::Registered => panic!("not accepted yet"),
        }
    }
    assert_eq!(delays, vec![16_000, 30_000, 30_000]);
    assert!(!n.coordinator_reachable());
    assert!(matches!(n.registration_outcome(retry, DeliveryOutcome::Accepted), RegisterAction::Registered));
    assert!(n.coordinator_reachable());
}

#[test]
fn edge_replies() {
    let h = health();
    assert_eq!(h.status, "healthy");
    assert_eq!(h.role, "edge");
    let r = reading_accepted();
    assert!(r.success);
    assert_eq!(r.message, "Reading accepted");
    let a = heartbeat_acknowledged();
    assert!(a.success);
    assert_eq!(a.message, "Heartbeat acknowledged");
}

#[test]
fn older_values_never_matter() {
    let mut a: ReadingWindow<u32> = ReadingWindow::new();
    let mut b: ReadingWindow<u32> = ReadingWindow::new();
    for v in 0..7u32 {
        a.push(Sample { value: 100 + v, over_threshold: true });
    }
    for v in 0..10u32 {
        a.push(Sample { value: v, over_threshold: false });
        b.push(Sample { value: v, over_threshold: false });
    }
    let va: Vec<u32> = a.samples().iter().map(|s| s.value).collect();
    let vb: Vec<u32> = b.samples().iter().map(|s| s.value).collect();
    assert_eq!(va, vb);
    assert_eq!(a.anomaly_detected(), b.anomaly_detected());
}
