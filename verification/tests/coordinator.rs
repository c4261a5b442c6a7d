use heartbeat_iot::coordinator::{health, is_edge_role, reception_latency_ms, CoordState, EdgeEntry, HEARTBEAT_TIMEOUT_S};
use heartbeat_iot::messages::{EdgeReport, Heartbeat, RegisterRequest};

fn hb(id: &str) -> Heartbeat {
    Heartbeat { node_id: id.to_string(), role: "edge".to_string(), timestamp_ms: 0 }
}

fn sensor_hb(id: &str) -> Heartbeat {
    Heartbeat { node_id: id.to_string(), role: "sensor".to_string(), timestamp_ms: 0 }
}

fn report(id: &str, samples: u32, anomaly: bool, sensor_ts: u64) -> EdgeReport<f64> {
    EdgeReport {
        edge_id: id.to_string(),
        window_avg: 25.0,
        anomaly_detected: anomaly,
        sample_count: samples,
        latency_ms: 1,
        latest_sensor_ts: sensor_ts,
    }
}

fn reg(id: &str) -> RegisterRequest {
    RegisterRequest { node_id: id.to_string(), role: "edge".to_string(), address: "http://x:1".to_string() }
}

fn entry<'a>(s: &'a CoordState, id: &str) -> &'a EdgeEntry {
    let i = s.find(&id.to_string()).expect("known node");
    &s.edges()[i]
}

#[test]
fn register_adds_node_once() {
    let mut s = CoordState::new(0);
    let r = s.register(&reg("edge-1"), 100);
    assert!(r.success);
    assert_eq!(r.message, "edge-1 registered");
    assert_eq!(s.edges().len(), 1);
    assert_eq!(entry(&s, "edge-1").last_heartbeat_ms, 100);
    let r2 = s.register(&reg("edge-1"), 5_000);
    assert_eq!(r2.message, "edge-1 registered");
    assert_eq!(s.edges().len(), 1);
    // a known node is left as it was
    assert_eq!(entry(&s, "edge-1").last_heartbeat_ms, 100);
    assert_eq!(s.clock_ms(), 5_000);
}

#[test]
fn heartbeat_from_unknown_node_adds_it() {
    let mut s = CoordState::new(0);
    let r = s.receive_heartbeat(&hb("sensor-1"), 2_000);
    assert!(r.success);
    assert_eq!(r.message, "Heartbeat acknowledged");
    assert_eq!(s.edges().len(), 1);
    assert_eq!(entry(&s, "sensor-1").last_heartbeat_ms, 2_000);
    s.receive_heartbeat(&hb("sensor-1"), 3_000);
    assert_eq!(s.edges().len(), 1);
    assert_eq!(entry(&s, "sensor-1").last_heartbeat_ms, 3_000);
    assert!(entry(&s, "sensor-1").is_alive(3_000));
}

#[test]
fn report_updates_node_and_totals() {
    let mut s = CoordState::new(0);
    // latencies are measured from the sensor's timestamp to the reception
    let r = s.receive_report(&report("edge-1", 10, false, 1_000_000), 1_000, 1_000_040);
    assert_eq!(r.message, "Report accepted");
    s.receive_report(&report("edge-1", 10, true, 1_000_100), 2_000, 1_000_160);
    s.receive_report(&report("edge-2", 3, false, 1_000_200), 2_500, 1_000_207);
    let e = entry(&s, "edge-1");
    assert!(e.is_edge);
    assert_eq!(e.total_reports, 2);
    // one report is sent per reading, so each report adds one reading
    assert_eq!(e.total_readings, 2);
    assert_eq!(e.anomaly_count, 1);
    assert_eq!(e.latency_sum_ms, 100);
    assert_eq!(e.latency_count, 2);
    assert_eq!(e.avg_latency_ms(), 50);
    assert_eq!(e.last_report_ms, Some(2_000));
    assert_eq!(e.last_heartbeat_ms, 2_000);
    assert_eq!(entry(&s, "edge-2").latency_sum_ms, 7);
    assert_eq!(s.total_readings(), 3);
    assert_eq!(s.anomalies_total(), 1);
    // the total equals the sum of the nodes' totals
    let sum: u64 = s.edges().iter().map(|e| e.total_readings).sum();
    assert_eq!(sum, s.total_readings());
}

#[test]
fn overlapping_windows_count_each_reading_once() {
    let mut s = CoordState::new(0);
    for i in 1..=12u32 {
        s.receive_report(&report("edge-1", i.min(10), false, 0), i as u64, 0);
    }
    assert_eq!(s.status(12).total_readings, 12);
}

#[test]
fn latency_from_a_sensor_clock_ahead_is_zero() {
    let mut s = CoordState::new(0);
    s.receive_report(&report("edge-1", 1, false, 5_000), 0, 4_000);
    assert_eq!(entry(&s, "edge-1").latency_sum_ms, 0);
    assert_eq!(reception_latency_ms(4_000, 5_000), 0);
    assert_eq!(reception_latency_ms(5_300, 5_000), 300);
}

#[test]
fn sensors_are_not_active_edges() {
    let mut s = CoordState::new(0);
    s.receive_heartbeat(&sensor_hb("sensor-1"), 0);
    assert_eq!(s.status(0).active_edges, 0);
    assert!(!entry(&s, "sensor-1").is_edge);
    s.receive_heartbeat(&hb("edge-1"), 0);
    assert_eq!(s.status(0).active_edges, 1);
    s.register(
        &RegisterRequest { node_id: "sensor-2".to_string(), role: "sensor".to_string(), address: String::new() },
        0,
    );
    assert_eq!(s.status(0).active_edges, 1);
    // a report shows the node is an edge node
    s.receive_report(&report("sensor-1", 1, false, 0), 0, 0);
    assert_eq!(s.status(0).active_edges, 2);
    assert!(is_edge_role(&"edge".to_string()));
    assert!(!is_edge_role(&"sensor".to_string()));
}

#[test]
fn reports_in_either_order_leave_the_same_counters() {
    let mut a = CoordState::new(0);
    let mut b = CoordState::new(0);
    let r1 = report("edge-1", 3, true, 100);
    let r2 = report("edge-2", 5, false, 50);
    a.receive_report(&r1, 10, 200);
    a.receive_report(&r2, 20, 300);
    b.receive_report(&r2, 10, 200);
    b.receive_report(&r1, 20, 300);
    assert_eq!(a.total_readings(), b.total_readings());
    assert_eq!(a.status(20).anomalies_last_min, b.status(20).anomalies_last_min);
    for id in ["edge-1", "edge-2"] {
        let (x, y) = (entry(&a, id), entry(&b, id));
        assert_eq!(x.total_reports, y.total_reports);
        assert_eq!(x.total_readings, y.total_readings);
        assert_eq!(x.anomaly_count, y.anomaly_count);
        assert_eq!(x.latency_count, y.latency_count);
    }
}

#[test]
fn node_counters_agree() {
    let mut s = CoordState::new(0);
    s.receive_heartbeat(&hb("edge-1"), 0);
    assert_eq!(entry(&s, "edge-1").last_report_ms, None);
    s.receive_report(&report("edge-1", 1, true, 0), 5, 0);
    s.receive_report(&report("edge-1", 2, false, 0), 6, 0);
    let e = entry(&s, "edge-1");
    assert_eq!(e.latency_count, e.total_reports);
    assert!(e.anomaly_count <= e.total_reports);
    assert_eq!(e.last_report_ms, Some(6));
}

#[test]
fn reported_node_stays_active_for_the_timeout() {
    let mut s = CoordState::new(0);
    s.receive_report(&report("edge-1", 1, false, 0), 1_000, 0);
    assert_eq!(s.status(10_999).active_edges, 1);
    assert_eq!(s.status(11_000).active_edges, 0);
}

#[test]
fn avg_latency_is_zero_before_reports() {
    let e = EdgeEntry::new("edge-1".to_string(), true, 0);
    assert_eq!(e.avg_latency_ms(), 0);
}

#[test]
fn alive_within_timeout_only() {
    let e = EdgeEntry::new("edge-1".to_string(), true, 1_000);
    assert_eq!(HEARTBEAT_TIMEOUT_S, 10);
    assert!(e.is_alive(1_000));
    assert!(e.is_alive(10_999));
    assert!(!e.is_alive(11_000));
    // a time before the last heartbeat counts as no time elapsed
    assert!(e.is_alive(0));
}

#[test]
fn status_counts_active_edges_and_uptime() {
    let mut s = CoordState::new(1_000);
    s.receive_heartbeat(&hb("edge-1"), 1_000);
    s.receive_heartbeat(&hb("edge-2"), 8_000);
    let st = s.status(12_500);
    assert_eq!(st.active_edges, 1);
    assert_eq!(st.uptime_s, 11);
    assert_eq!(st.total_readings, 0);
    assert_eq!(st.anomalies_last_min, 0);
    let st2 = s.status(2_000);
    // the coordinator's clock never goes backwards
    assert_eq!(st2.active_edges, 2);
    assert_eq!(st2.uptime_s, 7);
}

#[test]
fn anomalies_last_min_counts_only_the_last_minute() {
    let mut s = CoordState::new(0);
    s.receive_report(&report("edge-1", 1, true, 0), 1_000, 0);
    s.receive_report(&report("edge-1", 1, true, 0), 30_000, 0);
    s.receive_report(&report("edge-1", 1, false, 0), 40_000, 0);
    assert_eq!(s.status(40_000).anomalies_last_min, 2);
    assert_eq!(s.status(60_999).anomalies_last_min, 2);
    assert_eq!(s.status(61_000).anomalies_last_min, 1);
    assert_eq!(s.status(90_000).anomalies_last_min, 0);
    assert_eq!(s.anomalies_total(), 2);
}

#[test]
fn watch_reports_down_and_reconnected() {
    let mut s = CoordState::new(0);
    s.receive_heartbeat(&hb("edge-1"), 0);
    s.receive_heartbeat(&hb("edge-2"), 0);
    assert!(s.watch_liveness(9_999).is_empty());
    s.receive_heartbeat(&hb("edge-2"), 9_999);
    let changes = s.watch_liveness(10_000);
    assert_eq!(changes.len(), 1);
    assert_eq!(changes[0].node_id, "edge-1");
    assert!(changes[0].went_down);
    assert_eq!(changes[0].silent_for_s, 10);
    assert!(entry(&s, "edge-1").was_down);
    assert!(!entry(&s, "edge-2").was_down);
    // a second watch at the same time reports nothing
    assert!(s.watch_liveness(10_000).is_empty());
    s.receive_heartbeat(&hb("edge-1"), 12_000);
    let back = s.watch_liveness(12_000);
    assert_eq!(back.len(), 1);
    assert_eq!(back[0].node_id, "edge-1");
    assert!(!back[0].went_down);
    assert_eq!(back[0].silent_for_s, 0);
    assert!(!entry(&s, "edge-1").was_down);
}

#[test]
fn clock_never_goes_backwards() {
    let mut s = CoordState::new(0);
    s.receive_report(&report("edge-1", 1, false, 0), 5_000, 0);
    s.receive_heartbeat(&hb("edge-1"), 3_000);
    assert_eq!(entry(&s, "edge-1").last_heartbeat_ms, 5_000);
    assert_eq!(s.clock_ms(), 5_000);
}

#[test]
fn report_fits_on_ordinary_counters() {
    let s = CoordState::new(0);
    assert!(s.can_accept_report(&report("edge-1", u32::MAX, true, 0), u64::MAX));
}

#[test]
fn coordinator_health() {
    let h = health();
    assert_eq!(h.status, "healthy");
    assert_eq!(h.role, "coordinator");
}
