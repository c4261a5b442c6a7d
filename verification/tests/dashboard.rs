use heartbeat_iot::coordinator::CoordState;
use heartbeat_iot::dashboard::{dashboard, dashboard_rows, render_dashboard, NO_EDGES_ROW, PAGE_TAIL};
use heartbeat_iot::messages::{EdgeReport, Heartbeat};

fn hb(id: &str) -> Heartbeat {
    Heartbeat { node_id: id.to_string(), role: "edge".to_string(), timestamp_ms: 0 }
}

#[test]
fn rows_are_sorted_by_node_id() {
    let mut s = CoordState::new(0);
    for id in ["edge-2", "edge-10", "edge-1", "alpha"] {
        s.receive_heartbeat(&hb(id), 0);
    }
    let rows = dashboard_rows(&s, 0);
    let ids: Vec<&str> = rows.iter().map(|r| r.node_id.as_str()).collect();
    assert_eq!(ids, vec!["alpha", "edge-1", "edge-10", "edge-2"]);
}

#[test]
fn empty_dashboard_says_no_edges() {
    let s = CoordState::new(0);
    let page = dashboard(&s, 3_000);
    assert!(page.contains(NO_EDGES_ROW));
    assert!(page.ends_with(PAGE_TAIL));
    assert!(page.starts_with("<!DOCTYPE html><html><head><meta charset=\"UTF-8\"><meta http-equiv=\"refresh\" content=\"3\">"));
    assert!(page.contains("<div class=\"v\">0</div><div class=\"l\">Active Edges</div>"));
    assert!(page.contains("<div class=\"v\">3s</div><div class=\"l\">Uptime</div>"));
}

#[test]
fn dashboard_row_html() {
    let mut s = CoordState::new(0);
    s.receive_report(
        &EdgeReport {
            edge_id: "edge-1".to_string(),
            window_avg: 30.0f64,
            anomaly_detected: true,
            sample_count: 10,
            latency_ms: 1,
            latest_sensor_ts: 500,
        },
        1_000,
        542,
    );
    s.receive_heartbeat(&hb("edge-2"), 0);
    let page = dashboard(&s, 13_000);
    assert!(page.contains(
        "<tr><td>edge-1</td><td class=\"offline\">offline</td><td>1</td><td>1</td><td>42ms</td><td>12s ago</td></tr>\n"
    ));
    assert!(page.contains(
        "<tr><td>edge-2</td><td class=\"offline\">offline</td><td>0</td><td>0</td><td>0ms</td><td>12s ago</td></tr>\n"
    ));
    assert!(page.contains("<div class=\"v\">1</div><div class=\"l\">Total Readings</div>"));
    assert!(page.contains("<div class=\"v\">1</div><div class=\"l\">Anomalies (session)</div>"));
    let online = dashboard(&s, 5_000);
    assert!(online.contains("<tr><td>edge-1</td><td class=\"idle\">online</td>"));
    assert!(online.contains("<div class=\"v\">2</div><div class=\"l\">Active Edges</div>"));
    // a sensor is listed but does not count as an active edge
    s.receive_heartbeat(&Heartbeat { node_id: "sensor-1".to_string(), role: "sensor".to_string(), timestamp_ms: 0 }, 1_000);
    let with_sensor = dashboard(&s, 5_000);
    assert!(with_sensor.contains("<div class=\"v\">2</div><div class=\"l\">Active Edges</div>"));
    assert!(with_sensor.contains("<tr><td>sensor-1</td><td class=\"idle\">online</td>"));
    assert!(online.find("edge-1").unwrap() < online.find("edge-2").unwrap());
}

#[test]
fn render_with_given_totals() {
    let page = render_dashboard(3, 1234, 5, 60, &Vec::new());
    assert!(page.contains("<div class=\"v\">1234</div><div class=\"l\">Total Readings</div>"));
    assert!(page.contains("<div class=\"v\">5</div><div class=\"l\">Anomalies (session)</div>"));
    assert!(page.contains("<div class=\"v\">60s</div><div class=\"l\">Uptime</div>"));
}
