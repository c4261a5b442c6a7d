use heartbeat_iot::sensor::{heartbeat, noise_bits, reading, SensorState};

#[test]
fn heartbeat_every_tenth_publication() {
    let mut s = SensorState::new();
    let mut with_heartbeat = Vec::new();
    for _ in 0..25 {
        let p = s.next_publication();
        if p.send_heartbeat {
            with_heartbeat.push(p.sequence);
        }
    }
    assert_eq!(with_heartbeat, vec![10, 20]);
    assert_eq!(s.sequence, 25);
}

#[test]
fn noise_follows_the_generator() {
    assert_eq!(noise_bits(1), 908834774);
    assert_eq!(noise_bits(7), 1059165278);
    assert!(noise_bits(u64::MAX) < 0x8000_0000);
}

#[test]
fn reading_is_in_celsius() {
    let r = reading(&"sensor-1".to_string(), 99, 21.5f64, 3);
    assert_eq!(r.sensor_id, "sensor-1");
    assert_eq!(r.timestamp_ms, 99);
    assert_eq!(r.value, 21.5);
    assert_eq!(r.unit, "celsius");
    assert_eq!(r.sequence, 3);
}

#[test]
fn sensor_heartbeat() {
    let hb = heartbeat(&"sensor-2".to_string(), 7);
    assert_eq!(hb.node_id, "sensor-2");
    assert_eq!(hb.role, "sensor");
    assert_eq!(hb.timestamp_ms, 7);
}
