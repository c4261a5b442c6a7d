use heartbeat_iot::messages::{HealthResponse, RegisterResponse};
use heartbeat_iot::text::{lex_less, to_decimal};

#[test]
fn decimal_rendering() {
    assert_eq!(to_decimal(0), "0");
    assert_eq!(to_decimal(7), "7");
    assert_eq!(to_decimal(10), "10");
    assert_eq!(to_decimal(12345), "12345");
    assert_eq!(to_decimal(u64::MAX), u64::MAX.to_string());
}

#[test]
fn lexicographic_order_matches_string_order() {
    let cases = ["", "a", "ab", "b", "edge-1", "edge-10", "edge-2", "Édge", "zz"];
    for a in cases {
        for b in cases {
            assert_eq!(lex_less(&a.to_string(), &b.to_string()), a < b, "{} < {}", a, b);
        }
    }
}

#[test]
fn health_and_acknowledgement() {
    let h = HealthResponse::healthy("coordinator");
    assert_eq!(h.status, "healthy");
    assert_eq!(h.role, "coordinator");
    let r = RegisterResponse::acknowledged("Reading accepted");
    assert!(r.success);
    assert_eq!(r.message, "Reading accepted");
}
