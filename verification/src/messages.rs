//! The values exchanged between sensors, edge nodes and the coordinator.
//!
//! Readings and reports carry a measured value whose type is left to the
//! caller (the programs use a floating-point temperature); the library only
//! moves it around.
use vstd::prelude::*;
use vstd::string::*;

verus! {

/// Raw reading published by a sensor node to its local edge node.
#[derive(Debug, Clone)]
pub struct SensorReading<V> {
    /// Unique sensor identifier (e.g. "sensor-1")
    pub sensor_id: String,
    /// Unix timestamp in milliseconds at time of generation
    pub timestamp_ms: u64,
    /// Measured value (e.g. temperature in °C)
    pub value: V,
    /// Unit of measurement (e.g. "celsius")
    pub unit: String,
    /// Monotonically increasing sequence number, used to detect lost messages
    pub sequence: u64,
}

/// Aggregated report sent by an edge node to the coordinator.
#[derive(Debug, Clone)]
pub struct EdgeReport<V> {
    /// Unique edge identifier (e.g. "edge-1")
    pub edge_id: String,
    /// Moving average over the last samples of the window
    pub window_avg: V,
    /// True if any value in the window exceeded the anomaly threshold
    pub anomaly_detected: bool,
    /// Number of samples included in this report
    pub sample_count: u32,
    /// End-to-end latency estimate: coordinator_recv_ts - sensor_timestamp_ms
    pub latency_ms: u64,
    /// Timestamp of the most recent sensor reading included
    pub latest_sensor_ts: u64,
}

/// Coordinator status exposed at GET /status
#[derive(Debug, Clone)]
pub struct CoordStatus {
    /// Number of edge nodes currently sending heartbeats
    pub active_edges: usize,
    /// Total sensor readings received since startup
    pub total_readings: u64,
    /// Number of anomalies detected in the last minute
    pub anomalies_last_min: u32,
    /// Coordinator uptime in seconds
    pub uptime_s: u64,
}

/// Periodic liveness signal sent by sensor and edge nodes to the coordinator.
/// The coordinator marks a node as down if no heartbeat is received within
/// the heartbeat timeout.
#[derive(Debug, Clone)]
pub struct Heartbeat {
    /// Node identifier
    pub node_id: String,
    /// Role of the sending node: "sensor" | "edge"
    pub role: String,
    /// Unix timestamp in milliseconds
    pub timestamp_ms: u64,
}

/// Registration of a node with the coordinator.
#[derive(Debug, Clone)]
pub struct RegisterRequest {
    pub node_id: String,
    pub role: String,
    /// HTTP address where the node can be reached (for coordinator pull-health)
    pub address: String,
}

/// Answer to a registration, a heartbeat, a report or a reading.
#[derive(Debug, Clone)]
pub struct RegisterResponse {
    pub success: bool,
    pub message: String,
}

/// Answer of the health endpoint.
#[derive(Debug, Clone)]
pub struct HealthResponse {
    pub status: String,
    pub role: String,
}

impl RegisterResponse {
    /// A successful answer carrying `message`.
    pub fn acknowledged(message: &str) -> (r: RegisterResponse)
        ensures
            r.success,
            r.message@ == message@,
    {
        RegisterResponse { success: true, message: String::from_str(message) }
    }
}

impl HealthResponse {
    /// The health answer of a node with the given role: it is always healthy.
    pub fn healthy(role: &str) -> (r: HealthResponse)
        ensures
            r.status@ == "healthy"@,
            r.role@ == role@,
    {
        HealthResponse { status: String::from_str("healthy"), role: String::from_str(role) }
    }
}

} // verus!
