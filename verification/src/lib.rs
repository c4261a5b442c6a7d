//! Heartbeat-IoT: the decision logic of a sensor → edge → coordinator
//! pipeline.
//!
//! The library holds everything that decides or computes: message values,
//! the coordinator's table of edge nodes and its liveness watch, the
//! edge node's sliding window and its retry schedule with exponential
//! backoff, the sensor's publishing schedule and the coordinator's HTML
//! dashboard. Sockets, timers, clocks and floating-point arithmetic live in
//! the program around it.
pub mod backoff;
pub mod messages;
pub mod sensor;
pub mod text;
pub mod coordinator;
pub mod coordinator_laws;
pub mod dashboard;
pub mod edge;
