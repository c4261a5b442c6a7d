//! The sensor node: its publishing schedule, the pseudo-random noise that
//! its synthetic values use, and the messages it sends.
use vstd::prelude::*;
use vstd::string::*;
use crate::messages::{Heartbeat, SensorReading};

verus! {

/// A heartbeat goes to the edge node after every this many publications.
pub const HEARTBEAT_EVERY_N_PUBLISHES: u64 = 10;

/// Multiplier of the noise generator.
pub const NOISE_MULTIPLIER: u64 = 6364136223846793005;

/// Increment of the noise generator.
pub const NOISE_INCREMENT: u64 = 1442695040888963407;

/// The noise of a sequence number: one step of a linear congruential
/// generator modulo 2^64, keeping its upper 31 bits.
pub open spec fn noise_of(sequence: u64) -> nat {
    ((sequence as nat * NOISE_MULTIPLIER as nat + NOISE_INCREMENT as nat) % 0x1_0000_0000_0000_0000)
        / 0x2_0000_0000
}

/// The noise of a sequence number.
pub fn noise_bits(sequence: u64) -> (r: u64)
    ensures
        r as nat == noise_of(sequence),
        r < 0x8000_0000,
{
    let m = sequence.wrapping_mul(NOISE_MULTIPLIER);
    let x = m.wrapping_add(NOISE_INCREMENT);
    let r = x >> 33;
    proof {
        assert(x >> 33 == x / 0x2_0000_0000) by (bit_vector);
        assert(x >> 33 < 0x8000_0000) by (bit_vector);
        let p = sequence as nat * NOISE_MULTIPLIER as nat;
        assert(m as nat == p % 0x1_0000_0000_0000_0000);
        assert((p % 0x1_0000_0000_0000_0000 + NOISE_INCREMENT as nat) % 0x1_0000_0000_0000_0000
            == (p + NOISE_INCREMENT as nat) % 0x1_0000_0000_0000_0000) by {
            vstd::arithmetic::div_mod::lemma_add_mod_noop(
                p as int,
                NOISE_INCREMENT as int,
                0x1_0000_0000_0000_0000int,
            );
            vstd::arithmetic::div_mod::lemma_mod_twice(NOISE_INCREMENT as int, 0x1_0000_0000_0000_0000int);
        }
    }
    r
}

/// What a step of the publishing loop does.
pub struct Publication {
    /// Sequence number of the reading to publish
    pub sequence: u64,
    /// A heartbeat follows the reading
    pub send_heartbeat: bool,
}

/// The sensor's counters.
pub struct SensorState {
    pub sequence: u64,
    pub heartbeat_counter: u64,
}

impl SensorState {
    /// A sensor that has published nothing yet.
    pub fn new() -> (s: SensorState)
        ensures
            s.sequence == 0,
            s.heartbeat_counter == 0,
    {
        SensorState { sequence: 0, heartbeat_counter: 0 }
    }

    /// The next step of the publishing loop: the sequence number moves on,
    /// and every `HEARTBEAT_EVERY_N_PUBLISHES`-th step sends a heartbeat.
    pub fn next_publication(&mut self) -> (p: Publication)
        requires
            old(self).sequence < u64::MAX,
            old(self).heartbeat_counter < u64::MAX,
        ensures
            final(self).sequence == old(self).sequence + 1,
            final(self).heartbeat_counter == old(self).heartbeat_counter + 1,
            p.sequence == final(self).sequence,
            p.send_heartbeat == (final(self).heartbeat_counter % HEARTBEAT_EVERY_N_PUBLISHES == 0),
    {
        self.sequence = self.sequence + 1;
        self.heartbeat_counter = self.heartbeat_counter + 1;
        Publication {
            sequence: self.sequence,
            send_heartbeat: self.heartbeat_counter % HEARTBEAT_EVERY_N_PUBLISHES == 0,
        }
    }
}

/// The reading with sequence number `sequence`, measured in degrees Celsius.
pub fn reading<V>(sensor_id: &String, timestamp_ms: u64, value: V, sequence: u64) -> (r: SensorReading<V>)
    ensures
        r.sensor_id@ == sensor_id@,
        r.timestamp_ms == timestamp_ms,
        r.value == value,
        r.unit@ == "celsius"@,
        r.sequence == sequence,
{
    SensorReading {
        sensor_id: sensor_id.clone(),
        timestamp_ms,
        value,
        unit: String::from_str("celsius"),
        sequence,
    }
}

/// The sensor's heartbeat at `now_ms`.
pub fn heartbeat(sensor_id: &String, now_ms: u64) -> (hb: Heartbeat)
    ensures
        hb.node_id@ == sensor_id@,
        hb.role@ == "sensor"@,
        hb.timestamp_ms == now_ms,
{
    Heartbeat { node_id: sensor_id.clone(), role: String::from_str("sensor"), timestamp_ms: now_ms }
}

} // verus!
