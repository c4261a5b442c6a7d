//! The edge node: a sliding window over the latest sensor readings, the
//! report it derives from the window, and the retry schedules with which it
//! forwards reports to the coordinator and registers with it.
//!
//! The measured value is of any type `V`; the edge node only stores it and
//! records, per sample, whether it exceeded the anomaly threshold (a
//! comparison made by the caller).
use vstd::prelude::*;
use vstd::string::*;
use std::collections::VecDeque;
use crate::backoff::{delay_at, next_delay, next_delay_ms};
use crate::messages::{EdgeReport, HealthResponse, Heartbeat, RegisterRequest, RegisterResponse};
use crate::text::{decimal, push_decimal};

verus! {

/// Number of samples in the moving window.
pub const WINDOW_SIZE: usize = 10;

/// A heartbeat goes to the coordinator after every this many delivered reports.
pub const HEARTBEAT_EVERY_N_REPORTS: u32 = 5;

/// A report is tried at most this many times.
pub const MAX_FORWARD_ATTEMPTS: u32 = 5;

/// One sample of the window.
pub struct Sample<V> {
    pub value: V,
    /// The value exceeded the anomaly threshold
    pub over_threshold: bool,
}

/// The window after a new sample: the sample is appended and, when the
/// window overflows, the oldest one leaves.
pub open spec fn slide<V>(w: Seq<Sample<V>>, s: Sample<V>) -> Seq<Sample<V>> {
    if w.len() + 1 > WINDOW_SIZE { w.push(s).drop_first() } else { w.push(s) }
}

/// Some sample of the window exceeded the threshold.
pub open spec fn any_over<V>(w: Seq<Sample<V>>) -> bool {
    exists|i: int| 0 <= i < w.len() && #[trigger] w[i].over_threshold
}

/// The window after the samples of `history`, in order, from an empty one.
pub open spec fn window_of<V>(history: Seq<Sample<V>>) -> Seq<Sample<V>>
    decreases history.len(),
{
    if history.len() == 0 {
        seq![]
    } else {
        slide(window_of(history.drop_last()), history.last())
    }
}

/// The moving window of the latest samples.
pub struct ReadingWindow<V> {
    samples: VecDeque<Sample<V>>,
}

impl<V> View for ReadingWindow<V> {
    type V = Seq<Sample<V>>;

    closed spec fn view(&self) -> Seq<Sample<V>> {
        self.samples@
    }
}

impl<V> ReadingWindow<V> {
    #[verifier::type_invariant]
    spec fn bounded(self) -> bool {
        self.samples@.len() <= WINDOW_SIZE
    }

    /// An empty window.
    pub fn new() -> (w: ReadingWindow<V>)
        ensures
            w@ == Seq::<Sample<V>>::empty(),
    {
        ReadingWindow { samples: VecDeque::new() }
    }

    /// The samples, oldest first.
    pub fn samples(&self) -> (r: &VecDeque<Sample<V>>)
        ensures
            r@ == self@,
            self@.len() <= WINDOW_SIZE,
    {
        proof { use_type_invariant(self); }
        &self.samples
    }

    /// Number of samples in the window.
    pub fn len(&self) -> (n: usize)
        ensures
            n == self@.len(),
            n <= WINDOW_SIZE,
    {
        proof { use_type_invariant(self); }
        self.samples.len()
    }

    /// Adds a sample; the oldest leaves when the window is full.
    pub fn push(&mut self, sample: Sample<V>)
        ensures
            final(self)@ == slide(old(self)@, sample),
    {
        proof { use_type_invariant(&*self); }
        let ghost before = self@;
        let mut samples = VecDeque::new();
        std::mem::swap(&mut samples, &mut self.samples);
        samples.push_back(sample);
        if samples.len() > WINDOW_SIZE {
            let _ = samples.pop_front();
            proof {
                assert(samples@ =~= before.push(sample).drop_first());
            }
        }
        self.samples = samples;
    }

    /// Whether any sample of the window exceeded the threshold.
    pub fn anomaly_detected(&self) -> (r: bool)
        ensures
            r == any_over(self@),
    {
        let n = self.samples.len();
        for i in 0..n
            invariant
                n == self.samples@.len(),
                forall|j: int| 0 <= j < i ==> !(#[trigger] self.samples@[j]).over_threshold,
        {
            if self.samples[i].over_threshold {
                proof { assert(self@[i as int].over_threshold); }
                return true;
            }
        }
        false
    }
}

/// The state of a report's delivery: which attempt comes next and the delay
/// to wait if it fails.
pub struct ForwardRetryView {
    pub attempt: nat,
    pub delay_ms: nat,
}

/// The delivery of a report after a failed attempt: the next attempt with a
/// doubled delay, or nothing when the attempts are used up.
pub open spec fn after_failure(r: ForwardRetryView) -> Option<ForwardRetryView> {
    if r.attempt < MAX_FORWARD_ATTEMPTS as nat {
        Some(ForwardRetryView { attempt: r.attempt + 1, delay_ms: next_delay(r.delay_ms) })
    } else {
        None
    }
}

/// The delivery of a report after `k` failed attempts, when the first delay
/// is `base`.
pub open spec fn retry_after_failures(base: nat, k: nat) -> ForwardRetryView {
    ForwardRetryView { attempt: k + 1, delay_ms: delay_at(base, k) }
}

/// The delivery of one report to the coordinator.
pub struct ForwardRetry {
    attempt: u32,
    delay_ms: u64,
}

impl View for ForwardRetry {
    type V = ForwardRetryView;

    closed spec fn view(&self) -> ForwardRetryView {
        ForwardRetryView { attempt: self.attempt as nat, delay_ms: self.delay_ms as nat }
    }
}

impl ForwardRetry {
    #[verifier::type_invariant]
    spec fn attempts_in_range(self) -> bool {
        1 <= self.attempt <= MAX_FORWARD_ATTEMPTS
    }

    /// The first attempt, with `base_ms` as its delay.
    pub fn start(base_ms: u64) -> (r: ForwardRetry)
        ensures
            r@ == (ForwardRetryView { attempt: 1, delay_ms: base_ms as nat }),
    {
        ForwardRetry { attempt: 1, delay_ms: base_ms }
    }

    /// The number of the attempt about to be made, from 1.
    pub fn attempt(&self) -> (a: u32)
        ensures
            a as nat == self@.attempt,
            1 <= a <= MAX_FORWARD_ATTEMPTS,
    {
        proof { use_type_invariant(self); }
        self.attempt
    }

    /// The delay to wait if this attempt fails.
    pub fn delay_ms(&self) -> (d: u64)
        ensures
            d as nat == self@.delay_ms,
    {
        self.delay_ms
    }
}

/// What came of one attempt to send a message to the coordinator.
pub enum DeliveryOutcome {
    /// The coordinator answered with a success status
    Accepted,
    /// The coordinator answered with another status
    Rejected,
    /// The coordinator could not be reached
    Unreachable,
}

/// What the edge node does after an attempt to forward a report.
pub enum ForwardAction {
    /// The report was delivered; a heartbeat follows when `send_heartbeat`
    Delivered { send_heartbeat: bool },
    /// Wait `delay_ms`, then make the attempt `next`
    RetryAfter { delay_ms: u64, next: ForwardRetry },
    /// The attempts are used up
    GiveUp,
}

/// The registration with the coordinator, retried until it succeeds.
pub struct RegisterRetry {
    delay_ms: u64,
}

impl RegisterRetry {
    /// The first attempt, with `base_ms` as its delay.
    pub fn start(base_ms: u64) -> (r: RegisterRetry)
        ensures
            r.delay() == base_ms,
    {
        RegisterRetry { delay_ms: base_ms }
    }

    /// The delay to wait if the attempt fails.
    pub closed spec fn delay(&self) -> u64 {
        self.delay_ms
    }

    /// The delay to wait if the attempt fails.
    pub fn delay_ms(&self) -> (d: u64)
        ensures
            d == self.delay(),
    {
        self.delay_ms
    }
}

/// What the edge node does after an attempt to register.
pub enum RegisterAction {
    /// The coordinator accepted the registration
    Registered,
    /// Wait `delay_ms`, then try again with `next`
    RetryAfter { delay_ms: u64, next: RegisterRetry },
}

/// The abstract state of an edge node.
pub struct EdgeNodeView<V> {
    pub edge_id: Seq<char>,
    pub reconnect_base_ms: u64,
    pub window: Seq<Sample<V>>,
    /// Timestamp of the last sensor reading received
    pub last_reading_ts: u64,
    /// Total readings received
    pub total_readings: u64,
    /// Total reports delivered to the coordinator
    pub reports_sent: u32,
    /// Whether the coordinator was reachable at the last attempt
    pub coordinator_reachable: bool,
}

/// The state of an edge node.
pub struct EdgeState<V> {
    edge_id: String,
    reconnect_base_ms: u64,
    window: ReadingWindow<V>,
    last_reading_ts: u64,
    total_readings: u64,
    reports_sent: u32,
    coordinator_reachable: bool,
}

impl<V> View for EdgeState<V> {
    type V = EdgeNodeView<V>;

    closed spec fn view(&self) -> EdgeNodeView<V> {
        EdgeNodeView {
            edge_id: self.edge_id@,
            reconnect_base_ms: self.reconnect_base_ms,
            window: self.window@,
            last_reading_ts: self.last_reading_ts,
            total_readings: self.total_readings,
            reports_sent: self.reports_sent,
            coordinator_reachable: self.coordinator_reachable,
        }
    }
}

/// The health answer of an edge node.
pub fn health() -> (r: HealthResponse)
    ensures
        r.status@ == "healthy"@,
        r.role@ == "edge"@,
{
    HealthResponse::healthy("edge")
}

/// The answer to a sensor's reading.
pub fn reading_accepted() -> (r: RegisterResponse)
    ensures
        r.success,
        r.message@ == "Reading accepted"@,
{
    RegisterResponse::acknowledged("Reading accepted")
}

/// The answer to a sensor's heartbeat.
pub fn heartbeat_acknowledged() -> (r: RegisterResponse)
    ensures
        r.success,
        r.message@ == "Heartbeat acknowledged"@,
{
    RegisterResponse::acknowledged("Heartbeat acknowledged")
}

/// The address at which an edge node can be reached: `http://<id>:<port>`.
pub open spec fn edge_address(edge_id: Seq<char>, port: u16) -> Seq<char> {
    "http://"@ + edge_id + ":"@ + decimal(port as nat)
}

impl<V> EdgeState<V> {
    /// A node that has received nothing and has not reached the coordinator yet.
    pub fn new(edge_id: String, reconnect_base_ms: u64) -> (s: EdgeState<V>)
        ensures
            s@ == (EdgeNodeView::<V> {
                edge_id: edge_id@,
                reconnect_base_ms,
                window: seq![],
                last_reading_ts: 0,
                total_readings: 0,
                reports_sent: 0,
                coordinator_reachable: false,
            }),
    {
        EdgeState {
            edge_id,
            reconnect_base_ms,
            window: ReadingWindow::new(),
            last_reading_ts: 0,
            total_readings: 0,
            reports_sent: 0,
            coordinator_reachable: false,
        }
    }

    /// The node's identifier.
    pub fn edge_id(&self) -> (r: &String)
        ensures
            r@ == self@.edge_id,
    {
        &self.edge_id
    }

    /// The first delay of the retry schedules.
    pub fn reconnect_base_ms(&self) -> (r: u64)
        ensures
            r == self@.reconnect_base_ms,
    {
        self.reconnect_base_ms
    }

    /// The moving window.
    pub fn window(&self) -> (r: &ReadingWindow<V>)
        ensures
            r@ == self@.window,
    {
        &self.window
    }

    /// Total readings received.
    pub fn total_readings(&self) -> (r: u64)
        ensures
            r == self@.total_readings,
    {
        self.total_readings
    }

    /// Timestamp of the last reading received.
    pub fn last_reading_ts(&self) -> (r: u64)
        ensures
            r == self@.last_reading_ts,
    {
        self.last_reading_ts
    }

    /// Total reports delivered.
    pub fn reports_sent(&self) -> (r: u32)
        ensures
            r == self@.reports_sent,
    {
        self.reports_sent
    }

    /// Whether the coordinator was reachable at the last attempt.
    pub fn coordinator_reachable(&self) -> (r: bool)
        ensures
            r == self@.coordinator_reachable,
    {
        self.coordinator_reachable
    }

    /// POST /reading: a sensor reading arrives. Its value enters the window,
    /// flagged when it exceeded the anomaly threshold.
    pub fn record_reading(&mut self, value: V, over_threshold: bool, timestamp_ms: u64)
        requires
            old(self)@.total_readings < u64::MAX,
        ensures
            final(self)@ == (EdgeNodeView {
                window: slide(old(self)@.window, Sample { value, over_threshold }),
                last_reading_ts: timestamp_ms,
                total_readings: (old(self)@.total_readings + 1) as u64,
                ..old(self)@
            }),
    {
        self.window.push(Sample { value, over_threshold });
        self.last_reading_ts = timestamp_ms;
        self.total_readings = self.total_readings + 1;
    }

    /// The report on the current window: the caller's moving average, whether
    /// any sample exceeded the threshold, the number of samples, and the
    /// latency from the reading at `reading_ts` to `now_ms`, the time the
    /// report leaves the edge node. This is the edge node's estimate; the
    /// coordinator measures the latency again on reception.
    pub fn build_report<A>(&self, window_avg: A, reading_ts: u64, now_ms: u64) -> (r: EdgeReport<A>)
        ensures
            r.edge_id@ == self@.edge_id,
            r.window_avg == window_avg,
            r.anomaly_detected == any_over(self@.window),
            r.sample_count == self@.window.len(),
            r.latency_ms == if now_ms >= reading_ts { (now_ms - reading_ts) as u64 } else { 0u64 },
            r.latest_sensor_ts == reading_ts,
    {
        let n = self.window.len();
        EdgeReport {
            edge_id: self.edge_id.clone(),
            window_avg,
            anomaly_detected: self.window.anomaly_detected(),
            sample_count: n as u32,
            latency_ms: now_ms.saturating_sub(reading_ts),
            latest_sensor_ts: reading_ts,
        }
    }

    /// The node's own heartbeat at `now_ms`.
    pub fn heartbeat(&self, now_ms: u64) -> (hb: Heartbeat)
        ensures
            hb.node_id@ == self@.edge_id,
            hb.role@ == "edge"@,
            hb.timestamp_ms == now_ms,
    {
        Heartbeat { node_id: self.edge_id.clone(), role: String::from_str("edge"), timestamp_ms: now_ms }
    }

    /// The registration that the node sends on startup, naming the address
    /// at which it listens on `port`.
    pub fn registration_request(&self, port: u16) -> (req: RegisterRequest)
        ensures
            req.node_id@ == self@.edge_id,
            req.role@ == "edge"@,
            req.address@ == edge_address(self@.edge_id, port),
    {
        let mut address = String::from_str("http://");
        address.append(self.edge_id.as_str());
        address.append(":");
        push_decimal(&mut address, port as u64);
        proof {
            assert(address@ =~= edge_address(self@.edge_id, port));
        }
        RegisterRequest { node_id: self.edge_id.clone(), role: String::from_str("edge"), address }
    }

    /// After an attempt to forward a report. A delivered report counts, and
    /// every `HEARTBEAT_EVERY_N_REPORTS`-th one is followed by a heartbeat.
    /// An unreachable coordinator is noted. A failed attempt is retried after
    /// the current delay, with the delay doubled up to the ceiling, until the
    /// attempts are used up.
    pub fn forward_outcome(&mut self, retry: ForwardRetry, outcome: DeliveryOutcome) -> (action: ForwardAction)
        requires
            outcome is Accepted ==> old(self)@.reports_sent < u32::MAX,
            !(outcome is Accepted) && retry@.attempt < MAX_FORWARD_ATTEMPTS ==> retry@.delay_ms <= u64::MAX / 2,
        ensures
            match outcome {
                DeliveryOutcome::Accepted => {
                    let sent = (old(self)@.reports_sent + 1) as u32;
                    &&& final(self)@ == (EdgeNodeView {
                        coordinator_reachable: true,
                        reports_sent: sent,
                        ..old(self)@
                    })
                    &&& action == ForwardAction::Delivered {
                        send_heartbeat: sent % HEARTBEAT_EVERY_N_REPORTS == 0,
                    }
                },
                _ => {
                    &&& final(self)@ == (EdgeNodeView {
                        coordinator_reachable: if outcome is Unreachable {
                            false
                        } else {
                            old(self)@.coordinator_reachable
                        },
                        ..old(self)@
                    })
                    &&& match after_failure(retry@) {
                        Some(next) => action matches ForwardAction::RetryAfter { delay_ms, next: n }
                            && delay_ms as nat == retry@.delay_ms && n@ == next,
                        None => action is GiveUp,
                    }
                },
            },
    {
        proof { use_type_invariant(&retry); }
        match outcome {
            DeliveryOutcome::Accepted => {
                self.coordinator_reachable = true;
                self.reports_sent = self.reports_sent + 1;
                return ForwardAction::Delivered {
                    send_heartbeat: self.reports_sent % HEARTBEAT_EVERY_N_REPORTS == 0,
                };
            },
            DeliveryOutcome::Rejected => {},
            DeliveryOutcome::Unreachable => {
                self.coordinator_reachable = false;
            },
        }
        if retry.attempt < MAX_FORWARD_ATTEMPTS {
            let next = ForwardRetry { attempt: retry.attempt + 1, delay_ms: next_delay_ms(retry.delay_ms) };
            ForwardAction::RetryAfter { delay_ms: retry.delay_ms, next }
        } else {
            ForwardAction::GiveUp
        }
    }

    /// After an attempt to register. An accepted registration marks the
    /// coordinator reachable; any other outcome is retried after the current
    /// delay, with the delay doubled up to the ceiling.
    pub fn registration_outcome(&mut self, retry: RegisterRetry, outcome: DeliveryOutcome) -> (action: RegisterAction)
        requires
            !(outcome is Accepted) ==> retry.delay() <= u64::MAX / 2,
        ensures
            match outcome {
                DeliveryOutcome::Accepted => {
                    &&& final(self)@ == (EdgeNodeView { coordinator_reachable: true, ..old(self)@ })
                    &&& action is Registered
                },
                _ => {
                    &&& final(self)@ == old(self)@
                    &&& action matches RegisterAction::RetryAfter { delay_ms, next }
                        && delay_ms == retry.delay()
                        && next.delay() as nat == next_delay(retry.delay() as nat)
                },
            },
    {
        match outcome {
            DeliveryOutcome::Accepted => {
                self.coordinator_reachable = true;
                RegisterAction::Registered
            },
            _ => {
                let next = RegisterRetry { delay_ms: next_delay_ms(retry.delay_ms) };
                RegisterAction::RetryAfter { delay_ms: retry.delay_ms, next }
            },
        }
    }
}

/// The moving window holds exactly the latest `WINDOW_SIZE` samples received
/// (all of them while fewer have arrived), oldest first.
pub proof fn law_window_keeps_latest<V>(history: Seq<Sample<V>>)
    ensures
        window_of(history) == history.skip(
            if history.len() > WINDOW_SIZE { history.len() - WINDOW_SIZE } else { 0 },
        ),
    decreases history.len(),
{
    if history.len() == 0 {
        assert(history.skip(0) =~= history);
    } else {
        let h = history.drop_last();
        law_window_keeps_latest(h);
        let w = window_of(h);
        if h.len() >= WINDOW_SIZE {
            assert(w.push(history.last()).drop_first() =~= history.skip(history.len() - WINDOW_SIZE));
        } else {
            assert(w.push(history.last()) =~= history.skip(0));
        }
    }
}

/// The window after the samples of `history`, in order, from the window `w`.
pub open spec fn slide_all<V>(w: Seq<Sample<V>>, history: Seq<Sample<V>>) -> Seq<Sample<V>>
    decreases history.len(),
{
    if history.len() == 0 {
        w
    } else {
        slide(slide_all(w, history.drop_last()), history.last())
    }
}

/// From any window, the window holds the latest `WINDOW_SIZE` of the
/// samples it held and the samples received since.
pub proof fn law_window_slides<V>(w: Seq<Sample<V>>, history: Seq<Sample<V>>)
    requires
        w.len() <= WINDOW_SIZE,
    ensures
        slide_all(w, history) == (w + history).skip(
            if w.len() + history.len() > WINDOW_SIZE { w.len() + history.len() - WINDOW_SIZE } else { 0 },
        ),
    decreases history.len(),
{
    if history.len() == 0 {
        assert((w + history) =~= w);
        assert(w.skip(0) =~= w);
    } else {
        let h = history.drop_last();
        law_window_slides(w, h);
        let prev = slide_all(w, h);
        let all = w + history;
        assert(all.drop_last() =~= w + h);
        if w.len() + h.len() >= WINDOW_SIZE {
            assert(prev.push(history.last()).drop_first() =~= all.skip(all.len() - WINDOW_SIZE));
        } else {
            assert(prev.push(history.last()) =~= all.skip(0));
        }
    }
}

/// Values older than the latest `WINDOW_SIZE` never matter: after at least
/// `WINDOW_SIZE` readings, the window, and with it the report's anomaly flag
/// and sample count, is the same whatever window the node started from.
pub proof fn law_older_values_never_matter<V>(w1: Seq<Sample<V>>, w2: Seq<Sample<V>>, history: Seq<Sample<V>>)
    requires
        w1.len() <= WINDOW_SIZE,
        w2.len() <= WINDOW_SIZE,
        history.len() >= WINDOW_SIZE,
    ensures
        slide_all(w1, history) == history.skip(history.len() - WINDOW_SIZE),
        slide_all(w1, history) == slide_all(w2, history),
        any_over(slide_all(w1, history)) == any_over(slide_all(w2, history)),
        slide_all(w1, history).len() == WINDOW_SIZE,
{
    law_window_slides(w1, history);
    law_window_slides(w2, history);
    assert((w1 + history).skip(w1.len() + history.len() - WINDOW_SIZE) =~= history.skip(history.len() - WINDOW_SIZE));
    assert((w2 + history).skip(w2.len() + history.len() - WINDOW_SIZE) =~= history.skip(history.len() - WINDOW_SIZE));
}

/// The anomaly flag of a report says whether any of the latest
/// `WINDOW_SIZE` samples exceeded the threshold.
pub proof fn law_anomaly_means_recent_sample_over<V>(history: Seq<Sample<V>>)
    ensures
        any_over(window_of(history)) <==> exists|i: int|
            (if history.len() > WINDOW_SIZE { history.len() - WINDOW_SIZE } else { 0 }) <= i < history.len()
                && #[trigger] history[i].over_threshold,
{
    law_window_keeps_latest(history);
    let start: int = if history.len() > WINDOW_SIZE { history.len() - WINDOW_SIZE } else { 0 };
    let w = window_of(history);
    if any_over(w) {
        let j = choose|j: int| 0 <= j < w.len() && #[trigger] w[j].over_threshold;
        assert(history[start + j].over_threshold);
    }
    if exists|i: int| start <= i < history.len() && #[trigger] history[i].over_threshold {
        let i = choose|i: int| start <= i < history.len() && #[trigger] history[i].over_threshold;
        assert(w[i - start].over_threshold);
    }
}

/// A report is tried at most `MAX_FORWARD_ATTEMPTS` times: after `k` failed
/// attempts the next one is attempt `k + 1`, waited for with the `k`-th
/// backoff delay, and the failure of the last attempt ends the delivery.
pub proof fn law_forward_attempts_are_bounded(base: nat, k: nat)
    ensures
        k + 1 < MAX_FORWARD_ATTEMPTS ==> after_failure(retry_after_failures(base, k)) == Some(
            retry_after_failures(base, k + 1),
        ),
        k + 1 >= MAX_FORWARD_ATTEMPTS ==> after_failure(retry_after_failures(base, k)) is None,
{
}

} // verus!
