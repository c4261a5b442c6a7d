//! The coordinator's state: the table of the nodes it has heard from (edge
//! nodes, and sensors that send it heartbeats), the totals it
//! aggregates from their reports, the liveness watch and the status it
//! exposes.
//!
//! Time is a millisecond count of a monotonic clock handed in by the caller.
//! The state keeps the latest time it has seen and never lets its own clock
//! go backwards: every operation works at the later of that clock and the
//! time it is given.
use vstd::prelude::*;
use vstd::string::*;
use crate::messages::{CoordStatus, EdgeReport, HealthResponse, Heartbeat, RegisterRequest, RegisterResponse};

verus! {

/// An edge node is considered down if no heartbeat was received within this
/// many seconds.
pub const HEARTBEAT_TIMEOUT_S: u64 = 10;

/// Anomalies count as recent for this many milliseconds (one minute).
pub const ANOMALY_WINDOW_MS: u64 = 60_000;

/// Milliseconds from `since` to `now`; zero when `now` is earlier.
pub open spec fn elapsed_ms(since: u64, now: u64) -> nat {
    if now >= since { (now - since) as nat } else { 0 }
}

/// Whole seconds from `since` to `now`.
pub open spec fn elapsed_s(since: u64, now: u64) -> nat {
    elapsed_ms(since, now) / 1000
}

/// The later of two times.
pub open spec fn later(a: u64, b: u64) -> u64 {
    if a >= b { a } else { b }
}

/// The role that edge nodes announce.
pub open spec fn edge_role() -> Seq<char> {
    "edge"@
}

/// Milliseconds from the sensor's timestamp to the coordinator's reception of
/// the report; zero when the sensor's clock is ahead.
pub open spec fn reception_latency(received_at_ms: u64, sensor_ts: u64) -> u64 {
    if received_at_ms >= sensor_ts { (received_at_ms - sensor_ts) as u64 } else { 0 }
}

/// What the coordinator knows of one node that has contacted it.
pub struct EdgeView {
    pub node_id: Seq<char>,
    /// The node announced itself as an edge node
    pub is_edge: bool,
    pub last_heartbeat_ms: u64,
    pub last_report_ms: Option<u64>,
    pub total_reports: u64,
    pub total_readings: u64,
    pub anomaly_count: u64,
    pub latency_sum_ms: u64,
    pub latency_count: u64,
    pub was_down: bool,
}

impl EdgeView {
    /// A node first heard of at `now`.
    pub open spec fn fresh(node_id: Seq<char>, is_edge: bool, now: u64) -> EdgeView {
        EdgeView {
            node_id,
            is_edge,
            last_heartbeat_ms: now,
            last_report_ms: None,
            total_reports: 0,
            total_readings: 0,
            anomaly_count: 0,
            latency_sum_ms: 0,
            latency_count: 0,
            was_down: false,
        }
    }

    /// The node sent a heartbeat within the timeout.
    pub open spec fn alive(self, now: u64) -> bool {
        elapsed_s(self.last_heartbeat_ms, now) < HEARTBEAT_TIMEOUT_S
    }

    /// Mean latency of the node's reports, zero before the first one.
    pub open spec fn avg_latency(self) -> nat {
        if self.latency_count == 0 { 0 } else { self.latency_sum_ms as nat / self.latency_count as nat }
    }

    /// The node counts among the active edge nodes at `now`.
    pub open spec fn active_edge(self, now: u64) -> bool {
        self.is_edge && self.alive(now)
    }

    /// The node after a heartbeat at `now`, sent in the role of an edge node
    /// or not.
    pub open spec fn heard(self, is_edge: bool, now: u64) -> EdgeView {
        EdgeView { last_heartbeat_ms: now, is_edge, ..self }
    }

    /// The node after a report at `now`: only edge nodes report, a report
    /// counts as a heartbeat, and it stands for the one new reading that
    /// made the edge node send it.
    pub open spec fn reported(self, anomaly: bool, latency_ms: u64, now: u64) -> EdgeView {
        EdgeView {
            is_edge: true,
            last_heartbeat_ms: now,
            last_report_ms: Some(now),
            total_reports: (self.total_reports + 1) as u64,
            total_readings: (self.total_readings + 1) as u64,
            anomaly_count: if anomaly { (self.anomaly_count + 1) as u64 } else { self.anomaly_count },
            latency_sum_ms: (self.latency_sum_ms + latency_ms) as u64,
            latency_count: (self.latency_count + 1) as u64,
            ..self
        }
    }

    /// The node with its down flag brought up to date at `now`.
    pub open spec fn marked(self, now: u64) -> EdgeView {
        EdgeView { was_down: !self.alive(now), ..self }
    }
}

/// Per-node tracking.
pub struct EdgeEntry {
    pub node_id: String,
    /// The node announced itself as an edge node
    pub is_edge: bool,
    pub last_heartbeat_ms: u64,
    pub last_report_ms: Option<u64>,
    pub total_reports: u64,
    pub total_readings: u64,
    pub anomaly_count: u64,
    /// Running sum and count for the average latency
    pub latency_sum_ms: u64,
    pub latency_count: u64,
    /// Was this edge marked as down in the previous check?
    pub was_down: bool,
}

impl View for EdgeEntry {
    type V = EdgeView;

    open spec fn view(&self) -> EdgeView {
        EdgeView {
            node_id: self.node_id@,
            is_edge: self.is_edge,
            last_heartbeat_ms: self.last_heartbeat_ms,
            last_report_ms: self.last_report_ms,
            total_reports: self.total_reports,
            total_readings: self.total_readings,
            anomaly_count: self.anomaly_count,
            latency_sum_ms: self.latency_sum_ms,
            latency_count: self.latency_count,
            was_down: self.was_down,
        }
    }
}

impl EdgeEntry {
    /// A node first heard of at `now_ms`, an edge node or not.
    pub fn new(node_id: String, is_edge: bool, now_ms: u64) -> (e: EdgeEntry)
        ensures
            e@ == EdgeView::fresh(node_id@, is_edge, now_ms),
    {
        EdgeEntry {
            node_id,
            is_edge,
            last_heartbeat_ms: now_ms,
            last_report_ms: None,
            total_reports: 0,
            total_readings: 0,
            anomaly_count: 0,
            latency_sum_ms: 0,
            latency_count: 0,
            was_down: false,
        }
    }

    /// Whether a heartbeat arrived within the timeout before `now_ms`.
    pub fn is_alive(&self, now_ms: u64) -> (r: bool)
        ensures
            r == self@.alive(now_ms),
    {
        let elapsed = now_ms.saturating_sub(self.last_heartbeat_ms);
        elapsed / 1000 < HEARTBEAT_TIMEOUT_S
    }

    /// Mean latency of the node's reports, zero before the first one.
    pub fn avg_latency_ms(&self) -> (r: u64)
        ensures
            r == self@.avg_latency(),
    {
        if self.latency_count == 0 { 0 } else { self.latency_sum_ms / self.latency_count }
    }

    /// Whether the node counts among the active edge nodes at `now_ms`.
    pub fn is_active_edge(&self, now_ms: u64) -> (r: bool)
        ensures
            r == self@.active_edge(now_ms),
    {
        self.is_edge && self.is_alive(now_ms)
    }
}

/// Whether a node announcing `role` is an edge node.
pub fn is_edge_role(role: &String) -> (r: bool)
    ensures
        r == (role@ == edge_role()),
{
    let edge = String::from_str("edge");
    *role == edge
}

/// Milliseconds from `sensor_ts` to `received_at_ms`, zero when the sensor's
/// clock is ahead.
pub fn reception_latency_ms(received_at_ms: u64, sensor_ts: u64) -> (r: u64)
    ensures
        r == reception_latency(received_at_ms, sensor_ts),
{
    received_at_ms.saturating_sub(sensor_ts)
}

/// The health answer of the coordinator.
pub fn health() -> (r: HealthResponse)
    ensures
        r.status@ == "healthy"@,
        r.role@ == "coordinator"@,
{
    HealthResponse::healthy("coordinator")
}

/// The views of a sequence of entries.
pub open spec fn edge_views(v: Seq<EdgeEntry>) -> Seq<EdgeView> {
    Seq::new(v.len(), |i: int| v[i]@)
}

/// No two entries share a node identifier.
pub open spec fn distinct_ids(edges: Seq<EdgeView>) -> bool {
    forall|i: int, j: int|
        0 <= i < edges.len() && 0 <= j < edges.len() && i != j ==> edges[i].node_id != edges[j].node_id
}

/// Where the node with this identifier stands in the table, if anywhere.
pub open spec fn position_of(edges: Seq<EdgeView>, id: Seq<char>) -> Option<int> {
    if exists|i: int| 0 <= i < edges.len() && edges[i].node_id == id {
        Some(choose|i: int| 0 <= i < edges.len() && edges[i].node_id == id)
    } else {
        None
    }
}

/// The table with the node added at `now` if it was not there yet.
pub open spec fn with_edge(edges: Seq<EdgeView>, id: Seq<char>, is_edge: bool, now: u64) -> Seq<EdgeView> {
    match position_of(edges, id) {
        Some(_) => edges,
        None => edges.push(EdgeView::fresh(id, is_edge, now)),
    }
}

/// Where the node stands in `with_edge(edges, id, _)`.
pub open spec fn slot_of(edges: Seq<EdgeView>, id: Seq<char>) -> int {
    match position_of(edges, id) {
        Some(i) => i,
        None => edges.len() as int,
    }
}

/// The anomaly times that still fall within the last minute at `now`, in order.
pub open spec fn recent(times: Seq<u64>, now: u64) -> Seq<u64>
    decreases times.len(),
{
    if times.len() == 0 {
        seq![]
    } else {
        let rest = recent(times.drop_last(), now);
        if elapsed_ms(times.last(), now) < ANOMALY_WINDOW_MS as nat {
            rest.push(times.last())
        } else {
            rest
        }
    }
}

/// How many edge nodes are alive at `now`.
pub open spec fn count_active(edges: Seq<EdgeView>, now: u64) -> nat
    decreases edges.len(),
{
    if edges.len() == 0 {
        0
    } else {
        count_active(edges.drop_last(), now) + if edges.last().active_edge(now) { 1nat } else { 0nat }
    }
}

/// The table with every down flag brought up to date at `now`.
pub open spec fn mark_liveness(edges: Seq<EdgeView>, now: u64) -> Seq<EdgeView> {
    Seq::new(edges.len(), |i: int| edges[i].marked(now))
}

/// A change of liveness that the watch reports.
pub struct LivenessChangeView {
    pub node_id: Seq<char>,
    pub went_down: bool,
    pub silent_for_s: nat,
}

/// The changes that a watch at `now` reports, in table order: a node that is
/// not alive and was not marked down went down; a node that is alive and was
/// marked down came back.
pub open spec fn liveness_changes(edges: Seq<EdgeView>, now: u64) -> Seq<LivenessChangeView>
    decreases edges.len(),
{
    if edges.len() == 0 {
        seq![]
    } else {
        let rest = liveness_changes(edges.drop_last(), now);
        let e = edges.last();
        if !e.alive(now) && !e.was_down {
            rest.push(LivenessChangeView {
                node_id: e.node_id,
                went_down: true,
                silent_for_s: elapsed_s(e.last_heartbeat_ms, now),
            })
        } else if e.alive(now) && e.was_down {
            rest.push(LivenessChangeView {
                node_id: e.node_id,
                went_down: false,
                silent_for_s: elapsed_s(e.last_heartbeat_ms, now),
            })
        } else {
            rest
        }
    }
}

/// A node that went down or came back, as the watch reports it.
pub struct LivenessChange {
    pub node_id: String,
    /// True when the node went down, false when it came back
    pub went_down: bool,
    /// Seconds since the node's last heartbeat
    pub silent_for_s: u64,
}

impl View for LivenessChange {
    type V = LivenessChangeView;

    open spec fn view(&self) -> LivenessChangeView {
        LivenessChangeView {
            node_id: self.node_id@,
            went_down: self.went_down,
            silent_for_s: self.silent_for_s as nat,
        }
    }
}

/// The views of a sequence of changes.
pub open spec fn change_views(v: Seq<LivenessChange>) -> Seq<LivenessChangeView> {
    Seq::new(v.len(), |i: int| v[i]@)
}

/// The anomaly times of `times` that are still recent at `t`.
fn prune_recent(times: &Vec<u64>, t: u64) -> (kept: Vec<u64>)
    ensures
        kept@ == recent(times@, t),
{
    let n = times.len();
    let mut kept: Vec<u64> = Vec::new();
    assert(times@.take(0) =~= seq![]);
    for i in 0..n
        invariant
            n == times@.len(),
            kept@ == recent(times@.take(i as int), t),
    {
        proof {
            assert(times@.take(i + 1).drop_last() =~= times@.take(i as int));
        }
        if t.saturating_sub(times[i]) < ANOMALY_WINDOW_MS {
            kept.push(times[i]);
        }
    }
    assert(times@.take(n as int) =~= times@);
    kept
}

/// How many anomaly times of `times` are still recent at `t`.
fn count_recent(times: &Vec<u64>, t: u64) -> (c: usize)
    ensures
        c == recent(times@, t).len(),
{
    let n = times.len();
    let mut c: usize = 0;
    assert(times@.take(0) =~= seq![]);
    for i in 0..n
        invariant
            n == times@.len(),
            c == recent(times@.take(i as int), t).len(),
            c <= i,
    {
        proof {
            assert(times@.take(i + 1).drop_last() =~= times@.take(i as int));
        }
        if t.saturating_sub(times[i]) < ANOMALY_WINDOW_MS {
            c = c + 1;
        }
    }
    assert(times@.take(n as int) =~= times@);
    c
}

/// The abstract state of the coordinator.
pub struct CoordView {
    /// Known nodes, in the order they were first heard of
    pub edges: Seq<EdgeView>,
    /// Total sensor readings aggregated across all edges
    pub total_readings: u64,
    /// Anomalous reports since startup
    pub anomalies_total: u32,
    /// Times of the anomalous reports that may still be recent
    pub recent_anomalies: Seq<u64>,
    pub start_ms: u64,
    /// The latest time the coordinator has seen
    pub clock_ms: u64,
}

/// The effect of a registration on the coordinator, at time `t`.
pub open spec fn after_register(s: CoordView, id: Seq<char>, is_edge: bool, t: u64) -> CoordView {
    CoordView { edges: with_edge(s.edges, id, is_edge, t), clock_ms: t, ..s }
}

/// The effect of a heartbeat on the coordinator, at time `t`.
pub open spec fn after_heartbeat(s: CoordView, id: Seq<char>, is_edge: bool, t: u64) -> CoordView {
    let table = with_edge(s.edges, id, is_edge, t);
    let k = slot_of(s.edges, id);
    CoordView { edges: table.update(k, table[k].heard(is_edge, t)), clock_ms: t, ..s }
}

/// The effect of a round of the liveness watch, at time `t`.
pub open spec fn after_watch(s: CoordView, t: u64) -> CoordView {
    CoordView { edges: mark_liveness(s.edges, t), clock_ms: t, ..s }
}

/// The effect of a report on the coordinator, at time `t`.
pub open spec fn after_report(
    s: CoordView,
    id: Seq<char>,
    anomaly: bool,
    latency_ms: u64,
    t: u64,
) -> CoordView {
    let table = with_edge(s.edges, id, true, t);
    let k = slot_of(s.edges, id);
    let kept = recent(s.recent_anomalies, t);
    CoordView {
        edges: table.update(k, table[k].reported(anomaly, latency_ms, t)),
        total_readings: (s.total_readings + 1) as u64,
        anomalies_total: if anomaly { (s.anomalies_total + 1) as u32 } else { s.anomalies_total },
        recent_anomalies: if anomaly { kept.push(t) } else { kept },
        start_ms: s.start_ms,
        clock_ms: t,
    }
}

/// A report, anomalous or not, with this latency, leaves every counter of
/// the coordinator within its integer type.
pub open spec fn report_fits(s: CoordView, id: Seq<char>, anomaly: bool, latency_ms: u64) -> bool {
    &&& s.total_readings < u64::MAX
    &&& anomaly ==> s.anomalies_total < u32::MAX
    &&& match position_of(s.edges, id) {
        Some(i) => {
            let e = s.edges[i];
            &&& e.total_reports < u64::MAX
            &&& e.total_readings < u64::MAX
            &&& anomaly ==> e.anomaly_count < u64::MAX
            &&& e.latency_sum_ms + latency_ms <= u64::MAX
            &&& e.latency_count < u64::MAX
        },
        None => true,
    }
}

/// The coordinator's state.
pub struct CoordState {
    edges: Vec<EdgeEntry>,
    total_readings: u64,
    anomalies_total: u32,
    recent_anomalies: Vec<u64>,
    start_ms: u64,
    clock_ms: u64,
}

impl View for CoordState {
    type V = CoordView;

    closed spec fn view(&self) -> CoordView {
        CoordView {
            edges: edge_views(self.edges@),
            total_readings: self.total_readings,
            anomalies_total: self.anomalies_total,
            recent_anomalies: self.recent_anomalies@,
            start_ms: self.start_ms,
            clock_ms: self.clock_ms,
        }
    }
}

impl CoordState {
    #[verifier::type_invariant]
    spec fn well_formed(self) -> bool {
        distinct_ids(edge_views(self.edges@))
    }

    /// A coordinator started at `now_ms` that knows no node yet.
    pub fn new(now_ms: u64) -> (s: CoordState)
        ensures
            s@ == (CoordView {
                edges: seq![],
                total_readings: 0,
                anomalies_total: 0,
                recent_anomalies: seq![],
                start_ms: now_ms,
                clock_ms: now_ms,
            }),
    {
        let s = CoordState {
            edges: Vec::new(),
            total_readings: 0,
            anomalies_total: 0,
            recent_anomalies: Vec::new(),
            start_ms: now_ms,
            clock_ms: now_ms,
        };
        proof {
            assert(edge_views(s.edges@) =~= seq![]);
        }
        s
    }

    /// The known nodes, in the order they were first heard of.
    pub fn edges(&self) -> (r: &Vec<EdgeEntry>)
        ensures
            edge_views(r@) == self@.edges,
            distinct_ids(self@.edges),
    {
        proof { use_type_invariant(self); }
        &self.edges
    }

    /// Total readings aggregated across all edges.
    pub fn total_readings(&self) -> (r: u64)
        ensures
            r == self@.total_readings,
    {
        self.total_readings
    }

    /// Anomalous reports since startup.
    pub fn anomalies_total(&self) -> (r: u32)
        ensures
            r == self@.anomalies_total,
    {
        self.anomalies_total
    }

    /// The time at which the coordinator started.
    pub fn start_ms(&self) -> (r: u64)
        ensures
            r == self@.start_ms,
    {
        self.start_ms
    }

    /// The latest time the coordinator has seen.
    pub fn clock_ms(&self) -> (r: u64)
        ensures
            r == self@.clock_ms,
    {
        self.clock_ms
    }

    /// Where the node with this identifier stands in the table, if anywhere.
    pub fn find(&self, node_id: &String) -> (r: Option<usize>)
        ensures
            match r {
                Some(i) => position_of(self@.edges, node_id@) == Some(i as int),
                None => position_of(self@.edges, node_id@) is None,
            },
    {
        proof { use_type_invariant(self); }
        let n = self.edges.len();
        let mut i: usize = 0;
        while i < n
            invariant
                n == self.edges@.len(),
                i <= n,
                distinct_ids(self@.edges),
                forall|j: int| 0 <= j < i ==> self@.edges[j].node_id != node_id@,
            decreases n - i,
        {
            if self.edges[i].node_id == *node_id {
                proof {
                    let ev = self@.edges;
                    assert(ev[i as int].node_id == node_id@);
                    let c = choose|k: int| 0 <= k < ev.len() && ev[k].node_id == node_id@;
                    assert(ev[c].node_id == node_id@);
                    assert(c == i);
                }
                return Some(i);
            }
            i = i + 1;
        }
        None
    }

    /// The time at which an operation given `now_ms` takes place.
    fn tick(&mut self, now_ms: u64) -> (t: u64)
        ensures
            t == later(old(self)@.clock_ms, now_ms),
            final(self)@ == (CoordView { clock_ms: t, ..old(self)@ }),
    {
        proof { use_type_invariant(&*self); }
        if now_ms > self.clock_ms {
            self.clock_ms = now_ms;
        }
        self.clock_ms
    }

    /// Adds the node at time `t` unless it is known, and says where it stands.
    fn ensure_edge(&mut self, node_id: &String, is_edge: bool, t: u64) -> (k: usize)
        ensures
            final(self)@ == (CoordView { edges: with_edge(old(self)@.edges, node_id@, is_edge, t), ..old(self)@ }),
            k as int == slot_of(old(self)@.edges, node_id@),
            k < final(self)@.edges.len(),
    {
        proof { use_type_invariant(&*self); }
        match self.find(node_id) {
            Some(i) => i,
            None => {
                let ghost before = self@.edges;
                let entry = EdgeEntry::new(node_id.clone(), is_edge, t);
                let mut edges = Vec::new();
                std::mem::swap(&mut edges, &mut self.edges);
                edges.push(entry);
                proof {
                    assert(edge_views(edges@) =~= before.push(EdgeView::fresh(node_id@, is_edge, t)));
                }
                let k = edges.len() - 1;
                self.edges = edges;
                k
            },
        }
    }

    /// Replaces the entry at `k` by one with the same node identifier.
    fn put_edge(&mut self, k: usize, e: EdgeEntry)
        requires
            k < old(self)@.edges.len(),
            e.node_id@ == old(self)@.edges[k as int].node_id,
        ensures
            final(self)@ == (CoordView { edges: old(self)@.edges.update(k as int, e@), ..old(self)@ }),
    {
        proof { use_type_invariant(&*self); }
        let ghost before = self@.edges;
        let mut edges = Vec::new();
        std::mem::swap(&mut edges, &mut self.edges);
        edges.set(k, e);
        proof {
            assert(edge_views(edges@) =~= before.update(k as int, e@));
        }
        self.edges = edges;
    }

    /// POST /register: a node announces itself. A node not known yet is
    /// added in the role it announces, counting the registration as its first
    /// heartbeat.
    pub fn register(&mut self, req: &RegisterRequest, now_ms: u64) -> (r: RegisterResponse)
        ensures
            final(self)@ == after_register(
                old(self)@,
                req.node_id@,
                req.role@ == edge_role(),
                later(old(self)@.clock_ms, now_ms),
            ),
            r.success,
            r.message@ == req.node_id@ + " registered"@,
    {
        let t = self.tick(now_ms);
        let is_edge = is_edge_role(&req.role);
        let _ = self.ensure_edge(&req.node_id, is_edge, t);
        let mut message = req.node_id.clone();
        message.append(" registered");
        RegisterResponse { success: true, message }
    }

    /// POST /heartbeat: a node, sensor or edge, is alive at this time, in
    /// the role its heartbeat names.
    pub fn receive_heartbeat(&mut self, hb: &Heartbeat, now_ms: u64) -> (r: RegisterResponse)
        ensures
            final(self)@ == after_heartbeat(
                old(self)@,
                hb.node_id@,
                hb.role@ == edge_role(),
                later(old(self)@.clock_ms, now_ms),
            ),
            r.success,
            r.message@ == "Heartbeat acknowledged"@,
    {
        let t = self.tick(now_ms);
        let is_edge = is_edge_role(&hb.role);
        let k = self.ensure_edge(&hb.node_id, is_edge, t);
        let old_entry = &self.edges[k];
        let entry = EdgeEntry {
            node_id: old_entry.node_id.clone(),
            is_edge,
            last_heartbeat_ms: t,
            last_report_ms: old_entry.last_report_ms,
            total_reports: old_entry.total_reports,
            total_readings: old_entry.total_readings,
            anomaly_count: old_entry.anomaly_count,
            latency_sum_ms: old_entry.latency_sum_ms,
            latency_count: old_entry.latency_count,
            was_down: old_entry.was_down,
        };
        self.put_edge(k, entry);
        RegisterResponse::acknowledged("Heartbeat acknowledged")
    }

    /// Whether `report`, received at `received_at_ms`, keeps every counter
    /// within its integer type.
    pub fn can_accept_report<V>(&self, report: &EdgeReport<V>, received_at_ms: u64) -> (r: bool)
        ensures
            r == report_fits(
                self@,
                report.edge_id@,
                report.anomaly_detected,
                reception_latency(received_at_ms, report.latest_sensor_ts),
            ),
    {
        let latency = reception_latency_ms(received_at_ms, report.latest_sensor_ts);
        if self.total_readings == u64::MAX {
            return false;
        }
        if report.anomaly_detected && self.anomalies_total == u32::MAX {
            return false;
        }
        match self.find(&report.edge_id) {
            None => true,
            Some(i) => {
                let e = &self.edges[i];
                e.total_reports < u64::MAX
                    && e.total_readings < u64::MAX
                    && (!report.anomaly_detected || e.anomaly_count < u64::MAX)
                    && e.latency_sum_ms <= u64::MAX - latency
                    && e.latency_count < u64::MAX
            },
        }
    }

    /// POST /report: an edge node pushes an aggregated report, which the
    /// coordinator receives at `now_ms` of its monotonic clock and at
    /// `received_at_ms` of the wall clock that sensors stamp their readings
    /// with. The report counts as a heartbeat of an edge node. An edge node
    /// sends one report per reading it receives, so a report adds one reading
    /// to the totals; an anomalous report adds to the anomaly counts. The
    /// latency recorded is the end-to-end one, from the sensor's timestamp of
    /// the latest reading to the coordinator's reception.
    pub fn receive_report<V>(&mut self, report: &EdgeReport<V>, now_ms: u64, received_at_ms: u64) -> (r: RegisterResponse)
        requires
            report_fits(
                old(self)@,
                report.edge_id@,
                report.anomaly_detected,
                reception_latency(received_at_ms, report.latest_sensor_ts),
            ),
        ensures
            final(self)@ == after_report(
                old(self)@,
                report.edge_id@,
                report.anomaly_detected,
                reception_latency(received_at_ms, report.latest_sensor_ts),
                later(old(self)@.clock_ms, now_ms),
            ),
            r.success,
            r.message@ == "Report accepted"@,
    {
        let ghost start = self@;
        let t = self.tick(now_ms);
        let latency = reception_latency_ms(received_at_ms, report.latest_sensor_ts);
        let k = self.ensure_edge(&report.edge_id, true, t);
        let old_entry = &self.edges[k];
        proof {
            assert(self@.edges[k as int] == old_entry@);
            match position_of(start.edges, report.edge_id@) {
                Some(i) => {
                    assert(old_entry@ == start.edges[i]);
                },
                None => {
                    assert(old_entry@ == EdgeView::fresh(report.edge_id@, true, t));
                },
            }
        }
        let entry = EdgeEntry {
            node_id: old_entry.node_id.clone(),
            is_edge: true,
            last_heartbeat_ms: t,
            last_report_ms: Some(t),
            total_reports: old_entry.total_reports + 1,
            total_readings: old_entry.total_readings + 1,
            anomaly_count: if report.anomaly_detected { old_entry.anomaly_count + 1 } else { old_entry.anomaly_count },
            latency_sum_ms: old_entry.latency_sum_ms + latency,
            latency_count: old_entry.latency_count + 1,
            was_down: old_entry.was_down,
        };
        self.put_edge(k, entry);
        proof { use_type_invariant(&*self); }
        self.total_readings = self.total_readings + 1;
        if report.anomaly_detected {
            self.anomalies_total = self.anomalies_total + 1;
        }
        let mut kept = prune_recent(&self.recent_anomalies, t);
        if report.anomaly_detected {
            kept.push(t);
        }
        self.recent_anomalies = kept;
        RegisterResponse::acknowledged("Report accepted")
    }

    /// GET /status: the coordinator's status at `now_ms`: the edge nodes
    /// alive (sensors that send heartbeats are not counted), the readings
    /// received since startup, the anomalous reports of the last minute and
    /// the uptime.
    pub fn status(&self, now_ms: u64) -> (r: CoordStatus)
        ensures
            ({
                let t = later(self@.clock_ms, now_ms);
                &&& r.active_edges == count_active(self@.edges, t)
                &&& r.total_readings == self@.total_readings
                &&& r.anomalies_last_min as nat == if recent(self@.recent_anomalies, t).len() > u32::MAX as nat {
                    u32::MAX as nat
                } else {
                    recent(self@.recent_anomalies, t).len()
                }
                &&& r.uptime_s == elapsed_s(self@.start_ms, t)
            }),
    {
        let t = if now_ms > self.clock_ms { now_ms } else { self.clock_ms };
        let n = self.edges.len();
        let mut active: usize = 0;
        assert(self@.edges.take(0) =~= seq![]);
        for i in 0..n
            invariant
                n == self@.edges.len(),
                active == count_active(self@.edges.take(i as int), t),
                active <= i,
        {
            proof {
                assert(self@.edges.take(i + 1).drop_last() =~= self@.edges.take(i as int));
            }
            if self.edges[i].is_active_edge(t) {
                active = active + 1;
            }
        }
        assert(self@.edges.take(n as int) =~= self@.edges);
        let c = count_recent(&self.recent_anomalies, t);
        let anomalies_last_min: u32 = if c > u32::MAX as usize { u32::MAX } else { c as u32 };
        CoordStatus {
            active_edges: active,
            total_readings: self.total_readings,
            anomalies_last_min,
            uptime_s: t.saturating_sub(self.start_ms) / 1000,
        }
    }

    /// One round of the liveness watch at `now_ms`: every node's down flag
    /// is brought up to date, and the nodes whose flag changed are returned
    /// in table order.
    pub fn watch_liveness(&mut self, now_ms: u64) -> (changes: Vec<LivenessChange>)
        ensures
            ({
                let t = later(old(self)@.clock_ms, now_ms);
                &&& final(self)@ == after_watch(old(self)@, t)
                &&& change_views(changes@) == liveness_changes(old(self)@.edges, t)
            }),
    {
        let t = self.tick(now_ms);
        proof { use_type_invariant(&*self); }
        let ghost before = self@.edges;
        let mut current: Vec<EdgeEntry> = Vec::new();
        std::mem::swap(&mut current, &mut self.edges);
        let n = current.len();
        let mut marked: Vec<EdgeEntry> = Vec::new();
        let mut changes: Vec<LivenessChange> = Vec::new();
        assert(before.take(0) =~= seq![]);
        assert(edge_views(marked@) =~= mark_liveness(before.take(0), t));
        assert(change_views(changes@) =~= seq![]);
        for i in 0..n
            invariant
                n == current@.len(),
                edge_views(current@) == before,
                marked@.len() == i,
                edge_views(marked@) == mark_liveness(before.take(i as int), t),
                change_views(changes@) == liveness_changes(before.take(i as int), t),
        {
            let e = &current[i];
            let alive = e.is_alive(t);
            let silent = t.saturating_sub(e.last_heartbeat_ms) / 1000;
            let ghost changes_before = changes@;
            if !alive && !e.was_down {
                changes.push(LivenessChange { node_id: e.node_id.clone(), went_down: true, silent_for_s: silent });
            } else if alive && e.was_down {
                changes.push(LivenessChange { node_id: e.node_id.clone(), went_down: false, silent_for_s: silent });
            }
            let ghost marked_before = marked@;
            marked.push(EdgeEntry {
                node_id: e.node_id.clone(),
                is_edge: e.is_edge,
                last_heartbeat_ms: e.last_heartbeat_ms,
                last_report_ms: e.last_report_ms,
                total_reports: e.total_reports,
                total_readings: e.total_readings,
                anomaly_count: e.anomaly_count,
                latency_sum_ms: e.latency_sum_ms,
                latency_count: e.latency_count,
                was_down: !alive,
            });
            proof {
                assert(current@[i as int]@ == before[i as int]);
                assert(marked@[i as int]@ == before[i as int].marked(t));
                assert(marked@.drop_last() == marked_before);
                assert(before.take(i + 1).drop_last() =~= before.take(i as int));
                assert(before.take(i + 1).last() == before[i as int]);
                assert forall|j: int| 0 <= j < i implies #[trigger] marked@[j]@ == before[j].marked(t) by {
                    assert(marked@[j] == marked_before[j]);
                    assert(edge_views(marked_before)[j] == mark_liveness(before.take(i as int), t)[j]);
                }
                assert(edge_views(marked@) =~= mark_liveness(before.take(i + 1), t));
                assert(change_views(changes@) =~= liveness_changes(before.take(i + 1), t));
            }
        }
        proof {
            assert(before.take(n as int) =~= before);
            assert(mark_liveness(before, t) =~= edge_views(marked@));
        }
        self.edges = marked;
        changes
    }
}

} // verus!
