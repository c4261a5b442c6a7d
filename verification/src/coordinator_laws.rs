//! Properties of the coordinator that hold across its operations.
use vstd::prelude::*;
use crate::coordinator::{
    after_heartbeat, after_register, after_report, after_watch, count_active, distinct_ids,
    elapsed_ms, later, liveness_changes, mark_liveness, position_of, recent, slot_of, with_edge,
    elapsed_s, report_fits, CoordView, EdgeView, ANOMALY_WINDOW_MS, HEARTBEAT_TIMEOUT_S,
};

verus! {

/// Readings counted by the nodes of a table.
pub open spec fn sum_readings(edges: Seq<EdgeView>) -> nat
    decreases edges.len(),
{
    if edges.len() == 0 {
        0
    } else {
        sum_readings(edges.drop_last()) + edges.last().total_readings as nat
    }
}

/// The coordinator's total equals the sum of its nodes' totals.
pub open spec fn totals_agree(s: CoordView) -> bool {
    s.total_readings as nat == sum_readings(s.edges)
}

proof fn lemma_sum_update(e: Seq<EdgeView>, k: int, v: EdgeView)
    requires
        0 <= k < e.len(),
    ensures
        sum_readings(e.update(k, v)) == sum_readings(e) - e[k].total_readings + v.total_readings,
    decreases e.len(),
{
    if k == e.len() - 1 {
        assert(e.update(k, v).drop_last() =~= e.drop_last());
    } else {
        assert(e.update(k, v).drop_last() =~= e.drop_last().update(k, v));
        lemma_sum_update(e.drop_last(), k, v);
    }
}

/// Adding a node that is not in the table keeps identifiers distinct, and the
/// node then stands at its slot.
pub proof fn lemma_with_edge(edges: Seq<EdgeView>, id: Seq<char>, is_edge: bool, t: u64)
    requires
        distinct_ids(edges),
    ensures
        distinct_ids(with_edge(edges, id, is_edge, t)),
        with_edge(edges, id, is_edge, t).len() == edges.len() || with_edge(edges, id, is_edge, t).len() == edges.len() + 1,
        0 <= slot_of(edges, id) < with_edge(edges, id, is_edge, t).len(),
        with_edge(edges, id, is_edge, t)[slot_of(edges, id)].node_id == id,
        position_of(with_edge(edges, id, is_edge, t), id) == Some(slot_of(edges, id)),
        sum_readings(with_edge(edges, id, is_edge, t)) == sum_readings(edges),
        forall|i: int| 0 <= i < edges.len() ==> #[trigger] with_edge(edges, id, is_edge, t)[i] == edges[i],
{
    let w = with_edge(edges, id, is_edge, t);
    let k = slot_of(edges, id);
    match position_of(edges, id) {
        Some(i) => {
            assert(edges[i].node_id == id);
        },
        None => {
            assert(w.drop_last() =~= edges);
            assert forall|a: int, b: int| 0 <= a < w.len() && 0 <= b < w.len() && a != b implies w[a].node_id != w[b].node_id by {
                if a < edges.len() && b < edges.len() {
                    assert(w[a] == edges[a] && w[b] == edges[b]);
                }
            }
        },
    }
    assert(w[k].node_id == id);
    let c = choose|i: int| 0 <= i < w.len() && w[i].node_id == id;
    assert(w[c].node_id == id);
    assert(c == k);
}

/// The table never holds a node twice: registrations, heartbeats, reports
/// and liveness watches keep node identifiers distinct.
pub proof fn law_ids_stay_distinct(
    s: CoordView,
    id: Seq<char>,
    is_edge: bool,
    anomaly: bool,
    latency_ms: u64,
    t: u64,
)
    requires
        distinct_ids(s.edges),
    ensures
        distinct_ids(after_register(s, id, is_edge, t).edges),
        distinct_ids(after_heartbeat(s, id, is_edge, t).edges),
        distinct_ids(after_report(s, id, anomaly, latency_ms, t).edges),
        distinct_ids(after_watch(s, t).edges),
{
    lemma_with_edge(s.edges, id, is_edge, t);
    lemma_with_edge(s.edges, id, true, t);
    let w = with_edge(s.edges, id, is_edge, t);
    let we = with_edge(s.edges, id, true, t);
    let k = slot_of(s.edges, id);
    let h = after_heartbeat(s, id, is_edge, t).edges;
    assert forall|a: int, b: int| 0 <= a < h.len() && 0 <= b < h.len() && a != b implies h[a].node_id != h[b].node_id by {
        assert(w[a].node_id == h[a].node_id && w[b].node_id == h[b].node_id);
    }
    let r = after_report(s, id, anomaly, latency_ms, t).edges;
    assert forall|a: int, b: int| 0 <= a < r.len() && 0 <= b < r.len() && a != b implies r[a].node_id != r[b].node_id by {
        assert(we[a].node_id == r[a].node_id && we[b].node_id == r[b].node_id);
    }
    let m = after_watch(s, t).edges;
    assert forall|a: int, b: int| 0 <= a < m.len() && 0 <= b < m.len() && a != b implies m[a].node_id != m[b].node_id by {
        assert(s.edges[a].node_id == m[a].node_id && s.edges[b].node_id == m[b].node_id);
    }
}

/// A node that sent a heartbeat or a report at `t` is in the table and
/// stays alive for the whole timeout after `t`, unless something later
/// changes it. A heartbeat records the role it names; a reporting node
/// counts as an active edge node throughout.
pub proof fn law_heard_node_is_alive(
    s: CoordView,
    id: Seq<char>,
    is_edge: bool,
    anomaly: bool,
    latency_ms: u64,
    t: u64,
)
    requires
        distinct_ids(s.edges),
    ensures
        ({
            let h = after_heartbeat(s, id, is_edge, t).edges;
            &&& position_of(h, id) == Some(slot_of(s.edges, id))
            &&& h[slot_of(s.edges, id)].is_edge == is_edge
            &&& forall|u: u64| elapsed_s(t, u) < HEARTBEAT_TIMEOUT_S ==> #[trigger] h[slot_of(s.edges, id)].alive(u)
        }),
        ({
            let r = after_report(s, id, anomaly, latency_ms, t).edges;
            &&& position_of(r, id) == Some(slot_of(s.edges, id))
            &&& r[slot_of(s.edges, id)].last_report_ms == Some(t)
            &&& forall|u: u64| elapsed_s(t, u) < HEARTBEAT_TIMEOUT_S ==> #[trigger] r[slot_of(s.edges, id)].active_edge(u)
        }),
{
    lemma_with_edge(s.edges, id, is_edge, t);
    lemma_with_edge(s.edges, id, true, t);
    law_ids_stay_distinct(s, id, is_edge, anomaly, latency_ms, t);
    let k = slot_of(s.edges, id);
    let h = after_heartbeat(s, id, is_edge, t).edges;
    assert(h[k].node_id == id);
    let c = choose|i: int| 0 <= i < h.len() && h[i].node_id == id;
    assert(h[c].node_id == id);
    let r = after_report(s, id, anomaly, latency_ms, t).edges;
    assert(r[k].node_id == id);
    let d = choose|i: int| 0 <= i < r.len() && r[i].node_id == id;
    assert(r[d].node_id == id);
}

/// Registering a node that is already known changes nothing but the clock.
pub proof fn law_register_known_node(s: CoordView, id: Seq<char>, is_edge: bool, t: u64)
    requires
        position_of(s.edges, id) is Some,
    ensures
        after_register(s, id, is_edge, t) == (CoordView { clock_ms: t, ..s }),
{
}

/// After a liveness watch at `t`, exactly the nodes that are not alive at
/// `t` are marked down, and nothing else about them changed.
pub proof fn law_watch_marks_down_exactly_the_silent(s: CoordView, t: u64)
    ensures
        after_watch(s, t).edges.len() == s.edges.len(),
        forall|i: int| 0 <= i < s.edges.len() ==> {
            let e = #[trigger] after_watch(s, t).edges[i];
            &&& e.was_down == !s.edges[i].alive(t)
            &&& e == (EdgeView { was_down: e.was_down, ..s.edges[i] })
        },
{
}

/// A second liveness watch at the same time reports no change.
pub proof fn law_watch_settles(s: CoordView, t: u64)
    ensures
        liveness_changes(after_watch(s, t).edges, t) == Seq::<crate::coordinator::LivenessChangeView>::empty(),
{
    lemma_no_changes_after_marking(s.edges, t);
}

proof fn lemma_no_changes_after_marking(edges: Seq<EdgeView>, t: u64)
    ensures
        liveness_changes(mark_liveness(edges, t), t) =~= Seq::<crate::coordinator::LivenessChangeView>::empty(),
    decreases edges.len(),
{
    if edges.len() > 0 {
        assert(mark_liveness(edges, t).drop_last() =~= mark_liveness(edges.drop_last(), t));
        lemma_no_changes_after_marking(edges.drop_last(), t);
    }
}

/// The coordinator's total of readings is the sum of the totals of its
/// nodes: true at startup, and kept by every operation.
pub proof fn law_totals_agree(
    s: CoordView,
    id: Seq<char>,
    is_edge: bool,
    anomaly: bool,
    latency_ms: u64,
    t: u64,
)
    requires
        distinct_ids(s.edges),
        totals_agree(s),
        s.total_readings < u64::MAX,
        match position_of(s.edges, id) {
            Some(i) => s.edges[i].total_readings < u64::MAX,
            None => true,
        },
    ensures
        totals_agree(CoordView {
            edges: seq![],
            total_readings: 0,
            anomalies_total: 0,
            recent_anomalies: seq![],
            start_ms: t,
            clock_ms: t,
        }),
        totals_agree(after_register(s, id, is_edge, t)),
        totals_agree(after_heartbeat(s, id, is_edge, t)),
        totals_agree(after_report(s, id, anomaly, latency_ms, t)),
        totals_agree(after_watch(s, t)),
{
    lemma_with_edge(s.edges, id, is_edge, t);
    lemma_with_edge(s.edges, id, true, t);
    let w = with_edge(s.edges, id, is_edge, t);
    let we = with_edge(s.edges, id, true, t);
    let k = slot_of(s.edges, id);
    lemma_sum_update(w, k, w[k].heard(is_edge, t));
    match position_of(s.edges, id) {
        Some(i) => {
            assert(we[k] == s.edges[i]);
        },
        None => {
            assert(we[k] == EdgeView::fresh(id, true, t));
        },
    }
    lemma_sum_update(we, k, we[k].reported(anomaly, latency_ms, t));
    lemma_sum_marked(s.edges, t);
}

proof fn lemma_sum_marked(edges: Seq<EdgeView>, t: u64)
    ensures
        sum_readings(mark_liveness(edges, t)) == sum_readings(edges),
    decreases edges.len(),
{
    if edges.len() > 0 {
        assert(mark_liveness(edges, t).drop_last() =~= mark_liveness(edges.drop_last(), t));
        lemma_sum_marked(edges.drop_last(), t);
    }
}

proof fn lemma_recent_idempotent(times: Seq<u64>, t: u64)
    ensures
        recent(recent(times, t), t) == recent(times, t),
    decreases times.len(),
{
    if times.len() > 0 {
        lemma_recent_idempotent(times.drop_last(), t);
        let rest = recent(times.drop_last(), t);
        if elapsed_ms(times.last(), t) < ANOMALY_WINDOW_MS as nat {
            assert(rest.push(times.last()).drop_last() =~= rest);
        }
    }
}

/// An anomalous report at `t` adds exactly one to the anomalies of the last
/// minute that the status reports at `t`; any other report leaves that
/// count as it was.
pub proof fn law_anomaly_counted_in_last_minute(
    s: CoordView,
    id: Seq<char>,
    is_edge: bool,
    anomaly: bool,
    latency_ms: u64,
    t: u64,
)
    requires
        s.clock_ms <= t,
    ensures
        ({
            let s2 = after_report(s, id, anomaly, latency_ms, t);
            recent(s2.recent_anomalies, later(s2.clock_ms, t)).len() == recent(s.recent_anomalies, t).len()
                + if anomaly { 1nat } else { 0nat }
        }),
{
    let kept = recent(s.recent_anomalies, t);
    lemma_recent_idempotent(s.recent_anomalies, t);
    if anomaly {
        assert(kept.push(t).drop_last() =~= kept);
    }
}

/// An anomaly no longer counts once a minute has passed since it was
/// reported.
pub proof fn law_anomaly_expires(times: Seq<u64>, t: u64, later_t: u64)
    requires
        later_t >= t + ANOMALY_WINDOW_MS,
    ensures
        recent(times.push(t), later_t) == recent(times, later_t),
{
    assert(times.push(t).drop_last() =~= times);
}

/// The count of active nodes never exceeds the number of known nodes.
pub proof fn law_active_within_known(edges: Seq<EdgeView>, t: u64)
    ensures
        count_active(edges, t) <= edges.len(),
    decreases edges.len(),
{
    if edges.len() > 0 {
        law_active_within_known(edges.drop_last(), t);
    }
}

/// The report and latency counters of a node agree: one latency per report,
/// no more anomalies than reports, and a time of last report exactly when
/// there was a report.
pub open spec fn node_consistent(e: EdgeView) -> bool {
    &&& e.latency_count == e.total_reports
    &&& e.anomaly_count <= e.total_reports
    &&& (e.last_report_ms is Some <==> e.total_reports > 0)
}

/// Every node of the table is consistent.
pub open spec fn nodes_consistent(edges: Seq<EdgeView>) -> bool {
    forall|i: int| 0 <= i < edges.len() ==> node_consistent(#[trigger] edges[i])
}

/// Every node's counters stay consistent: true at startup and kept by every
/// operation that leaves the counters within their integer types.
pub proof fn law_node_counters_agree(
    s: CoordView,
    id: Seq<char>,
    is_edge: bool,
    anomaly: bool,
    latency_ms: u64,
    t: u64,
)
    requires
        distinct_ids(s.edges),
        nodes_consistent(s.edges),
        report_fits(s, id, anomaly, latency_ms),
    ensures
        nodes_consistent(Seq::<EdgeView>::empty()),
        nodes_consistent(after_register(s, id, is_edge, t).edges),
        nodes_consistent(after_heartbeat(s, id, is_edge, t).edges),
        nodes_consistent(after_report(s, id, anomaly, latency_ms, t).edges),
        nodes_consistent(after_watch(s, t).edges),
{
    lemma_with_edge(s.edges, id, is_edge, t);
    lemma_with_edge(s.edges, id, true, t);
    let w = with_edge(s.edges, id, is_edge, t);
    let we = with_edge(s.edges, id, true, t);
    let k = slot_of(s.edges, id);
    assert forall|i: int| 0 <= i < w.len() implies node_consistent(#[trigger] w[i]) by {
        if i < s.edges.len() {
            assert(w[i] == s.edges[i]);
        }
    }
    assert forall|i: int| 0 <= i < we.len() implies node_consistent(#[trigger] we[i]) by {
        if i < s.edges.len() {
            assert(we[i] == s.edges[i]);
        }
    }
    let h = after_heartbeat(s, id, is_edge, t).edges;
    assert forall|i: int| 0 <= i < h.len() implies node_consistent(#[trigger] h[i]) by {
        assert(node_consistent(w[i]));
    }
    match position_of(s.edges, id) {
        Some(i) => {
            assert(we[k] == s.edges[i]);
        },
        None => {
            assert(we[k] == EdgeView::fresh(id, true, t));
        },
    }
    let r = after_report(s, id, anomaly, latency_ms, t).edges;
    assert forall|i: int| 0 <= i < r.len() implies node_consistent(#[trigger] r[i]) by {
        assert(node_consistent(we[i]));
    }
    let m = after_watch(s, t).edges;
    assert forall|i: int| 0 <= i < m.len() implies node_consistent(#[trigger] m[i]) by {
        assert(node_consistent(s.edges[i]));
    }
}

/// The counters of a node: reports, readings, anomalies, latency sum and
/// latency count.
pub open spec fn counters(e: EdgeView) -> (u64, u64, u64, u64, u64) {
    (e.total_reports, e.total_readings, e.anomaly_count, e.latency_sum_ms, e.latency_count)
}

/// The counters of the node with this identifier, if it is known.
pub open spec fn counters_of(edges: Seq<EdgeView>, id: Seq<char>) -> Option<(u64, u64, u64, u64, u64)> {
    match position_of(edges, id) {
        Some(i) => Some(counters(edges[i])),
        None => None,
    }
}

/// The counters after a report, from those before (none for a new node).
pub open spec fn bumped(c: Option<(u64, u64, u64, u64, u64)>, anomaly: bool, latency_ms: u64) -> (u64, u64, u64, u64, u64) {
    let (r, n, a, ls, lc) = match c {
        Some(v) => v,
        None => (0u64, 0u64, 0u64, 0u64, 0u64),
    };
    ((r + 1) as u64, (n + 1) as u64, if anomaly { (a + 1) as u64 } else { a }, (ls + latency_ms) as u64, (lc + 1) as u64)
}

proof fn lemma_counters_after_report(s: CoordView, id: Seq<char>, anomaly: bool, latency_ms: u64, t: u64, x: Seq<char>)
    requires
        distinct_ids(s.edges),
    ensures
        counters_of(after_report(s, id, anomaly, latency_ms, t).edges, x) == if x == id {
            Some(bumped(counters_of(s.edges, id), anomaly, latency_ms))
        } else {
            counters_of(s.edges, x)
        },
{
    lemma_with_edge(s.edges, id, true, t);
    law_ids_stay_distinct(s, id, true, anomaly, latency_ms, t);
    law_heard_node_is_alive(s, id, true, anomaly, latency_ms, t);
    let we = with_edge(s.edges, id, true, t);
    let k = slot_of(s.edges, id);
    let r = after_report(s, id, anomaly, latency_ms, t).edges;
    if x == id {
        match position_of(s.edges, id) {
            Some(i) => {
                assert(we[k] == s.edges[i]);
            },
            None => {
                assert(we[k] == EdgeView::fresh(id, true, t));
            },
        }
    } else {
        match position_of(s.edges, x) {
            Some(i) => {
                assert(s.edges[i].node_id == x);
                if position_of(s.edges, id) is Some {
                    assert(s.edges[k].node_id == id);
                }
                assert(i != k);
                assert(r[i] == s.edges[i]);
                let c = choose|j: int| 0 <= j < r.len() && r[j].node_id == x;
                assert(r[c].node_id == x);
                assert(c == i);
            },
            None => {
                if exists|j: int| 0 <= j < r.len() && r[j].node_id == x {
                    let j = choose|j: int| 0 <= j < r.len() && r[j].node_id == x;
                    if j == k {
                        assert(r[k].node_id == id);
                    } else {
                        assert(r[j] == we[j]);
                        if j < s.edges.len() {
                            assert(we[j] == s.edges[j]);
                        } else {
                            assert(we[j].node_id == id);
                        }
                    }
                }
            },
        }
    }
}

proof fn lemma_recent_push(times: Seq<u64>, y: u64, u: u64)
    ensures
        recent(times.push(y), u) == if elapsed_ms(y, u) < ANOMALY_WINDOW_MS as nat {
            recent(times, u).push(y)
        } else {
            recent(times, u)
        },
{
    assert(times.push(y).drop_last() =~= times);
}

proof fn lemma_recent_later(times: Seq<u64>, t: u64, u: u64)
    requires
        t <= u,
    ensures
        recent(recent(times, t), u) == recent(times, u),
    decreases times.len(),
{
    if times.len() > 0 {
        lemma_recent_later(times.drop_last(), t, u);
        let y = times.last();
        lemma_recent_push(recent(times.drop_last(), t), y, u);
    }
}

/// The anomalies of the last minute that the status reports at `u`.
pub open spec fn anomalies_at(s: CoordView, u: u64) -> nat {
    recent(s.recent_anomalies, u).len()
}

/// Two reports received one after the other leave the same counters in
/// either order: the totals, the anomaly counts, and every node's report,
/// reading, anomaly and latency counters. The anomalies of the last minute
/// also agree at any later time at which both reception times are recent or
/// both are not.
pub proof fn law_reports_commute(
    s: CoordView,
    id1: Seq<char>,
    anomaly1: bool,
    latency1: u64,
    id2: Seq<char>,
    anomaly2: bool,
    latency2: u64,
    t1: u64,
    t2: u64,
)
    requires
        distinct_ids(s.edges),
        t1 <= t2,
        report_fits(s, id1, anomaly1, latency1),
        report_fits(after_report(s, id1, anomaly1, latency1, t1), id2, anomaly2, latency2),
        report_fits(s, id2, anomaly2, latency2),
        report_fits(after_report(s, id2, anomaly2, latency2, t1), id1, anomaly1, latency1),
    ensures
        ({
            let a = after_report(after_report(s, id1, anomaly1, latency1, t1), id2, anomaly2, latency2, t2);
            let b = after_report(after_report(s, id2, anomaly2, latency2, t1), id1, anomaly1, latency1, t2);
            &&& a.total_readings == b.total_readings
            &&& a.anomalies_total == b.anomalies_total
            &&& forall|x: Seq<char>| #[trigger] counters_of(a.edges, x) == counters_of(b.edges, x)
            &&& forall|u: u64|
                t2 <= u && (elapsed_ms(t1, u) < ANOMALY_WINDOW_MS as nat) == (elapsed_ms(t2, u) < ANOMALY_WINDOW_MS as nat)
                    ==> #[trigger] anomalies_at(a, u) == anomalies_at(b, u)
        }),
{
    let a1 = after_report(s, id1, anomaly1, latency1, t1);
    let b1 = after_report(s, id2, anomaly2, latency2, t1);
    law_ids_stay_distinct(s, id1, true, anomaly1, latency1, t1);
    law_ids_stay_distinct(s, id2, true, anomaly2, latency2, t1);
    let a = after_report(a1, id2, anomaly2, latency2, t2);
    let b = after_report(b1, id1, anomaly1, latency1, t2);
    assert forall|x: Seq<char>| #[trigger] counters_of(a.edges, x) == counters_of(b.edges, x) by {
        lemma_counters_after_report(s, id1, anomaly1, latency1, t1, x);
        lemma_counters_after_report(s, id2, anomaly2, latency2, t1, x);
        lemma_counters_after_report(a1, id2, anomaly2, latency2, t2, x);
        lemma_counters_after_report(b1, id1, anomaly1, latency1, t2, x);
        lemma_counters_after_report(s, id1, anomaly1, latency1, t1, id2);
        lemma_counters_after_report(s, id2, anomaly2, latency2, t1, id1);
        match position_of(s.edges, id1) {
            Some(i) => { assert(s.edges[i].node_id == id1); },
            None => {},
        }
        match position_of(s.edges, id2) {
            Some(i) => { assert(s.edges[i].node_id == id2); },
            None => {},
        }
        match position_of(a1.edges, id2) {
            Some(i) => { assert(a1.edges[i].node_id == id2); },
            None => {},
        }
        match position_of(b1.edges, id1) {
            Some(i) => { assert(b1.edges[i].node_id == id1); },
            None => {},
        }
    }
    assert forall|u: u64|
        t2 <= u && (elapsed_ms(t1, u) < ANOMALY_WINDOW_MS as nat) == (elapsed_ms(t2, u) < ANOMALY_WINDOW_MS as nat)
            implies #[trigger] anomalies_at(a, u) == anomalies_at(b, u) by {
        let base = recent(s.recent_anomalies, t1);
        lemma_recent_later(s.recent_anomalies, t1, u);
        lemma_recent_push(base, t1, t2);
        lemma_recent_push(base, t1, u);
        lemma_recent_later(base, t2, u);
        lemma_recent_later(base.push(t1), t2, u);
        lemma_recent_push(recent(base.push(t1), t2), t2, u);
        lemma_recent_push(recent(base, t2), t2, u);
        lemma_recent_later(s.recent_anomalies, t1, t1);
    }
}

/// The node has sent no heartbeat for ten seconds or more at `t`.
pub open spec fn silent_at(e: EdgeView, t: u64) -> bool {
    (if t >= e.last_heartbeat_ms { (t - e.last_heartbeat_ms) as nat } else { 0nat }) >= 10_000
}

/// The node's down flag disagrees with its silence at `t`.
pub open spec fn flips(e: EdgeView, t: u64) -> bool {
    e.was_down != silent_at(e, t)
}

/// How many nodes of the table have a down flag that disagrees with their
/// silence at `t`.
pub open spec fn count_flips(edges: Seq<EdgeView>, t: u64) -> nat
    decreases edges.len(),
{
    if edges.len() == 0 {
        0
    } else {
        count_flips(edges.drop_last(), t) + if flips(edges.last(), t) { 1nat } else { 0nat }
    }
}

/// The liveness watch reports exactly the nodes whose down flag changes:
/// one change per such node, naming it, saying that it went down when it has
/// been silent for ten seconds or more and that it came back otherwise, and
/// no change for any other node.
pub proof fn law_watch_reports_every_flip(edges: Seq<EdgeView>, t: u64)
    ensures
        liveness_changes(edges, t).len() == count_flips(edges, t),
        forall|i: int|
            0 <= i < edges.len() && flips(#[trigger] edges[i], t) ==> exists|j: int|
                0 <= j < liveness_changes(edges, t).len()
                    && #[trigger] liveness_changes(edges, t)[j].node_id == edges[i].node_id
                    && liveness_changes(edges, t)[j].went_down == silent_at(edges[i], t),
        forall|j: int|
            0 <= j < liveness_changes(edges, t).len() ==> exists|i: int|
                0 <= i < edges.len() && flips(#[trigger] edges[i], t)
                    && #[trigger] liveness_changes(edges, t)[j].node_id == edges[i].node_id
                    && liveness_changes(edges, t)[j].went_down == silent_at(edges[i], t),
    decreases edges.len(),
{
    if edges.len() > 0 {
        let init = edges.drop_last();
        law_watch_reports_every_flip(init, t);
        let c0 = liveness_changes(init, t);
        let c = liveness_changes(edges, t);
        let e = edges.last();
        let n = edges.len() - 1;
        assert(e.alive(t) == !silent_at(e, t));
        assert forall|i: int| 0 <= i < edges.len() && flips(#[trigger] edges[i], t) implies exists|j: int|
            0 <= j < c.len() && #[trigger] c[j].node_id == edges[i].node_id && c[j].went_down == silent_at(edges[i], t) by {
            if i < n {
                assert(edges[i] == init[i]);
                let j = choose|j: int| 0 <= j < c0.len() && #[trigger] c0[j].node_id == init[i].node_id && c0[j].went_down == silent_at(init[i], t);
                assert(c[j] == c0[j]);
            } else {
                assert(c[c.len() - 1].node_id == e.node_id);
            }
        }
        assert forall|j: int| 0 <= j < c.len() implies exists|i: int|
            0 <= i < edges.len() && flips(#[trigger] edges[i], t) && #[trigger] c[j].node_id == edges[i].node_id
                && c[j].went_down == silent_at(edges[i], t) by {
            if j < c0.len() {
                assert(c[j] == c0[j]);
                let i = choose|i: int| 0 <= i < init.len() && flips(#[trigger] init[i], t) && #[trigger] c0[j].node_id == init[i].node_id && c0[j].went_down == silent_at(init[i], t);
                assert(edges[i] == init[i]);
            } else {
                assert(flips(edges[n], t));
            }
        }
    }
}

proof fn lemma_position_kept(a: Seq<EdgeView>, b: Seq<EdgeView>, x: Seq<char>)
    requires
        distinct_ids(a),
        a.len() == b.len(),
        forall|i: int| 0 <= i < a.len() ==> #[trigger] b[i].node_id == a[i].node_id,
    ensures
        position_of(b, x) == position_of(a, x),
{
    if exists|i: int| 0 <= i < a.len() && a[i].node_id == x {
        let i = choose|i: int| 0 <= i < a.len() && a[i].node_id == x;
        assert(b[i].node_id == x);
        let c = choose|k: int| 0 <= k < b.len() && b[k].node_id == x;
        assert(b[c].node_id == x);
        assert(a[c].node_id == x);
    } else {
        if exists|k: int| 0 <= k < b.len() && b[k].node_id == x {
            let k = choose|k: int| 0 <= k < b.len() && b[k].node_id == x;
            assert(a[k].node_id == x);
        }
    }
}

/// Registrations, heartbeats and liveness watches leave every node's report,
/// reading, anomaly and latency counters as they were; a node that is new
/// starts with all of them at zero.
pub proof fn law_only_reports_count(s: CoordView, id: Seq<char>, is_edge: bool, t: u64, x: Seq<char>)
    requires
        distinct_ids(s.edges),
    ensures
        counters_of(after_heartbeat(s, id, is_edge, t).edges, x) == if x == id && position_of(s.edges, id) is None {
            Some((0u64, 0u64, 0u64, 0u64, 0u64))
        } else {
            counters_of(s.edges, x)
        },
        counters_of(after_register(s, id, is_edge, t).edges, x) == if x == id && position_of(s.edges, id) is None {
            Some((0u64, 0u64, 0u64, 0u64, 0u64))
        } else {
            counters_of(s.edges, x)
        },
        counters_of(after_watch(s, t).edges, x) == counters_of(s.edges, x),
{
    lemma_with_edge(s.edges, id, is_edge, t);
    law_ids_stay_distinct(s, id, is_edge, false, 0, t);
    let w = with_edge(s.edges, id, is_edge, t);
    let k = slot_of(s.edges, id);
    let h = after_heartbeat(s, id, is_edge, t).edges;
    assert forall|i: int| 0 <= i < w.len() implies #[trigger] h[i].node_id == w[i].node_id by {}
    lemma_position_kept(w, h, x);
    assert forall|i: int| 0 <= i < w.len() implies #[trigger] counters(h[i]) == counters(w[i]) by {}
    match position_of(s.edges, x) {
        Some(i) => {
            assert(s.edges[i].node_id == x);
            assert(w[i] == s.edges[i]);
            assert(counters(h[i]) == counters(w[i]));
        },
        None => {
            if x == id {
                assert(w[k] == EdgeView::fresh(id, is_edge, t));
                assert(counters(h[k]) == counters(w[k]));
            } else {
                if exists|j: int| 0 <= j < w.len() && w[j].node_id == x {
                    let j = choose|j: int| 0 <= j < w.len() && w[j].node_id == x;
                    if j < s.edges.len() {
                        assert(w[j] == s.edges[j]);
                    } else {
                        assert(w[j].node_id == id);
                    }
                }
            }
        },
    }
    let m = after_watch(s, t).edges;
    assert forall|i: int| 0 <= i < s.edges.len() implies #[trigger] m[i].node_id == s.edges[i].node_id by {}
    lemma_position_kept(s.edges, m, x);
    match position_of(s.edges, x) {
        Some(i) => {
            assert(counters(m[i]) == counters(s.edges[i]));
        },
        None => {},
    }
}

/// A node that registers for the first time keeps the role it announced and
/// counts as heard at that moment: a new edge node adds one to the active edge
/// nodes, and a node in any other role adds none.
pub proof fn law_registration_records_role(s: CoordView, id: Seq<char>, is_edge: bool, t: u64)
    requires
        distinct_ids(s.edges),
        position_of(s.edges, id) is None,
    ensures
        ({
            let r = after_register(s, id, is_edge, t).edges;
            let k = slot_of(s.edges, id);
            &&& r[k].node_id == id
            &&& r[k].is_edge == is_edge
            &&& r[k].last_heartbeat_ms == t
            &&& r[k].last_report_ms is None
            &&& !r[k].was_down
            &&& count_active(r, t) == count_active(s.edges, t) + if is_edge { 1nat } else { 0nat }
        }),
{
    let r = after_register(s, id, is_edge, t).edges;
    assert(r.drop_last() =~= s.edges);
}

} // verus!
