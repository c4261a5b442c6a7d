//! The coordinator's HTML dashboard: one row per known edge node, sorted by
//! node identifier, under the coordinator's totals.
use vstd::prelude::*;
use vstd::string::*;
use crate::coordinator::{count_active, distinct_ids, edge_views, elapsed_s, later, CoordState, EdgeEntry, EdgeView};
use crate::text::{
    decimal, lemma_lex_lt_asymmetric, lemma_lex_lt_irreflexive, lemma_lex_lt_total, lemma_lex_lt_transitive,
    lex_less, lex_lt, push_decimal,
};

verus! {

/// What the dashboard shows of one edge node.
pub struct DashboardRowView {
    pub node_id: Seq<char>,
    pub online: bool,
    pub total_reports: nat,
    pub anomaly_count: nat,
    pub avg_latency_ms: nat,
    pub last_heartbeat_s: nat,
}

/// One row of the dashboard.
pub struct DashboardRow {
    pub node_id: String,
    /// The node sent a heartbeat within the timeout
    pub online: bool,
    pub total_reports: u64,
    pub anomaly_count: u64,
    pub avg_latency_ms: u64,
    /// Seconds since the node's last heartbeat
    pub last_heartbeat_s: u64,
}

impl View for DashboardRow {
    type V = DashboardRowView;

    open spec fn view(&self) -> DashboardRowView {
        DashboardRowView {
            node_id: self.node_id@,
            online: self.online,
            total_reports: self.total_reports as nat,
            anomaly_count: self.anomaly_count as nat,
            avg_latency_ms: self.avg_latency_ms as nat,
            last_heartbeat_s: self.last_heartbeat_s as nat,
        }
    }
}

/// The views of a sequence of rows.
pub open spec fn row_views(rows: Seq<DashboardRow>) -> Seq<DashboardRowView> {
    Seq::new(rows.len(), |i: int| rows[i]@)
}

/// The row of a node at time `t`.
pub open spec fn row_of(e: EdgeView, t: u64) -> DashboardRowView {
    DashboardRowView {
        node_id: e.node_id,
        online: e.alive(t),
        total_reports: e.total_reports as nat,
        anomaly_count: e.anomaly_count as nat,
        avg_latency_ms: e.avg_latency(),
        last_heartbeat_s: elapsed_s(e.last_heartbeat_ms, t),
    }
}

/// Rows sorted strictly by node identifier.
pub open spec fn sorted_by_id(rows: Seq<DashboardRowView>) -> bool {
    forall|a: int, b: int| 0 <= a < b < rows.len() ==> lex_lt(#[trigger] rows[a].node_id, #[trigger] rows[b].node_id)
}

/// `r` is one of `rows`.
pub open spec fn has_row(rows: Seq<DashboardRowView>, r: DashboardRowView) -> bool {
    exists|j: int| 0 <= j < rows.len() && rows[j] == r
}

/// `r` is the row, at time `t`, of one of the first `n` nodes.
pub open spec fn row_of_some(edges: Seq<EdgeView>, n: int, t: u64, r: DashboardRowView) -> bool {
    exists|m: int| 0 <= m < n && row_of(edges[m], t) == r
}

/// `rows` are the rows, at time `t`, of the first `n` nodes, each once.
pub open spec fn lists_first(rows: Seq<DashboardRowView>, edges: Seq<EdgeView>, n: int, t: u64) -> bool {
    &&& rows.len() == n
    &&& forall|j: int| 0 <= j < rows.len() ==> row_of_some(edges, n, t, #[trigger] rows[j])
    &&& forall|m: int| 0 <= m < n ==> has_row(rows, row_of(#[trigger] edges[m], t))
}

/// `rows` are the rows of all the nodes at time `t`, each once.
pub open spec fn lists_table(rows: Seq<DashboardRowView>, edges: Seq<EdgeView>, t: u64) -> bool {
    lists_first(rows, edges, edges.len() as int, t)
}

proof fn lemma_insert_sorted(s: Seq<DashboardRowView>, p: int, x: DashboardRowView)
    requires
        sorted_by_id(s),
        0 <= p <= s.len(),
        forall|j: int| 0 <= j < p ==> lex_lt(#[trigger] s[j].node_id, x.node_id),
        forall|j: int| p <= j < s.len() ==> lex_lt(x.node_id, #[trigger] s[j].node_id),
    ensures
        sorted_by_id(s.insert(p, x)),
{
    let s2 = s.insert(p, x);
    assert forall|a: int, b: int| 0 <= a < b < s2.len() implies lex_lt(#[trigger] s2[a].node_id, #[trigger] s2[b].node_id) by {
        if b < p {
            assert(s2[a] == s[a] && s2[b] == s[b]);
        } else if b == p {
            assert(s2[a] == s[a] && s2[b] == x);
        } else if a < p {
            assert(s2[a] == s[a] && s2[b] == s[b - 1]);
        } else if a == p {
            assert(s2[a] == x && s2[b] == s[b - 1]);
        } else {
            assert(s2[a] == s[a - 1] && s2[b] == s[b - 1]);
        }
    }
}

/// The row of a node at time `t`.
fn make_row(e: &EdgeEntry, t: u64) -> (r: DashboardRow)
    ensures
        r@ == row_of(e@, t),
{
    DashboardRow {
        node_id: e.node_id.clone(),
        online: e.is_alive(t),
        total_reports: e.total_reports,
        anomaly_count: e.anomaly_count,
        avg_latency_ms: e.avg_latency_ms(),
        last_heartbeat_s: t.saturating_sub(e.last_heartbeat_ms) / 1000,
    }
}

/// The first position of sorted `rows` whose identifier comes after `id`.
fn insertion_point(rows: &Vec<DashboardRow>, id: &String) -> (p: usize)
    requires
        sorted_by_id(row_views(rows@)),
    ensures
        p <= rows@.len(),
        forall|j: int| 0 <= j < p ==> !lex_lt(id@, #[trigger] rows@[j].node_id@),
        forall|j: int| p <= j < rows@.len() ==> lex_lt(id@, #[trigger] rows@[j].node_id@),
{
    let n = rows.len();
    let mut p: usize = 0;
    while p < n
        invariant
            n == rows@.len(),
            p <= n,
            sorted_by_id(row_views(rows@)),
            forall|j: int| 0 <= j < p ==> !lex_lt(id@, #[trigger] rows@[j].node_id@),
        decreases n - p,
    {
        if lex_less(id, &rows[p].node_id) {
            proof {
                let rv = row_views(rows@);
                assert forall|j: int| p <= j < rows@.len() implies lex_lt(id@, #[trigger] rows@[j].node_id@) by {
                    if j > p {
                        assert(rv[p as int].node_id == rows@[p as int].node_id@);
                        assert(rv[j].node_id == rows@[j].node_id@);
                        lemma_lex_lt_transitive(id@, rv[p as int].node_id, rv[j].node_id);
                    }
                }
            }
            return p;
        }
        p = p + 1;
    }
    p
}

/// The dashboard's rows at `now_ms`: one per known node, sorted by node
/// identifier.
pub fn dashboard_rows(state: &CoordState, now_ms: u64) -> (rows: Vec<DashboardRow>)
    ensures
        sorted_by_id(row_views(rows@)),
        lists_table(row_views(rows@), state@.edges, later(state@.clock_ms, now_ms)),
{
    let clock = state.clock_ms();
    let t = if now_ms > clock { now_ms } else { clock };
    let edges = state.edges();
    let ghost ev = state@.edges;
    let n = edges.len();
    let mut rows: Vec<DashboardRow> = Vec::new();
    for i in 0..n
        invariant
            n == edges@.len(),
            edge_views(edges@) == ev,
            distinct_ids(ev),
            sorted_by_id(row_views(rows@)),
            lists_first(row_views(rows@), ev, i as int, t),
    {
        let row = make_row(&edges[i], t);
        let p = insertion_point(&rows, &row.node_id);
        let ghost s = row_views(rows@);
        let ghost x = row@;
        proof {
            assert(x == row_of(ev[i as int], t));
            assert forall|j: int| 0 <= j < p implies lex_lt(#[trigger] s[j].node_id, x.node_id) by {
                assert(s[j].node_id == rows@[j].node_id@);
                assert(row_of_some(ev, i as int, t, s[j]));
                let m = choose|m: int| 0 <= m < i && row_of(ev[m], t) == s[j];
                assert(ev[m].node_id != ev[i as int].node_id);
                lemma_lex_lt_total(s[j].node_id, x.node_id);
            }
            assert forall|j: int| p <= j < s.len() implies lex_lt(x.node_id, #[trigger] s[j].node_id) by {
                assert(s[j].node_id == rows@[j].node_id@);
            }
            lemma_insert_sorted(s, p as int, x);
        }
        rows.insert(p, row);
        proof {
            let s2 = row_views(rows@);
            assert(s2 =~= s.insert(p as int, x));
            assert forall|j: int| 0 <= j < s2.len() implies row_of_some(ev, i + 1, t, #[trigger] s2[j]) by {
                if j < p {
                    assert(s2[j] == s[j]);
                    assert(row_of_some(ev, i as int, t, s[j]));
                    let m = choose|m: int| 0 <= m < i && row_of(ev[m], t) == s[j];
                    assert(row_of(ev[m], t) == s2[j]);
                } else if j == p {
                    assert(row_of(ev[i as int], t) == s2[j]);
                } else {
                    assert(s2[j] == s[j - 1]);
                    assert(row_of_some(ev, i as int, t, s[j - 1]));
                    let m = choose|m: int| 0 <= m < i && row_of(ev[m], t) == s[j - 1];
                    assert(row_of(ev[m], t) == s2[j]);
                }
            }
            assert forall|m: int| 0 <= m < i + 1 implies has_row(s2, row_of(#[trigger] ev[m], t)) by {
                if m < i {
                    assert(has_row(s, row_of(ev[m], t)));
                    let j = choose|j: int| 0 <= j < s.len() && s[j] == row_of(ev[m], t);
                    if j < p {
                        assert(s2[j] == s[j]);
                    } else {
                        assert(s2[j + 1] == s[j]);
                    }
                } else {
                    assert(s2[p as int] == x);
                }
            }
        }
    }
    rows
}

/// The dashboard's style sheet.
pub const DASHBOARD_CSS: &'static str = "body{font-family:monospace;background:#1e1e1e;color:#d4d4d4;margin:0;padding:0}\
.wrap{max-width:860px;margin:0 auto;padding:20px 24px}\
h1{color:#569cd6;margin:0 0 2px}\
.sub{color:#555;font-size:0.8em;margin-bottom:16px}\
.card{background:#252526;border-radius:6px;padding:16px;margin-bottom:16px}\
.card h2{color:#9cdcfe;font-size:0.92em;margin:0 0 12px;padding-bottom:8px;border-bottom:1px solid #2d2d2d}\
.stats{display:flex;gap:28px;margin-bottom:8px}\
.stat .v{font-size:1.9em;color:#569cd6;font-weight:bold}\
.stat .l{font-size:0.72em;color:#777}\
table{border-collapse:collapse;width:100%}\
th{background:#2d2d2d;padding:7px 10px;text-align:left;color:#9cdcfe;font-size:0.85em}\
td{padding:5px 10px;border-bottom:1px solid #222;font-size:0.88em}\
.idle{color:#4ec9b0}.offline{color:#f44747}";

/// The page up to the style sheet.
pub const PAGE_HEAD: &'static str = "<!DOCTYPE html><html><head><meta charset=\"UTF-8\">\
<meta http-equiv=\"refresh\" content=\"3\">\
<title>Heartbeat-IoT Coordinator</title>\
<style>";

/// From the style sheet to the count of active edges.
pub const PAGE_BEFORE_ACTIVE: &'static str = "</style></head><body><div class=\"wrap\">\
<h1>💓 Heartbeat-IoT</h1>\
<div class=\"sub\">Coordinator — IL355 Proyecto 2</div>\
<div class=\"card\"><div class=\"stats\">\
<div class=\"stat\"><div class=\"v\">";

/// From the count of active edges to the total of readings.
pub const PAGE_BEFORE_READINGS: &'static str = "</div><div class=\"l\">Active Edges</div></div>\
<div class=\"stat\"><div class=\"v\">";

/// From the total of readings to the count of anomalies.
pub const PAGE_BEFORE_ANOMALIES: &'static str = "</div><div class=\"l\">Total Readings</div></div>\
<div class=\"stat\"><div class=\"v\">";

/// From the count of anomalies to the uptime.
pub const PAGE_BEFORE_UPTIME: &'static str = "</div><div class=\"l\">Anomalies (session)</div></div>\
<div class=\"stat\"><div class=\"v\">";

/// From the uptime to the rows of the table.
pub const PAGE_BEFORE_ROWS: &'static str = "s</div><div class=\"l\">Uptime</div></div>\
</div></div>\
<div class=\"card\"><h2>Edge Nodes</h2>\
<table><tr><th>ID</th><th>Status</th><th>Reports</th><th>Anomalies</th><th>Avg Latency</th><th>Last HB</th></tr>";

/// From the rows of the table to the end of the page.
pub const PAGE_TAIL: &'static str = "</table></div>\
<div style=\"color:#383838;font-size:0.78em\">Auto-refresh every 3s &nbsp;|&nbsp; \
<a href=\"/status\" style=\"color:#4ec9b0\">JSON /status</a></div>\
</div></body></html>";

/// The row that stands in the table while no node is known.
pub const NO_EDGES_ROW: &'static str = "<tr><td colspan=\"6\" style=\"color:#444\">No edge nodes registered yet</td></tr>";

/// The status label of a row.
pub open spec fn status_label(online: bool) -> Seq<char> {
    if online { "online"@ } else { "offline"@ }
}

/// The style class of a row's status.
pub open spec fn status_class(online: bool) -> Seq<char> {
    if online { "idle"@ } else { "offline"@ }
}

/// The HTML of one row of the table.
pub open spec fn row_html(r: DashboardRowView) -> Seq<char> {
    "<tr><td>"@ + r.node_id + "</td><td class=\""@ + status_class(r.online) + "\">"@ + status_label(r.online)
        + "</td><td>"@ + decimal(r.total_reports) + "</td><td>"@ + decimal(r.anomaly_count) + "</td><td>"@
        + decimal(r.avg_latency_ms) + "ms</td><td>"@ + decimal(r.last_heartbeat_s) + "s ago</td></tr>\n"@
}

/// The HTML of rows, in order.
pub open spec fn rows_html(rows: Seq<DashboardRowView>) -> Seq<char>
    decreases rows.len(),
{
    if rows.len() == 0 {
        seq![]
    } else {
        rows_html(rows.drop_last()) + row_html(rows.last())
    }
}

/// The body of the table: the rows, or a notice when there is none.
pub open spec fn table_body(rows: Seq<DashboardRowView>) -> Seq<char> {
    if rows.len() == 0 { NO_EDGES_ROW@ } else { rows_html(rows) }
}

/// The whole page.
pub open spec fn dashboard_page(
    active: nat,
    readings: nat,
    anomalies: nat,
    uptime_s: nat,
    rows: Seq<DashboardRowView>,
) -> Seq<char> {
    PAGE_HEAD@ + DASHBOARD_CSS@ + PAGE_BEFORE_ACTIVE@ + decimal(active) + PAGE_BEFORE_READINGS@ + decimal(readings)
        + PAGE_BEFORE_ANOMALIES@ + decimal(anomalies) + PAGE_BEFORE_UPTIME@ + decimal(uptime_s)
        + PAGE_BEFORE_ROWS@ + table_body(rows) + PAGE_TAIL@
}

/// Appends `piece` to `s`, where `s` holds `base` followed by `written`.
fn push_piece(s: &mut String, piece: &str, Ghost(base): Ghost<Seq<char>>, Ghost(written): Ghost<Seq<char>>)
    requires
        old(s)@ == base + written,
    ensures
        final(s)@ == base + (written + piece@),
{
    s.append(piece);
    proof {
        assert(final(s)@ =~= base + (written + piece@));
    }
}

/// Appends the HTML of one row.
fn push_row_html(s: &mut String, r: &DashboardRow)
    ensures
        final(s)@ == old(s)@ + row_html(r@),
{
    let ghost base = s@;
    let class: &str = if r.online { "idle" } else { "offline" };
    let label: &str = if r.online { "online" } else { "offline" };
    assert(class@ == status_class(r.online));
    assert(label@ == status_label(r.online));
    assert(s@ =~= base + Seq::<char>::empty());
    push_piece(s, "<tr><td>", Ghost(base), Ghost(Seq::<char>::empty()));
    let ghost w = Seq::<char>::empty() + "<tr><td>"@;
    assert(w =~= "<tr><td>"@);
    push_piece(s, r.node_id.as_str(), Ghost(base), Ghost(w));
    let ghost w = w + r.node_id@;
    push_piece(s, "</td><td class=\"", Ghost(base), Ghost(w));
    let ghost w = w + "</td><td class=\""@;
    push_piece(s, class, Ghost(base), Ghost(w));
    let ghost w = w + class@;
    push_piece(s, "\">", Ghost(base), Ghost(w));
    let ghost w = w + "\">"@;
    push_piece(s, label, Ghost(base), Ghost(w));
    let ghost w = w + label@;
    push_piece(s, "</td><td>", Ghost(base), Ghost(w));
    let ghost w = w + "</td><td>"@;
    let n1 = crate::text::to_decimal(r.total_reports);
    push_piece(s, n1.as_str(), Ghost(base), Ghost(w));
    let ghost w = w + decimal(r.total_reports as nat);
    push_piece(s, "</td><td>", Ghost(base), Ghost(w));
    let ghost w = w + "</td><td>"@;
    let n2 = crate::text::to_decimal(r.anomaly_count);
    push_piece(s, n2.as_str(), Ghost(base), Ghost(w));
    let ghost w = w + decimal(r.anomaly_count as nat);
    push_piece(s, "</td><td>", Ghost(base), Ghost(w));
    let ghost w = w + "</td><td>"@;
    let n3 = crate::text::to_decimal(r.avg_latency_ms);
    push_piece(s, n3.as_str(), Ghost(base), Ghost(w));
    let ghost w = w + decimal(r.avg_latency_ms as nat);
    push_piece(s, "ms</td><td>", Ghost(base), Ghost(w));
    let ghost w = w + "ms</td><td>"@;
    let n4 = crate::text::to_decimal(r.last_heartbeat_s);
    push_piece(s, n4.as_str(), Ghost(base), Ghost(w));
    let ghost w = w + decimal(r.last_heartbeat_s as nat);
    push_piece(s, "s ago</td></tr>\n", Ghost(base), Ghost(w));
    let ghost w = w + "s ago</td></tr>\n"@;
    assert(w == row_html(r@));
}

/// The dashboard page with the given totals and rows.
pub fn render_dashboard(active: u64, readings: u64, anomalies: u64, uptime_s: u64, rows: &Vec<DashboardRow>) -> (page: String)
    ensures
        page@ == dashboard_page(active as nat, readings as nat, anomalies as nat, uptime_s as nat, row_views(rows@)),
{
    let mut s = String::from_str(PAGE_HEAD);
    s.append(DASHBOARD_CSS);
    s.append(PAGE_BEFORE_ACTIVE);
    push_decimal(&mut s, active);
    s.append(PAGE_BEFORE_READINGS);
    push_decimal(&mut s, readings);
    s.append(PAGE_BEFORE_ANOMALIES);
    push_decimal(&mut s, anomalies);
    s.append(PAGE_BEFORE_UPTIME);
    push_decimal(&mut s, uptime_s);
    s.append(PAGE_BEFORE_ROWS);
    let ghost head = s@;
    let ghost rv = row_views(rows@);
    let n = rows.len();
    if n == 0 {
        s.append(NO_EDGES_ROW);
    } else {
        assert(rv.take(0) =~= seq![]);
        assert(s@ =~= head + rows_html(rv.take(0)));
        for i in 0..n
            invariant
                n == rows@.len(),
                rv == row_views(rows@),
                s@ == head + rows_html(rv.take(i as int)),
        {
            push_row_html(&mut s, &rows[i]);
            proof {
                assert(rv.take(i + 1).drop_last() =~= rv.take(i as int));
                assert(rv.take(i + 1).last() == rows@[i as int]@);
                assert(s@ =~= head + rows_html(rv.take(i + 1)));
            }
        }
        assert(rv.take(n as int) =~= rv);
    }
    s.append(PAGE_TAIL);
    proof {
        assert(s@ =~= dashboard_page(active as nat, readings as nat, anomalies as nat, uptime_s as nat, rv));
    }
    s
}

/// GET /: the dashboard at `now_ms`: the count of active nodes, the total
/// of readings, the anomalies since startup, the uptime, and one row per
/// known node sorted by node identifier.
pub fn dashboard(state: &CoordState, now_ms: u64) -> (page: String)
    ensures
        ({
            let t = later(state@.clock_ms, now_ms);
            exists|rows: Seq<DashboardRowView>|
                {
                    &&& sorted_by_id(rows)
                    &&& lists_table(rows, state@.edges, t)
                    &&& page@ == dashboard_page(
                        count_active(state@.edges, t),
                        state@.total_readings as nat,
                        state@.anomalies_total as nat,
                        elapsed_s(state@.start_ms, t),
                        rows,
                    )
                }
        }),
{
    let status = state.status(now_ms);
    let rows = dashboard_rows(state, now_ms);
    let page = render_dashboard(
        status.active_edges as u64,
        status.total_readings,
        state.anomalies_total() as u64,
        status.uptime_s,
        &rows,
    );
    proof {
        let rv = row_views(rows@);
        assert(sorted_by_id(rv) && lists_table(rv, state@.edges, later(state@.clock_ms, now_ms)));
    }
    page
}

proof fn lemma_same_prefix(r1: Seq<DashboardRowView>, r2: Seq<DashboardRowView>, edges: Seq<EdgeView>, t: u64, k: int)
    requires
        distinct_ids(edges),
        sorted_by_id(r1),
        sorted_by_id(r2),
        lists_table(r1, edges, t),
        lists_table(r2, edges, t),
        0 <= k <= r1.len(),
    ensures
        forall|i: int| 0 <= i < k ==> r1[i] == r2[i],
    decreases k,
{
    if k > 0 {
        lemma_same_prefix(r1, r2, edges, t, k - 1);
        let c = k - 1;
        // r1[c] stands somewhere in r2, and r2[c] somewhere in r1.
        assert(row_of_some(edges, edges.len() as int, t, r1[c]));
        let m1 = choose|m: int| 0 <= m < edges.len() && row_of(edges[m], t) == r1[c];
        assert(has_row(r2, row_of(edges[m1], t)));
        let j = choose|j: int| 0 <= j < r2.len() && r2[j] == row_of(edges[m1], t);
        assert(row_of_some(edges, edges.len() as int, t, r2[c]));
        let m2 = choose|m: int| 0 <= m < edges.len() && row_of(edges[m], t) == r2[c];
        assert(has_row(r1, row_of(edges[m2], t)));
        let j2 = choose|j: int| 0 <= j < r1.len() && r1[j] == row_of(edges[m2], t);
        if j < c {
            assert(r1[j] == r2[j]);
            lemma_lex_lt_irreflexive(r1[c].node_id);
            assert(lex_lt(r1[j].node_id, r1[c].node_id));
        }
        if j2 < c {
            assert(r1[j2] == r2[j2]);
            lemma_lex_lt_irreflexive(r2[c].node_id);
            assert(lex_lt(r2[j2].node_id, r2[c].node_id));
        }
        if j > c {
            assert(lex_lt(r2[c].node_id, r2[j].node_id));
            if j2 > c {
                assert(lex_lt(r1[c].node_id, r1[j2].node_id));
                lemma_lex_lt_asymmetric(r2[c].node_id, r1[c].node_id);
            } else {
                lemma_lex_lt_irreflexive(r2[c].node_id);
            }
        }
    }
}

/// The dashboard's listing is determined by the table: any two listings of
/// all known nodes, each sorted by node identifier, are the same, so the
/// page depends on the coordinator's state and the time alone.
pub proof fn law_listing_is_unique(r1: Seq<DashboardRowView>, r2: Seq<DashboardRowView>, edges: Seq<EdgeView>, t: u64)
    requires
        distinct_ids(edges),
        sorted_by_id(r1),
        sorted_by_id(r2),
        lists_table(r1, edges, t),
        lists_table(r2, edges, t),
    ensures
        r1 == r2,
{
    lemma_same_prefix(r1, r2, edges, t, r1.len() as int);
    assert(r1 =~= r2);
}

/// `piece` occurs in `text`.
pub open spec fn contains(text: Seq<char>, piece: Seq<char>) -> bool {
    exists|pre: Seq<char>, post: Seq<char>| #[trigger] (pre + piece + post) == text
}

proof fn lemma_rows_html_has(rows: Seq<DashboardRowView>, j: int) -> (parts: (Seq<char>, Seq<char>))
    requires
        0 <= j < rows.len(),
    ensures
        rows_html(rows) == parts.0 + row_html(rows[j]) + parts.1,
    decreases rows.len(),
{
    let init = rows.drop_last();
    if j == rows.len() - 1 {
        let parts = (rows_html(init), Seq::<char>::empty());
        assert(rows_html(rows) =~= parts.0 + row_html(rows[j]) + parts.1);
        parts
    } else {
        let (pre, post) = lemma_rows_html_has(init, j);
        assert(init[j] == rows[j]);
        let parts = (pre, post + row_html(rows.last()));
        assert(rows_html(rows) =~= parts.0 + row_html(rows[j]) + parts.1);
        parts
    }
}

/// Every node of the table has its row on the dashboard: its identifier,
/// "online" (style "idle") while a heartbeat arrived within the last ten
/// seconds and "offline" otherwise, then its number of reports, its number
/// of anomalous reports, its mean latency in milliseconds (zero before the
/// first report), and the whole seconds since its last heartbeat.
pub proof fn law_dashboard_shows_each_node(
    active: nat,
    readings: nat,
    anomalies: nat,
    uptime_s: nat,
    rows: Seq<DashboardRowView>,
    edges: Seq<EdgeView>,
    t: u64,
    i: int,
)
    requires
        lists_table(rows, edges, t),
        0 <= i < edges.len(),
    ensures
        ({
            let e = edges[i];
            let silent_ms: nat = if t >= e.last_heartbeat_ms { (t - e.last_heartbeat_ms) as nat } else { 0 };
            let online = silent_ms < 10_000;
            let mean: nat = if e.latency_count == 0 { 0 } else { e.latency_sum_ms as nat / e.latency_count as nat };
            let row = "<tr><td>"@ + e.node_id + "</td><td class=\""@ + (if online { "idle"@ } else { "offline"@ })
                + "\">"@ + (if online { "online"@ } else { "offline"@ }) + "</td><td>"@
                + decimal(e.total_reports as nat) + "</td><td>"@ + decimal(e.anomaly_count as nat) + "</td><td>"@
                + decimal(mean) + "ms</td><td>"@ + decimal(silent_ms / 1000) + "s ago</td></tr>\n"@;
            contains(dashboard_page(active, readings, anomalies, uptime_s, rows), row)
        }),
{
    let e = edges[i];
    assert(has_row(rows, row_of(edges[i], t)));
    let j = choose|j: int| 0 <= j < rows.len() && rows[j] == row_of(edges[i], t);
    let (p0, p1) = lemma_rows_html_has(rows, j);
    let silent_ms: nat = if t >= e.last_heartbeat_ms { (t - e.last_heartbeat_ms) as nat } else { 0 };
    let online = silent_ms < 10_000;
    let mean: nat = if e.latency_count == 0 { 0 } else { e.latency_sum_ms as nat / e.latency_count as nat };
    let row = "<tr><td>"@ + e.node_id + "</td><td class=\""@ + (if online { "idle"@ } else { "offline"@ })
        + "\">"@ + (if online { "online"@ } else { "offline"@ }) + "</td><td>"@
        + decimal(e.total_reports as nat) + "</td><td>"@ + decimal(e.anomaly_count as nat) + "</td><td>"@
        + decimal(mean) + "ms</td><td>"@ + decimal(silent_ms / 1000) + "s ago</td></tr>\n"@;
    assert(e.alive(t) == online);
    assert(row_html(rows[j]) == row);
    let head = PAGE_HEAD@ + DASHBOARD_CSS@ + PAGE_BEFORE_ACTIVE@ + decimal(active) + PAGE_BEFORE_READINGS@
        + decimal(readings) + PAGE_BEFORE_ANOMALIES@ + decimal(anomalies) + PAGE_BEFORE_UPTIME@ + decimal(uptime_s)
        + PAGE_BEFORE_ROWS@;
    let pre = head + p0;
    let post = p1 + PAGE_TAIL@;
    assert(table_body(rows) == rows_html(rows));
    assert(dashboard_page(active, readings, anomalies, uptime_s, rows) =~= pre + row + post);
    assert(contains(dashboard_page(active, readings, anomalies, uptime_s, rows), row));
}

} // verus!
