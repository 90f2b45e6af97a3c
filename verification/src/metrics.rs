//! Counters for operators, and their rendering for Prometheus.

use vstd::prelude::*;

use crate::text;

verus! {

/// What the process has counted so far.
#[derive(Debug)]
pub struct Metrics {
    /// Tunnels authenticated.
    pub auth_ok: u64,
    /// Authentications refused for bad credentials.
    pub auth_bad_credentials: u64,
    /// Authentications refused as a nonce came again.
    pub auth_replay: u64,
    /// Authentications refused for their protocol version.
    pub auth_unsupported: u64,
    /// Connections refused before authentication.
    pub auth_rate_limited: u64,
    /// Streams accepted.
    pub streams_opened: u64,
    /// Packets received from tunnels.
    pub datagrams_rx: u64,
    /// Packets sent into tunnels.
    pub datagrams_tx: u64,
    /// UDP sessions that exist now.
    pub udp_sessions_current: u64,
    /// UDP sessions created.
    pub udp_sessions_created: u64,
    /// UDP sessions refused for want of room.
    pub udp_sessions_rejected: u64,
    /// Packets dropped as an outbound queue was full.
    pub ws_datagrams_dropped: u64,
    /// Messages dropped as replays.
    pub obfus_replay_dropped: u64,
    /// Messages that ended their connection.
    pub obfus_invalid: u64,
    /// Waits for flow-control credit.
    pub ws_credit_waits: u64,
    /// The congestion window computed last.
    pub cc_window_bytes: u64,
}

/// The counters at one moment.
#[derive(Debug, Clone, Copy, PartialEq, Eq, Default)]
pub struct MetricsSnapshot {
    pub auth_ok: u64,
    pub auth_bad_credentials: u64,
    pub auth_replay: u64,
    pub auth_unsupported: u64,
    pub auth_rate_limited: u64,
    pub streams_opened: u64,
    pub datagrams_rx: u64,
    pub datagrams_tx: u64,
    pub udp_sessions_current: u64,
    pub udp_sessions_created: u64,
    pub udp_sessions_rejected: u64,
    pub ws_datagrams_dropped: u64,
    pub obfus_replay_dropped: u64,
    pub obfus_invalid: u64,
    pub ws_credit_waits: u64,
    pub cc_window_bytes: u64,
}

/// The lines of one metric in the Prometheus text format.
pub open spec fn family_text(
    name: Seq<char>,
    help: Seq<char>,
    kind: Seq<char>,
    value: u64,
) -> Seq<char> {
    "# HELP "@ + name + " "@ + help + "\n# TYPE "@ + name + " "@ + kind + "\n"@ + name + " "@
        + text::decimal_text(value as nat) + "\n"@
}

impl MetricsSnapshot {
    /// All metrics in the Prometheus text format.
    pub open spec fn prometheus_text(self) -> Seq<char> {
        Seq::<char>::empty()
            + family_text(
            "hydr_auth_ok_total"@,
            "Successful tunnel authentications."@,
            "counter"@,
            self.auth_ok,
        )
            + family_text(
            "hydr_auth_bad_credentials_total"@,
            "Auth rejections: bad credentials."@,
            "counter"@,
            self.auth_bad_credentials,
        )
            + family_text(
            "hydr_auth_replay_total"@,
            "Auth rejections: nonce replay."@,
            "counter"@,
            self.auth_replay,
        )
            + family_text(
            "hydr_auth_unsupported_total"@,
            "Auth rejections: unsupported version."@,
            "counter"@,
            self.auth_unsupported,
        )
            + family_text(
            "hydr_auth_rate_limited_total"@,
            "Connections rejected by auth rate limiter."@,
            "counter"@,
            self.auth_rate_limited,
        )
            + family_text(
            "hydr_streams_opened_total"@,
            "Proxy streams accepted."@,
            "counter"@,
            self.streams_opened,
        )
            + family_text(
            "hydr_datagrams_rx_total"@,
            "Datagrams received from tunnels."@,
            "counter"@,
            self.datagrams_rx,
        )
            + family_text(
            "hydr_datagrams_tx_total"@,
            "Datagrams sent into tunnels."@,
            "counter"@,
            self.datagrams_tx,
        )
            + family_text(
            "hydr_udp_sessions_current"@,
            "Currently tracked UDP sessions."@,
            "gauge"@,
            self.udp_sessions_current,
        )
            + family_text(
            "hydr_udp_sessions_created_total"@,
            "UDP sessions created."@,
            "counter"@,
            self.udp_sessions_created,
        )
            + family_text(
            "hydr_udp_sessions_rejected_total"@,
            "UDP sessions rejected by caps (rate limited)."@,
            "counter"@,
            self.udp_sessions_rejected,
        )
            + family_text(
            "hydr_ws_datagrams_dropped_total"@,
            "UDP datagrams dropped on WS outbound queue overflow."@,
            "counter"@,
            self.ws_datagrams_dropped,
        )
            + family_text(
            "hydr_obfus_replay_dropped_total"@,
            "WS frames silently dropped by anti-replay filter."@,
            "counter"@,
            self.obfus_replay_dropped,
        )
            + family_text(
            "hydr_obfus_invalid_total"@,
            "WS frames failed MAC/length check (connection torn down)."@,
            "counter"@,
            self.obfus_invalid,
        )
            + family_text(
            "hydr_ws_credit_waits_total"@,
            "Times a WS stream paused on flow-control window exhaustion."@,
            "counter"@,
            self.ws_credit_waits,
        )
            + family_text(
            "hydr_cc_window_bytes"@,
            "Last brutal congestion window in bytes."@,
            "gauge"@,
            self.cc_window_bytes,
        )
    }
}

fn put_family(out: &mut String, name: &str, help: &str, kind: &str, value: u64)
    ensures
        final(out)@ == old(out)@ + family_text(name@, help@, kind@, value),
{
    let ghost before = out@;
    text::put_str(out, "# HELP ");
    text::put_str(out, name);
    text::put_str(out, " ");
    text::put_str(out, help);
    text::put_str(out, "\n# TYPE ");
    text::put_str(out, name);
    text::put_str(out, " ");
    text::put_str(out, kind);
    text::put_str(out, "\n");
    text::put_str(out, name);
    text::put_str(out, " ");
    text::put_decimal(out, value);
    text::put_str(out, "\n");
    assert(out@ =~= before + family_text(name@, help@, kind@, value));
}

/// Whether a text has a line that gives `value` under `name`.
pub open spec fn shows(text: Seq<char>, name: Seq<char>, value: u64) -> bool {
    exists|a: int| #[trigger] shows_at(text, name, value, a)
}

/// Whether such a line begins at the place `a`.
pub open spec fn shows_at(text: Seq<char>, name: Seq<char>, value: u64, a: int) -> bool {
    let line = name + " "@ + text::decimal_text(value as nat) + "\n"@;
    0 <= a && a + line.len() <= text.len() && text.subrange(a, a + line.len()) == line
}

proof fn lemma_family_shows(
    t: Seq<char>,
    name: Seq<char>,
    help: Seq<char>,
    kind: Seq<char>,
    value: u64,
)
    ensures
        shows(t + family_text(name, help, kind, value), name, value),
        forall|n: Seq<char>, v: u64| #[trigger]
            shows(t, n, v) ==> shows(t + family_text(name, help, kind, value), n, v),
{
    let u = family_text(name, help, kind, value);
    let line = name + " "@ + text::decimal_text(value as nat) + "\n"@;
    let head = "# HELP "@ + name + " "@ + help + "\n# TYPE "@ + name + " "@ + kind + "\n"@;
    assert(u =~= head + line);
    assert((t + u).subrange((t + head).len() as int, (t + u).len() as int) =~= line);
    assert(shows_at(t + u, name, value, (t + head).len() as int));
    assert forall|n: Seq<char>, v: u64| #[trigger] shows(t, n, v) implies shows(t + u, n, v) by {
        let a = choose|a: int| #[trigger] shows_at(t, n, v, a);
        let l = n + " "@ + text::decimal_text(v as nat) + "\n"@;
        assert((t + u).subrange(a, a + l.len()) =~= t.subrange(a, a + l.len()));
        assert(shows_at(t + u, n, v, a));
    }
}

/// Every counter is shown with its own value under its own name.
pub proof fn law_every_counter_is_shown(s: MetricsSnapshot)
    ensures
        shows(s.prometheus_text(), "hydr_auth_ok_total"@, s.auth_ok),
        shows(s.prometheus_text(), "hydr_auth_bad_credentials_total"@, s.auth_bad_credentials),
        shows(s.prometheus_text(), "hydr_auth_replay_total"@, s.auth_replay),
        shows(s.prometheus_text(), "hydr_auth_unsupported_total"@, s.auth_unsupported),
        shows(s.prometheus_text(), "hydr_auth_rate_limited_total"@, s.auth_rate_limited),
        shows(s.prometheus_text(), "hydr_streams_opened_total"@, s.streams_opened),
        shows(s.prometheus_text(), "hydr_datagrams_rx_total"@, s.datagrams_rx),
        shows(s.prometheus_text(), "hydr_datagrams_tx_total"@, s.datagrams_tx),
        shows(s.prometheus_text(), "hydr_udp_sessions_current"@, s.udp_sessions_current),
        shows(s.prometheus_text(), "hydr_udp_sessions_created_total"@, s.udp_sessions_created),
        shows(s.prometheus_text(), "hydr_udp_sessions_rejected_total"@, s.udp_sessions_rejected),
        shows(s.prometheus_text(), "hydr_ws_datagrams_dropped_total"@, s.ws_datagrams_dropped),
        shows(s.prometheus_text(), "hydr_obfus_replay_dropped_total"@, s.obfus_replay_dropped),
        shows(s.prometheus_text(), "hydr_obfus_invalid_total"@, s.obfus_invalid),
        shows(s.prometheus_text(), "hydr_ws_credit_waits_total"@, s.ws_credit_waits),
        shows(s.prometheus_text(), "hydr_cc_window_bytes"@, s.cc_window_bytes),
{
    let t0 = Seq::<char>::empty();
    let t1 = t0 + family_text(
        "hydr_auth_ok_total"@,
        "Successful tunnel authentications."@,
        "counter"@,
        s.auth_ok,
    );
    lemma_family_shows(t0, "hydr_auth_ok_total"@, "Successful tunnel authentications."@, "counter"@, s.auth_ok);
    let t2 = t1 + family_text(
        "hydr_auth_bad_credentials_total"@,
        "Auth rejections: bad credentials."@,
        "counter"@,
        s.auth_bad_credentials,
    );
    lemma_family_shows(t1, "hydr_auth_bad_credentials_total"@, "Auth rejections: bad credentials."@, "counter"@, s.auth_bad_credentials);
    let t3 = t2 + family_text(
        "hydr_auth_replay_total"@,
        "Auth rejections: nonce replay."@,
        "counter"@,
        s.auth_replay,
    );
    lemma_family_shows(t2, "hydr_auth_replay_total"@, "Auth rejections: nonce replay."@, "counter"@, s.auth_replay);
    let t4 = t3 + family_text(
        "hydr_auth_unsupported_total"@,
        "Auth rejections: unsupported version."@,
        "counter"@,
        s.auth_unsupported,
    );
    lemma_family_shows(t3, "hydr_auth_unsupported_total"@, "Auth rejections: unsupported version."@, "counter"@, s.auth_unsupported);
    let t5 = t4 + family_text(
        "hydr_auth_rate_limited_total"@,
        "Connections rejected by auth rate limiter."@,
        "counter"@,
        s.auth_rate_limited,
    );
    lemma_family_shows(t4, "hydr_auth_rate_limited_total"@, "Connections rejected by auth rate limiter."@, "counter"@, s.auth_rate_limited);
    let t6 = t5 + family_text(
        "hydr_streams_opened_total"@,
        "Proxy streams accepted."@,
        "counter"@,
        s.streams_opened,
    );
    lemma_family_shows(t5, "hydr_streams_opened_total"@, "Proxy streams accepted."@, "counter"@, s.streams_opened);
    let t7 = t6 + family_text(
        "hydr_datagrams_rx_total"@,
        "Datagrams received from tunnels."@,
        "counter"@,
        s.datagrams_rx,
    );
    lemma_family_shows(t6, "hydr_datagrams_rx_total"@, "Datagrams received from tunnels."@, "counter"@, s.datagrams_rx);
    let t8 = t7 + family_text(
        "hydr_datagrams_tx_total"@,
        "Datagrams sent into tunnels."@,
        "counter"@,
        s.datagrams_tx,
    );
    lemma_family_shows(t7, "hydr_datagrams_tx_total"@, "Datagrams sent into tunnels."@, "counter"@, s.datagrams_tx);
    let t9 = t8 + family_text(
        "hydr_udp_sessions_current"@,
        "Currently tracked UDP sessions."@,
        "gauge"@,
        s.udp_sessions_current,
    );
    lemma_family_shows(t8, "hydr_udp_sessions_current"@, "Currently tracked UDP sessions."@, "gauge"@, s.udp_sessions_current);
    let t10 = t9 + family_text(
        "hydr_udp_sessions_created_total"@,
        "UDP sessions created."@,
        "counter"@,
        s.udp_sessions_created,
    );
    lemma_family_shows(t9, "hydr_udp_sessions_created_total"@, "UDP sessions created."@, "counter"@, s.udp_sessions_created);
    let t11 = t10 + family_text(
        "hydr_udp_sessions_rejected_total"@,
        "UDP sessions rejected by caps (rate limited)."@,
        "counter"@,
        s.udp_sessions_rejected,
    );
    lemma_family_shows(t10, "hydr_udp_sessions_rejected_total"@, "UDP sessions rejected by caps (rate limited)."@, "counter"@, s.udp_sessions_rejected);
    let t12 = t11 + family_text(
        "hydr_ws_datagrams_dropped_total"@,
        "UDP datagrams dropped on WS outbound queue overflow."@,
        "counter"@,
        s.ws_datagrams_dropped,
    );
    lemma_family_shows(t11, "hydr_ws_datagrams_dropped_total"@, "UDP datagrams dropped on WS outbound queue overflow."@, "counter"@, s.ws_datagrams_dropped);
    let t13 = t12 + family_text(
        "hydr_obfus_replay_dropped_total"@,
        "WS frames silently dropped by anti-replay filter."@,
        "counter"@,
        s.obfus_replay_dropped,
    );
    lemma_family_shows(t12, "hydr_obfus_replay_dropped_total"@, "WS frames silently dropped by anti-replay filter."@, "counter"@, s.obfus_replay_dropped);
    let t14 = t13 + family_text(
        "hydr_obfus_invalid_total"@,
        "WS frames failed MAC/length check (connection torn down)."@,
        "counter"@,
        s.obfus_invalid,
    );
    lemma_family_shows(t13, "hydr_obfus_invalid_total"@, "WS frames failed MAC/length check (connection torn down)."@, "counter"@, s.obfus_invalid);
    let t15 = t14 + family_text(
        "hydr_ws_credit_waits_total"@,
        "Times a WS stream paused on flow-control window exhaustion."@,
        "counter"@,
        s.ws_credit_waits,
    );
    lemma_family_shows(t14, "hydr_ws_credit_waits_total"@, "Times a WS stream paused on flow-control window exhaustion."@, "counter"@, s.ws_credit_waits);
    let t16 = t15 + family_text(
        "hydr_cc_window_bytes"@,
        "Last brutal congestion window in bytes."@,
        "gauge"@,
        s.cc_window_bytes,
    );
    lemma_family_shows(t15, "hydr_cc_window_bytes"@, "Last brutal congestion window in bytes."@, "gauge"@, s.cc_window_bytes);
    assert(s.prometheus_text() == t16);
}

/// A snapshot has every counter as it stands.
pub proof fn law_snapshot_is_exact(m: Metrics)
    ensures
        m.values().auth_ok == m.auth_ok,
        m.values().auth_bad_credentials == m.auth_bad_credentials,
        m.values().auth_replay == m.auth_replay,
        m.values().auth_unsupported == m.auth_unsupported,
        m.values().auth_rate_limited == m.auth_rate_limited,
        m.values().streams_opened == m.streams_opened,
        m.values().datagrams_rx == m.datagrams_rx,
        m.values().datagrams_tx == m.datagrams_tx,
        m.values().udp_sessions_current == m.udp_sessions_current,
        m.values().udp_sessions_created == m.udp_sessions_created,
        m.values().udp_sessions_rejected == m.udp_sessions_rejected,
        m.values().ws_datagrams_dropped == m.ws_datagrams_dropped,
        m.values().obfus_replay_dropped == m.obfus_replay_dropped,
        m.values().obfus_invalid == m.obfus_invalid,
        m.values().ws_credit_waits == m.ws_credit_waits,
        m.values().cc_window_bytes == m.cc_window_bytes,
{
}

impl Metrics {
    /// The counters as plain values.
    pub open spec fn values(self) -> MetricsSnapshot {
        MetricsSnapshot {
            auth_ok: self.auth_ok,
            auth_bad_credentials: self.auth_bad_credentials,
            auth_replay: self.auth_replay,
            auth_unsupported: self.auth_unsupported,
            auth_rate_limited: self.auth_rate_limited,
            streams_opened: self.streams_opened,
            datagrams_rx: self.datagrams_rx,
            datagrams_tx: self.datagrams_tx,
            udp_sessions_current: self.udp_sessions_current,
            udp_sessions_created: self.udp_sessions_created,
            udp_sessions_rejected: self.udp_sessions_rejected,
            ws_datagrams_dropped: self.ws_datagrams_dropped,
            obfus_replay_dropped: self.obfus_replay_dropped,
            obfus_invalid: self.obfus_invalid,
            ws_credit_waits: self.ws_credit_waits,
            cc_window_bytes: self.cc_window_bytes,
        }
    }

    /// Counters that all stand at zero.
    pub fn new() -> (m: Self)
        ensures
            m.auth_ok == 0,
            m.auth_bad_credentials == 0,
            m.auth_replay == 0,
            m.auth_unsupported == 0,
            m.auth_rate_limited == 0,
            m.streams_opened == 0,
            m.datagrams_rx == 0,
            m.datagrams_tx == 0,
            m.udp_sessions_current == 0,
            m.udp_sessions_created == 0,
            m.udp_sessions_rejected == 0,
            m.ws_datagrams_dropped == 0,
            m.obfus_replay_dropped == 0,
            m.obfus_invalid == 0,
            m.ws_credit_waits == 0,
            m.cc_window_bytes == 0,
    {
        Metrics {
            auth_ok: 0,
            auth_bad_credentials: 0,
            auth_replay: 0,
            auth_unsupported: 0,
            auth_rate_limited: 0,
            streams_opened: 0,
            datagrams_rx: 0,
            datagrams_tx: 0,
            udp_sessions_current: 0,
            udp_sessions_created: 0,
            udp_sessions_rejected: 0,
            ws_datagrams_dropped: 0,
            obfus_replay_dropped: 0,
            obfus_invalid: 0,
            ws_credit_waits: 0,
            cc_window_bytes: 0,
        }
    }

    /// The counters at this moment.
    pub fn snapshot(&self) -> (s: MetricsSnapshot)
        ensures
            s == self.values(),
    {
        MetricsSnapshot {
            auth_ok: self.auth_ok,
            auth_bad_credentials: self.auth_bad_credentials,
            auth_replay: self.auth_replay,
            auth_unsupported: self.auth_unsupported,
            auth_rate_limited: self.auth_rate_limited,
            streams_opened: self.streams_opened,
            datagrams_rx: self.datagrams_rx,
            datagrams_tx: self.datagrams_tx,
            udp_sessions_current: self.udp_sessions_current,
            udp_sessions_created: self.udp_sessions_created,
            udp_sessions_rejected: self.udp_sessions_rejected,
            ws_datagrams_dropped: self.ws_datagrams_dropped,
            obfus_replay_dropped: self.obfus_replay_dropped,
            obfus_invalid: self.obfus_invalid,
            ws_credit_waits: self.ws_credit_waits,
            cc_window_bytes: self.cc_window_bytes,
        }
    }

    /// The counters in the Prometheus text format.
    pub fn render_prometheus(&self) -> (out: String)
        ensures
            out@ == self.values().prometheus_text(),
    {
        let s = self.snapshot();
        let mut out = String::new();
        assert(out@ =~= Seq::<char>::empty());
        put_family(
            &mut out,
            "hydr_auth_ok_total",
            "Successful tunnel authentications.",
            "counter",
            s.auth_ok,
        );
        put_family(
            &mut out,
            "hydr_auth_bad_credentials_total",
            "Auth rejections: bad credentials.",
            "counter",
            s.auth_bad_credentials,
        );
        put_family(
            &mut out,
            "hydr_auth_replay_total",
            "Auth rejections: nonce replay.",
            "counter",
            s.auth_replay,
        );
        put_family(
            &mut out,
            "hydr_auth_unsupported_total",
            "Auth rejections: unsupported version.",
            "counter",
            s.auth_unsupported,
        );
        put_family(
            &mut out,
            "hydr_auth_rate_limited_total",
            "Connections rejected by auth rate limiter.",
            "counter",
            s.auth_rate_limited,
        );
        put_family(
            &mut out,
            "hydr_streams_opened_total",
            "Proxy streams accepted.",
            "counter",
            s.streams_opened,
        );
        put_family(
            &mut out,
            "hydr_datagrams_rx_total",
            "Datagrams received from tunnels.",
            "counter",
            s.datagrams_rx,
        );
        put_family(
            &mut out,
            "hydr_datagrams_tx_total",
            "Datagrams sent into tunnels.",
            "counter",
            s.datagrams_tx,
        );
        put_family(
            &mut out,
            "hydr_udp_sessions_current",
            "Currently tracked UDP sessions.",
            "gauge",
            s.udp_sessions_current,
        );
        put_family(
            &mut out,
            "hydr_udp_sessions_created_total",
            "UDP sessions created.",
            "counter",
            s.udp_sessions_created,
        );
        put_family(
            &mut out,
            "hydr_udp_sessions_rejected_total",
            "UDP sessions rejected by caps (rate limited).",
            "counter",
            s.udp_sessions_rejected,
        );
        put_family(
            &mut out,
            "hydr_ws_datagrams_dropped_total",
            "UDP datagrams dropped on WS outbound queue overflow.",
            "counter",
            s.ws_datagrams_dropped,
        );
        put_family(
            &mut out,
            "hydr_obfus_replay_dropped_total",
            "WS frames silently dropped by anti-replay filter.",
            "counter",
            s.obfus_replay_dropped,
        );
        put_family(
            &mut out,
            "hydr_obfus_invalid_total",
            "WS frames failed MAC/length check (connection torn down).",
            "counter",
            s.obfus_invalid,
        );
        put_family(
            &mut out,
            "hydr_ws_credit_waits_total",
            "Times a WS stream paused on flow-control window exhaustion.",
            "counter",
            s.ws_credit_waits,
        );
        put_family(
            &mut out,
            "hydr_cc_window_bytes",
            "Last brutal congestion window in bytes.",
            "gauge",
            s.cc_window_bytes,
        );
        out
    }
}

/// The head of the answer that carries `len` bytes of metrics.
pub open spec fn http_head_text(len: nat) -> Seq<char> {
    "HTTP/1.1 200 OK\r\ncontent-type: text/plain; version=0.0.4\r\ncontent-length: "@
        + text::decimal_text(len) + "\r\nconnection: close\r\n\r\n"@
}

/// The head of an answer tells its length in decimal digits, between two texts that do not depend
/// on it.
pub proof fn law_head_tells_length(len: nat)
    ensures
        http_head_text(len)
            == "HTTP/1.1 200 OK\r\ncontent-type: text/plain; version=0.0.4\r\ncontent-length: "@
            + text::decimal_text(len) + "\r\nconnection: close\r\n\r\n"@,
{
}

/// The head of the answer that carries `len` bytes of metrics.
pub fn http_head(len: usize) -> (s: String)
    ensures
        s@ == http_head_text(len as nat),
{
    let mut s = String::new();
    text::put_str(
        &mut s,
        "HTTP/1.1 200 OK\r\ncontent-type: text/plain; version=0.0.4\r\ncontent-length: ",
    );
    text::put_decimal(&mut s, len as u64);
    text::put_str(&mut s, "\r\nconnection: close\r\n\r\n");
    assert(s@ =~= http_head_text(len as nat));
    s
}

} // verus!
