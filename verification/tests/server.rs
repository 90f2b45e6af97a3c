use std::time::Duration;

use hydr::auth::{Authenticator, NONCE_CACHE_LEN, NONCE_TTL_NANOS};
use hydr::cc::{
    controller_factory, window_for, BrutalConfig, BrutalController, MAX_WINDOW_BYTES,
    MIN_WINDOW_BYTES,
};
use hydr::error::Error;
use hydr::ip::IpAddr;
use hydr::message::{
    AuthRequest, AuthResponse, ERR_BAD_CREDENTIALS, ERR_CONNECT_FAILED, ERR_PROTOCOL,
    ERR_UNSUPPORTED, FEATURE_UDP, STATUS_ERR, STATUS_OK,
};
use hydr::metrics::{http_head, Metrics, MetricsSnapshot};
use hydr::server::{
    check_listeners, connect_failed, connect_timeout, open_failure, pick_target, route, ConnLimit,
    Route, DEFAULT_MAX_CONNS,
};
use hydr::udp::{
    Forward, UdpManager, DEFAULT_MAX_UDP_SESSIONS, DEFAULT_MAX_UDP_SESSIONS_PER_IP,
    SESSION_TIMEOUT_NANOS,
};

#[test]
fn window_is_rate_by_rtt() {
    assert_eq!(window_for(8_000_000, Duration::from_millis(100).as_nanos()), 100_000);
    assert_eq!(window_for(20_000_000, Duration::from_millis(50).as_nanos()), 125_000);
}

#[test]
fn window_never_below_minimum() {
    assert_eq!(window_for(1, Duration::from_millis(1).as_nanos()), MIN_WINDOW_BYTES);
}

#[test]
fn controller_ignores_loss() {
    let mut c = BrutalController::new(8_000_000, 1200);
    let before = c.window();
    c.on_congestion_event(true, 1_000_000);
    assert_eq!(c.window(), before);
}

#[test]
fn window_is_capped() {
    assert_eq!(MAX_WINDOW_BYTES, 64_000_000);
    assert_eq!(
        window_for(10_000_000_000, Duration::from_secs(1).as_nanos()),
        MAX_WINDOW_BYTES
    );
    assert_eq!(window_for(u64::MAX, u128::MAX), MAX_WINDOW_BYTES);
    assert_eq!(window_for(0, u128::MAX), MIN_WINDOW_BYTES);
}

#[test]
fn window_follows_the_round_trip_time() {
    let mut c = BrutalController::new(8_000_000, 1200);
    assert_eq!(c.initial_window(), 50_000);
    c.on_ack(Duration::from_millis(200).as_nanos());
    assert_eq!(c.window(), 200_000);
    c.on_ack(0);
    assert_eq!(c.window(), MIN_WINDOW_BYTES);
    c.on_mtu_update(9000);
    assert_eq!(c.window(), 18_000);
    assert_eq!(c.clone().window(), 18_000);
}

#[test]
fn factory_builds_brutal_controller() {
    let cfg = BrutalConfig { rate_bps: 8_000_000 };
    let any: Box<dyn std::any::Any> = Box::new(cfg.build(1200));
    assert!(any.downcast::<BrutalController>().is_ok());
}

#[test]
fn a_rate_of_zero_leaves_it_to_the_transport() {
    assert!(controller_factory(0).is_none());
    let cfg = controller_factory(8_000_000).unwrap();
    assert_eq!(cfg.rate_bps, 8_000_000);
    assert_eq!(cfg.build(1200).window(), 50_000);
    let same = BrutalConfig { rate_bps: 8_000_000 }.clone();
    assert_eq!(same.build(1200).initial_window(), 50_000);
}

#[test]
fn snapshot_reflects_increments() {
    let mut m = Metrics::new();
    m.auth_ok += 2;
    m.udp_sessions_rejected += 1;
    let s = m.snapshot();
    assert_eq!(s.auth_ok, 2);
    assert_eq!(s.udp_sessions_rejected, 1);
    assert_eq!(s.streams_opened, 0);
}

#[test]
fn prometheus_render_contains_keys() {
    let mut m = Metrics::new();
    m.auth_ok += 1;
    let text = m.render_prometheus();
    assert!(text.contains("hydr_auth_ok_total 1"));
    assert!(text.contains("hydr_udp_sessions_current 0"));
    assert!(text.contains("# TYPE hydr_auth_ok_total counter"));
}

#[test]
fn prometheus_text_is_exact() {
    let mut m = Metrics::new();
    m.cc_window_bytes = u64::MAX;
    let text = m.render_prometheus();
    assert!(text.starts_with(
        "# HELP hydr_auth_ok_total Successful tunnel authentications.\n\
         # TYPE hydr_auth_ok_total counter\nhydr_auth_ok_total 0\n\
         # HELP hydr_auth_bad_credentials_total Auth rejections: bad credentials.\n"
    ));
    assert!(text.ends_with(
        "# HELP hydr_cc_window_bytes Last brutal congestion window in bytes.\n\
         # TYPE hydr_cc_window_bytes gauge\nhydr_cc_window_bytes 18446744073709551615\n"
    ));
    assert_eq!(text.lines().count(), 48);
    assert_eq!(text.matches(" gauge\n").count(), 2);
    assert_eq!(Metrics::new().snapshot(), MetricsSnapshot::default());
}

#[test]
fn metrics_head_gives_the_length() {
    assert_eq!(
        http_head(1205),
        "HTTP/1.1 200 OK\r\ncontent-type: text/plain; version=0.0.4\r\n\
         content-length: 1205\r\nconnection: close\r\n\r\n"
    );
}

fn request(password: &[u8], nonce: u64) -> AuthRequest {
    AuthRequest::with_nonce(password, nonce.to_be_bytes().to_vec(), 0, FEATURE_UDP)
}

#[test]
fn the_right_password_is_admitted() {
    let mut a = Authenticator::new(b"secret", 77);
    let mut m = Metrics::new();
    let r = a.validate(&request(b"secret", 1), 0, &mut m);
    assert_eq!(r, AuthResponse::ok(77, FEATURE_UDP));
    assert_eq!(m.auth_ok, 1);
    let fresh = AuthRequest::new_password(b"secret", 0, FEATURE_UDP).unwrap();
    assert_eq!(a.validate(&fresh, 1, &mut m).status, STATUS_OK);
}

#[test]
fn the_wrong_password_is_refused() {
    let mut a = Authenticator::new(b"secret", 0);
    let mut m = Metrics::new();
    let r = a.validate(&request(b"wrong", 1), 0, &mut m);
    assert_eq!(r, AuthResponse::error_with_code(ERR_BAD_CREDENTIALS, "invalid credentials"));
    assert_eq!(r.status, STATUS_ERR);
    assert_eq!(m.auth_bad_credentials, 1);
    assert_eq!(a.validate(&request(b"secret", 2), 0, &mut m).status, STATUS_OK);
}

#[test]
fn a_nonce_counts_once_whatever_it_was_answered() {
    let mut a = Authenticator::new(b"secret", 0);
    let mut m = Metrics::new();
    assert_eq!(a.validate(&request(b"wrong", 1), 0, &mut m).error_code, ERR_BAD_CREDENTIALS);
    let again = a.validate(&request(b"secret", 1), 0, &mut m);
    assert_eq!(again.error_code, ERR_PROTOCOL);
    assert_eq!(again.message, b"nonce replay");
    let mut old = request(b"secret", 2);
    old.version = 2;
    assert_eq!(a.validate(&old, 0, &mut m).error_code, ERR_UNSUPPORTED);
    assert_eq!(a.validate(&old, 0, &mut m).error_code, ERR_UNSUPPORTED);
    assert_eq!(a.validate(&request(b"secret", 2), 0, &mut m).error_code, ERR_PROTOCOL);
    assert_eq!((m.auth_ok, m.auth_replay), (0, 2));
    let later = NONCE_TTL_NANOS + 1;
    assert_eq!(a.validate(&request(b"secret", 1), later, &mut m).status, STATUS_OK);
}

#[test]
fn a_replayed_request_is_refused() {
    let mut a = Authenticator::new(b"secret", 0);
    let mut m = Metrics::new();
    let req = request(b"secret", 1);
    assert_eq!(a.validate(&req, 5, &mut m).status, STATUS_OK);
    let again = a.validate(&req, 5 + NONCE_TTL_NANOS, &mut m);
    assert_eq!(again.error_code, ERR_PROTOCOL);
    assert_eq!(again.message, b"nonce replay");
    assert_eq!(m.auth_replay, 1);
    assert_eq!(a.validate(&req, 6 + NONCE_TTL_NANOS, &mut m).status, STATUS_OK);
}

#[test]
fn the_oldest_nonce_leaves_a_full_cache() {
    let mut a = Authenticator::new(b"secret", 0);
    let mut m = Metrics::new();
    let len = NONCE_CACHE_LEN as u64;
    for n in 0..len {
        assert_eq!(a.validate(&request(b"secret", n), 0, &mut m).status, STATUS_OK);
    }
    assert_eq!(a.validate(&request(b"secret", 0), 0, &mut m).error_code, ERR_PROTOCOL);
    assert_eq!(a.validate(&request(b"secret", len), 0, &mut m).status, STATUS_OK);
    assert_eq!(a.validate(&request(b"secret", 1), 0, &mut m).error_code, ERR_PROTOCOL);
    assert_eq!(a.validate(&request(b"secret", 0), 0, &mut m).status, STATUS_OK);
}

#[test]
fn malformed_requests_are_refused() {
    let mut a = Authenticator::new(b"secret", 0);
    let mut m = Metrics::new();
    let mut old = request(b"secret", 1);
    old.version = 2;
    assert_eq!(a.validate(&old, 0, &mut m).error_code, ERR_UNSUPPORTED);
    assert_eq!(m.auth_unsupported, 1);
    let short = AuthRequest::with_nonce(b"secret", vec![1; 7], 0, 0);
    let r = a.validate(&short, 0, &mut m);
    assert_eq!(r.error_code, ERR_PROTOCOL);
    assert_eq!(r.message, b"nonce too short");
    assert_eq!((m.auth_ok, m.auth_replay, m.auth_bad_credentials), (0, 0, 0));
}

#[test]
fn tunnels_are_limited() {
    let mut l = ConnLimit::new(2);
    assert!(l.try_acquire());
    assert!(l.try_acquire());
    assert!(!l.try_acquire());
    l.release();
    assert!(l.try_acquire());
    let mut d = ConnLimit::new(0);
    for _ in 0..DEFAULT_MAX_CONNS {
        assert!(d.try_acquire());
    }
    assert!(!d.try_acquire());
    let mut e = ConnLimit::new(1);
    e.release();
    assert!(e.try_acquire());
}

#[test]
fn everything_goes_to_the_next_hop() {
    assert_eq!(route(false, false).unwrap(), Route::Direct);
    assert_eq!(route(true, true).unwrap(), Route::NextHop);
    assert!(matches!(route(true, false), Err(Error::InvalidData("no next hop"))));
}

#[test]
fn a_server_needs_a_listener() {
    assert!(check_listeners(true, false).is_ok());
    assert!(check_listeners(false, true).is_ok());
    assert!(matches!(
        check_listeners(false, false),
        Err(Error::InvalidData("no listeners configured"))
    ));
}

#[test]
fn failed_connections_are_reported() {
    assert_eq!(connect_timeout().to_text(), "connect timeout");
    assert_eq!(connect_failed("refused").to_text(), "connect: refused");
    let ack = open_failure(&connect_failed("refused"));
    assert_eq!(ack.status, STATUS_ERR);
    assert_eq!(ack.error_code, ERR_CONNECT_FAILED);
    assert_eq!(ack.message, b"connect: refused");
}

#[test]
fn the_first_address_of_a_name_is_used() {
    let a = (IpAddr::V4([1, 2, 3, 4]), 53);
    let b = (IpAddr::V4([5, 6, 7, 8]), 53);
    assert_eq!(pick_target(&vec![a, b]).unwrap(), a);
    assert!(matches!(
        pick_target(&vec![]),
        Err(Error::InvalidData("no address for domain"))
    ));
}

const A: IpAddr = IpAddr::V4([10, 0, 0, 1]);
const B: IpAddr = IpAddr::V6([7; 16]);

fn add(u: &mut UdpManager, ip: &IpAddr, id: u32, now: u64, m: &mut Metrics) {
    assert_eq!(u.forward(ip, id, now, m).unwrap(), Forward::OpenSocket);
    u.register(ip, id, now, m).unwrap();
    assert_eq!(u.forward(ip, id, now, m).unwrap(), Forward::Existing);
}

#[test]
fn udp_sessions_belong_to_their_address() {
    let mut u = UdpManager::new();
    let mut m = Metrics::new();
    add(&mut u, &A, 1, 0, &mut m);
    add(&mut u, &B, 1, 0, &mut m);
    assert_eq!(u.session_count(), 2);
    u.remove_session(&A, 1, &mut m);
    assert_eq!(u.forward(&B, 1, 0, &mut m).unwrap(), Forward::Existing);
    assert_eq!(u.forward(&A, 1, 0, &mut m).unwrap(), Forward::OpenSocket);
    assert_eq!(m.udp_sessions_current, 1);
    assert_eq!(m.udp_sessions_created, 2);
}

#[test]
fn udp_sessions_are_limited_in_all() {
    let mut u = UdpManager::with_limits(2, 10);
    let mut m = Metrics::new();
    add(&mut u, &A, 1, 0, &mut m);
    add(&mut u, &A, 2, 0, &mut m);
    let e = u.forward(&B, 3, 0, &mut m).unwrap_err();
    assert_eq!(e.to_text(), "[code 2] udp session table full");
    assert_eq!(m.udp_sessions_rejected, 1);
    assert!(u.register(&B, 3, 0, &mut m).is_err());
    assert_eq!(m.udp_sessions_rejected, 2);
    assert_eq!(u.forward(&A, 1, 0, &mut m).unwrap(), Forward::Existing);
    u.remove_session(&A, 1, &mut m);
    add(&mut u, &B, 3, 0, &mut m);
    assert_eq!(u.session_count(), 2);
}

#[test]
fn udp_sessions_are_limited_per_address() {
    let mut u = UdpManager::with_limits(10, 1);
    let mut m = Metrics::new();
    add(&mut u, &A, 1, 0, &mut m);
    let e = u.forward(&A, 2, 0, &mut m).unwrap_err();
    assert_eq!(e.to_text(), "[code 2] too many udp sessions for this ip");
    add(&mut u, &B, 2, 0, &mut m);
    u.remove_session(&A, 1, &mut m);
    add(&mut u, &A, 2, 0, &mut m);
}

#[test]
fn udp_limits_of_zero_are_the_defaults() {
    let mut u = UdpManager::with_limits(0, 0);
    let mut m = Metrics::new();
    for id in 0..DEFAULT_MAX_UDP_SESSIONS_PER_IP as u32 {
        u.register(&A, id, 0, &mut m).unwrap();
    }
    assert!(u.register(&A, 1000, 0, &mut m).is_err());
    let mut wide = UdpManager::with_limits(0, 10_000);
    for id in 0..DEFAULT_MAX_UDP_SESSIONS as u32 {
        wide.register(&A, id, 0, &mut m).unwrap();
    }
    assert!(wide.register(&B, 0, 0, &mut m).is_err());
}

#[test]
fn quiet_udp_sessions_are_swept() {
    let mut u = UdpManager::with_limits(10, 1);
    let mut m = Metrics::new();
    add(&mut u, &A, 1, 0, &mut m);
    add(&mut u, &B, 2, 100, &mut m);
    assert!(u.sweep(SESSION_TIMEOUT_NANOS, &mut m).is_empty());
    assert_eq!(u.sweep(SESSION_TIMEOUT_NANOS + 1, &mut m), vec![(A, 1)]);
    assert_eq!(u.session_count(), 1);
    assert_eq!(m.udp_sessions_current, 1);
    add(&mut u, &A, 3, SESSION_TIMEOUT_NANOS, &mut m);
    assert_eq!(u.forward(&B, 2, SESSION_TIMEOUT_NANOS, &mut m).unwrap(), Forward::Existing);
    assert!(u.sweep(SESSION_TIMEOUT_NANOS + 101, &mut m).is_empty());
}

#[test]
fn removing_an_unknown_udp_session_changes_nothing() {
    let mut u = UdpManager::new();
    let mut m = Metrics::new();
    add(&mut u, &A, 1, 0, &mut m);
    u.remove_session(&A, 2, &mut m);
    u.remove_session(&B, 1, &mut m);
    assert_eq!(u.session_count(), 1);
    assert_eq!(m.udp_sessions_current, 1);
}
