use hydr::address::Address;
use hydr::connection::{Action, Connection, Event};
use hydr::error::Error;
use hydr::frame::{
    Frame, FRAME_AUTH_RESPONSE, FRAME_OPEN_STREAM, FRAME_OPEN_STREAM_ACK, FRAME_PING,
};
use hydr::message::{AuthRequest, AuthResponse, Datagram, FEATURE_UDP, STATUS_OK};
use hydr::metrics::Metrics;
use hydr::mux::{datagram_frame, request_frame, Step};
use hydr::obfuscation::Obfuscator;
use hydr::ws::{encode_frame, outbound};

fn target() -> Address {
    Address::Domain("echo.test".into(), 80)
}

fn auth() -> AuthRequest {
    AuthRequest::with_nonce(b"pw", vec![3; 16], 0, FEATURE_UDP)
}

fn queued(a: Action) -> Frame {
    match a {
        Action::Queue(f) => f,
        other => panic!("{other:?}"),
    }
}

#[test]
fn two_ends_talk_over_an_obfuscated_connection() {
    let key = || Some(Obfuscator::new(b"obfuscation-key"));
    let mut m = Metrics::new();
    let mut client = Connection::client(key());
    let mut server = Connection::server(key(), false);
    let seal = |f: &Frame| outbound(f, Some(&Obfuscator::new(b"obfuscation-key"))).unwrap();

    let hello = queued(client.on_event(Event::Send(request_frame(0, &auth())), &mut m));
    match server.on_event(Event::Binary(seal(&hello)), &mut m) {
        Action::Carry(Step::Validate { stream_id: 0, request }) => assert_eq!(request, auth()),
        other => panic!("{other:?}"),
    }
    let j = server.complete_auth(0, Ok(AuthResponse::ok(0, FEATURE_UDP)));
    assert!(j.established && !j.close);
    assert!(matches!(
        client.on_event(Event::Binary(seal(&j.reply)), &mut m),
        Action::Carry(Step::Authenticated(Ok(_)))
    ));

    let open = queued(client.on_event(Event::Open { id: 1, address: target() }, &mut m));
    assert_eq!(open.frame_type, FRAME_OPEN_STREAM);
    assert!(matches!(
        server.on_event(Event::Binary(seal(&open)), &mut m),
        Action::Carry(Step::Incoming { stream_id: 1, .. })
    ));
    let granted = Event::ReplyOpen { id: 1, status: STATUS_OK, error_code: 0, message: vec![] };
    let ack = queued(server.on_event(granted, &mut m));
    assert_eq!(ack.frame_type, FRAME_OPEN_STREAM_ACK);
    assert!(matches!(
        client.on_event(Event::Binary(seal(&ack)), &mut m),
        Action::Carry(Step::Opened { stream_id: 1 })
    ));
    let data = seal(&Frame::data(1, b"secret bytes".to_vec()));
    match server.on_event(Event::Binary(data.clone()), &mut m) {
        Action::Carry(Step::Deliver { stream_id: 1, body }) => assert_eq!(body, b"secret bytes"),
        other => panic!("{other:?}"),
    }
    assert!(matches!(server.on_event(Event::Binary(data), &mut m), Action::Nothing));
    assert_eq!(m.obfus_replay_dropped, 1);
}

#[test]
fn nothing_is_handed_on_before_the_authentication() {
    let mut m = Metrics::new();
    let mut client = Connection::client(None);
    let mut server = Connection::server(None, false);
    let open = queued(client.on_event(Event::Open { id: 1, address: target() }, &mut m));
    let packet = datagram_frame(&Datagram::new(1, target(), b"early".to_vec()));
    assert!(matches!(
        server.on_event(Event::Binary(encode_frame(&open)), &mut m),
        Action::Hold(Step::Incoming { stream_id: 1, .. })
    ));
    assert!(matches!(
        server.on_event(Event::Binary(encode_frame(&packet)), &mut m),
        Action::Hold(Step::Packet(_))
    ));
    let refused = server.complete_auth(0, Err(Error::AuthFailed));
    assert!(!refused.established && refused.close);
    assert!(matches!(
        server.on_event(Event::Binary(encode_frame(&packet)), &mut m),
        Action::Hold(Step::Packet(_))
    ));
    assert!(server.complete_auth(0, Ok(AuthResponse::ok(0, 0))).established);
    assert!(matches!(
        server.on_event(Event::Binary(encode_frame(&open)), &mut m),
        Action::Carry(Step::Incoming { stream_id: 1, .. })
    ));
    assert!(matches!(
        server.on_event(Event::Binary(encode_frame(&packet)), &mut m),
        Action::Carry(Step::Packet(_))
    ));
    assert!(matches!(
        client.on_event(Event::Binary(encode_frame(&packet)), &mut m),
        Action::Carry(Step::Packet(_))
    ));
}

#[test]
fn a_connection_that_ends_still_knows_its_salts() {
    let mut m = Metrics::new();
    let ob = Obfuscator::new(b"k");
    let mut c = Connection::client(Some(Obfuscator::new(b"k")));
    let ping = outbound(&Frame::ping(), Some(&ob)).unwrap();
    assert!(matches!(c.on_event(Event::Binary(ping.clone()), &mut m), Action::Carry(_)));
    let _ = c.shutdown();
    assert!(matches!(c.on_event(Event::Binary(ping), &mut m), Action::Nothing));
}

#[test]
fn forgeries_end_the_connection() {
    let mut m = Metrics::new();
    let mut c = Connection::server(Some(Obfuscator::new(b"server-key")), false);
    let forged = outbound(&Frame::ping(), Some(&Obfuscator::new(b"client-key"))).unwrap();
    assert!(matches!(c.on_event(Event::Binary(forged), &mut m), Action::Stop));
    assert_eq!(m.obfus_invalid, 1);
}

#[test]
fn plain_connections_take_frames_as_they_are() {
    let mut m = Metrics::new();
    let mut c = Connection::server(None, false);
    let ping = encode_frame(&Frame::new(0, FRAME_PING, b"x".to_vec()));
    assert!(matches!(
        c.on_event(Event::Binary(ping.clone()), &mut m),
        Action::Carry(Step::Send(_))
    ));
    assert!(matches!(c.on_event(Event::Binary(ping), &mut m), Action::Carry(Step::Send(_))));
    assert!(matches!(c.on_event(Event::Binary(vec![]), &mut m), Action::Stop));
}

#[test]
fn other_events() {
    let mut m = Metrics::new();
    let mut c = Connection::client(None);
    assert_eq!(queued(c.on_event(Event::Tick, &mut m)), Frame::ping());
    assert!(matches!(
        c.on_event(Event::WsPing(b"abc".to_vec()), &mut m),
        Action::WsPong(b) if b == b"abc"
    ));
    assert!(matches!(c.on_event(Event::OtherMessage, &mut m), Action::Nothing));
    for stop in [Event::Close, Event::ReceiveFailed, Event::WriterEnded] {
        assert!(matches!(c.on_event(stop, &mut m), Action::Stop));
    }
}

#[test]
fn sessions_are_authenticated_through_a_connection() {
    let mut m = Metrics::new();
    let mut client = Connection::client(None);
    let mut server = Connection::server(None, true);
    let ask = Event::Authenticate { id: 9, request: auth() };
    let f = queued(client.on_event(ask, &mut m));
    assert!(matches!(
        server.on_event(Event::Binary(encode_frame(&f)), &mut m),
        Action::Carry(Step::Validate { stream_id: 9, .. })
    ));
    let j = server.complete_auth(9, Err(Error::AuthFailed));
    assert!(!j.close);
    assert_eq!(j.reply.frame_type, FRAME_AUTH_RESPONSE);
    match client.on_event(Event::Binary(encode_frame(&j.reply)), &mut m) {
        Action::Carry(Step::SessionAuthenticated { stream_id: 9, reply: Ok(r) }) => {
            assert_eq!(r.message, b"authentication failed")
        }
        other => panic!("{other:?}"),
    }
}

#[test]
fn whoever_waits_is_told_at_the_end() {
    let mut m = Metrics::new();
    let mut c = Connection::client(None);
    for id in [4, 2, 7] {
        let _ = c.on_event(Event::Open { id, address: target() }, &mut m);
    }
    let (mut waiting, auth_waiting) = c.shutdown();
    waiting.sort();
    assert_eq!(waiting, vec![2, 4, 7]);
    assert!(auth_waiting);
    assert_eq!(c.shutdown(), (vec![], false));
}
