use hydr::address::Address;
use hydr::error::Error;
use hydr::flow::{
    CreditReader, StreamCredit, StreamSender, CHUNK_LEN, CREDIT_BATCH, RECV_WINDOW,
};
use hydr::frame::{
    Frame, FRAME_AUTH_REQUEST, FRAME_AUTH_RESPONSE, FRAME_DATAGRAM, FRAME_OPEN_STREAM,
    FRAME_OPEN_STREAM_ACK, FRAME_PING, FRAME_PONG, FRAME_SESSION_CLOSE, FRAME_STREAM_CLOSE,
    FRAME_STREAM_CREDIT, FRAME_STREAM_DATA,
};
use hydr::ip::IpAddr;
use hydr::message::{
    AuthRequest, AuthResponse, Datagram, OpenStreamAck, ERR_BAD_CREDENTIALS, ERR_CONNECT_FAILED,
    ERR_PROTOCOL, FEATURE_UDP, STATUS_ERR, STATUS_OK,
};
use hydr::metrics::Metrics;
use hydr::mux::{close_frame, datagram_frame, request_frame, Mux, Step};
use hydr::quic::{
    check_open, check_open_coded, coded, handshake_reply, len_prefixed, next_read, to_io_error,
    ReadStep,
};
use hydr::varint::{decode_varint, encode_varint};
use hydr::ws::{
    check_auth, datagram_sent, encode_frame, path_allowed, uses_tls, QueueOutcome, StreamIds,
};

fn target() -> Address {
    Address::Domain("echo.test".into(), 80)
}

fn packet() -> Datagram {
    Datagram::new(1, Address::Ip(IpAddr::V4([8, 8, 8, 8]), 53), b"ping".to_vec())
}

fn auth() -> AuthRequest {
    AuthRequest::with_nonce(b"pw", vec![3; 16], 0, FEATURE_UDP)
}

fn take(m: &mut Mux, f: &Frame) -> Step {
    m.handle_frame(&encode_frame(f)).unwrap()
}

fn body_of_response(r: &AuthResponse) -> Vec<u8> {
    let mut b = Vec::new();
    r.encode(&mut b);
    b
}

fn body_of_ack(a: &OpenStreamAck) -> Vec<u8> {
    let mut b = Vec::new();
    a.encode(&mut b);
    b
}

#[test]
fn a_handshake_establishes_the_tunnel() {
    let mut server = Mux::server(false);
    let mut client = Mux::client();
    let hello = request_frame(0, &auth());
    assert_eq!((hello.stream_id, hello.frame_type), (0, FRAME_AUTH_REQUEST));
    match take(&mut server, &hello) {
        Step::Validate { stream_id: 0, request } => assert_eq!(request, auth()),
        other => panic!("{other:?}"),
    }
    let j = server.complete_auth(0, Ok(AuthResponse::ok(9, FEATURE_UDP)));
    assert!(j.established && !j.close);
    match take(&mut client, &j.reply) {
        Step::Authenticated(Ok(r)) => assert_eq!(r, AuthResponse::ok(9, FEATURE_UDP)),
        other => panic!("{other:?}"),
    }
    assert!(matches!(take(&mut client, &j.reply), Step::Idle));
    let again = server.complete_auth(0, Ok(AuthResponse::ok(9, FEATURE_UDP)));
    assert!(!again.established);
}

#[test]
fn a_failed_handshake_closes_the_tunnel() {
    let mut server = Mux::server(false);
    let j = server.complete_auth(0, Ok(AuthResponse::error("bad password")));
    assert!(!j.established && j.close);
    assert_eq!(j.reply.frame_type, FRAME_AUTH_RESPONSE);
    assert_eq!(j.reply.body, body_of_response(&AuthResponse::error("bad password")));
    let j = server.complete_auth(0, Err(Error::Unsupported));
    assert!(j.close);
    assert_eq!(j.reply.body, body_of_response(&AuthResponse::error("unsupported")));
}

#[test]
fn an_unreadable_auth_request_is_refused() {
    let mut server = Mux::server(true);
    match take(&mut server, &Frame::new(0, FRAME_AUTH_REQUEST, vec![1])) {
        Step::SendAndClose(f) => {
            let (r, _) = AuthResponse::decode(&f.body).unwrap();
            assert_eq!(r.error_code, ERR_BAD_CREDENTIALS);
            assert_eq!(r.message, b"bad request");
        }
        other => panic!("{other:?}"),
    }
    match take(&mut server, &Frame::new(4, FRAME_AUTH_REQUEST, vec![1])) {
        Step::Send(f) => assert_eq!(f.stream_id, 4),
        other => panic!("{other:?}"),
    }
    let mut client = Mux::client();
    assert!(matches!(take(&mut client, &request_frame(0, &auth())), Step::Idle));
}

#[test]
fn an_unreadable_auth_response_is_an_error() {
    let mut client = Mux::client();
    assert!(matches!(
        take(&mut client, &Frame::new(0, FRAME_AUTH_RESPONSE, vec![])),
        Step::Authenticated(Err(Error::UnexpectedEof))
    ));
}

#[test]
fn streams_open_and_close() {
    let mut client = Mux::client();
    let mut server = Mux::server(false);
    let open = client.open(1, &target());
    match take(&mut server, &open) {
        Step::Incoming { stream_id: 1, address } => assert_eq!(address, target()),
        other => panic!("{other:?}"),
    }
    let data = Frame::data(1, b"hello ws".to_vec());
    assert!(matches!(take(&mut client, &data), Step::Idle));
    let ack = server.reply_open(1, STATUS_OK, 0, vec![]);
    assert!(matches!(take(&mut client, &ack), Step::Opened { stream_id: 1 }));
    assert!(matches!(take(&mut client, &ack), Step::Idle));
    match take(&mut server, &data) {
        Step::Deliver { stream_id: 1, body } => assert_eq!(body, b"hello ws"),
        other => panic!("{other:?}"),
    }
    assert!(matches!(take(&mut client, &data), Step::Deliver { .. }));
    assert!(matches!(take(&mut server, &close_frame(1)), Step::Closed { stream_id: 1 }));
    assert!(matches!(take(&mut server, &close_frame(1)), Step::Idle));
    assert!(matches!(take(&mut server, &data), Step::Idle));
}

#[test]
fn refused_streams_carry_the_reason() {
    let mut client = Mux::client();
    let mut server = Mux::server(false);
    let _ = client.open(7, &target());
    let nack = server.reply_open(7, STATUS_ERR, ERR_CONNECT_FAILED, b"no route".to_vec());
    match take(&mut client, &nack) {
        Step::Refused { stream_id: 7, error: Error::Message(m) } => assert_eq!(m, "no route"),
        other => panic!("{other:?}"),
    }
    assert!(matches!(
        take(&mut server, &Frame::data(7, vec![1])),
        Step::Idle
    ));
    let _ = client.open(8, &target());
    let broken = Frame::new(8, FRAME_OPEN_STREAM_ACK, vec![0]);
    assert!(matches!(
        take(&mut client, &broken),
        Step::Refused { stream_id: 8, error: Error::UnexpectedEof }
    ));
    let _ = client.open(9, &target());
    let lossy = Frame::new(
        9,
        FRAME_OPEN_STREAM_ACK,
        body_of_ack(&OpenStreamAck { status: 2, error_code: 0, message: vec![0xff] }),
    );
    match take(&mut client, &lossy) {
        Step::Refused { error: Error::Message(m), .. } => assert_eq!(m, "\u{fffd}"),
        other => panic!("{other:?}"),
    }
}

#[test]
fn sessions_authenticate_for_themselves() {
    let mut client = Mux::client();
    let mut server = Mux::server(true);
    let open = client.open(5, &target());
    match take(&mut server, &open) {
        Step::Send(f) => {
            assert_eq!((f.stream_id, f.frame_type), (5, FRAME_OPEN_STREAM_ACK));
            let (ack, _) = OpenStreamAck::decode(&f.body).unwrap();
            assert_eq!(ack.status, STATUS_ERR);
            assert_eq!(ack.error_code, ERR_PROTOCOL);
            assert_eq!(ack.message, b"session not authenticated");
        }
        other => panic!("{other:?}"),
    }
    let mut dg = datagram_frame(&packet());
    dg.stream_id = 5;
    assert!(matches!(take(&mut server, &dg), Step::Idle));

    let hello = client.authenticate(5, &auth());
    assert!(matches!(take(&mut server, &hello), Step::Validate { stream_id: 5, .. }));
    let refused = server.complete_auth(5, Ok(AuthResponse::error("no")));
    assert!(!refused.established && !refused.close);
    assert!(matches!(take(&mut server, &open), Step::Send(_)));
    let j = server.complete_auth(5, Ok(AuthResponse::ok(0, 1)));
    assert!(!j.established && !j.close);
    match take(&mut client, &j.reply) {
        Step::SessionAuthenticated { stream_id: 5, reply: Ok(r) } => {
            assert_eq!(r.status, STATUS_OK)
        }
        other => panic!("{other:?}"),
    }
    assert!(matches!(take(&mut client, &j.reply), Step::Idle));
    assert!(matches!(take(&mut server, &open), Step::Incoming { stream_id: 5, .. }));
    assert!(matches!(take(&mut server, &dg), Step::Packet(_)));
    let mut other = open.clone();
    other.stream_id = 6;
    assert!(matches!(take(&mut server, &other), Step::Send(_)));
}

#[test]
fn packets_and_pings() {
    let mut m = Mux::server(true);
    match take(&mut m, &datagram_frame(&packet())) {
        Step::Packet(d) => assert_eq!(d, packet()),
        other => panic!("{other:?}"),
    }
    assert!(matches!(take(&mut m, &Frame::new(0, FRAME_DATAGRAM, vec![1])), Step::Idle));
    match take(&mut m, &Frame::new(3, FRAME_PING, b"x".to_vec())) {
        Step::Send(f) => assert_eq!(f, Frame::new(0, FRAME_PONG, b"x".to_vec())),
        other => panic!("{other:?}"),
    }
    for t in [FRAME_PONG, FRAME_SESSION_CLOSE, 0x77] {
        assert!(matches!(take(&mut m, &Frame::new(0, t, vec![])), Step::Idle));
    }
    assert!(matches!(take(&mut m, &Frame::new(0, FRAME_OPEN_STREAM, vec![9])), Step::Idle));
    assert!(matches!(m.handle_frame(&[0]), Err(Error::UnexpectedEof)));
}

#[test]
fn credit_reaches_open_streams_only() {
    let mut m = Mux::server(false);
    let mut body = Vec::new();
    encode_varint(&mut body, 300_000);
    let credit = Frame::new(2, FRAME_STREAM_CREDIT, body.clone());
    assert!(matches!(take(&mut m, &credit), Step::Idle));
    let _ = m.reply_open(2, STATUS_OK, 0, vec![]);
    assert!(matches!(take(&mut m, &credit), Step::Grant { stream_id: 2, amount: 300_000 }));
    assert!(matches!(take(&mut m, &Frame::new(2, FRAME_STREAM_CREDIT, vec![])), Step::Idle));
    let _ = m.reply_open(0, STATUS_OK, 0, vec![]);
    assert!(matches!(take(&mut m, &Frame::new(0, FRAME_STREAM_CREDIT, body)), Step::Idle));
}

#[test]
fn a_sender_waits_for_credit() {
    let mut c = StreamCredit::new();
    let mut sent = 0u64;
    while c.window_open() {
        c.sent(CHUNK_LEN as u64);
        sent += CHUNK_LEN as u64;
    }
    assert_eq!(sent, RECV_WINDOW);
    c.grant(1);
    assert!(c.window_open());
    c.sent(CHUNK_LEN as u64);
    assert!(!c.window_open());
    c.grant(u64::MAX);
    assert!(c.window_open());
}

#[test]
fn a_sending_side_keeps_to_its_window() {
    let mut s = StreamSender::new(5);
    assert!(s.send(vec![0; CHUNK_LEN + 1]).is_none());
    let mut sent = 0u64;
    while s.ready() {
        let f = s.send(vec![7; CHUNK_LEN]).unwrap();
        assert_eq!((f.stream_id, f.frame_type, f.body.len()), (5, FRAME_STREAM_DATA, CHUNK_LEN));
        sent += CHUNK_LEN as u64;
    }
    assert_eq!(sent, RECV_WINDOW);
    assert!(s.send(vec![1]).is_none());
    s.grant(1);
    assert_eq!(s.send(vec![1, 2]).unwrap(), Frame::data(5, vec![1, 2]));
    assert!(!s.ready());
}

#[test]
fn the_end_of_a_stream_comes_last_and_once() {
    let mut s = StreamSender::new(5);
    assert!(s.send(vec![1]).is_some());
    let f = s.finish().unwrap();
    assert_eq!(f, close_frame(5));
    assert!(s.finish().is_none());
    assert!(!s.ready());
    assert!(s.send(vec![1]).is_none());
    s.grant(1);
    assert!(s.send(vec![1]).is_none());
}

#[test]
fn a_reader_credits_in_batches() {
    let mut r = CreditReader::new(9);
    assert!(r.on_read(CREDIT_BATCH - 1).is_none());
    assert!(r.on_read(0).is_none());
    let f = r.on_read(1).unwrap();
    assert_eq!((f.stream_id, f.frame_type), (9, FRAME_STREAM_CREDIT));
    assert_eq!(decode_varint(&f.body).unwrap().0, CREDIT_BATCH);
    let f = r.on_read(2).unwrap();
    assert_eq!(decode_varint(&f.body).unwrap().0, CREDIT_BATCH + 2);
    assert_eq!(r.uncredited(), CREDIT_BATCH + 2);
    r.credited();
    assert!(r.on_read(2).is_none());
    assert_eq!(r.uncredited(), 2);
}

#[test]
fn a_stream_whose_data_is_read_does_not_get_stuck() {
    let mut sender = StreamCredit::new();
    let mut reader = CreditReader::new(1);
    for _ in 0..1000 {
        assert!(sender.window_open());
        sender.sent(CHUNK_LEN as u64);
        if let Some(f) = reader.on_read(CHUNK_LEN as u64) {
            sender.grant(decode_varint(&f.body).unwrap().0);
            reader.credited();
        }
    }
}

#[test]
fn only_the_configured_path_upgrades() {
    assert!(path_allowed("", "/anything"));
    assert!(path_allowed("/hydr", "/hydr"));
    assert!(!path_allowed("/hydr", "/hydra"));
    assert!(!path_allowed("/hydr", "/"));
}

#[test]
fn tls_follows_the_scheme() {
    assert!(uses_tls("wss://host/path"));
    assert!(!uses_tls("ws://host/path"));
    assert!(!uses_tls("wss:/"));
}

#[test]
fn answers_to_an_authentication() {
    assert!(check_auth(&AuthResponse::ok(0, 0)).is_ok());
    assert_eq!(check_auth(&AuthResponse::error("denied")).unwrap_err().to_text(), "denied");
    let mut odd = AuthResponse::ok(0, 0);
    odd.status = 2;
    assert!(check_auth(&odd).is_err());
    assert!(hydr::quic::check_auth(&odd).is_ok());
    assert_eq!(
        hydr::quic::check_auth(&AuthResponse::error("denied")).unwrap_err().to_text(),
        "denied"
    );
}

#[test]
fn a_full_queue_drops_packets() {
    let mut m = Metrics::new();
    assert!(datagram_sent(QueueOutcome::Queued, &mut m).is_ok());
    assert_eq!(m.ws_datagrams_dropped, 0);
    assert!(datagram_sent(QueueOutcome::Full, &mut m).is_ok());
    assert_eq!(m.ws_datagrams_dropped, 1);
    assert!(matches!(
        datagram_sent(QueueOutcome::Closed, &mut m),
        Err(Error::StreamClosed)
    ));
}

#[test]
fn stream_ids_count_up_from_one() {
    let mut ids = StreamIds::new();
    assert_eq!((ids.next(), ids.next(), ids.next()), (Some(1), Some(2), Some(3)));
}

#[test]
fn messages_are_read_as_they_were_written() {
    for len in [0usize, 1, 63, 64, 16384] {
        let body: Vec<u8> = (0..len).map(|i| i as u8).collect();
        let mut stream = len_prefixed(&body);
        let whole = stream.len();
        stream.extend_from_slice(b"next");
        let mut have = 0;
        let start = loop {
            match next_read(&stream[..have]) {
                ReadStep::Read(n) => {
                    assert!(n > 0);
                    have += n as usize;
                }
                ReadStep::Done(start) => break start,
            }
        };
        assert_eq!(have, whole);
        assert_eq!(&stream[start..have], &body[..]);
    }
}

#[test]
fn quic_answers_to_an_open() {
    assert!(check_open(&OpenStreamAck::ok()).is_ok());
    let nack = OpenStreamAck::error_with_code(ERR_CONNECT_FAILED, "no route");
    assert_eq!(check_open(&nack).unwrap_err().to_text(), "no route");
    assert_eq!(check_open_coded(&nack).unwrap_err().to_text(), "[code 3] no route");
    assert!(check_open_coded(&OpenStreamAck::ok()).is_ok());
    assert_eq!(coded(255, "x"), "[code 255] x");
}

#[test]
fn a_refused_handshake_is_answered_and_closed() {
    let (bytes, stands) = handshake_reply(&AuthResponse::ok(1, 1));
    assert!(stands);
    assert_eq!(bytes, len_prefixed(&body_of_response(&AuthResponse::ok(1, 1))));
    assert!(!handshake_reply(&AuthResponse::error("no")).1);
}

#[test]
fn transport_errors_keep_their_text() {
    assert!(matches!(to_io_error("timed out"), Error::Io(t) if t == "timed out"));
    assert_eq!(to_io_error(42).to_text(), "io error: 42");
    assert_eq!(close_frame(3), Frame::new(3, FRAME_STREAM_CLOSE, vec![]));
}
