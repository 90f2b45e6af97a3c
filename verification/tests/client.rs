use hydr::address::Address;
use hydr::client::{
    after_open_failure, is_transport_error, must_reconnect, Backoff, OpenNext,
};
use hydr::error::Error;
use hydr::ip::IpAddr;
use hydr::message::Datagram;
use hydr::socks5::{
    build_udp_packet, check_greeting, check_userpass_head, command, negotiate_method,
    no_acceptable_method, parse_udp_packet, read_request, reply, request_needs, verify_userpass,
    Command, Conversation, Request, Turn, CMD_CONNECT, CMD_UDP_ASSOCIATE, METHOD_NO_ACCEPTABLE,
    METHOD_NO_AUTH, METHOD_USERPASS, REPLY_UNSUPPORTED,
};
use hydr::udp_relay::{associate_reply, outgoing, SocketAddr, UdpRelay};

#[test]
fn requests_are_read_step_by_step() {
    let mut req = vec![5, CMD_CONNECT, 0];
    Address::Domain("example.com".into(), 80).encode(&mut req);
    let mut have = 0;
    let mut steps = Vec::new();
    while let Some(n) = request_needs(&req[..have]).unwrap() {
        steps.push(n);
        have += n;
    }
    assert_eq!(steps, vec![4, 1, 13]);
    assert_eq!(have, req.len());
    let r = read_request(&req).unwrap();
    assert_eq!(r.cmd, CMD_CONNECT);
    assert_eq!(r.address, Address::Domain("example.com".into(), 80));
}

#[test]
fn ipv4_requests_are_read() {
    let req = [5, CMD_UDP_ASSOCIATE, 0, 1, 10, 0, 0, 1, 0x01, 0xbb];
    assert_eq!(request_needs(&req[..4]).unwrap(), Some(6));
    assert_eq!(request_needs(&req).unwrap(), None);
    let r = read_request(&req).unwrap();
    assert_eq!(r.cmd, CMD_UDP_ASSOCIATE);
    assert_eq!(r.address, Address::Ip(IpAddr::V4([10, 0, 0, 1]), 443));
    assert!(matches!(read_request(&req[..9]), Err(Error::UnexpectedEof)));
}

#[test]
fn malformed_requests_are_errors() {
    assert!(matches!(
        request_needs(&[4, 1, 0, 1]),
        Err(Error::InvalidData("bad socks version"))
    ));
    assert!(matches!(
        request_needs(&[5, 1, 0, 9]),
        Err(Error::InvalidData("bad address type"))
    ));
    assert!(matches!(
        read_request(&[4, 1, 0, 1]),
        Err(Error::InvalidData("bad socks version"))
    ));
    assert!(matches!(
        read_request(&[5, 1, 0, 2, 0, 0, 0, 0, 0, 0]),
        Err(Error::InvalidData("bad address type"))
    ));
}

#[test]
fn ipv6_requests_are_read() {
    let octets: [u8; 16] = [0x20, 1, 0xd, 0xb8, 0, 0, 0, 0, 0, 0, 0, 0, 0, 0, 0, 7];
    let req = [&[5, CMD_CONNECT, 0, 4][..], &octets[..], &[0x1f, 0x90][..]].concat();
    assert_eq!(request_needs(&req[..4]).unwrap(), Some(18));
    assert_eq!(request_needs(&req).unwrap(), None);
    let r = read_request(&req).unwrap();
    assert_eq!(r.cmd, CMD_CONNECT);
    assert_eq!(r.address, Address::Ip(IpAddr::V6(octets), 8080));
    assert!(matches!(read_request(&req[..21]), Err(Error::UnexpectedEof)));
}

#[test]
fn requests_with_names_of_any_length_are_read() {
    for len in [0usize, 1, 63, 64, 100, 255] {
        let name = "n".repeat(len);
        let req =
            [&[5, CMD_CONNECT, 0, 3, len as u8][..], name.as_bytes(), &[0, 80][..]].concat();
        assert_eq!(request_needs(&req[..5]).unwrap(), Some(len + 2));
        assert_eq!(request_needs(&req).unwrap(), None);
        assert_eq!(read_request(&req).unwrap().address, Address::Domain(name, 80));
    }
}

#[test]
fn udp_packets_roundtrip() {
    for a in [
        Address::Ip(IpAddr::V4([8, 8, 8, 8]), 53),
        Address::Ip(IpAddr::V6([1; 16]), 53),
        Address::Domain("dns.example".into(), 53),
    ] {
        let packet = build_udp_packet(&a, b"payload");
        assert_eq!(&packet[..3], &[0, 0, 0]);
        let (b, payload) = parse_udp_packet(&packet).unwrap();
        assert_eq!(a, b);
        assert_eq!(payload, b"payload");
    }
}

#[test]
fn malformed_udp_packets_are_errors() {
    for bad in [&[][..], &[0, 0, 0][..], &[0, 0, 1, 1, 0, 0, 0, 0, 0, 0][..]] {
        assert!(matches!(
            parse_udp_packet(bad),
            Err(Error::InvalidData("bad socks udp header"))
        ));
    }
    assert!(matches!(parse_udp_packet(&[0, 0, 0, 1]), Err(Error::UnexpectedEof)));
    assert!(matches!(
        parse_udp_packet(&[0, 0, 0, 9]),
        Err(Error::InvalidData("bad address type"))
    ));
}

#[test]
fn greetings_are_checked() {
    assert_eq!(check_greeting(&[5, 1]).unwrap(), 1);
    assert_eq!(check_greeting(&[5, 32]).unwrap(), 32);
    assert!(matches!(check_greeting(&[4, 1]), Err(Error::InvalidData("bad socks version"))));
    assert!(matches!(check_greeting(&[5, 0]), Err(Error::InvalidData("bad nmethods"))));
    assert!(matches!(check_greeting(&[5, 33]), Err(Error::InvalidData("bad nmethods"))));
}

#[test]
fn methods_are_negotiated() {
    assert_eq!(negotiate_method(&[0], false), (Some(METHOD_NO_AUTH), [5, 0]));
    assert_eq!(negotiate_method(&[0, 2], true), (Some(METHOD_USERPASS), [5, 2]));
    assert_eq!(negotiate_method(&[0], true), (None, [5, METHOD_NO_ACCEPTABLE]));
    assert_eq!(negotiate_method(&[2], false), (None, [5, 0xff]));
    assert_eq!(no_acceptable_method().to_text(), "invalid data: no acceptable auth method");
}

#[test]
fn logins_are_checked() {
    assert_eq!(check_userpass_head(&[1, 4]).unwrap(), 4);
    assert!(matches!(
        check_userpass_head(&[5, 4]),
        Err(Error::InvalidData("bad userpass version"))
    ));
    assert!(matches!(
        check_userpass_head(&[1, 0]),
        Err(Error::InvalidData("bad username length"))
    ));
    assert_eq!(verify_userpass(b"user", b"pass", "user", "pass"), (true, [1, 0]));
    assert_eq!(verify_userpass(b"user", b"nope", "user", "pass"), (false, [1, 1]));
    assert_eq!(verify_userpass(b"root", b"pass", "user", "pass"), (false, [1, 1]));
}

#[test]
fn commands_and_replies() {
    assert_eq!(command(1).unwrap(), Command::Connect);
    assert_eq!(command(3).unwrap(), Command::UdpAssociate);
    assert!(matches!(command(2), Err(Error::InvalidData("unsupported command"))));
    assert_eq!(reply(REPLY_UNSUPPORTED), [5, 7, 0, 1, 0, 0, 0, 0, 0, 0]);
}

const CLIENT: SocketAddr = SocketAddr { ip: IpAddr::V4([127, 0, 0, 1]), port: 4000 };

#[test]
fn associations_count_up() {
    let mut r = UdpRelay::new();
    assert_eq!(r.associate(), 1);
    assert_eq!(r.associate(), 2);
    assert_eq!(
        associate_reply(SocketAddr { ip: IpAddr::V4([127, 0, 0, 1]), port: 0x0102 }),
        vec![5, 0, 0, 1, 127, 0, 0, 1, 1, 2]
    );
}

#[test]
fn replies_go_to_the_first_address() {
    let mut r = UdpRelay::new();
    let sid = r.associate();
    let dg = Datagram::new(sid, Address::Ip(IpAddr::V4([8, 8, 8, 8]), 53), b"pong".to_vec());
    assert!(r.route_reply(&dg).is_none());
    r.note_client(sid, CLIENT);
    r.note_client(sid, SocketAddr { ip: IpAddr::V4([1, 1, 1, 1]), port: 1 });
    let (to, packet) = r.route_reply(&dg).unwrap();
    assert_eq!(to, CLIENT);
    assert_eq!(packet, vec![0, 0, 0, 1, 8, 8, 8, 8, 0, 53, b'p', b'o', b'n', b'g']);
    r.remove(sid);
    assert!(r.route_reply(&dg).is_none());
    r.note_client(sid, CLIENT);
    assert!(r.route_reply(&dg).is_none());
}

#[test]
fn outgoing_packets_carry_their_association() {
    let target = Address::Domain("x.example".into(), 9);
    let packet = build_udp_packet(&target, b"ping");
    let dg = outgoing(42, &packet).unwrap();
    assert_eq!(dg, Datagram::new(42, target, b"ping".to_vec()));
    let mut wire = Vec::new();
    dg.encode(&mut wire);
    assert_eq!(Datagram::decode(&wire).unwrap().0, dg);
    assert!(outgoing(42, &[0, 0]).is_err());
}

#[test]
fn a_lost_tunnel_is_worth_one_retry() {
    assert!(is_transport_error(&Error::StreamClosed));
    assert!(is_transport_error(&Error::Io("reset".into())));
    for e in [
        Error::Message("refused".into()),
        Error::AuthFailed,
        Error::Unsupported,
        Error::UnexpectedEof,
        Error::InvalidData("x"),
    ] {
        assert!(!is_transport_error(&e));
    }
    assert!(matches!(after_open_failure(0, Error::StreamClosed), OpenNext::Retry));
    assert!(matches!(
        after_open_failure(1, Error::StreamClosed),
        OpenNext::Fail(Error::StreamClosed)
    ));
    assert!(matches!(
        after_open_failure(0, Error::AuthFailed),
        OpenNext::Fail(Error::AuthFailed)
    ));
}

#[test]
fn one_reconnect_is_enough() {
    assert!(must_reconnect(3, 3));
    assert!(!must_reconnect(3, 4));
}

#[test]
fn waits_double_up_to_half_a_minute() {
    let mut b = Backoff::new();
    let waits: Vec<u64> = (0..8).map(|_| b.next_wait()).collect();
    assert_eq!(waits, vec![500, 1000, 2000, 4000, 8000, 16000, 30000, 30000]);
    b.reset();
    assert_eq!(b.next_wait(), 500);
}

/// Feeds `input` to a conversation as it asks for it; gives what was answered, and the request
/// or the error at the end. `None` means that it still waits for more.
fn converse(
    login: Option<(&str, &str)>,
    input: &[u8],
) -> (Vec<u8>, Option<Result<Request, Error>>) {
    let login = login.map(|(u, p)| (u.to_string(), p.to_string()));
    let mut talk = Conversation::new(login);
    let mut sent = Vec::new();
    let mut pos = 0;
    loop {
        let n = talk.wants();
        if input.len() < pos + n {
            return (sent, None);
        }
        let bytes = input[pos..pos + n].to_vec();
        pos += n;
        match talk.on_bytes(bytes) {
            Turn::More => {}
            Turn::Reply(r) => sent.extend_from_slice(&r),
            Turn::Refuse { reply, error } => {
                sent.extend_from_slice(&reply);
                return (sent, Some(Err(error)));
            }
            Turn::Fail(error) => return (sent, Some(Err(error))),
            Turn::Granted(rq) => {
                assert_eq!(pos, input.len());
                return (sent, Some(Ok(rq)));
            }
        }
    }
}

const CONNECT: [u8; 10] = [5, 1, 0, 1, 10, 0, 0, 1, 1, 187];

#[test]
fn a_conversation_without_login() {
    let mut input = vec![5, 2, 0, 2];
    input.extend_from_slice(&CONNECT);
    let (sent, end) = converse(None, &input);
    assert_eq!(sent, [5, 0]);
    let rq = end.unwrap().unwrap();
    assert_eq!(rq.cmd, CMD_CONNECT);
    assert_eq!(rq.address.to_text(), "10.0.0.1:443");
}

#[test]
fn a_conversation_with_login() {
    let mut input = vec![5, 2, 0, 2, 1, 2, b'm', b'e', 3, b'a', b'b', b'c'];
    input.extend_from_slice(&[5, 1, 0, 3, 4, b'h', b'o', b's', b't', 0, 80]);
    let (sent, end) = converse(Some(("me", "abc")), &input);
    assert_eq!(sent, [5, 2, 1, 0]);
    let rq = end.unwrap().unwrap();
    assert_eq!(rq.address.to_text(), "host:80");
}

#[test]
fn an_empty_password_can_be_required() {
    let mut input = vec![5, 1, 2, 1, 1, b'u', 0];
    input.extend_from_slice(&CONNECT);
    let (sent, end) = converse(Some(("u", "")), &input);
    assert_eq!(sent, [5, 2, 1, 0]);
    assert!(end.unwrap().is_ok());
}

#[test]
fn no_request_before_the_login() {
    // no login offered
    let mut input = vec![5, 1, 0];
    input.extend_from_slice(&CONNECT);
    let (sent, end) = converse(Some(("me", "abc")), &input);
    assert_eq!(sent, [5, 0xff]);
    assert!(matches!(
        end,
        Some(Err(Error::InvalidData("no acceptable auth method")))
    ));
    // wrong password
    let mut input = vec![5, 1, 2, 1, 2, b'm', b'e', 3, b'a', b'b', b'd'];
    input.extend_from_slice(&CONNECT);
    let (sent, end) = converse(Some(("me", "abc")), &input);
    assert_eq!(sent, [5, 2, 1, 1]);
    assert!(matches!(end, Some(Err(Error::AuthFailed))));
    // the request in place of the login
    let mut input = vec![5, 1, 2];
    input.extend_from_slice(&CONNECT);
    let (sent, end) = converse(Some(("me", "abc")), &input);
    assert_eq!(sent, [5, 2]);
    assert!(matches!(end, Some(Err(Error::InvalidData("bad userpass version")))));
}

#[test]
fn broken_conversations_end() {
    assert!(matches!(
        converse(None, &[4, 1, 0]).1,
        Some(Err(Error::InvalidData("bad socks version")))
    ));
    assert!(matches!(
        converse(None, &[5, 0]).1,
        Some(Err(Error::InvalidData("bad nmethods")))
    ));
    assert!(matches!(
        converse(Some(("u", "p")), &[5, 1, 2, 1, 0]).1,
        Some(Err(Error::InvalidData("bad username length")))
    ));
    assert!(matches!(
        converse(None, &[5, 1, 0, 5, 1, 0, 9]).1,
        Some(Err(Error::InvalidData("bad address type")))
    ));
    assert!(converse(None, &[5, 1, 0, 5, 1]).1.is_none());
    let mut talk = Conversation::new(None);
    assert_eq!(talk.wants(), 2);
    assert!(matches!(talk.on_bytes(vec![5]), Turn::Fail(Error::UnexpectedEof)));
    assert_eq!(talk.wants(), 0);
    assert!(matches!(talk.on_bytes(vec![]), Turn::Fail(Error::UnexpectedEof)));
}
