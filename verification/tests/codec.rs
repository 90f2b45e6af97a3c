use hydr::address::Address;
use hydr::error::Error;
use hydr::frame::{
    max_frame_len, Frame, CONTROL_STREAM, FRAME_OPEN_STREAM, FRAME_PING, FRAME_STREAM_CREDIT,
    FRAME_STREAM_DATA,
};
use hydr::ip::IpAddr;
use hydr::message::{
    compute_auth_proof, ct_eq, random_padding, AuthRequest, AuthResponse, Datagram, FrameQueue,
    OpenStream, OpenStreamAck, Reader, ERR_BAD_CREDENTIALS, ERR_CONNECT_FAILED, ERR_NONE,
    ERR_RATE_LIMITED, FEATURE_UDP, NONCE_LEN, PROTOCOL_VERSION, STATUS_ERR, STATUS_OK,
};
use hydr::varint::{decode_varint, encode_varint, encode_varint_len, varint_total_len};

fn v6(segments: [u16; 8]) -> IpAddr {
    let mut o = [0u8; 16];
    for i in 0..8 {
        o[2 * i] = (segments[i] >> 8) as u8;
        o[2 * i + 1] = segments[i] as u8;
    }
    IpAddr::V6(o)
}

#[test]
fn varint_roundtrip() {
    for v in [0u64, 1, 63, 64, 16383, 16384, (1 << 30) - 1, 1 << 30, (1 << 62) - 1] {
        let mut buf = Vec::new();
        encode_varint(&mut buf, v);
        assert_eq!(encode_varint_len(v), buf.len());
        let (decoded, used) = decode_varint(&buf).unwrap();
        assert_eq!(decoded, v);
        assert_eq!(used, buf.len());
    }
}

#[test]
fn boundaries() {
    assert_eq!(encode_varint_len(63), 1);
    assert_eq!(encode_varint_len(64), 2);
    assert_eq!(encode_varint_len((1 << 14) - 1), 2);
    assert_eq!(encode_varint_len(1 << 14), 4);
}

#[test]
fn decode_empty_is_eof() {
    assert!(decode_varint(&[]).is_err());
}

#[test]
fn decode_truncated_two_byte() {
    assert!(decode_varint(&[0x40]).is_err());
}

#[test]
fn decode_truncated_four_byte() {
    assert!(decode_varint(&[0x80, 0x01, 0x02]).is_err());
}

#[test]
fn decode_truncated_eight_byte() {
    assert!(decode_varint(&[0xc0, 0, 0, 0, 0, 0, 0]).is_err());
}

#[test]
fn decode_preserves_value_after_partial_write_never_panics() {
    for v in 0u64..=63 {
        let mut buf = Vec::new();
        encode_varint(&mut buf, v);
        assert_eq!(decode_varint(&buf).unwrap().0, v);
    }
}

#[test]
fn varint_bytes_are_those_of_rfc_9000() {
    for (v, bytes) in [
        (151_288_809_941_952_652u64, vec![0xc2, 0x19, 0x7c, 0x5e, 0xff, 0x14, 0xe8, 0x8c]),
        (494_878_333, vec![0x9d, 0x7f, 0x3e, 0x7d]),
        (15_293, vec![0x7b, 0xbd]),
        (37, vec![0x25]),
    ] {
        let mut buf = Vec::new();
        encode_varint(&mut buf, v);
        assert_eq!(buf, bytes);
        assert_eq!(varint_total_len(bytes[0]), bytes.len());
        let mut longer = bytes.clone();
        longer.extend_from_slice(&[1, 2, 3]);
        assert_eq!(decode_varint(&longer).unwrap(), (v, bytes.len()));
    }
    assert!(matches!(decode_varint(&[]), Err(Error::UnexpectedEof)));
}

#[test]
fn frame_roundtrip() {
    for f in [
        Frame::ping(),
        Frame::data(42, vec![0; 1024]),
        Frame::new(1, FRAME_OPEN_STREAM, vec![1, 2, 3]),
    ] {
        let mut buf = Vec::new();
        f.encode(&mut buf);
        let (d, used) = Frame::decode(&buf).unwrap();
        assert_eq!(f, d);
        assert_eq!(used, buf.len());
    }
}

#[test]
fn empty_buffer_is_eof() {
    assert!(Frame::decode(&[]).is_err());
}

#[test]
fn truncated_body_is_eof() {
    let mut buf = Vec::new();
    encode_varint(&mut buf, 1);
    buf.push(FRAME_STREAM_DATA);
    encode_varint(&mut buf, 100);
    assert!(Frame::decode(&buf).is_err());
}

#[test]
fn zero_length_body_roundtrip() {
    let f = Frame::new(7, FRAME_PING, Vec::new());
    let mut buf = Vec::new();
    f.encode(&mut buf);
    let (d, used) = Frame::decode(&buf).unwrap();
    assert_eq!(f, d);
    assert_eq!(used, buf.len());
}

#[test]
fn large_stream_id_roundtrip() {
    let f = Frame::data((1u64 << 40) + 123, vec![9; 4096]);
    let mut buf = Vec::new();
    f.encode(&mut buf);
    let (d, used) = Frame::decode(&buf).unwrap();
    assert_eq!(f, d);
    assert_eq!(used, buf.len());
}

#[test]
fn max_frame_len_is_reasonable() {
    assert!(max_frame_len() < 100 * 1024);
}

#[test]
fn frame_bytes_are_exact() {
    let mut buf = vec![0xee];
    Frame::new(64, FRAME_STREAM_CREDIT, vec![7, 8]).encode(&mut buf);
    assert_eq!(buf, vec![0xee, 0x40, 0x40, 0x0b, 0x02, 7, 8]);
    let mut ping = Vec::new();
    Frame::ping().encode(&mut ping);
    assert_eq!(ping, vec![0, 6, 0]);
    assert_eq!(Frame::ping().stream_id, CONTROL_STREAM);
    assert_eq!(Frame::ping().clone(), Frame::ping());
}

#[test]
fn frame_leaves_what_follows_alone() {
    let mut buf = Vec::new();
    Frame::data(3, vec![1, 2, 3]).encode(&mut buf);
    let len = buf.len();
    Frame::ping().encode(&mut buf);
    let (first, used) = Frame::decode(&buf).unwrap();
    assert_eq!(first, Frame::data(3, vec![1, 2, 3]));
    assert_eq!(used, len);
    assert_eq!(Frame::decode(&buf[used..]).unwrap().0, Frame::ping());
}

#[test]
fn longest_frame_fits_its_limit() {
    let mut buf = Vec::new();
    Frame::new((1 << 62) - 1, FRAME_STREAM_DATA, vec![0; 64 * 1024]).encode(&mut buf);
    assert!(buf.len() <= max_frame_len());
    assert_eq!(max_frame_len(), 65_553);
}

#[test]
fn roundtrip_ipv4() {
    let a = Address::Ip(IpAddr::V4([10, 0, 0, 1]), 443);
    let mut buf = Vec::new();
    a.encode(&mut buf);
    let (b, used) = Address::decode(&buf).unwrap();
    assert_eq!(a, b);
    assert_eq!(used, buf.len());
}

#[test]
fn roundtrip_ipv6() {
    let a = Address::Ip(v6([0, 0, 0, 0, 0, 0, 0, 1]), 53);
    let mut buf = Vec::new();
    a.encode(&mut buf);
    let (b, used) = Address::decode(&buf).unwrap();
    assert_eq!(a, b);
    assert_eq!(used, buf.len());
}

#[test]
fn roundtrip_domain() {
    let a = Address::Domain("example.com".into(), 8080);
    let mut buf = Vec::new();
    a.encode(&mut buf);
    let (b, used) = Address::decode(&buf).unwrap();
    assert_eq!(a, b);
    assert_eq!(used, buf.len());
}

#[test]
fn address_bytes_are_exact() {
    let mut buf = Vec::new();
    Address::Ip(IpAddr::V4([127, 0, 0, 1]), 0x1234).encode(&mut buf);
    assert_eq!(buf, vec![1, 127, 0, 0, 1, 0x12, 0x34]);
    let mut buf = Vec::new();
    Address::Domain("ab".into(), 80).encode(&mut buf);
    assert_eq!(buf, vec![3, 2, b'a', b'b', 0, 80]);
    let mut buf = Vec::new();
    Address::Ip(v6([0x2001, 0xdb8, 0, 0, 0, 0, 0, 1]), 1).encode(&mut buf);
    assert_eq!(buf[0], 2);
    assert_eq!(buf.len(), 19);
}

#[test]
fn long_domain_roundtrip() {
    let name = "n".repeat(300);
    let a = Address::Domain(name.clone(), 1);
    let mut buf = Vec::new();
    a.encode(&mut buf);
    assert_eq!(buf.len(), 1 + 2 + 300 + 2);
    buf.extend_from_slice(b"tail");
    let (b, used) = Address::decode(&buf).unwrap();
    assert_eq!(b, Address::Domain(name, 1));
    assert_eq!(&buf[used..], b"tail");
}

#[test]
fn address_errors() {
    assert!(matches!(Address::decode(&[]), Err(Error::UnexpectedEof)));
    assert!(matches!(Address::decode(&[1, 2, 3]), Err(Error::UnexpectedEof)));
    assert!(matches!(Address::decode(&[2; 18]), Err(Error::UnexpectedEof)));
    assert!(matches!(Address::decode(&[3]), Err(Error::UnexpectedEof)));
    assert!(matches!(Address::decode(&[3, 1, b'a', 0]), Err(Error::UnexpectedEof)));
    assert!(matches!(Address::decode(&[4, 0, 0]), Err(Error::InvalidData("bad address type"))));
}

#[test]
fn invalid_utf8_name_is_replaced() {
    let (a, used) = Address::decode(&[3, 3, b'a', 0xff, b'b', 0, 7]).unwrap();
    assert_eq!(a, Address::Domain("a\u{fffd}b".into(), 7));
    assert_eq!(used, 7);
}

#[test]
fn address_text() {
    let a = Address::Ip(IpAddr::V4([192, 168, 0, 255]), 65535);
    assert_eq!(a.to_text(), "192.168.0.255:65535");
    assert_eq!(a.hostname(), "192.168.0.255");
    assert_eq!(a.port(), 65535);
    assert_eq!(a.clone(), a);
    let d = Address::Domain("example.com".into(), 0);
    assert_eq!(d.to_text(), "example.com:0");
    assert_eq!(d.port(), 0);
}

#[test]
fn ipv6_text_is_compressed() {
    for (segments, text) in [
        ([0u16; 8], "::"),
        ([0, 0, 0, 0, 0, 0, 0, 1], "::1"),
        ([1, 0, 0, 0, 0, 0, 0, 0], "1::"),
        ([0x2001, 0xdb8, 0, 0, 1, 0, 0, 1], "2001:db8::1:0:0:1"),
        ([0x2001, 0xdb8, 0, 1, 1, 1, 1, 1], "2001:db8:0:1:1:1:1:1"),
        ([0xfe80, 0, 0, 0, 0xabcd, 0, 0, 0x10], "fe80::abcd:0:0:10"),
        ([1, 0, 0, 2, 0, 0, 0, 3], "1:0:0:2::3"),
        ([0, 0, 0, 0, 0, 0xffff, 0x0102, 0x0304], "::ffff:1.2.3.4"),
        ([1, 2, 3, 4, 5, 6, 7, 8], "1:2:3:4:5:6:7:8"),
    ] {
        assert_eq!(Address::Ip(v6(segments), 1).hostname(), text);
    }
}

#[test]
fn error_text() {
    assert_eq!(Error::Io("gone".into()).to_text(), "io error: gone");
    assert_eq!(Error::UnexpectedEof.to_text(), "unexpected end of buffer");
    assert_eq!(Error::InvalidData("odd").to_text(), "invalid data: odd");
    assert_eq!(Error::Message("hello".into()).to_text(), "hello");
    assert_eq!(Error::AuthFailed.to_text(), "authentication failed");
    assert_eq!(Error::StreamClosed.to_text(), "stream closed");
    assert_eq!(Error::Unsupported.to_text(), "unsupported");
}

#[test]
fn auth_roundtrip() {
    let a = AuthRequest::new_password(b"secret", 100_000, FEATURE_UDP).unwrap();
    let mut buf = Vec::new();
    a.encode(&mut buf);
    let (b, used) = AuthRequest::decode(&buf).unwrap();
    assert_eq!(a, b);
    assert_eq!(used, buf.len());
}

#[test]
fn auth_resp_roundtrip() {
    let a = AuthResponse::ok(0, FEATURE_UDP);
    let mut buf = Vec::new();
    a.encode(&mut buf);
    let (b, used) = AuthResponse::decode(&buf).unwrap();
    assert_eq!(a, b);
    assert_eq!(used, buf.len());
}

#[test]
fn open_stream_roundtrip() {
    let a = OpenStream { address: Address::Domain("google.com".into(), 443) };
    let mut buf = Vec::new();
    a.encode(&mut buf);
    let (b, used) = OpenStream::decode(&buf).unwrap();
    assert_eq!(a, b);
    assert_eq!(used, buf.len());
}

#[test]
fn datagram_roundtrip() {
    let a = Datagram::new(7, Address::Ip(IpAddr::V4([8, 8, 8, 8]), 53), vec![1, 2, 3]);
    let mut buf = Vec::new();
    a.encode(&mut buf);
    let (b, used) = Datagram::decode(&buf).unwrap();
    assert_eq!(a, b);
    assert_eq!(used, buf.len());
}

#[test]
fn datagram_with_fragments_roundtrip() {
    let mut a = Datagram::new(9, Address::Domain("x.example".into(), 1234), vec![4, 5, 6]);
    a.packet_id = 42;
    a.frag_id = 1;
    a.frag_count = 3;
    assert_eq!(a.frag_count, 3);
    let mut buf = Vec::new();
    a.encode(&mut buf);
    let (b, used) = Datagram::decode(&buf).unwrap();
    assert_eq!(a, b);
    assert_eq!(used, buf.len());
}

#[test]
fn datagram_truncated_header() {
    assert!(Datagram::decode(&[0, 1, 2]).is_err());
}

#[test]
fn datagram_truncated_address() {
    let mut buf = vec![0u8; 8];
    buf.push(0x01);
    assert!(Datagram::decode(&buf).is_err());
}

#[test]
fn datagram_bytes_are_exact() {
    let mut d =
        Datagram::new(0x01020304, Address::Ip(IpAddr::V4([1, 1, 1, 1]), 53), vec![0xaa, 0xbb]);
    d.packet_id = 0x0506;
    let mut buf = Vec::new();
    d.encode(&mut buf);
    assert_eq!(buf, vec![1, 2, 3, 4, 5, 6, 0, 1, 1, 1, 1, 1, 1, 0, 53, 0xaa, 0xbb]);
    assert_eq!(d.clone(), d);
    let mut bad = vec![0u8; 8];
    bad.push(9);
    assert!(matches!(Datagram::decode(&bad), Err(Error::InvalidData("bad address type"))));
    assert!(matches!(Datagram::decode(&[0; 7]), Err(Error::UnexpectedEof)));
}

#[test]
fn auth_response_error_preserves_message() {
    let a = AuthResponse::error("denied");
    assert_eq!(a.status, STATUS_ERR);
    let mut buf = Vec::new();
    a.encode(&mut buf);
    let (b, used) = AuthResponse::decode(&buf).unwrap();
    assert_eq!(a, b);
    assert_eq!(used, buf.len());
    assert_eq!(b.message, b"denied");
}

#[test]
fn auth_request_with_padding_roundtrip() {
    let mut a = AuthRequest::new_password(b"pw", 1_000, FEATURE_UDP).unwrap();
    a.padding = vec![7u8; 50];
    let mut buf = Vec::new();
    a.encode(&mut buf);
    let (b, used) = AuthRequest::decode(&buf).unwrap();
    assert_eq!(a, b);
    assert_eq!(used, buf.len());
}

#[test]
fn open_stream_ack_with_message_roundtrip() {
    let a = OpenStreamAck {
        status: STATUS_ERR,
        error_code: ERR_CONNECT_FAILED,
        message: b"no route".to_vec(),
    };
    let mut buf = Vec::new();
    a.encode(&mut buf);
    let (b, used) = OpenStreamAck::decode(&buf).unwrap();
    assert_eq!(a, b);
    assert_eq!(used, buf.len());
}

#[test]
fn auth_request_carries_nonce_and_proof_not_password() {
    let a = AuthRequest::new_password(b"super-secret", 0, FEATURE_UDP).unwrap();
    assert_eq!(a.client_nonce.len(), NONCE_LEN);
    assert!(!a.auth_proof.is_empty());
    let mut buf = Vec::new();
    a.encode(&mut buf);
    assert!(!buf.windows(b"super-secret".len()).any(|w| w == b"super-secret"));
}

#[test]
fn auth_proof_verifies_with_correct_password_only() {
    let nonce = [7u8; NONCE_LEN];
    let good = compute_auth_proof(b"pw", &nonce);
    let bad = compute_auth_proof(b"other", &nonce);
    assert_ne!(good, bad);
    assert!(ct_eq(&good, &good));
    assert!(!ct_eq(&good, &bad));
}

#[test]
fn auth_proof_is_nonce_dependent() {
    let p1 = compute_auth_proof(b"pw", &[1u8; NONCE_LEN]);
    let p2 = compute_auth_proof(b"pw", &[2u8; NONCE_LEN]);
    assert_ne!(p1, p2);
}

#[test]
fn auth_proof_is_a_keyed_hash_under_a_derived_key() {
    let key = blake3::derive_key("hydr v1 auth proof", b"secret");
    let expected = blake3::keyed_hash(&key, b"0123456789abcdef");
    assert_eq!(compute_auth_proof(b"secret", b"0123456789abcdef"), expected.as_bytes().to_vec());
}

#[test]
fn password_requests_use_fresh_nonces() {
    let a = AuthRequest::new_password(b"pw", 5, FEATURE_UDP).unwrap();
    let b = AuthRequest::new_password(b"pw", 5, FEATURE_UDP).unwrap();
    assert_ne!(a.client_nonce, b.client_nonce);
    assert_eq!(a.version, PROTOCOL_VERSION);
    assert_eq!(a.auth_method, AuthRequest::AUTH_PASSWORD);
    assert_eq!(a.auth_proof, compute_auth_proof(b"pw", &a.client_nonce));
    assert_eq!(a.cc_rx, 5);
    assert!(a.padding.is_empty());
    assert_eq!(AuthRequest::with_nonce(b"pw", a.client_nonce.clone(), 5, FEATURE_UDP), a);
}

#[test]
fn auth_request_bytes_are_exact() {
    let a = AuthRequest {
        version: 1,
        auth_method: 1,
        client_nonce: vec![9, 9],
        auth_proof: vec![8],
        cc_rx: 64,
        features: 1,
        padding: vec![0, 0, 0],
    };
    let mut buf = Vec::new();
    a.encode(&mut buf);
    assert_eq!(buf, vec![1, 1, 2, 9, 9, 1, 8, 0x40, 64, 1, 3, 0, 0, 0]);
    for n in 0..buf.len() {
        assert!(matches!(AuthRequest::decode(&buf[..n]), Err(Error::UnexpectedEof)));
    }
    buf.push(77);
    assert_eq!(AuthRequest::decode(&buf).unwrap(), (a.clone(), 14));
}

#[test]
fn auth_response_bytes_are_exact() {
    let mut a = AuthResponse::ok(64, 3);
    a.padding = vec![5];
    let mut buf = Vec::new();
    a.encode(&mut buf);
    assert_eq!(buf, vec![0, 0, 0, 0x40, 64, 3, 1, 5]);
    for n in 0..buf.len() {
        assert!(matches!(AuthResponse::decode(&buf[..n]), Err(Error::UnexpectedEof)));
    }
    let e = AuthResponse::error("no");
    assert_eq!(e.error_code, ERR_BAD_CREDENTIALS);
    assert_eq!((e.server_cc_rx, e.server_features), (0, 0));
    assert_eq!(e.clone(), e);
}

#[test]
fn open_stream_ack_bytes_are_exact() {
    let mut buf = Vec::new();
    OpenStreamAck::error_with_code(5, "hi").encode(&mut buf);
    assert_eq!(buf, vec![1, 5, 2, b'h', b'i']);
    for n in 0..buf.len() {
        assert!(matches!(OpenStreamAck::decode(&buf[..n]), Err(Error::UnexpectedEof)));
    }
    assert!(matches!(
        OpenStream::decode(&[7]),
        Err(Error::InvalidData("bad address type"))
    ));
}

#[test]
fn auth_response_error_code_preserved() {
    let a = AuthResponse::error_with_code(ERR_RATE_LIMITED, "slow down");
    let mut buf = Vec::new();
    a.encode(&mut buf);
    let (b, _) = AuthResponse::decode(&buf).unwrap();
    assert_eq!(b.status, STATUS_ERR);
    assert_eq!(b.error_code, ERR_RATE_LIMITED);
    assert_eq!(b.message, b"slow down");
}

#[test]
fn open_stream_ack_ok_has_zero_code() {
    let a = OpenStreamAck::ok();
    assert_eq!(a.status, STATUS_OK);
    assert_eq!(a.error_code, ERR_NONE);
}

#[test]
fn random_padding_obeyed() {
    let mut state = 0u8;
    let mut f = || {
        state = state.wrapping_add(1);
        state
    };
    let p = random_padding(&mut f, 16);
    assert_eq!(p.len(), 16);
    assert_eq!(p, (1u8..=16).collect::<Vec<_>>());
}

#[test]
fn random_padding_zero_length() {
    let mut f = || 0u8;
    assert_eq!(random_padding(&mut f, 0).len(), 0);
}

#[test]
fn ct_eq_compares_contents() {
    assert!(ct_eq(&[], &[]));
    assert!(ct_eq(&[1, 2, 3], &[1, 2, 3]));
    assert!(!ct_eq(&[1, 2, 3], &[1, 2, 4]));
    assert!(!ct_eq(&[1, 2, 3], &[9, 2, 3]));
    assert!(!ct_eq(&[1, 2, 3], &[1, 2]));
}

#[test]
fn reads_u8_varint_bytes_remaining() {
    let mut buf = Vec::new();
    buf.push(0xAA);
    encode_varint(&mut buf, 3);
    encode_varint(&mut buf, 3);
    buf.extend_from_slice(&[1, 2, 3]);
    buf.extend_from_slice(b"tail");

    let mut r = Reader::new(&buf);
    assert_eq!(r.u8().unwrap(), 0xAA);
    assert_eq!(r.varint().unwrap(), 3);
    assert_eq!(r.bytes().unwrap(), vec![1, 2, 3]);
    assert_eq!(r.remaining(), b"tail");
    assert_eq!(r.consumed(), 6);
}

#[test]
fn u8_truncated() {
    assert!(Reader::new(&[]).u8().is_err());
}

#[test]
fn varint_truncated() {
    assert!(Reader::new(&[0x40]).varint().is_err());
}

#[test]
fn bytes_truncated() {
    let mut buf = Vec::new();
    encode_varint(&mut buf, 5);
    buf.extend_from_slice(&[1, 2]);
    assert!(Reader::new(&buf).bytes().is_err());
}

#[test]
fn failed_bytes_leave_the_length_read() {
    let buf = [5u8, 1, 2];
    let mut r = Reader::new(&buf);
    assert!(matches!(r.bytes(), Err(Error::UnexpectedEof)));
    assert_eq!(r.remaining(), &[1, 2]);
    assert_eq!(r.u8().unwrap(), 1);
}

#[test]
fn frame_queue_holds_encoded_frames() {
    let mut q = FrameQueue::new();
    let mut buf = Vec::new();
    Frame::ping().encode(&mut buf);
    q.push_back(buf.clone());
    assert_eq!(q.pop_front(), Some(buf));
}
