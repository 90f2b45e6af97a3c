use hydr::config::{HopTransportFile, TransportFile};
use hydr::dial::{plan_client, plan_next_hop, Dial};
use hydr::error::Error;
use hydr::ip::IpAddr;
use hydr::socks5::is_open_proxy;
use hydr::tls::{cert_fingerprint, judge_certificate, Verification};

#[test]
fn a_pin_overrides_insecure() {
    let t = TransportFile::Quic {
        addr: "127.0.0.1:443".into(),
        server_name: "localhost".into(),
        insecure: true,
        fingerprint: Some("0A".repeat(32)),
    };
    match plan_client(&t) {
        Ok((Dial::Quic { addr, server_name, verification }, true)) => {
            assert_eq!(addr, "127.0.0.1:443");
            assert_eq!(server_name, "localhost");
            assert_eq!(verification, Verification::Pinned([10; 32]));
        }
        _ => panic!("unexpected plan"),
    }
}

#[test]
fn a_bad_pin_is_an_error() {
    let t = TransportFile::Ws {
        url: "wss://host/hydr".into(),
        insecure: false,
        obfuscation: None,
        fingerprint: Some("xyz".into()),
    };
    assert!(matches!(
        plan_client(&t),
        Err(Error::InvalidData("invalid certificate fingerprint: expected 64 hex characters"))
    ));
}

#[test]
fn tls_is_planned_by_the_scheme() {
    let hop = |url: &str, insecure: bool| HopTransportFile::Ws {
        url: url.into(),
        insecure,
        obfuscation: Some("key".into()),
        fingerprint: None,
    };
    match plan_next_hop(&hop("ws://host/hydr", true)) {
        Ok((Dial::Ws { url, tls: None, obfuscator: Some(ob) }, false)) => {
            assert_eq!(url, "ws://host/hydr");
            let mut msg = b"x".to_vec();
            hydr::obfuscation::Obfuscator::new(b"key").encrypt(&mut msg).unwrap();
            assert_eq!(ob.decrypt(&msg), Some(b"x".to_vec()));
        }
        _ => panic!("unexpected plan"),
    }
    assert!(matches!(
        plan_next_hop(&hop("wss://host/hydr", true)),
        Ok((Dial::Ws { tls: Some(Verification::AcceptAny), .. }, false))
    ));
    assert!(matches!(
        plan_next_hop(&hop("wss://host/hydr", false)),
        Ok((Dial::Ws { tls: Some(Verification::PublicRoots), .. }, false))
    ));
}

#[test]
fn certificates_are_judged() {
    let pin = cert_fingerprint(b"der");
    assert!(judge_certificate(&Verification::Pinned(pin), b"der").is_ok());
    assert!(judge_certificate(&Verification::Pinned(pin), b"other").is_err());
    assert!(judge_certificate(&Verification::AcceptAny, b"other").is_ok());
}

#[test]
fn open_entries_are_recognised() {
    let mut one = [0u8; 16];
    one[15] = 1;
    assert!(!is_open_proxy(&IpAddr::V4([127, 0, 0, 1]), false));
    assert!(!is_open_proxy(&IpAddr::V6(one), false));
    assert!(is_open_proxy(&IpAddr::V4([0, 0, 0, 0]), false));
    assert!(is_open_proxy(&IpAddr::V6([0; 16]), false));
    assert!(!is_open_proxy(&IpAddr::V4([0, 0, 0, 0]), true));
}
