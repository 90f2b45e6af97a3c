use hydr::config::{
    is_permissive, is_secret_mode, trim, white_space, ClientFile, SecretFile, ServerFile, TransportFile,
};
use hydr::error::Error;
use hydr::tls::{
    adopt_certificate, cert_fingerprint, cert_fingerprint_hex, cert_plan, fingerprint_hex,
    generate_self_signed, hex_encode,
    parse_fingerprint, pem_text, require_fingerprint, verification, verify_pin, CertPlan,
    Verification,
};

#[test]
fn fingerprint_parse_roundtrip() {
    let fp: [u8; 32] = core::array::from_fn(|i| i as u8);
    let hex = fingerprint_hex(&fp);
    assert_eq!(hex.len(), 64);
    assert_eq!(parse_fingerprint(&hex), Some(fp));
    assert_eq!(
        parse_fingerprint(&hex.to_uppercase()),
        Some(fp),
        "uppercase hex must be accepted"
    );
}

#[test]
fn fingerprint_parse_accepts_colons() {
    let fp: [u8; 32] = core::array::from_fn(|i| (i * 7) as u8);
    let hex = fingerprint_hex(&fp);
    let colonized = hex
        .as_bytes()
        .chunks(2)
        .map(|c| std::str::from_utf8(c).unwrap())
        .collect::<Vec<_>>()
        .join(":");
    assert_eq!(parse_fingerprint(&colonized), Some(fp));
}

#[test]
fn fingerprint_parse_rejects_garbage() {
    assert_eq!(parse_fingerprint(""), None);
    assert_eq!(parse_fingerprint("zz"), None);
    assert_eq!(parse_fingerprint(&"a".repeat(63)), None);
    assert_eq!(parse_fingerprint(&"g".repeat(64)), None);
}

#[test]
fn hex_is_lower_case_and_padded() {
    assert_eq!(hex_encode(&[0x00, 0x0f, 0xa0, 0xff]), "000fa0ff");
    assert_eq!(hex_encode(&[]), "");
}

#[test]
fn fingerprint_is_the_sha256_of_the_certificate() {
    assert_eq!(
        cert_fingerprint_hex(b"abc"),
        "ba7816bf8f01cfea414140de5dae2223b00361a396177a9cb410ff61f20015ad"
    );
    assert_eq!(fingerprint_hex(&cert_fingerprint(b"abc")), cert_fingerprint_hex(b"abc"));
}

#[test]
fn configured_fingerprints_are_checked() {
    assert!(matches!(require_fingerprint(None), Ok(None)));
    let hex = "AB".repeat(32);
    assert_eq!(require_fingerprint(Some(&hex)).unwrap(), Some([0xab; 32]));
    assert!(matches!(
        require_fingerprint(Some("abc")),
        Err(Error::InvalidData("invalid certificate fingerprint: expected 64 hex characters"))
    ));
}

#[test]
fn a_pin_accepts_its_certificate_only() {
    let pin = cert_fingerprint(b"certificate");
    assert!(verify_pin(Some(&pin), b"certificate").is_ok());
    match verify_pin(Some(&pin), b"another") {
        Err(e) => assert_eq!(e.to_text(), "certificate fingerprint mismatch"),
        Ok(()) => panic!("accepted"),
    }
    assert!(verify_pin(None, b"another").is_ok());
}

#[test]
fn a_pin_goes_before_insecure() {
    assert_eq!(verification(true, Some([1; 32])), Verification::Pinned([1; 32]));
    assert_eq!(verification(false, Some([1; 32])), Verification::Pinned([1; 32]));
    assert_eq!(verification(true, None), Verification::AcceptAny);
    assert_eq!(verification(false, None), Verification::PublicRoots);
}

#[test]
fn certificates_are_loaded_or_made() {
    assert_eq!(cert_plan(Some(true), Some(true)).unwrap(), CertPlan::Load);
    assert_eq!(cert_plan(Some(false), Some(false)).unwrap(), CertPlan::GenerateAndStore);
    assert_eq!(cert_plan(None, None).unwrap(), CertPlan::Generate);
    assert_eq!(
        cert_plan(Some(true), Some(false)).unwrap_err().to_text(),
        "cert and key must either both exist or both be absent"
    );
    assert_eq!(
        cert_plan(Some(true), None).unwrap_err().to_text(),
        "cert and key paths must be set together"
    );
    assert_eq!(
        cert_plan(None, Some(false)).unwrap_err().to_text(),
        "cert and key paths must be set together"
    );
}

#[test]
fn pem_has_lines_of_64() {
    assert_eq!(
        pem_text("CERTIFICATE", b"hello world~"),
        "-----BEGIN CERTIFICATE-----\naGVsbG8gd29ybGR+\n-----END CERTIFICATE-----\n"
    );
    assert_eq!(pem_text("X", b""), "-----BEGIN X-----\n-----END X-----\n");
    assert_eq!(pem_text("X", b"a"), "-----BEGIN X-----\nYQ==\n-----END X-----\n");
    assert_eq!(pem_text("X", b"ab"), "-----BEGIN X-----\nYWI=\n-----END X-----\n");
    let long = pem_text("PRIVATE KEY", &[0xff; 100]);
    let lines: Vec<&str> = long.lines().collect();
    assert_eq!(lines.len(), 5);
    assert_eq!(lines[1], "/".repeat(64));
    assert_eq!(lines[2].len(), 64);
    assert_eq!(lines[3], "/////w==");
    let exact = pem_text("X", &[0; 48]);
    assert_eq!(exact, format!("-----BEGIN X-----\n{}\n-----END X-----\n", "A".repeat(64)));
}

#[test]
fn pem_texts_tell_der_forms_apart() {
    let mut texts = std::collections::HashSet::new();
    let mut count = 0;
    for len in 0..=100usize {
        for last in [0u8, 1, 0x3f, 0x40, 0xff] {
            let mut der = vec![0u8; len];
            if let Some(b) = der.last_mut() {
                *b = last;
            } else if last != 0 {
                continue;
            }
            count += 1;
            assert!(texts.insert(pem_text("CERTIFICATE", &der)), "length {len}, {last}");
        }
    }
    assert_eq!(texts.len(), count);
}

#[test]
fn white_space_is_that_of_unicode() {
    for v in 0..=0x10ffffu32 {
        if let Some(c) = char::from_u32(v) {
            assert_eq!(white_space(c), c.is_whitespace(), "U+{v:04X}");
        }
    }
}

#[test]
fn trim_is_that_of_the_standard_library() {
    for s in ["", " ", "a", "  a b\t\n", "\u{3000}x\u{a0}", "\r\n", "none", " lead", "trail "] {
        assert_eq!(trim(s), s.trim());
    }
}

fn client_file() -> ClientFile {
    ClientFile {
        password: None,
        password_file: None,
        cc_rx: None,
        socks5_bind: "127.0.0.1:1080".into(),
        socks5_username: None,
        socks5_password: None,
        transport: TransportFile::Ws {
            url: "ws://localhost/hydr".into(),
            insecure: false,
            obfuscation: None,
            fingerprint: None,
        },
    }
}

fn server_file() -> ServerFile {
    ServerFile {
        password: None,
        password_file: None,
        cc_rx: None,
        max_conns: None,
        max_udp_sessions: None,
        max_udp_sessions_per_ip: None,
        metrics_bind: None,
        quic: None,
        ws: None,
        next_hop: None,
    }
}

#[test]
fn password_file_goes_first() {
    let mut f = server_file();
    f.password = Some("configured".into());
    f.password_file = Some("/etc/hydr".into());
    let file = SecretFile { mode: Some(0o100600), contents: " from file\n".into() };
    let env = Some("from env".to_string());
    assert_eq!(f.resolve_password(Some(&file), &env).unwrap(), "from file");
    let mut c = client_file();
    c.password_file = Some("/etc/hydr".into());
    assert_eq!(c.resolve_password(Some(&file), &env).unwrap(), "from file");
}

#[test]
fn environment_goes_before_the_configuration() {
    let mut f = server_file();
    f.password = Some(" configured ".into());
    assert_eq!(f.resolve_password(None, &Some(" env ".into())).unwrap(), "env");
    assert_eq!(f.resolve_password(None, &Some("  ".into())).unwrap(), "configured");
    assert_eq!(f.resolve_password(None, &None).unwrap(), "configured");
}

#[test]
fn a_missing_password_is_an_error() {
    let mut c = client_file();
    let text = "password not set: use `password`, `password_file` or env HYDR_PASSWORD";
    assert_eq!(c.resolve_password(None, &None).unwrap_err().to_text(), text);
    c.password = Some(" \n".into());
    assert_eq!(c.resolve_password(None, &None).unwrap_err().to_text(), text);
}

#[test]
fn a_password_file_is_checked() {
    let mut f = server_file();
    f.password_file = Some("pw.txt".into());
    let open = SecretFile { mode: Some(0o100644), contents: "secret".into() };
    assert_eq!(
        f.resolve_password(Some(&open), &None).unwrap_err().to_text(),
        "password_file pw.txt has overly permissive mode 644 (expected 600 or 400)"
    );
    let empty = SecretFile { mode: Some(0o400), contents: " \n".into() };
    assert_eq!(
        f.resolve_password(Some(&empty), &None).unwrap_err().to_text(),
        "password_file is empty"
    );
    let no_modes = SecretFile { mode: None, contents: "secret".into() };
    assert_eq!(f.resolve_password(Some(&no_modes), &None).unwrap(), "secret");
}

#[test]
fn a_password_file_has_mode_600_or_400() {
    let mut f = server_file();
    f.password = Some("configured".into());
    f.password_file = Some("pw.txt".into());
    let mut c = client_file();
    c.password_file = Some("pw.txt".into());
    let env = Some("from env".to_string());
    for mode in [0o700, 0o500, 0o200, 0o100, 0o000, 0o640, 0o604, 0o610, 0o777] {
        let file = SecretFile { mode: Some(0o100000 | mode), contents: "secret".into() };
        let text = format!(
            "password_file pw.txt has overly permissive mode {mode:o} (expected 600 or 400)"
        );
        assert_eq!(f.resolve_password(Some(&file), &env).unwrap_err().to_text(), text);
        assert_eq!(c.resolve_password(Some(&file), &env).unwrap_err().to_text(), text);
        assert!(!is_secret_mode(mode), "{mode:o}");
    }
    for mode in [0o600, 0o400, 0o100600, 0o100400] {
        let file = SecretFile { mode: Some(mode), contents: "secret".into() };
        assert_eq!(f.resolve_password(Some(&file), &env).unwrap(), "secret");
        assert_eq!(c.resolve_password(Some(&file), &env).unwrap(), "secret");
        assert!(is_secret_mode(mode), "{mode:o}");
    }
}

#[test]
fn permissive_modes() {
    for mode in [0o600, 0o400, 0o700, 0o100600] {
        assert!(!is_permissive(mode), "{mode:o}");
    }
    for mode in [0o644, 0o640, 0o601, 0o777] {
        assert!(is_permissive(mode), "{mode:o}");
    }
}

#[test]
fn socks5_password_needs_a_username() {
    let mut c = client_file();
    c.socks5_password = Some("configured".into());
    let env = Some(" env ".to_string());
    assert_eq!(c.resolve_socks5_password(&env), None);
    c.socks5_username = Some("user".into());
    assert_eq!(c.resolve_socks5_password(&env), Some("env".into()));
    assert_eq!(c.resolve_socks5_password(&Some(" ".into())), Some("configured".into()));
    assert_eq!(c.resolve_socks5_password(&None), Some("configured".into()));
    c.socks5_password = None;
    assert_eq!(c.resolve_socks5_password(&None), None);
}

#[test]
fn numbers_default_to_zero() {
    let mut f = server_file();
    let l = f.limits();
    assert_eq!((l.cc_rx, l.max_conns, l.max_udp_sessions, l.max_udp_sessions_per_ip), (0, 0, 0, 0));
    f.cc_rx = Some(9);
    f.max_conns = Some(2);
    f.max_udp_sessions = Some(3);
    f.max_udp_sessions_per_ip = Some(4);
    let l = f.limits();
    assert_eq!((l.cc_rx, l.max_conns, l.max_udp_sessions, l.max_udp_sessions_per_ip), (9, 2, 3, 4));
    let mut c = client_file();
    assert_eq!(c.rate(), 0);
    c.cc_rx = Some(7);
    assert_eq!(c.rate(), 7);
}

#[test]
fn new_certificates_are_der_and_differ() {
    let a = generate_self_signed("localhost").unwrap();
    let b = generate_self_signed("localhost").unwrap();
    for der in [&a.cert_der, &a.key_der, &b.cert_der, &b.key_der] {
        assert_eq!(der[0], 0x30, "a DER sequence");
    }
    assert!(a.cert_der.windows(9).any(|w| w == b"localhost"));
    assert_ne!(a.key_der, b.key_der);
    assert_ne!(cert_fingerprint(&a.cert_der), cert_fingerprint(&b.cert_der));
}

#[test]
fn certificate_names_are_ascii() {
    match generate_self_signed("z\u{fc}rich.example") {
        Err(Error::Message(text)) => assert!(!text.is_empty()),
        other => panic!("unexpected: {other:?}"),
    }
}

#[test]
fn what_was_made_is_adopted() {
    let g = adopt_certificate(Ok((vec![1, 2], vec![3]))).unwrap();
    assert_eq!((g.cert_der, g.key_der), (vec![1, 2], vec![3]));
    match adopt_certificate(Err("no entropy".to_string())) {
        Err(Error::Message(text)) => assert_eq!(text, "no entropy"),
        other => panic!("unexpected: {other:?}"),
    }
}
