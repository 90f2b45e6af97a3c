use hydr::frame::Frame;
use hydr::message::TAG_LEN;
use hydr::metrics::Metrics;
use hydr::obfuscation::{DecryptOutcome, Obfuscator, ReplayFilter, REPLAY_WINDOW, SALT_LEN};
use hydr::ws::{encode_frame, inbound, outbound, Inbound};

#[test]
fn obfuscation_roundtrip() {
    let ob = Obfuscator::new(b"super-secret-key");
    let mut payload = vec![0u8; 128];
    for (i, b) in payload.iter_mut().enumerate() {
        *b = i as u8;
    }
    ob.encrypt(&mut payload).unwrap();
    assert_ne!(payload[..], vec![0u8; 128][..]);
    let dec = ob.decrypt(&payload).unwrap();
    assert_eq!(dec, (0..128u8).collect::<Vec<_>>());
}

#[test]
fn wrong_key_fails() {
    let a = Obfuscator::new(b"key-a");
    let b = Obfuscator::new(b"key-b");
    let mut payload = b"hello".to_vec();
    a.encrypt(&mut payload).unwrap();
    assert!(b.decrypt(&payload).is_none());
}

#[test]
fn tampered_ciphertext_rejected() {
    let ob = Obfuscator::new(b"key");
    let mut payload = b"trusted-data".to_vec();
    ob.encrypt(&mut payload).unwrap();
    let idx = SALT_LEN;
    payload[idx] ^= 0xFF;
    assert!(ob.decrypt(&payload).is_none());
}

#[test]
fn decrypt_too_short_returns_none() {
    let ob = Obfuscator::new(b"k");
    assert!(ob.decrypt(&[]).is_none());
    assert!(ob.decrypt(&[1, 2, 3]).is_none());
    assert!(ob.decrypt(&[0u8; 7]).is_none());
    assert!(ob.decrypt(&[0u8; SALT_LEN + TAG_LEN - 1]).is_none());
}

#[test]
fn encrypted_has_salt_prefix_and_differs() {
    let ob = Obfuscator::new(b"key");
    let payload = b"sensitive".to_vec();
    let mut out = payload.clone();
    ob.encrypt(&mut out).unwrap();
    assert!(out.len() >= SALT_LEN + TAG_LEN);
    assert_ne!(&out[SALT_LEN..out.len() - TAG_LEN], &payload[..]);
    assert_ne!(out, payload);
}

#[test]
fn roundtrip_empty_and_tiny() {
    let ob = Obfuscator::new(b"key");
    for len in [0usize, 1, 31, 32, 33, 1000] {
        let original: Vec<u8> = (0..len).map(|i| i as u8).collect();
        let mut enc = original.clone();
        ob.encrypt(&mut enc).unwrap();
        let dec = ob.decrypt(&enc).unwrap();
        assert_eq!(dec, original, "roundtrip failed for len {len}");
    }
}

#[test]
fn same_key_different_salts_still_decrypt() {
    let ob = Obfuscator::new(b"shared");
    let mut a = vec![1u8, 2, 3, 4];
    let mut b = vec![1u8, 2, 3, 4];
    ob.encrypt(&mut a).unwrap();
    ob.encrypt(&mut b).unwrap();
    assert_ne!(a, b);
    assert_eq!(ob.decrypt(&a).unwrap(), ob.decrypt(&b).unwrap());
}

#[test]
fn sealed_message_is_salt_masked_payload_and_tag() {
    let key = b"pre-shared";
    let salt = [1u8, 2, 3, 4, 5, 6, 7, 8];
    let payload: Vec<u8> = (0..70u8).collect();
    let mut msg = payload.clone();
    Obfuscator::new(key).encrypt_with_salt(&salt, &mut msg);

    let mut seed = key.to_vec();
    seed.extend_from_slice(&salt);
    let stream = *blake3::hash(&seed).as_bytes();
    let body: Vec<u8> = payload.iter().enumerate().map(|(i, b)| b ^ stream[i % 32]).collect();
    let tag = blake3::keyed_hash(blake3::hash(key).as_bytes(), &body);
    let mut expected = salt.to_vec();
    expected.extend_from_slice(&body);
    expected.extend_from_slice(&tag.as_bytes()[..TAG_LEN]);
    assert_eq!(msg, expected);
}

#[test]
fn a_wrong_tag_is_refused() {
    let ob = Obfuscator::new(b"key");
    let mut msg = b"payload".to_vec();
    ob.encrypt(&mut msg).unwrap();
    let last = msg.len() - 1;
    msg[last] ^= 1;
    assert!(ob.decrypt(&msg).is_none());
}

#[test]
fn replays_are_told_from_forgeries() {
    let ob = Obfuscator::new(b"key");
    let mut filter = ReplayFilter::new();
    let mut msg = b"once".to_vec();
    ob.encrypt(&mut msg).unwrap();
    assert_eq!(
        ob.decrypt_outcome(&mut filter, &msg),
        DecryptOutcome::Payload(b"once".to_vec())
    );
    assert_eq!(ob.decrypt_outcome(&mut filter, &msg), DecryptOutcome::Replay);
    msg[SALT_LEN] ^= 1;
    assert_eq!(ob.decrypt_outcome(&mut filter, &msg), DecryptOutcome::Invalid);
    assert_eq!(ob.decrypt_outcome(&mut filter, &[]), DecryptOutcome::Invalid);
}

#[test]
fn the_replay_window_is_bounded() {
    let ob = Obfuscator::new(b"key");
    let mut filter = ReplayFilter::new();
    let message = |n: u64| {
        let mut m = b"x".to_vec();
        ob.encrypt_with_salt(&n.to_be_bytes(), &mut m);
        m
    };
    for n in 0..REPLAY_WINDOW as u64 {
        assert!(matches!(
            ob.decrypt_outcome(&mut filter, &message(n)),
            DecryptOutcome::Payload(_)
        ));
    }
    assert_eq!(ob.decrypt_outcome(&mut filter, &message(0)), DecryptOutcome::Replay);
    assert!(matches!(
        ob.decrypt_outcome(&mut filter, &message(REPLAY_WINDOW as u64)),
        DecryptOutcome::Payload(_)
    ));
    assert!(filter.contains(1));
    assert!(!filter.contains(0));
    assert!(matches!(
        ob.decrypt_outcome(&mut filter, &message(0)),
        DecryptOutcome::Payload(_)
    ));
}

#[test]
fn frames_cross_an_obfuscated_tunnel() {
    let key = Obfuscator::new(b"obfuscation-key");
    let mut filter = ReplayFilter::new();
    let mut metrics = Metrics::new();
    let f = Frame::data(5, b"secret bytes".to_vec());
    let msg = outbound(&f, Some(&key)).unwrap();
    assert_ne!(msg, encode_frame(&f));
    match inbound(&msg, Some(&key), &mut filter, &mut metrics) {
        Inbound::Frame(bytes) => assert_eq!(Frame::decode(&bytes).unwrap().0, f),
        other => panic!("{other:?}"),
    }
    assert_eq!(metrics.obfus_replay_dropped, 0);
    assert_eq!(inbound(&msg, Some(&key), &mut filter, &mut metrics), Inbound::Drop);
    assert_eq!(metrics.obfus_replay_dropped, 1);
    assert_eq!(metrics.obfus_invalid, 0);
}

#[test]
fn mismatched_keys_close_the_connection() {
    let ours = Obfuscator::new(b"server-key");
    let theirs = Obfuscator::new(b"client-key");
    let mut filter = ReplayFilter::new();
    let mut metrics = Metrics::new();
    let msg = outbound(&Frame::ping(), Some(&theirs)).unwrap();
    assert_eq!(inbound(&msg, Some(&ours), &mut filter, &mut metrics), Inbound::Close);
    assert_eq!(metrics.obfus_invalid, 1);
}

#[test]
fn without_a_key_frames_go_in_the_clear() {
    let mut filter = ReplayFilter::new();
    let mut metrics = Metrics::new();
    let f = Frame::ping();
    let msg = outbound(&f, None).unwrap();
    assert_eq!(msg, vec![0, 6, 0]);
    assert_eq!(
        inbound(&msg, None, &mut filter, &mut metrics),
        Inbound::Frame(vec![0, 6, 0])
    );
}
