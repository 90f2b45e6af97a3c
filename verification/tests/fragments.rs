use hydr::address::Address;
use hydr::error::Error;
use hydr::fragment::{fragment, Defragmenter, MAX_FRAGMENTS};
use hydr::ip::IpAddr;
use hydr::message::Datagram;

fn packet(len: usize) -> Datagram {
    let payload = (0..len).map(|i| i as u8).collect();
    Datagram::new(7, Address::Ip(IpAddr::V4([8, 8, 8, 8]), 53), payload)
}

#[test]
fn a_packet_that_fits_is_left_alone() {
    let d = packet(100);
    assert_eq!(fragment(&d, 3, 115).unwrap(), vec![d.clone()]);
    assert_eq!(fragment(&d, 3, 114).unwrap().len(), 2);
}

#[test]
fn fragments_are_numbered_and_fit() {
    let d = packet(250);
    let parts = fragment(&d, 42, 115).unwrap();
    assert_eq!(parts.len(), 3);
    for (i, p) in parts.iter().enumerate() {
        assert_eq!(p.packet_id, 42);
        assert_eq!(p.frag_id as usize, i);
        assert_eq!(p.frag_count, 3);
        assert_eq!(p.session_id, 7);
        assert_eq!(p.address, d.address);
        let mut buf = Vec::new();
        p.encode(&mut buf);
        assert!(buf.len() <= 115);
    }
    assert_eq!(parts.iter().map(|p| p.payload.len()).collect::<Vec<_>>(), vec![100, 100, 50]);
}

#[test]
fn fragments_reassemble_in_any_order() {
    let d = packet(250);
    let parts = fragment(&d, 1, 115).unwrap();
    for order in [[0, 1, 2], [0, 2, 1], [1, 0, 2], [1, 2, 0], [2, 0, 1], [2, 1, 0]] {
        let mut defrag = Defragmenter::new();
        assert_eq!(defrag.accept(parts[order[0]].clone()), None);
        assert_eq!(defrag.accept(parts[order[1]].clone()), None);
        assert_eq!(defrag.accept(parts[order[0]].clone()), None);
        assert_eq!(defrag.accept(parts[order[2]].clone()), Some(d.clone()));
    }
}

#[test]
fn a_packet_with_a_missing_fragment_is_discarded() {
    let first = fragment(&packet(150), 1, 115).unwrap();
    let second = fragment(&packet(180), 2, 115).unwrap();
    let mut defrag = Defragmenter::new();
    assert_eq!(defrag.accept(first[0].clone()), None);
    assert_eq!(defrag.accept(second[0].clone()), None);
    assert_eq!(defrag.accept(first[1].clone()), None);
    assert_eq!(defrag.accept(second[1].clone()), None);
    assert_eq!(defrag.accept(second[0].clone()), Some(packet(180)));
}

#[test]
fn whole_packets_pass_through() {
    let parts = fragment(&packet(150), 1, 115).unwrap();
    let mut defrag = Defragmenter::new();
    assert_eq!(defrag.accept(parts[0].clone()), None);
    assert_eq!(defrag.accept(packet(5)), Some(packet(5)));
    assert_eq!(defrag.accept(parts[1].clone()), Some(packet(150)));
    let mut odd = packet(5);
    odd.frag_count = 2;
    odd.frag_id = 2;
    assert_eq!(defrag.accept(odd), None);
}

#[test]
fn packets_that_cannot_be_cut_are_errors() {
    let too_large = "datagram too large";
    assert!(matches!(fragment(&packet(10), 0, 15), Err(Error::InvalidData(m)) if m == too_large));
    assert_eq!(fragment(&packet(MAX_FRAGMENTS), 0, 16).unwrap().len(), MAX_FRAGMENTS);
    assert!(fragment(&packet(MAX_FRAGMENTS + 1), 0, 16).is_err());
    let mut part = packet(200);
    part.frag_count = 2;
    assert!(fragment(&part, 0, 115).is_err());
    assert!(fragment(&part, 0, 1000).is_ok());
}
