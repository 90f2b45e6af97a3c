//! The client's table of UDP associations.

use std::collections::HashMap;

use vstd::prelude::*;

use crate::address;
use crate::address::{Address, AddressView};
use crate::bytes;
use crate::error::{ErrorView, Result};
use crate::ip::IpAddr;
use crate::message;
use crate::message::{Datagram, DatagramView};
use crate::socks5;

verus! {

broadcast use vstd::std_specs::hash::group_hash_axioms;

/// The address of a socket.
#[derive(Debug, Clone, Copy, PartialEq, Eq)]
pub struct SocketAddr {
    pub ip: IpAddr,
    pub port: u16,
}

/// The associations, and where the local client of each sends from once it has sent
/// something.
pub struct UdpRelay {
    sessions: HashMap<u32, Option<SocketAddr>>,
    next_session: u32,
}

impl View for UdpRelay {
    type V = Map<u32, Option<SocketAddr>>;

    closed spec fn view(&self) -> Map<u32, Option<SocketAddr>> {
        self.sessions@
    }
}

/// The answer to a granted association: the address to which the client has to send.
pub open spec fn associate_reply_bytes(local: SocketAddr) -> Seq<u8> {
    seq![5u8, 0u8, 0u8] + address::address_bytes(AddressView::Ip(local.ip@, local.port))
}

/// The answer to a granted association: the address to which the client has to send.
pub fn associate_reply(local: SocketAddr) -> (v: Vec<u8>)
    ensures
        v@ == associate_reply_bytes(local),
{
    let mut v: Vec<u8> = Vec::new();
    v.push(5);
    v.push(0);
    v.push(0);
    Address::Ip(local.ip, local.port).encode(&mut v);
    assert(v@ =~= associate_reply_bytes(local));
    v
}

/// The packet to send into the tunnel for what a client sent in the association `sid`; a
/// malformed one is an error, and to be ignored.
pub fn outgoing(sid: u32, buf: &[u8]) -> (r: Result<Datagram>)
    ensures
        match socks5::parse_udp(buf@) {
            Ok((target, payload)) => r matches Ok(d) && d@ == DatagramView::whole(
                sid,
                target,
                payload,
            ),
            Err(e) => r matches Err(re) && re@ == e,
        },
{
    match socks5::parse_udp_packet(buf) {
        Ok((target, payload)) => Ok(Datagram::new(sid, target, bytes::copy_slice(payload))),
        Err(e) => Err(e),
    }
}

impl UdpRelay {
    /// The id that the next association gets.
    pub closed spec fn next(&self) -> u32 {
        self.next_session
    }

    /// No associations.
    pub fn new() -> (r: Self)
        ensures
            r@ == Map::<u32, Option<SocketAddr>>::empty(),
            r.next() == 1,
    {
        UdpRelay { sessions: HashMap::new(), next_session: 1 }
    }

    /// Starts an association; gives its id. Ids count up from one and start over when they
    /// are used up.
    pub fn associate(&mut self) -> (sid: u32)
        ensures
            sid == old(self).next(),
            final(self).next() == nth_id(old(self).next(), 1),
            final(self)@ == old(self)@.insert(sid, None),
    {
        let sid: u32 = self.next_session;
        self.next_session = self.next_session.wrapping_add(1);
        let _ = self.sessions.insert(sid, None);
        proof {
            reveal_with_fuel(nth_id, 2);
        }
        sid
    }

    /// Notes where the client of an association sends from; only the first address counts.
    pub fn note_client(&mut self, sid: u32, from: SocketAddr)
        ensures
            final(self).next() == old(self).next(),
            final(self)@ == (if old(self)@.contains_key(sid) && old(self)@[sid] is None {
                old(self)@.insert(sid, Some(from))
            } else {
                old(self)@
            }),
    {
        let fresh = match self.sessions.get(&sid) {
            Some(known) => known.is_none(),
            None => false,
        };
        if fresh {
            let _ = self.sessions.insert(sid, Some(from));
        }
    }

    /// Ends an association.
    pub fn remove(&mut self, sid: u32)
        ensures
            final(self).next() == old(self).next(),
            final(self)@ == old(self)@.remove(sid),
    {
        let ghost before = self@;
        let _ = self.sessions.remove(&sid);
        assert(self@ =~= before.remove(sid));
    }

    /// Where a packet from the tunnel goes, and as what: to the client of its association,
    /// if there is one and its address is known.
    pub fn route_reply(&self, dg: &Datagram) -> (r: Option<(SocketAddr, Vec<u8>)>)
        ensures
            self@.contains_key(dg.session_id) && self@[dg.session_id] is Some ==> (
            r matches Some((to, packet)) && Some(to) == self@[dg.session_id] && packet@
                == socks5::udp_packet(dg.address@, dg.payload@)),
            !(self@.contains_key(dg.session_id) && self@[dg.session_id] is Some) ==> r is None,
    {
        match self.sessions.get(&dg.session_id) {
            Some(known) => match known {
                Some(to) => {
                    let packet = socks5::build_udp_packet(&dg.address, dg.payload.as_slice());
                    Some((*to, packet))
                },
                None => None,
            },
            None => None,
        }
    }
}

/// The answer to a granted association is version five, success, a reserved byte, and the address
/// to send to in the tunnel's format.
pub proof fn law_associate_reply(local: SocketAddr)
    ensures
        associate_reply_bytes(local).take(3) == seq![5u8, 0u8, 0u8],
        address::parse_address(associate_reply_bytes(local).skip(3)) == Ok::<
            (AddressView, Seq<u8>),
            ErrorView,
        >((AddressView::Ip(local.ip@, local.port), Seq::empty())),
{
    let a = AddressView::Ip(local.ip@, local.port);
    let b = associate_reply_bytes(local);
    assert(b.take(3) =~= seq![5u8, 0u8, 0u8]);
    assert(b.skip(3) =~= address::address_bytes(a) + Seq::<u8>::empty());
    address::law_address_roundtrip(a, Seq::empty());
}

/// A packet for or from a client names its peer and holds its payload as they were put in,
/// and so does the datagram that carries it through the tunnel.
pub proof fn law_relay_preserves_packets(sid: u32, target: AddressView, payload: Seq<u8>)
    requires
        target.fits(),
    ensures
        ({
            let out = DatagramView::whole(sid, target, payload);
            &&& socks5::parse_udp(socks5::udp_packet(target, payload)) == Ok::<
                (AddressView, Seq<u8>),
                ErrorView,
            >((target, payload))
            &&& message::parse_datagram(message::datagram_bytes(out)) == Ok::<
                DatagramView,
                ErrorView,
            >(out)
        }),
{
    socks5::law_udp_packet_roundtrip(target, payload);
    message::law_datagram_roundtrip(DatagramView::whole(sid, target, payload));
}

/// The id of the `i`-th association after one with the id `first`.
pub open spec fn nth_id(first: u32, i: nat) -> u32
    decreases i,
{
    if i == 0 {
        first
    } else {
        nth_id(first, (i - 1) as nat).wrapping_add(1)
    }
}

proof fn lemma_nth_id(first: u32, i: nat)
    ensures
        nth_id(first, i) == (first + i) % 0x1_0000_0000,
    decreases i,
{
    if i > 0 {
        lemma_nth_id(first, (i - 1) as nat);
    }
}

/// No two associations have the same id, as long as there have not been more than there are
/// ids.
pub proof fn law_session_ids_unique(first: u32, i: nat, j: nat)
    requires
        i < j < 0x1_0000_0000,
    ensures
        nth_id(first, i) != nth_id(first, j),
        nth_id(first, i) == (first + i) % 0x1_0000_0000,
{
    lemma_nth_id(first, i);
    lemma_nth_id(first, j);
}

} // verus!
