//! Proxy targets: an IP address or a domain name, with a port.

use vstd::prelude::*;
use vstd::string::*;
use vstd::utf8::*;

use crate::bytes;
use crate::error::{Error, ErrorView, Result};
use crate::ip;
use crate::ip::IpAddr;
use crate::outside;
use crate::text;
use crate::varint;
use crate::wire;

verus! {

/// Where a stream or a packet is to go.
#[derive(Debug, PartialEq, Eq)]
pub enum Address {
    Ip(IpAddr, u16),
    Domain(String, u16),
}

/// An address with its octets or characters as sequences.
#[verifier::ext_equal]
pub enum AddressView {
    Ip(Seq<u8>, u16),
    Domain(Seq<char>, u16),
}

impl View for Address {
    type V = AddressView;

    open spec fn view(&self) -> AddressView {
        match self {
            Address::Ip(ip, port) => AddressView::Ip(ip@, *port),
            Address::Domain(name, port) => AddressView::Domain(name@, *port),
        }
    }
}

impl AddressView {
    /// Whether there is such an address, and its name is short enough to be sent.
    pub open spec fn fits(self) -> bool {
        match self {
            AddressView::Ip(o, _) => ip::is_ip(o),
            AddressView::Domain(d, _) => wire::can_prefix(encode_utf8(d)),
        }
    }

    pub open spec fn port(self) -> u16 {
        match self {
            AddressView::Ip(_, p) => p,
            AddressView::Domain(_, p) => p,
        }
    }

    /// The host without the port.
    pub open spec fn host(self) -> Seq<char> {
        match self {
            AddressView::Ip(o, _) => ip::ip_text(o),
            AddressView::Domain(d, _) => d,
        }
    }

    /// Host and port, separated by a colon.
    pub open spec fn text(self) -> Seq<char> {
        self.host() + ":"@ + text::decimal_text(self.port() as nat)
    }
}

/// An address is seen with its octets or its name, and its port.
pub proof fn law_address_is_seen_as_it_is(a: Address)
    ensures
        a matches Address::Ip(ip, port) ==> a@ == AddressView::Ip(ip@, port),
        a matches Address::Domain(name, port) ==> a@ == AddressView::Domain(name@, port),
{
}

/// The text that received bytes stand for.
pub open spec fn received_text(b: Seq<u8>) -> Seq<char> {
    if valid_utf8(b) {
        decode_utf8(b)
    } else {
        outside::lossy_text(b)
    }
}

/// A text that was sent as UTF-8 is read back as it was.
pub proof fn law_text_roundtrip(s: Seq<char>)
    ensures
        received_text(encode_utf8(s)) == s,
{
    encode_utf8_valid_utf8(s);
    encode_utf8_decode_utf8(s);
}

/// The encoding of an address: its kind, its octets or its length-prefixed name, its port.
pub open spec fn address_bytes(a: AddressView) -> Seq<u8> {
    match a {
        AddressView::Ip(o, p) => seq![if o.len() == 4 { 0x01u8 } else { 0x02u8 }] + o
            + bytes::be_bytes(p as nat, 2),
        AddressView::Domain(d, p) => seq![0x03u8] + wire::prefixed(encode_utf8(d))
            + bytes::be_bytes(p as nat, 2),
    }
}

/// The address at the front of `b` and what follows it.
pub open spec fn parse_address(b: Seq<u8>) -> core::result::Result<
    (AddressView, Seq<u8>),
    ErrorView,
> {
    if b.len() == 0 {
        Err(ErrorView::UnexpectedEof)
    } else if b[0] == 0x01 {
        if b.len() < 7 {
            Err(ErrorView::UnexpectedEof)
        } else {
            Ok(
                (
                    AddressView::Ip(b.subrange(1, 5), bytes::be_nat(b.subrange(5, 7)) as u16),
                    b.skip(7),
                ),
            )
        }
    } else if b[0] == 0x02 {
        if b.len() < 19 {
            Err(ErrorView::UnexpectedEof)
        } else {
            Ok(
                (
                    AddressView::Ip(b.subrange(1, 17), bytes::be_nat(b.subrange(17, 19)) as u16),
                    b.skip(19),
                ),
            )
        }
    } else if b[0] == 0x03 {
        match wire::take_bytes(b.skip(1)) {
            Some((name, rest)) => if rest.len() < 2 {
                Err(ErrorView::UnexpectedEof)
            } else {
                Ok(
                    (
                        AddressView::Domain(
                            received_text(name),
                            bytes::be_nat(rest.take(2)) as u16,
                        ),
                        rest.skip(2),
                    ),
                )
            },
            None => Err(ErrorView::UnexpectedEof),
        }
    } else {
        Err(ErrorView::InvalidData("bad address type"@))
    }
}

/// An address that was written is read back, and what follows it is left alone.
pub proof fn law_address_roundtrip(a: AddressView, rest: Seq<u8>)
    requires
        a.fits(),
    ensures
        parse_address(address_bytes(a) + rest) == Ok::<(AddressView, Seq<u8>), ErrorView>(
            (a, rest),
        ),
{
    let p = a.port();
    let pb = bytes::be_bytes(p as nat, 2);
    let b = address_bytes(a) + rest;
    reveal_with_fuel(bytes::pow256, 3);
    bytes::lemma_be_bytes_len(p as nat, 2);
    bytes::lemma_be_roundtrip(p as nat, 2);
    match a {
        AddressView::Ip(o, _) => {
            if o.len() == 4 {
                assert(b.subrange(1, 5) =~= o);
                assert(b.subrange(5, 7) =~= pb);
                assert(b.skip(7) =~= rest);
            } else {
                assert(b.subrange(1, 17) =~= o);
                assert(b.subrange(17, 19) =~= pb);
                assert(b.skip(19) =~= rest);
            }
        },
        AddressView::Domain(d, _) => {
            let name = encode_utf8(d);
            assert(b.skip(1) =~= wire::prefixed(name) + (pb + rest));
            wire::lemma_take_bytes(name, pb + rest);
            assert((pb + rest).take(2) =~= pb);
            assert((pb + rest).skip(2) =~= rest);
            law_text_roundtrip(d);
        },
    }
}

proof fn lemma_port_bytes(p: u16)
    ensures
        bytes::be_bytes(p as nat, 2) == seq![(p / 256) as u8, (p % 256) as u8],
{
    reveal_with_fuel(bytes::be_bytes, 3);
    assert(p as nat / 256 % 256 == p as nat / 256);
    assert(bytes::be_bytes(p as nat, 2) =~= seq![(p / 256) as u8, (p % 256) as u8]);
}

/// On the wire an IPv4 address is a one and its four octets, an IPv6 address a two and its sixteen
/// octets, a name a three, its length and its bytes; then comes the port, the higher byte first.
/// Everything but a name beyond the limit of the encoding can be written.
pub proof fn law_address_layout(o: Seq<u8>, d: Seq<char>, p: u16)
    ensures
        o.len() == 4 ==> address_bytes(AddressView::Ip(o, p)) == seq![1u8] + o + seq![
            (p / 256) as u8,
            (p % 256) as u8,
        ],
        o.len() == 16 ==> address_bytes(AddressView::Ip(o, p)) == seq![2u8] + o + seq![
            (p / 256) as u8,
            (p % 256) as u8,
        ],
        address_bytes(AddressView::Domain(d, p)) == seq![3u8] + varint::varint_bytes(
            encode_utf8(d).len() as u64,
        ) + encode_utf8(d) + seq![(p / 256) as u8, (p % 256) as u8],
        AddressView::Ip(o, p).fits() <==> o.len() == 4 || o.len() == 16,
        AddressView::Domain(d, p).fits() <==> encode_utf8(d).len() < 0x4000_0000_0000_0000,
{
    lemma_port_bytes(p);
    assert(address_bytes(AddressView::Domain(d, p)) =~= seq![3u8] + varint::varint_bytes(
        encode_utf8(d).len() as u64,
    ) + encode_utf8(d) + seq![(p / 256) as u8, (p % 256) as u8]);
}

/// What is read as an address does not depend on what follows it, which is left alone.
pub proof fn law_address_read_by_itself(b: Seq<u8>, more: Seq<u8>)
    ensures
        parse_address(b) matches Ok((a, rest)) ==> parse_address(b + more) == Ok::<
            (AddressView, Seq<u8>),
            ErrorView,
        >((a, rest + more)),
{
    if parse_address(b) is Ok {
        let c = b + more;
        if b[0] == 0x01 {
            assert(c.subrange(1, 5) =~= b.subrange(1, 5));
            assert(c.subrange(5, 7) =~= b.subrange(5, 7));
            assert(c.skip(7) =~= b.skip(7) + more);
        } else if b[0] == 0x02 {
            assert(c.subrange(1, 17) =~= b.subrange(1, 17));
            assert(c.subrange(17, 19) =~= b.subrange(17, 19));
            assert(c.skip(19) =~= b.skip(19) + more);
        } else {
            assert(c.skip(1) =~= b.skip(1) + more);
            wire::lemma_take_more(b.skip(1), more);
            if let Some((_, rest)) = wire::take_bytes(b.skip(1)) {
                assert((rest + more).take(2) =~= rest.take(2));
                assert((rest + more).skip(2) =~= rest.skip(2) + more);
            }
        }
    }
}

/// An address of which the end is missing is told as such, and so is one of a kind that there is
/// not, whatever follows.
pub proof fn law_bad_address_not_read(a: AddressView, k: int, b: Seq<u8>)
    requires
        a.fits(),
        0 <= k < address_bytes(a).len(),
    ensures
        parse_address(address_bytes(a).take(k)) == Err::<(AddressView, Seq<u8>), ErrorView>(
            ErrorView::UnexpectedEof,
        ),
        b.len() > 0 && b[0] != 1 && b[0] != 2 && b[0] != 3 ==> parse_address(b) == Err::<
            (AddressView, Seq<u8>),
            ErrorView,
        >(ErrorView::InvalidData("bad address type"@)),
{
    let w = address_bytes(a);
    law_address_roundtrip(a, Seq::empty());
    assert(w + Seq::<u8>::empty() =~= w);
    assert(w.take(k) + w.skip(k) =~= w);
    law_address_read_by_itself(w.take(k), w.skip(k));
    if let Ok((_, rest)) = parse_address(w.take(k)) {
        assert((rest + w.skip(k)).len() > 0);
    }
    if k > 0 {
        assert(w.take(k)[0] == w[0]);
        assert(w[0] == 1 || w[0] == 2 || w[0] == 3);
    }
}

/// An address is written as its host, a colon and its port in decimal digits; the host of a name
/// is the name itself. Bytes that are not UTF-8 are read with what is wrong in them replaced.
pub proof fn law_address_text(a: AddressView, b: Seq<u8>)
    ensures
        a.text() == a.host() + seq![':'] + text::decimal_text(a.port() as nat),
        a matches AddressView::Domain(d, p) ==> a.host() == d && a.port() == p,
        a matches AddressView::Ip(o, p) ==> a.host() == ip::ip_text(o) && a.port() == p,
        !valid_utf8(b) ==> received_text(b) == outside::lossy_text(b),
        valid_utf8(b) ==> encode_utf8(received_text(b)) == b,
{
    reveal_strlit(":");
    assert(":"@ =~= seq![':']);
    if valid_utf8(b) {
        decode_utf8_encode_utf8(b);
    }
}

/// What is left after an address is a shorter suffix of what was given.
pub proof fn lemma_parse_address_rest(b: Seq<u8>)
    ensures
        parse_address(b) matches Ok((_, rest)) ==> rest.len() < b.len() && rest == b.skip(
            b.len() - rest.len(),
        ),
{
    if b.len() > 0 && b[0] == 0x03 {
        wire::lemma_take_lens(b.skip(1));
        if let Some((_, rest)) = wire::take_bytes(b.skip(1)) {
            if rest.len() >= 2 {
                assert(rest.skip(2) =~= b.skip(b.len() - rest.skip(2).len()));
            }
        }
    }
}

/// The big-endian port in two bytes.
pub(crate) fn read_port(hi: u8, lo: u8) -> (p: u16)
    ensures
        p == bytes::be_nat(seq![hi, lo]),
{
    proof {
        reveal_with_fuel(bytes::be_nat, 3);
        assert(seq![hi, lo].drop_last() =~= seq![hi]);
        assert(seq![hi].drop_last() =~= Seq::<u8>::empty());
    }
    hi as u16 * 256 + lo as u16
}

impl Clone for Address {
    fn clone(&self) -> (a: Address)
        ensures
            a@ == self@,
    {
        match self {
            Address::Ip(ip, p) => Address::Ip(*ip, *p),
            Address::Domain(d, p) => Address::Domain(d.clone(), *p),
        }
    }
}

impl Address {
    pub fn port(&self) -> (p: u16)
        ensures
            p == self@.port(),
    {
        match self {
            Address::Ip(_, p) => *p,
            Address::Domain(_, p) => *p,
        }
    }

    /// The host as text, without the port.
    pub fn hostname(&self) -> (s: String)
        ensures
            s@ == self@.host(),
    {
        match self {
            Address::Ip(ip, _) => {
                let mut s = String::new();
                ip::put_ip(&mut s, ip);
                assert(s@ =~= ip::ip_text(ip@));
                s
            },
            Address::Domain(d, _) => d.clone(),
        }
    }

    /// Host and port as text.
    pub fn to_text(&self) -> (s: String)
        ensures
            s@ == self@.text(),
    {
        let mut s = self.hostname();
        text::put_str(&mut s, ":");
        text::put_decimal(&mut s, self.port() as u64);
        s
    }

    /// Appends the encoding to `buf`.
    pub fn encode(&self, buf: &mut Vec<u8>)
        ensures
            final(buf)@ == old(buf)@ + address_bytes(self@),
    {
        let ghost before = buf@;
        match self {
            Address::Ip(IpAddr::V4(o), port) => {
                buf.push(0x01);
                bytes::put_slice(buf, o.as_slice());
                bytes::put_be(buf, *port as u64, 2);
            },
            Address::Ip(IpAddr::V6(o), port) => {
                buf.push(0x02);
                bytes::put_slice(buf, o.as_slice());
                bytes::put_be(buf, *port as u64, 2);
            },
            Address::Domain(d, port) => {
                buf.push(0x03);
                wire::put_prefixed(buf, d.as_str().as_bytes());
                bytes::put_be(buf, *port as u64, 2);
            },
        }
        assert(buf@ =~= before + address_bytes(self@));
    }

    /// Reads the address at the front of `buf`; gives it with the number of bytes it took.
    pub fn decode(buf: &[u8]) -> (r: Result<(Address, usize)>)
        ensures
            match parse_address(buf@) {
                Ok((a, rest)) => r matches Ok((ra, used)) && ra@ == a && used == buf@.len()
                    - rest.len(),
                Err(e) => r matches Err(re) && re@ == e,
            },
    {
        if buf.len() == 0 {
            return Err(Error::UnexpectedEof);
        }
        let kind: u8 = buf[0];
        if kind == 0x01 {
            if buf.len() < 7 {
                return Err(Error::UnexpectedEof);
            }
            let o: [u8; 4] = [buf[1], buf[2], buf[3], buf[4]];
            let port: u16 = read_port(buf[5], buf[6]);
            assert(o@ =~= buf@.subrange(1, 5));
            assert(seq![buf@[5], buf@[6]] =~= buf@.subrange(5, 7));
            Ok((Address::Ip(IpAddr::V4(o), port), 7))
        } else if kind == 0x02 {
            if buf.len() < 19 {
                return Err(Error::UnexpectedEof);
            }
            let o: [u8; 16] = [
                buf[1], buf[2], buf[3], buf[4], buf[5], buf[6], buf[7], buf[8], buf[9], buf[10],
                buf[11], buf[12], buf[13], buf[14], buf[15], buf[16],
            ];
            let port: u16 = read_port(buf[17], buf[18]);
            assert(o@ =~= buf@.subrange(1, 17));
            assert(seq![buf@[17], buf@[18]] =~= buf@.subrange(17, 19));
            Ok((Address::Ip(IpAddr::V6(o), port), 19))
        } else if kind == 0x03 {
            let total: usize = buf.len();
            assert(buf@.subrange(1, total as int) =~= buf@.skip(1));
            let (len, used) = match varint::decode_varint(&buf[1..total]) {
                Ok(v) => v,
                Err(e) => return Err(e),
            };
            proof {
                varint::law_parse_varint_bounds(buf@.skip(1));
            }
            let start: usize = 1 + used;
            let left: usize = total - start;
            if (left as u64) < len || left as u64 - len < 2 {
                return Err(Error::UnexpectedEof);
            }
            let end: usize = start + len as usize;
            let name = outside::from_utf8_lossy(&buf[start..end]);
            let port: u16 = read_port(buf[end], buf[end + 1]);
            proof {
                let rest = buf@.skip(1).skip(used as int);
                assert(rest.take(len as int) =~= buf@.subrange(start as int, end as int));
                assert(rest.skip(len as int).take(2) =~= seq![
                    buf@[end as int],
                    buf@[end as int + 1],
                ]);
            }
            Ok((Address::Domain(name, port), end + 2))
        } else {
            Err(Error::InvalidData("bad address type"))
        }
    }
}

} // verus!
