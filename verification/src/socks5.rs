//! The local SOCKS5 entry: what a client's bytes mean and what it is answered.

use vstd::prelude::*;
use vstd::string::*;
use vstd::utf8::*;

use crate::address;
use crate::address::{Address, AddressView};
use crate::bytes;
use crate::error::{Error, ErrorView, Result};
use crate::ip;
use crate::ip::IpAddr;
use crate::message;
use crate::outside;

verus! {

pub const CMD_CONNECT: u8 = 0x01;

pub const CMD_UDP_ASSOCIATE: u8 = 0x03;

pub const METHOD_NO_AUTH: u8 = 0x00;

pub const METHOD_USERPASS: u8 = 0x02;

pub const METHOD_NO_ACCEPTABLE: u8 = 0xFF;

/// The reply code of a request that was granted.
pub const REPLY_OK: u8 = 0x00;

/// The reply code of a target that cannot be reached.
pub const REPLY_UNREACHABLE: u8 = 0x04;

/// The reply code of a command that is not known.
pub const REPLY_UNSUPPORTED: u8 = 0x07;

/// The most authentication methods that a client may offer.
pub const MAX_METHODS: usize = 32;

/// What a client asks for.
#[derive(Debug)]
pub struct Request {
    pub cmd: u8,
    pub address: Address,
}

/// The number of bytes that a request which starts with `b` has at least, as far as `b`
/// tells: the fixed head, then the length of a name, then the rest.
pub open spec fn request_len(b: Seq<u8>) -> core::result::Result<int, ErrorView> {
    if b.len() < 4 {
        Ok(4)
    } else if b[0] != 5 {
        Err(ErrorView::InvalidData("bad socks version"@))
    } else if b[3] == 1 {
        Ok(10)
    } else if b[3] == 4 {
        Ok(22)
    } else if b[3] == 3 {
        if b.len() < 5 {
            Ok(5)
        } else {
            Ok(7 + b[4])
        }
    } else {
        Err(ErrorView::InvalidData("bad address type"@))
    }
}

/// What the reader of a request has to do next once it has read `b`.
pub open spec fn request_step(b: Seq<u8>) -> core::result::Result<Option<int>, ErrorView> {
    match request_len(b) {
        Ok(n) => if b.len() < n {
            Ok(Some(n - b.len()))
        } else {
            Ok(None)
        },
        Err(e) => Err(e),
    }
}

/// How many more bytes of a request have to be read after `buf`; none if it is complete.
pub fn request_needs(buf: &[u8]) -> (r: Result<Option<usize>>)
    ensures
        match request_step(buf@) {
            Ok(Some(n)) => r matches Ok(Some(rn)) && rn == n,
            Ok(None) => r matches Ok(None),
            Err(e) => r matches Err(re) && re@ == e,
        },
{
    let have: usize = buf.len();
    if have < 4 {
        return Ok(Some(4 - have));
    }
    if buf[0] != 5 {
        return Err(Error::InvalidData("bad socks version"));
    }
    let atyp: u8 = buf[3];
    let total: usize = if atyp == 1 {
        10
    } else if atyp == 4 {
        22
    } else if atyp == 3 {
        if have < 5 {
            5
        } else {
            7 + buf[4] as usize
        }
    } else {
        return Err(Error::InvalidData("bad address type"));
    };
    if have < total {
        Ok(Some(total - have))
    } else {
        Ok(None)
    }
}

/// The address in a complete request `b`: the octets of an IPv4 address after kind 1 and those
/// of an IPv6 address after kind 4, or after kind 3 one byte with the length of a name and the
/// name; then the port.
pub open spec fn request_address(b: Seq<u8>) -> AddressView {
    let n = if b[3] == 1 {
        10
    } else if b[3] == 4 {
        22
    } else {
        7 + b[4]
    };
    let port = bytes::be_nat(b.subrange(n - 2, n)) as u16;
    if b[3] == 3 {
        AddressView::Domain(address::received_text(b.subrange(5, n - 2)), port)
    } else {
        AddressView::Ip(b.subrange(4, n - 2), port)
    }
}

/// The request in `b`: the command and the address.
pub open spec fn parse_request(b: Seq<u8>) -> core::result::Result<(u8, AddressView), ErrorView> {
    match request_len(b) {
        Err(e) => Err(e),
        Ok(n) => if b.len() < n {
            Err(ErrorView::UnexpectedEof)
        } else {
            Ok((b[1], request_address(b)))
        },
    }
}

/// A client's request for `cmd` with the address `a`.
pub open spec fn request_bytes(cmd: u8, a: AddressView) -> Seq<u8> {
    match a {
        AddressView::Ip(o, p) => seq![5u8, cmd, 0u8, if o.len() == 4 { 1u8 } else { 4u8 }] + o
            + bytes::be_bytes(p as nat, 2),
        AddressView::Domain(d, p) => seq![5u8, cmd, 0u8, 3u8, encode_utf8(d).len() as u8]
            + encode_utf8(d) + bytes::be_bytes(p as nat, 2),
    }
}

/// A request is read as the client meant it: for every IPv4 and IPv6 address and for every name
/// that one byte can give the length of.
pub proof fn law_request_read(cmd: u8, a: AddressView)
    requires
        match a {
            AddressView::Ip(o, _) => o.len() == 4 || o.len() == 16,
            AddressView::Domain(d, _) => encode_utf8(d).len() <= 255,
        },
    ensures
        parse_request(request_bytes(cmd, a)) == Ok::<(u8, AddressView), ErrorView>((cmd, a)),
{
    let b = request_bytes(cmd, a);
    let pb = bytes::be_bytes(a.port() as nat, 2);
    reveal_with_fuel(bytes::pow256, 3);
    bytes::lemma_be_bytes_len(a.port() as nat, 2);
    bytes::lemma_be_roundtrip(a.port() as nat, 2);
    assert(b.subrange(b.len() - 2, b.len() as int) =~= pb);
    match a {
        AddressView::Ip(o, _) => {
            assert(b.subrange(4, b.len() - 2) =~= o);
        },
        AddressView::Domain(d, _) => {
            assert(b.subrange(5, b.len() - 2) =~= encode_utf8(d));
            address::law_text_roundtrip(d);
        },
    }
}

/// What the bytes of a request say: the second is the command, and then come, by the kind in the
/// fourth, four octets, sixteen octets, or a length and a name of so many bytes; the port is the
/// last two bytes, the higher one first. What follows a request is left alone.
pub proof fn law_request_says(b: Seq<u8>)
    requires
        b.len() >= 5,
        b[0] == 5,
    ensures
        b[3] == 1 && b.len() >= 10 ==> parse_request(b) == Ok::<(u8, AddressView), ErrorView>(
            (
                b[1],
                AddressView::Ip(seq![b[4], b[5], b[6], b[7]], (b[8] * 256 + b[9]) as u16),
            ),
        ),
        b[3] == 4 && b.len() >= 22 ==> parse_request(b) == Ok::<(u8, AddressView), ErrorView>(
            (
                b[1],
                AddressView::Ip(
                    Seq::new(16, |i: int| b[4 + i]),
                    (b[20] * 256 + b[21]) as u16,
                ),
            ),
        ),
        b[3] == 3 && b.len() >= 7 + b[4] ==> parse_request(b) == Ok::<(u8, AddressView), ErrorView>(
            (
                b[1],
                AddressView::Domain(
                    address::received_text(Seq::new(b[4] as nat, |i: int| b[5 + i])),
                    (b[5 + b[4]] * 256 + b[6 + b[4]]) as u16,
                ),
            ),
        ),
{
    if b[3] == 1 && b.len() >= 10 {
        lemma_port(b, 8);
        assert(b.subrange(4, 8) =~= seq![b[4], b[5], b[6], b[7]]);
    } else if b[3] == 4 && b.len() >= 22 {
        lemma_port(b, 20);
        assert(b.subrange(4, 20) =~= Seq::new(16, |i: int| b[4 + i]));
    } else if b[3] == 3 && b.len() >= 7 + b[4] {
        lemma_port(b, 5 + b[4]);
        assert(b.subrange(5, 5 + b[4]) =~= Seq::new(b[4] as nat, |i: int| b[5 + i]));
    }
}

proof fn lemma_port(b: Seq<u8>, k: int)
    requires
        0 <= k,
        k + 2 <= b.len(),
    ensures
        bytes::be_nat(b.subrange(k, k + 2)) == b[k] * 256 + b[k + 1],
{
    reveal_with_fuel(bytes::be_nat, 3);
    let p = b.subrange(k, k + 2);
    assert(p.drop_last() =~= seq![b[k]]);
    assert(seq![b[k]].drop_last() =~= Seq::<u8>::empty());
}

/// A request that does not start with the version, or names a kind that there is not, is an
/// error; and a reader is told to read on exactly as long as the request is not all there: the
/// first four bytes, a byte with the length of a name, and then all of the rest at once.
pub proof fn law_request_is_read_to_its_end(b: Seq<u8>)
    ensures
        b.len() < 4 ==> request_step(b) == Ok::<Option<int>, ErrorView>(Some(4 - b.len())),
        b.len() >= 4 && b[0] != 5 ==> parse_request(b) == Err::<(u8, AddressView), ErrorView>(
            ErrorView::InvalidData("bad socks version"@),
        ),
        b.len() >= 4 && b[0] == 5 && b[3] != 1 && b[3] != 3 && b[3] != 4 ==> parse_request(b)
            == Err::<(u8, AddressView), ErrorView>(ErrorView::InvalidData("bad address type"@)),
        b.len() >= 4 && b[0] == 5 && b[3] == 1 && b.len() < 10 ==> request_step(b) == Ok::<
            Option<int>,
            ErrorView,
        >(Some(10 - b.len())),
        b.len() >= 4 && b[0] == 5 && b[3] == 4 && b.len() < 22 ==> request_step(b) == Ok::<
            Option<int>,
            ErrorView,
        >(Some(22 - b.len())),
        b.len() == 4 && b[0] == 5 && b[3] == 3 ==> request_step(b) == Ok::<Option<int>, ErrorView>(
            Some(1),
        ),
        b.len() > 4 && b[0] == 5 && b[3] == 3 && b.len() < 7 + b[4] ==> request_step(b) == Ok::<
            Option<int>,
            ErrorView,
        >(Some(7 + b[4] - b.len())),
        request_step(b) == Ok::<Option<int>, ErrorView>(None) <==> parse_request(b) is Ok,
        request_step(b) matches Ok(Some(_)) ==> parse_request(b) == Err::<
            (u8, AddressView),
            ErrorView,
        >(ErrorView::UnexpectedEof),
        request_step(b) matches Err(e) ==> parse_request(b) == Err::<(u8, AddressView), ErrorView>(
            e,
        ),
{
}

/// Reads a complete request.
pub fn read_request(buf: &[u8]) -> (r: Result<Request>)
    ensures
        match parse_request(buf@) {
            Ok((cmd, a)) => r matches Ok(rq) && rq.cmd == cmd && rq.address@ == a,
            Err(e) => r matches Err(re) && re@ == e,
        },
{
    match request_needs(buf) {
        Err(e) => return Err(e),
        Ok(Some(_)) => return Err(Error::UnexpectedEof),
        Ok(None) => {},
    }
    let cmd: u8 = buf[1];
    if buf[3] == 1 {
        let o: [u8; 4] = [buf[4], buf[5], buf[6], buf[7]];
        let port: u16 = address::read_port(buf[8], buf[9]);
        assert(o@ =~= buf@.subrange(4, 8));
        assert(seq![buf@[8], buf@[9]] =~= buf@.subrange(8, 10));
        Ok(Request { cmd, address: Address::Ip(IpAddr::V4(o), port) })
    } else if buf[3] == 4 {
        let o: [u8; 16] = [
            buf[4], buf[5], buf[6], buf[7], buf[8], buf[9], buf[10], buf[11], buf[12], buf[13],
            buf[14], buf[15], buf[16], buf[17], buf[18], buf[19],
        ];
        let port: u16 = address::read_port(buf[20], buf[21]);
        assert(o@ =~= buf@.subrange(4, 20));
        assert(seq![buf@[20], buf@[21]] =~= buf@.subrange(20, 22));
        Ok(Request { cmd, address: Address::Ip(IpAddr::V6(o), port) })
    } else {
        let end: usize = 5 + buf[4] as usize;
        let name = outside::from_utf8_lossy(&buf[5..end]);
        let port: u16 = address::read_port(buf[end], buf[end + 1]);
        assert(seq![buf@[end as int], buf@[end as int + 1]] =~= buf@.subrange(
            end as int,
            end as int + 2,
        ));
        Ok(Request { cmd, address: Address::Domain(name, port) })
    }
}

/// The packet that a client sends or gets through the UDP relay.
pub open spec fn udp_packet(a: AddressView, payload: Seq<u8>) -> Seq<u8> {
    seq![0u8, 0u8, 0u8] + address::address_bytes(a) + payload
}

/// The target and the payload of a packet; the target is in the tunnel's own format.
pub open spec fn parse_udp(b: Seq<u8>) -> core::result::Result<(AddressView, Seq<u8>), ErrorView> {
    if b.len() < 4 || b[2] != 0 {
        Err(ErrorView::InvalidData("bad socks udp header"@))
    } else {
        address::parse_address(b.skip(3))
    }
}

/// A packet starts with three zero bytes; the address in the tunnel's format and then the payload
/// follow, to the end. One that is shorter than four bytes, or is a fragment, is an error.
pub proof fn law_udp_packet_layout(a: AddressView, payload: Seq<u8>, b: Seq<u8>)
    ensures
        udp_packet(a, payload).take(3) == seq![0u8, 0u8, 0u8],
        udp_packet(a, payload).skip(3) == address::address_bytes(a) + payload,
        b.len() < 4 || b[2] != 0 ==> parse_udp(b) == Err::<(AddressView, Seq<u8>), ErrorView>(
            ErrorView::InvalidData("bad socks udp header"@),
        ),
        b.len() >= 4 && b[2] == 0 ==> parse_udp(b) == address::parse_address(b.skip(3)),
{
    assert(udp_packet(a, payload).take(3) =~= seq![0u8, 0u8, 0u8]);
    assert(udp_packet(a, payload).skip(3) =~= address::address_bytes(a) + payload);
}

/// A packet that was built is taken apart into the same address and payload.
pub proof fn law_udp_packet_roundtrip(a: AddressView, payload: Seq<u8>)
    requires
        a.fits(),
    ensures
        parse_udp(udp_packet(a, payload)) == Ok::<(AddressView, Seq<u8>), ErrorView>(
            (a, payload),
        ),
{
    let b = udp_packet(a, payload);
    assert(b.skip(3) =~= address::address_bytes(a) + payload);
    assert(address::address_bytes(a).len() > 0);
    address::law_address_roundtrip(a, payload);
}

/// The target and the payload of a packet from a client.
pub fn parse_udp_packet(buf: &[u8]) -> (r: Result<(Address, &[u8])>)
    ensures
        match parse_udp(buf@) {
            Ok((a, payload)) => r matches Ok((ra, rp)) && ra@ == a && rp@ == payload,
            Err(e) => r matches Err(re) && re@ == e,
        },
{
    let total: usize = buf.len();
    if total < 4 || buf[2] != 0 {
        return Err(Error::InvalidData("bad socks udp header"));
    }
    assert(buf@.subrange(3, total as int) =~= buf@.skip(3));
    match Address::decode(&buf[3..total]) {
        Ok((address, used)) => {
            proof {
                address::lemma_parse_address_rest(buf@.skip(3));
            }
            let start: usize = 3 + used;
            assert(buf@.subrange(start as int, total as int) =~= buf@.skip(3).skip(used as int));
            Ok((address, vstd::slice::slice_subrange(buf, start, total)))
        },
        Err(e) => Err(e),
    }
}

/// The packet that carries `payload` from or to `addr`.
pub fn build_udp_packet(addr: &Address, payload: &[u8]) -> (v: Vec<u8>)
    ensures
        v@ == udp_packet(addr@, payload@),
{
    let mut v: Vec<u8> = Vec::new();
    v.push(0);
    v.push(0);
    v.push(0);
    addr.encode(&mut v);
    bytes::put_slice(&mut v, payload);
    assert(v@ =~= udp_packet(addr@, payload@));
    v
}

/// The number of methods that a greeting announces with its first two bytes.
pub fn check_greeting(head: &[u8; 2]) -> (r: Result<usize>)
    ensures
        head@[0] != 5 ==> (r matches Err(e) && e@ == ErrorView::InvalidData(
            "bad socks version"@,
        )),
        head@[0] == 5 && (head@[1] == 0 || head@[1] > MAX_METHODS) ==> (r matches Err(e) && e@
            == ErrorView::InvalidData("bad nmethods"@)),
        head@[0] == 5 && 0 < head@[1] <= MAX_METHODS ==> (r matches Ok(n) && n == head@[1]),
{
    if head[0] != 5 {
        return Err(Error::InvalidData("bad socks version"));
    }
    let n: usize = head[1] as usize;
    if n == 0 || n > MAX_METHODS {
        return Err(Error::InvalidData("bad nmethods"));
    }
    Ok(n)
}

/// The method that this end insists on.
pub open spec fn wanted_method(require_auth: bool) -> u8 {
    if require_auth {
        METHOD_USERPASS
    } else {
        METHOD_NO_AUTH
    }
}

/// Chooses among the methods that a client offers: username and password if they are
/// required, else none. Gives the method, if the client offers it, and the answer to send.
pub fn negotiate_method(methods: &[u8], require_auth: bool) -> (r: (Option<u8>, [u8; 2]))
    ensures
        methods@.contains(wanted_method(require_auth)) ==> r.0 == Some(
            wanted_method(require_auth),
        ) && r.1@ == seq![5u8, wanted_method(require_auth)],
        !methods@.contains(wanted_method(require_auth)) ==> r.0 is None && r.1@ == seq![
            5u8,
            METHOD_NO_ACCEPTABLE,
        ],
{
    let want: u8 = if require_auth {
        METHOD_USERPASS
    } else {
        METHOD_NO_AUTH
    };
    let mut i: usize = 0;
    while i < methods.len()
        invariant
            i <= methods@.len(),
            want == wanted_method(require_auth),
            forall|j: int| 0 <= j < i ==> methods@[j] != want,
        decreases methods@.len() - i,
    {
        if methods[i] == want {
            assert(methods@.contains(want));
            let reply: [u8; 2] = [5, want];
            assert(reply@ =~= seq![5u8, want]);
            return (Some(want), reply);
        }
        i = i + 1;
    }
    let reply: [u8; 2] = [5, METHOD_NO_ACCEPTABLE];
    assert(reply@ =~= seq![5u8, METHOD_NO_ACCEPTABLE]);
    (None, reply)
}

/// The error of a client that offers no method that this end accepts.
pub fn no_acceptable_method() -> (e: Error)
    ensures
        e@ == ErrorView::InvalidData("no acceptable auth method"@),
{
    Error::InvalidData("no acceptable auth method")
}

/// The length of the username that follows the first two bytes of a login.
pub fn check_userpass_head(head: &[u8; 2]) -> (r: Result<usize>)
    ensures
        head@[0] != 1 ==> (r matches Err(e) && e@ == ErrorView::InvalidData(
            "bad userpass version"@,
        )),
        head@[0] == 1 && head@[1] == 0 ==> (r matches Err(e) && e@ == ErrorView::InvalidData(
            "bad username length"@,
        )),
        head@[0] == 1 && head@[1] != 0 ==> (r matches Ok(n) && n == head@[1]),
{
    if head[0] != 1 {
        return Err(Error::InvalidData("bad userpass version"));
    }
    let n: usize = head[1] as usize;
    if n == 0 {
        return Err(Error::InvalidData("bad username length"));
    }
    Ok(n)
}

/// Judges a login; gives the verdict and the answer to send.
pub fn verify_userpass(
    user: &[u8],
    pass: &[u8],
    expected_user: &str,
    expected_pass: &str,
) -> (r: (bool, [u8; 2]))
    ensures
        r.0 == (user@ == encode_utf8(expected_user@) && pass@ == encode_utf8(expected_pass@)),
        r.1@ == seq![1u8, if r.0 { 0u8 } else { 1u8 }],
{
    let same_user = message::ct_eq(user, expected_user.as_bytes());
    let ok = same_user && message::ct_eq(pass, expected_pass.as_bytes());
    let reply: [u8; 2] = [1, if ok { 0 } else { 1 }];
    assert(reply@ =~= seq![1u8, if ok { 0u8 } else { 1u8 }]);
    (ok, reply)
}

/// How far a conversation has come: what the next bytes from the client are.
pub enum Talk {
    Greeting,
    Methods { n: usize },
    LoginHead,
    User { n: usize },
    PassLen { user: Vec<u8> },
    Pass { user: Vec<u8>, n: usize },
    Request { have: Vec<u8> },
    Ended,
}

/// A `Talk` over views.
#[verifier::ext_equal]
pub enum TalkView {
    Greeting,
    Methods { n: usize },
    LoginHead,
    User { n: usize },
    PassLen { user: Seq<u8> },
    Pass { user: Seq<u8>, n: usize },
    Request { have: Seq<u8> },
    Ended,
}

impl View for Talk {
    type V = TalkView;

    open spec fn view(&self) -> TalkView {
        match self {
            Talk::Greeting => TalkView::Greeting,
            Talk::Methods { n } => TalkView::Methods { n: *n },
            Talk::LoginHead => TalkView::LoginHead,
            Talk::User { n } => TalkView::User { n: *n },
            Talk::PassLen { user } => TalkView::PassLen { user: user@ },
            Talk::Pass { user, n } => TalkView::Pass { user: user@, n: *n },
            Talk::Request { have } => TalkView::Request { have: have@ },
            Talk::Ended => TalkView::Ended,
        }
    }
}

/// What the bytes from a client lead to.
#[derive(Debug)]
pub enum Turn {
    /// More is to be read.
    More,
    /// An answer is to be sent, and more to be read.
    Reply(Vec<u8>),
    /// An answer is to be sent, and the conversation is over.
    Refuse { reply: Vec<u8>, error: Error },
    /// The conversation is over.
    Fail(Error),
    /// The client may ask for something, and asks for this.
    Granted(Request),
}

/// A `Turn` over views.
#[verifier::ext_equal]
pub enum TurnView {
    More,
    Reply(Seq<u8>),
    Refuse { reply: Seq<u8>, error: ErrorView },
    Fail(ErrorView),
    Granted { cmd: u8, address: AddressView },
}

impl View for Turn {
    type V = TurnView;

    open spec fn view(&self) -> TurnView {
        match self {
            Turn::More => TurnView::More,
            Turn::Reply(v) => TurnView::Reply(v@),
            Turn::Refuse { reply, error } => TurnView::Refuse { reply: reply@, error: error@ },
            Turn::Fail(e) => TurnView::Fail(e@),
            Turn::Granted(rq) => TurnView::Granted { cmd: rq.cmd, address: rq.address@ },
        }
    }
}

impl TalkView {
    /// The number of bytes that are to be read next.
    pub open spec fn wants(self) -> int {
        match self {
            TalkView::Greeting => 2,
            TalkView::Methods { n } => n as int,
            TalkView::LoginHead => 2,
            TalkView::User { n } => n as int,
            TalkView::PassLen { .. } => 1,
            TalkView::Pass { n, .. } => n as int,
            TalkView::Request { have } => match request_step(have) {
                Ok(Some(n)) => n,
                _ => 0,
            },
            TalkView::Ended => 0,
        }
    }

    /// How far the conversation is after the bytes `b`, and what they lead to. The login, if
    /// there is one, is required.
    pub open spec fn step(self, login: Option<(Seq<u8>, Seq<u8>)>, b: Seq<u8>) -> (
        TalkView,
        TurnView,
    ) {
        if b.len() != self.wants() {
            (TalkView::Ended, TurnView::Fail(ErrorView::UnexpectedEof))
        } else {
            match self {
                TalkView::Greeting => if b[0] != 5 {
                    failed("bad socks version"@)
                } else if b[1] == 0 || b[1] > MAX_METHODS {
                    failed("bad nmethods"@)
                } else {
                    (TalkView::Methods { n: b[1] as usize }, TurnView::More)
                },
                TalkView::Methods { .. } => {
                    let want = wanted_method(login is Some);
                    if !b.contains(want) {
                        (
                            TalkView::Ended,
                            TurnView::Refuse {
                                reply: seq![5u8, METHOD_NO_ACCEPTABLE],
                                error: ErrorView::InvalidData("no acceptable auth method"@),
                            },
                        )
                    } else if login is Some {
                        (TalkView::LoginHead, TurnView::Reply(seq![5u8, want]))
                    } else {
                        (
                            TalkView::Request { have: Seq::empty() },
                            TurnView::Reply(seq![5u8, want]),
                        )
                    }
                },
                TalkView::LoginHead => if b[0] != 1 {
                    failed("bad userpass version"@)
                } else if b[1] == 0 {
                    failed("bad username length"@)
                } else {
                    (TalkView::User { n: b[1] as usize }, TurnView::More)
                },
                TalkView::User { .. } => (TalkView::PassLen { user: b }, TurnView::More),
                TalkView::PassLen { user } => (
                    TalkView::Pass { user, n: b[0] as usize },
                    TurnView::More,
                ),
                TalkView::Pass { user, .. } => if login == Some((user, b)) {
                    (TalkView::Request { have: Seq::empty() }, TurnView::Reply(seq![1u8, 0u8]))
                } else {
                    (
                        TalkView::Ended,
                        TurnView::Refuse { reply: seq![1u8, 1u8], error: ErrorView::AuthFailed },
                    )
                },
                TalkView::Request { have } => match request_step(have + b) {
                    Err(e) => (TalkView::Ended, TurnView::Fail(e)),
                    Ok(Some(_)) => (TalkView::Request { have: have + b }, TurnView::More),
                    Ok(None) => match parse_request(have + b) {
                        Ok((cmd, address)) => (
                            TalkView::Ended,
                            TurnView::Granted { cmd, address },
                        ),
                        Err(e) => (TalkView::Ended, TurnView::Fail(e)),
                    },
                },
                TalkView::Ended => (TalkView::Ended, TurnView::Fail(ErrorView::UnexpectedEof)),
            }
        }
    }

    /// How far the conversation is after all of `inputs`.
    pub open spec fn run(self, login: Option<(Seq<u8>, Seq<u8>)>, inputs: Seq<Seq<u8>>) -> TalkView
        decreases inputs.len(),
    {
        if inputs.len() == 0 {
            self
        } else {
            self.run(login, inputs.drop_last()).step(login, inputs.last()).0
        }
    }
}

/// The end of a conversation in which the client made a mistake.
pub open spec fn failed(reason: Seq<char>) -> (TalkView, TurnView) {
    (TalkView::Ended, TurnView::Fail(ErrorView::InvalidData(reason)))
}

/// Whether the login came by somewhere in a conversation: the right password, right after the
/// right username.
pub open spec fn logged_in(login: (Seq<u8>, Seq<u8>), inputs: Seq<Seq<u8>>) -> bool {
    exists|i: int|
        0 <= i < inputs.len() && #[trigger] inputs[i] == login.1 && (TalkView::Greeting.run(
            Some(login),
            inputs.take(i),
        ) matches TalkView::Pass { user, .. } && user == login.0)
}

/// Where a login is required, no request is taken in before the client has sent it, whatever
/// it sends.
pub proof fn law_no_request_before_login(
    login: (Seq<u8>, Seq<u8>),
    inputs: Seq<Seq<u8>>,
    b: Seq<u8>,
)
    requires
        !logged_in(login, inputs),
    ensures
        !(TalkView::Greeting.run(Some(login), inputs) is Request),
        !(TalkView::Greeting.run(Some(login), inputs).step(Some(login), b).1 is Granted),
    decreases inputs.len(),
{
    if inputs.len() > 0 {
        let front = inputs.drop_last();
        if logged_in(login, front) {
            let i = choose|i: int|
                0 <= i < front.len() && #[trigger] front[i] == login.1 && (TalkView::Greeting.run(
                    Some(login),
                    front.take(i),
                ) matches TalkView::Pass { user, .. } && user == login.0);
            assert(inputs[i] == front[i]);
            assert(inputs.take(i) =~= front.take(i));
        }
        law_no_request_before_login(login, front, inputs.last());
        let k = inputs.len() - 1;
        assert(inputs.take(k) =~= front);
        assert(inputs[k] == inputs.last());
    }
}

/// A client that offers the required method and sends the right login gets to make its
/// request; one without a login, where none is required, at once.
pub proof fn law_right_login_admits(user: Seq<u8>, pass: Seq<u8>)
    requires
        0 < user.len() <= 255,
        pass.len() <= 255,
    ensures
        TalkView::Greeting.run(
            Some((user, pass)),
            seq![
                seq![5u8, 1u8],
                seq![METHOD_USERPASS],
                seq![1u8, user.len() as u8],
                user,
                seq![pass.len() as u8],
                pass,
            ],
        ) == (TalkView::Request { have: Seq::empty() }),
        TalkView::Greeting.run(None, seq![seq![5u8, 1u8], seq![METHOD_NO_AUTH]])
            == (TalkView::Request { have: Seq::empty() }),
{
    let login = Some((user, pass));
    let start = TalkView::Greeting;
    let i1 = seq![seq![5u8, 1u8]];
    let i2 = i1.push(seq![METHOD_USERPASS]);
    let i3 = i2.push(seq![1u8, user.len() as u8]);
    let i4 = i3.push(user);
    let i5 = i4.push(seq![pass.len() as u8]);
    let i6 = i5.push(pass);
    reveal_with_fuel(TalkView::run, 2);
    assert(i1.drop_last() =~= Seq::empty());
    assert(start.run(login, i1) == (TalkView::Methods { n: 1 }));
    assert(i2.drop_last() =~= i1);
    assert(seq![METHOD_USERPASS].contains(METHOD_USERPASS)) by {
        assert(seq![METHOD_USERPASS][0] == METHOD_USERPASS);
    }
    assert(start.run(login, i2) == TalkView::LoginHead);
    assert(i3.drop_last() =~= i2);
    assert(start.run(login, i3) == (TalkView::User { n: user.len() as usize }));
    assert(i4.drop_last() =~= i3);
    assert(start.run(login, i4) == (TalkView::PassLen { user }));
    assert(i5.drop_last() =~= i4);
    assert(start.run(login, i5) == (TalkView::Pass { user, n: pass.len() as usize }));
    assert(i6.drop_last() =~= i5);
    assert(i6 =~= seq![
        seq![5u8, 1u8],
        seq![METHOD_USERPASS],
        seq![1u8, user.len() as u8],
        user,
        seq![pass.len() as u8],
        pass,
    ]);
    let n2 = i1.push(seq![METHOD_NO_AUTH]);
    assert(start.run(None, i1) == (TalkView::Methods { n: 1 }));
    assert(n2.drop_last() =~= i1);
    assert(seq![METHOD_NO_AUTH].contains(METHOD_NO_AUTH)) by {
        assert(seq![METHOD_NO_AUTH][0] == METHOD_NO_AUTH);
    }
    assert(n2 =~= seq![seq![5u8, 1u8], seq![METHOD_NO_AUTH]]);
}

/// What bytes lead to is seen as it is, and a required login as the bytes that are sent for it.
pub proof fn law_turns_are_seen_as_they_are(t: Turn, login: Option<(String, String)>)
    ensures
        match t {
            Turn::More => t@ == TurnView::More,
            Turn::Reply(v) => t@ == TurnView::Reply(v@),
            Turn::Refuse { reply, error } => t@ == (TurnView::Refuse {
                reply: reply@,
                error: error@,
            }),
            Turn::Fail(e) => t@ == TurnView::Fail(e@),
            Turn::Granted(rq) => t@ == (TurnView::Granted {
                cmd: rq.cmd,
                address: rq.address@,
            }),
        },
        login matches Some((user, pass)) ==> login_bytes(login) == Some(
            (encode_utf8(user@), encode_utf8(pass@)),
        ),
        login is None ==> login_bytes(login) is None,
{
}

/// What is granted is what the client asked for: the command and the address of the request that
/// the conversation has read, from its first byte to its last.
pub proof fn law_granted_is_what_was_asked(
    talk: TalkView,
    login: Option<(Seq<u8>, Seq<u8>)>,
    b: Seq<u8>,
)
    ensures
        talk.step(login, b).1 matches TurnView::Granted { cmd, address } ==> (
        talk matches TalkView::Request { have } && parse_request(have + b) == Ok::<
            (u8, AddressView),
            ErrorView,
        >((cmd, address)) && cmd == (have + b)[1]),
        talk.step(login, b).1 is Granted || talk.step(login, b).1 is Fail || talk.step(
            login,
            b,
        ).1 is Refuse <==> talk.step(login, b).0 is Ended,
{
}

/// A client that may ask gets what it asks for. A request for any command with any address, fed
/// in the portions that the conversation wants, is granted at its end with that command and that
/// address, and nothing is said before.
pub proof fn law_request_is_granted(
    login: Option<(Seq<u8>, Seq<u8>)>,
    cmd: u8,
    a: AddressView,
)
    requires
        match a {
            AddressView::Ip(o, _) => o.len() == 4 || o.len() == 16,
            AddressView::Domain(d, _) => encode_utf8(d).len() <= 255,
        },
    ensures
        ({
            let b = request_bytes(cmd, a);
            let s0 = TalkView::Request { have: Seq::empty() };
            let (s1, t1) = s0.step(login, b.take(4));
            let (s2, t2) = s1.step(login, b.subrange(4, 5));
            &&& s0.wants() == 4
            &&& t1 == TurnView::More
            &&& a is Ip ==> s1.wants() == b.len() - 4 && s1.step(login, b.skip(4)) == (
                TalkView::Ended,
                TurnView::Granted { cmd, address: a },
            )
            &&& a is Domain ==> s1.wants() == 1 && t2 == TurnView::More && s2.wants() == b.len()
                - 5 && s2.step(login, b.skip(5)) == (
                TalkView::Ended,
                TurnView::Granted { cmd, address: a },
            )
        }),
{
    let b = request_bytes(cmd, a);
    law_request_read(cmd, a);
    bytes::lemma_be_bytes_len(a.port() as nat, 2);
    assert(Seq::<u8>::empty() + b.take(4) =~= b.take(4));
    assert(b.take(4) + b.skip(4) =~= b);
    assert(b.take(4) + b.subrange(4, 5) =~= b.take(5));
    assert(b.take(5) + b.skip(5) =~= b);
}

/// The greeting of a client: version five and one to thirty-two methods, which are then read;
/// anything else ends the conversation with the reason.
pub proof fn law_greeting(login: Option<(Seq<u8>, Seq<u8>)>, version: u8, n: u8)
    ensures
        ({
            let r = TalkView::Greeting.step(login, seq![version, n]);
            &&& version == 5 && 1 <= n <= 32 ==> r.1 == TurnView::More && (
            r.0 matches TalkView::Methods { n: m } && m == n) && r.0.wants() == n
            &&& version != 5 ==> r == (
                TalkView::Ended,
                TurnView::Fail(ErrorView::InvalidData("bad socks version"@)),
            )
            &&& version == 5 && !(1 <= n <= 32) ==> r == (
                TalkView::Ended,
                TurnView::Fail(ErrorView::InvalidData("bad nmethods"@)),
            )
        }),
        TalkView::Greeting.wants() == 2,
{
}

/// The choice of a method: whatever else a client offers, method two is chosen where a login is
/// required and method zero where none is, and it is told so; one that does not offer it is told
/// 255 and turned away. Then the login is read, or else the request.
pub proof fn law_method_is_chosen(login: Option<(Seq<u8>, Seq<u8>)>, methods: Seq<u8>, n: usize)
    requires
        methods.len() == n,
    ensures
        ({
            let r = TalkView::Methods { n }.step(login, methods);
            let want: u8 = if login is Some {
                2
            } else {
                0
            };
            &&& methods.contains(want) ==> r.1 == TurnView::Reply(seq![5u8, want])
            &&& methods.contains(want) && login is Some ==> r.0 == TalkView::LoginHead
            &&& methods.contains(want) && login is None ==> r.0 == (TalkView::Request {
                have: Seq::empty(),
            })
            &&& !methods.contains(want) ==> r == (
                TalkView::Ended,
                TurnView::Refuse {
                    reply: seq![5u8, 255u8],
                    error: ErrorView::InvalidData("no acceptable auth method"@),
                },
            )
        }),
{
}

/// The login of a client: whatever it sends as username and password, it is admitted exactly if
/// both are the required ones, byte for byte. It is told zero then, and else one, and is turned
/// away.
pub proof fn law_login_decides(required: (Seq<u8>, Seq<u8>), user: Seq<u8>, pass: Seq<u8>)
    requires
        0 < user.len() <= 255,
        pass.len() <= 255,
    ensures
        ({
            let login = Some(required);
            let s1 = TalkView::LoginHead.step(login, seq![1u8, user.len() as u8]);
            let s2 = s1.0.step(login, user);
            let s3 = s2.0.step(login, seq![pass.len() as u8]);
            let s4 = s3.0.step(login, pass);
            &&& s1.1 == TurnView::More && s2.1 == TurnView::More && s3.1 == TurnView::More
            &&& TalkView::LoginHead.wants() == 2 && s1.0.wants() == user.len() && s2.0.wants() == 1
                && s3.0.wants() == pass.len()
            &&& user == required.0 && pass == required.1 ==> s4 == (
                TalkView::Request { have: Seq::empty() },
                TurnView::Reply(seq![1u8, 0u8]),
            )
            &&& !(user == required.0 && pass == required.1) ==> s4 == (
                TalkView::Ended,
                TurnView::Refuse { reply: seq![1u8, 1u8], error: ErrorView::AuthFailed },
            )
        }),
{
}

/// A login of another version, or without a username, ends the conversation with the reason;
/// bytes of another number than are wanted end it too, and once it is over it stays over.
pub proof fn law_mistakes_end_conversation(
    talk: TalkView,
    login: Option<(Seq<u8>, Seq<u8>)>,
    b: Seq<u8>,
    version: u8,
    n: u8,
)
    ensures
        version != 1 ==> TalkView::LoginHead.step(login, seq![version, n]) == (
            TalkView::Ended,
            TurnView::Fail(ErrorView::InvalidData("bad userpass version"@)),
        ),
        version == 1 && n == 0 ==> TalkView::LoginHead.step(login, seq![version, n]) == (
            TalkView::Ended,
            TurnView::Fail(ErrorView::InvalidData("bad username length"@)),
        ),
        b.len() != talk.wants() ==> talk.step(login, b) == (
            TalkView::Ended,
            TurnView::Fail(ErrorView::UnexpectedEof),
        ),
        TalkView::Ended.step(login, b) == (
            TalkView::Ended,
            TurnView::Fail(ErrorView::UnexpectedEof),
        ),
        talk matches TalkView::Request { have } ==> (request_step(have + b) matches Err(e)
            ==> b.len() != talk.wants() || talk.step(login, b) == (
            TalkView::Ended,
            TurnView::Fail(e),
        )),
{
}

/// A conversation with one client, up to its request.
pub struct Conversation {
    login: Option<(String, String)>,
    talk: Talk,
}

impl View for Conversation {
    type V = TalkView;

    /// How far it has come.
    closed spec fn view(&self) -> TalkView {
        self.talk@
    }
}

/// A login as it is sent.
pub open spec fn login_bytes(login: Option<(String, String)>) -> Option<(Seq<u8>, Seq<u8>)> {
    match login {
        Some((user, pass)) => Some((encode_utf8(user@), encode_utf8(pass@))),
        None => None,
    }
}

impl Conversation {
    /// The login that is required, if one is.
    pub closed spec fn login(&self) -> Option<(Seq<u8>, Seq<u8>)> {
        login_bytes(self.login)
    }

    /// A conversation that has not begun yet. The login, if there is one, is required.
    pub fn new(login: Option<(String, String)>) -> (c: Self)
        ensures
            c@ == TalkView::Greeting,
            c.login() == login_bytes(login),
    {
        Conversation { login, talk: Talk::Greeting }
    }

    /// The number of bytes that are to be read next.
    pub fn wants(&self) -> (n: usize)
        ensures
            n == self@.wants(),
    {
        match &self.talk {
            Talk::Greeting => 2,
            Talk::Methods { n } => *n,
            Talk::LoginHead => 2,
            Talk::User { n } => *n,
            Talk::PassLen { .. } => 1,
            Talk::Pass { n, .. } => *n,
            Talk::Request { have } => match request_needs(have.as_slice()) {
                Ok(Some(n)) => n,
                _ => 0,
            },
            Talk::Ended => 0,
        }
    }

    /// Takes in the bytes that were read, and says what they lead to.
    pub fn on_bytes(&mut self, b: Vec<u8>) -> (t: Turn)
        ensures
            (final(self)@, t@) == old(self)@.step(old(self).login(), b@),
            final(self).login() == old(self).login(),
    {
        let right_len = b.len() == self.wants();
        let mut talk = Talk::Ended;
        core::mem::swap(&mut talk, &mut self.talk);
        if !right_len {
            return Turn::Fail(Error::UnexpectedEof);
        }
        match talk {
            Talk::Greeting => {
                let head: [u8; 2] = [b[0], b[1]];
                match check_greeting(&head) {
                    Ok(n) => {
                        self.talk = Talk::Methods { n };
                        Turn::More
                    },
                    Err(e) => Turn::Fail(e),
                }
            },
            Talk::Methods { .. } => {
                let (method, reply) = negotiate_method(b.as_slice(), self.login.is_some());
                let reply = bytes::copy_slice(reply.as_slice());
                if method.is_none() {
                    return Turn::Refuse { reply, error: no_acceptable_method() };
                }
                self.talk = if self.login.is_some() {
                    Talk::LoginHead
                } else {
                    Talk::Request { have: Vec::new() }
                };
                Turn::Reply(reply)
            },
            Talk::LoginHead => {
                let head: [u8; 2] = [b[0], b[1]];
                match check_userpass_head(&head) {
                    Ok(n) => {
                        self.talk = Talk::User { n };
                        Turn::More
                    },
                    Err(e) => Turn::Fail(e),
                }
            },
            Talk::User { .. } => {
                self.talk = Talk::PassLen { user: b };
                Turn::More
            },
            Talk::PassLen { user } => {
                self.talk = Talk::Pass { user, n: b[0] as usize };
                Turn::More
            },
            Talk::Pass { user, .. } => {
                let (ok, reply) = match &self.login {
                    Some((name, pass)) => verify_userpass(
                        user.as_slice(),
                        b.as_slice(),
                        name.as_str(),
                        pass.as_str(),
                    ),
                    None => (false, [1, 1]),
                };
                let reply = bytes::copy_slice(reply.as_slice());
                assert(reply@ =~= seq![1u8, if ok { 0u8 } else { 1u8 }]);
                if ok {
                    self.talk = Talk::Request { have: Vec::new() };
                    Turn::Reply(reply)
                } else {
                    Turn::Refuse { reply, error: Error::AuthFailed }
                }
            },
            Talk::Request { have } => {
                let mut have = have;
                bytes::put_slice(&mut have, b.as_slice());
                match request_needs(have.as_slice()) {
                    Err(e) => Turn::Fail(e),
                    Ok(Some(_)) => {
                        self.talk = Talk::Request { have };
                        Turn::More
                    },
                    Ok(None) => match read_request(have.as_slice()) {
                        Ok(rq) => Turn::Granted(rq),
                        Err(e) => Turn::Fail(e),
                    },
                }
            },
            Talk::Ended => Turn::Fail(Error::UnexpectedEof),
        }
    }
}

/// The reply to a request, with an empty bound address.
pub fn reply(code: u8) -> (r: [u8; 10])
    ensures
        r@ == seq![5u8, code, 0u8, 1u8, 0u8, 0u8, 0u8, 0u8, 0u8, 0u8],
{
    let r: [u8; 10] = [5, code, 0, 1, 0, 0, 0, 0, 0, 0];
    assert(r@ =~= seq![5u8, code, 0u8, 1u8, 0u8, 0u8, 0u8, 0u8, 0u8, 0u8]);
    r
}

/// What a command means.
#[derive(Debug, Clone, Copy, PartialEq, Eq)]
pub enum Command {
    Connect,
    UdpAssociate,
}

/// The meaning of a command; an unknown one has to be answered with `REPLY_UNSUPPORTED`.
pub fn command(cmd: u8) -> (r: Result<Command>)
    ensures
        cmd == 1 <==> r matches Ok(Command::Connect),
        cmd == 3 <==> r matches Ok(Command::UdpAssociate),
        cmd == CMD_CONNECT ==> r matches Ok(Command::Connect),
        cmd == CMD_UDP_ASSOCIATE ==> r matches Ok(Command::UdpAssociate),
        cmd != CMD_CONNECT && cmd != CMD_UDP_ASSOCIATE ==> (r matches Err(e) && e@
            == ErrorView::InvalidData("unsupported command"@)),
{
    if cmd == CMD_CONNECT {
        Ok(Command::Connect)
    } else if cmd == CMD_UDP_ASSOCIATE {
        Ok(Command::UdpAssociate)
    } else {
        Err(Error::InvalidData("unsupported command"))
    }
}

/// Whether an address can be reached from its own machine only.
pub open spec fn is_loopback_spec(o: Seq<u8>) -> bool {
    if o.len() == 4 {
        o[0] == 127
    } else {
        o == seq![0u8, 0u8, 0u8, 0u8, 0u8, 0u8, 0u8, 0u8, 0u8, 0u8, 0u8, 0u8, 0u8, 0u8, 0u8, 1u8]
    }
}

/// An address is its own machine's exactly if it starts with 127, or is the IPv6 address one.
pub proof fn law_loopback(o: Seq<u8>)
    ensures
        o.len() == 4 ==> (is_loopback_spec(o) <==> o[0] == 127),
        o.len() == 16 ==> (is_loopback_spec(o) <==> o[15] == 1 && forall|i: int|
            0 <= i < 15 ==> o[i] == 0),
{
    if o.len() == 16 {
        let one = seq![
            0u8, 0u8, 0u8, 0u8, 0u8, 0u8, 0u8, 0u8, 0u8, 0u8, 0u8, 0u8, 0u8, 0u8, 0u8, 1u8,
        ];
        if o[15] == 1 && forall|i: int| 0 <= i < 15 ==> o[i] == 0 {
            assert(o =~= one);
        }
        assert forall|i: int| 0 <= i < 15 implies one[i] == 0 by {}
    }
}

/// Whether an entry on this address without a login is open to the whole network, which
/// deserves a warning.
pub fn is_open_proxy(bind: &IpAddr, login_required: bool) -> (r: bool)
    ensures
        r == (!login_required && !is_loopback_spec(bind@)),
{
    if login_required {
        return false;
    }
    match bind {
        IpAddr::V4(o) => o[0] != 127,
        IpAddr::V6(_) => {
            let one: [u8; 16] = [0, 0, 0, 0, 0, 0, 0, 0, 0, 0, 0, 0, 0, 0, 0, 1];
            assert(one@ =~= seq![
                0u8, 0u8, 0u8, 0u8, 0u8, 0u8, 0u8, 0u8, 0u8, 0u8, 0u8, 0u8, 0u8, 0u8, 0u8, 1u8,
            ]);
            !ip::same_ip(bind, &IpAddr::V6(one))
        },
    }
}

} // verus!
