//! The messages of the protocol: authentication, opening of streams, and UDP packets.

use std::collections::VecDeque;

use vstd::prelude::*;
use vstd::string::*;
use vstd::utf8::*;

use crate::address;
use crate::address::{Address, AddressView};
use crate::bytes;
use crate::error::{Error, ErrorView, Result};
use crate::outside;
use crate::varint;
use crate::wire;

verus! {

pub const PROTOCOL_VERSION: u64 = 0x01;

pub const STATUS_OK: u8 = 0x00;

pub const STATUS_ERR: u8 = 0x01;

pub const FEATURE_UDP: u8 = 0x01;

pub const ERR_NONE: u8 = 0x00;

pub const ERR_BAD_CREDENTIALS: u8 = 0x01;

pub const ERR_RATE_LIMITED: u8 = 0x02;

pub const ERR_CONNECT_FAILED: u8 = 0x03;

pub const ERR_UNSUPPORTED: u8 = 0x04;

pub const ERR_PROTOCOL: u8 = 0x05;

pub const ERR_INTERNAL: u8 = 0x06;

/// The length of the random nonce that a client puts into its `AuthRequest`.
pub const NONCE_LEN: usize = 16;

/// The length of the integrity tag of an obfuscated message.
pub const TAG_LEN: usize = 16;

/// Frames that wait to be sent, each already encoded.
pub type FrameQueue = VecDeque<Vec<u8>>;

/// The proof that somebody knows `password`, bound to `nonce`.
pub open spec fn auth_proof_spec(password: Seq<u8>, nonce: Seq<u8>) -> Seq<u8> {
    outside::blake3_keyed_hash(
        outside::blake3_derive_key("hydr v1 auth proof"@, password),
        nonce,
    )
}

/// Computes the proof that somebody knows `password`, bound to `nonce`. The password itself
/// never leaves the machine.
pub fn compute_auth_proof(password: &[u8], nonce: &[u8]) -> (proof_bytes: Vec<u8>)
    ensures
        proof_bytes@ == auth_proof_spec(password@, nonce@),
        proof_bytes@.len() == 32,
{
    let key: [u8; 32] = outside::derive_key("hydr v1 auth proof", password);
    let h: [u8; 32] = outside::keyed_hash(&key, nonce);
    bytes::copy_slice(h.as_slice())
}

/// Compares without stopping at the first difference, so that the time it takes tells
/// nothing about where the two differ.
pub fn ct_eq(a: &[u8], b: &[u8]) -> (r: bool)
    ensures
        r == (a@ == b@),
{
    if a.len() != b.len() {
        return false;
    }
    let mut diff: u8 = 0;
    let mut i: usize = 0;
    assert(a@.take(0) =~= b@.take(0));
    while i < a.len()
        invariant
            i <= a@.len() == b@.len(),
            diff == 0 <==> a@.take(i as int) == b@.take(i as int),
        decreases a@.len() - i,
    {
        let x: u8 = a[i];
        let y: u8 = b[i];
        proof {
            assert((diff | (x ^ y)) == 0 <==> diff == 0 && x == y) by (bit_vector);
            let ta = a@.take(i as int + 1);
            let tb = b@.take(i as int + 1);
            assert(ta =~= a@.take(i as int).push(x));
            assert(tb =~= b@.take(i as int).push(y));
            if ta == tb {
                assert(ta.drop_last() =~= a@.take(i as int));
                assert(tb.drop_last() =~= b@.take(i as int));
                assert(ta.last() == x && tb.last() == y);
            }
        }
        diff = diff | (x ^ y);
        i = i + 1;
    }
    assert(a@.take(i as int) =~= a@);
    assert(b@.take(i as int) =~= b@);
    diff == 0
}

/// Whether some call of a source of type `F` gives `b`.
pub open spec fn can_give<F: FnMut() -> u8>(b: u8) -> bool {
    exists|f: F| #[trigger] call_ensures(f, (), b)
}

/// As many bytes as asked for from `rng`, one call for each. The first is what `rng` gives as it
/// was handed in, and every other is something that a source of its type can give; that the
/// calls follow each other, each on what the one before has left, is not stated.
pub fn random_padding<F: FnMut() -> u8>(rng: &mut F, len: usize) -> (v: Vec<u8>)
    requires
        forall|f: F| #[trigger] call_requires(f, ()),
    ensures
        v@.len() == len,
        len > 0 ==> call_ensures(*old(rng), (), v@[0]),
        forall|i: int| 0 <= i < len ==> can_give::<F>(#[trigger] v@[i]),
{
    let mut v: Vec<u8> = Vec::new();
    let mut i: usize = 0;
    while i < len
        invariant
            i <= len,
            v@.len() == i,
            forall|f: F| #[trigger] call_requires(f, ()),
            i == 0 ==> *rng == *old(rng),
            i > 0 ==> call_ensures(*old(rng), (), v@[0]),
            forall|j: int| 0 <= j < i ==> can_give::<F>(#[trigger] v@[j]),
        decreases len - i,
    {
        let ghost source = *rng;
        let b: u8 = rng();
        assert(call_ensures(source, (), b));
        v.push(b);
        i = i + 1;
    }
    v
}

/// Reads fields from the front of a buffer, one after the other.
pub struct Reader<'a> {
    buf: &'a [u8],
    pos: usize,
}

impl<'a> View for Reader<'a> {
    type V = Seq<u8>;

    /// The bytes not read yet.
    closed spec fn view(&self) -> Seq<u8> {
        self.buf@.skip(self.pos as int)
    }
}

impl<'a> Reader<'a> {
    #[verifier::type_invariant]
    spec fn in_bounds(self) -> bool {
        self.pos <= self.buf@.len()
    }

    /// The whole buffer.
    pub closed spec fn input(&self) -> Seq<u8> {
        self.buf@
    }

    /// The number of bytes read so far.
    pub closed spec fn position(&self) -> nat {
        self.pos as nat
    }

    /// A reader that has read nothing yet.
    pub fn new(buf: &'a [u8]) -> (r: Self)
        ensures
            r@ == buf@,
            r.input() == buf@,
            r.position() == 0,
    {
        assert(buf@.skip(0) =~= buf@);
        Reader { buf, pos: 0 }
    }

    /// Reads one byte.
    pub fn u8(&mut self) -> (r: Result<u8>)
        ensures
            final(self).input() == old(self).input(),
            final(self).position() + final(self)@.len() == old(self).position() + old(self)@.len(),
            match wire::take_u8(old(self)@) {
                Some((v, rest)) => r matches Ok(rv) && rv == v && final(self)@ == rest,
                None => r matches Err(Error::UnexpectedEof) && final(self)@ == old(self)@,
            },
    {
        proof {
            use_type_invariant(&*self);
        }
        if self.pos >= self.buf.len() {
            return Err(Error::UnexpectedEof);
        }
        let b: u8 = self.buf[self.pos];
        assert(self.buf@.skip(self.pos + 1) =~= self.buf@.skip(self.pos as int).skip(1));
        self.pos = self.pos + 1;
        Ok(b)
    }

    /// Reads one variable-length integer.
    pub fn varint(&mut self) -> (r: Result<u64>)
        ensures
            final(self).input() == old(self).input(),
            final(self).position() + final(self)@.len() == old(self).position() + old(self)@.len(),
            match wire::take_varint(old(self)@) {
                Some((v, rest)) => r matches Ok(rv) && rv == v && final(self)@ == rest,
                None => r matches Err(Error::UnexpectedEof) && final(self)@ == old(self)@,
            },
    {
        proof {
            use_type_invariant(&*self);
        }
        let total: usize = self.buf.len();
        let pos: usize = self.pos;
        assert(self.buf@.subrange(pos as int, total as int) =~= self.buf@.skip(pos as int));
        let buf = self.buf;
        match varint::decode_varint(&buf[pos..total]) {
            Ok((v, used)) => {
                proof {
                    varint::law_parse_varint_bounds(self.buf@.skip(pos as int));
                    assert(self.buf@.skip(pos + used) =~= self.buf@.skip(pos as int).skip(
                        used as int,
                    ));
                }
                self.pos = pos + used;
                Ok(v)
            },
            Err(e) => Err(e),
        }
    }

    /// Reads length-prefixed bytes. If the length can be read but the bytes are not all
    /// there, the length has been read all the same.
    pub fn bytes(&mut self) -> (r: Result<Vec<u8>>)
        ensures
            final(self).input() == old(self).input(),
            final(self).position() + final(self)@.len() == old(self).position() + old(self)@.len(),
            match wire::take_bytes(old(self)@) {
                Some((v, rest)) => r matches Ok(rv) && rv@ == v && final(self)@ == rest,
                None => r matches Err(Error::UnexpectedEof) && final(self)@ == (
                match wire::take_varint(old(self)@) {
                    Some((_, rest)) => rest,
                    None => old(self)@,
                }),
            },
    {
        let len: u64 = match self.varint() {
            Ok(v) => v,
            Err(e) => return Err(e),
        };
        proof {
            use_type_invariant(&*self);
        }
        let pos: usize = self.pos;
        let buf = self.buf;
        if ((buf.len() - pos) as u64) < len {
            return Err(Error::UnexpectedEof);
        }
        let end: usize = pos + len as usize;
        let out = bytes::copy_slice(&buf[pos..end]);
        proof {
            let rest = self.buf@.skip(pos as int);
            assert(rest.take(len as int) =~= self.buf@.subrange(pos as int, end as int));
            assert(rest.skip(len as int) =~= self.buf@.skip(end as int));
        }
        self.pos = end;
        Ok(out)
    }

    /// The bytes not read yet.
    pub fn remaining(&self) -> (r: &'a [u8])
        ensures
            r@ == self@,
    {
        proof {
            use_type_invariant(self);
        }
        let total: usize = self.buf.len();
        assert(self.buf@.subrange(self.pos as int, total as int) =~= self.buf@.skip(
            self.pos as int,
        ));
        vstd::slice::slice_subrange(self.buf, self.pos, total)
    }

    /// The number of bytes read so far.
    pub fn consumed(&self) -> (n: usize)
        ensures
            n == self.position(),
            n + self@.len() == self.input().len(),
    {
        proof {
            use_type_invariant(self);
        }
        self.pos
    }
}

/// The first message on a tunnel: proves that the sender knows the password.
#[derive(Debug, PartialEq, Eq)]
pub struct AuthRequest {
    pub version: u64,
    pub auth_method: u8,
    pub client_nonce: Vec<u8>,
    pub auth_proof: Vec<u8>,
    pub cc_rx: u64,
    pub features: u8,
    pub padding: Vec<u8>,
}

/// An `AuthRequest` with its bytes as sequences.
#[verifier::ext_equal]
pub struct AuthRequestView {
    pub version: u64,
    pub auth_method: u8,
    pub client_nonce: Seq<u8>,
    pub auth_proof: Seq<u8>,
    pub cc_rx: u64,
    pub features: u8,
    pub padding: Seq<u8>,
}

impl View for AuthRequest {
    type V = AuthRequestView;

    open spec fn view(&self) -> AuthRequestView {
        AuthRequestView {
            version: self.version,
            auth_method: self.auth_method,
            client_nonce: self.client_nonce@,
            auth_proof: self.auth_proof@,
            cc_rx: self.cc_rx,
            features: self.features,
            padding: self.padding@,
        }
    }
}

impl AuthRequestView {
    /// Whether every number and length can be written.
    pub open spec fn fits(self) -> bool {
        &&& self.version < varint::varint_limit()
        &&& self.cc_rx < varint::varint_limit()
        &&& wire::can_prefix(self.client_nonce)
        &&& wire::can_prefix(self.auth_proof)
        &&& wire::can_prefix(self.padding)
    }
}

/// The encoding of an `AuthRequest`.
pub open spec fn auth_request_bytes(m: AuthRequestView) -> Seq<u8> {
    varint::varint_bytes(m.version) + seq![m.auth_method] + wire::prefixed(m.client_nonce)
        + wire::prefixed(m.auth_proof) + varint::varint_bytes(m.cc_rx) + seq![m.features]
        + wire::prefixed(m.padding)
}

/// The `AuthRequest` at the front of `b` and what follows it.
pub open spec fn parse_auth_request(b: Seq<u8>) -> Option<(AuthRequestView, Seq<u8>)> {
    match wire::take_varint(b) {
        Some((version, b1)) => match wire::take_u8(b1) {
            Some((auth_method, b2)) => match wire::take_bytes(b2) {
                Some((client_nonce, b3)) => match wire::take_bytes(b3) {
                    Some((auth_proof, b4)) => match wire::take_varint(b4) {
                        Some((cc_rx, b5)) => match wire::take_u8(b5) {
                            Some((features, b6)) => match wire::take_bytes(b6) {
                                Some((padding, rest)) => Some(
                                    (
                                        AuthRequestView {
                                            version,
                                            auth_method,
                                            client_nonce,
                                            auth_proof,
                                            cc_rx,
                                            features,
                                            padding,
                                        },
                                        rest,
                                    ),
                                ),
                                None => None,
                            },
                            None => None,
                        },
                        None => None,
                    },
                    None => None,
                },
                None => None,
            },
            None => None,
        },
        None => None,
    }
}

/// An `AuthRequest` that was written is read back, and what follows it is left alone.
pub proof fn law_auth_request_roundtrip(m: AuthRequestView, rest: Seq<u8>)
    requires
        m.fits(),
    ensures
        parse_auth_request(auth_request_bytes(m) + rest) == Some((m, rest)),
{
    let b6 = wire::prefixed(m.padding) + rest;
    let b5 = seq![m.features] + b6;
    let b4 = varint::varint_bytes(m.cc_rx) + b5;
    let b3 = wire::prefixed(m.auth_proof) + b4;
    let b2 = wire::prefixed(m.client_nonce) + b3;
    let b1 = seq![m.auth_method] + b2;
    assert(auth_request_bytes(m) + rest =~= varint::varint_bytes(m.version) + b1);
    wire::lemma_take_varint(m.version, b1);
    wire::lemma_take_u8(m.auth_method, b2);
    wire::lemma_take_bytes(m.client_nonce, b3);
    wire::lemma_take_bytes(m.auth_proof, b4);
    wire::lemma_take_varint(m.cc_rx, b5);
    wire::lemma_take_u8(m.features, b6);
    wire::lemma_take_bytes(m.padding, rest);
}

/// The request that a client makes from its password and a nonce.
pub open spec fn password_request(
    password: Seq<u8>,
    nonce: Seq<u8>,
    cc_rx: u64,
    features: u8,
) -> AuthRequestView {
    AuthRequestView {
        version: PROTOCOL_VERSION,
        auth_method: AuthRequest::AUTH_PASSWORD,
        client_nonce: nonce,
        auth_proof: auth_proof_spec(password, nonce),
        cc_rx,
        features,
        padding: Seq::empty(),
    }
}

/// Messages are seen with their fields as they are.
pub proof fn law_messages_are_seen_as_they_are(
    request: AuthRequest,
    response: AuthResponse,
    ack: OpenStreamAck,
    d: Datagram,
)
    ensures
        ({
            let v = request@;
            &&& v.version == request.version && v.auth_method == request.auth_method
            &&& v.client_nonce == request.client_nonce@ && v.auth_proof == request.auth_proof@
            &&& v.cc_rx == request.cc_rx && v.features == request.features
            &&& v.padding == request.padding@
        }),
        ({
            let v = response@;
            &&& v.status == response.status && v.error_code == response.error_code
            &&& v.message == response.message@ && v.server_cc_rx == response.server_cc_rx
            &&& v.server_features == response.server_features && v.padding == response.padding@
        }),
        ack@.status == ack.status && ack@.error_code == ack.error_code && ack@.message
            == ack.message@,
        ({
            let v = d@;
            &&& v.session_id == d.session_id && v.packet_id == d.packet_id
            &&& v.frag_id == d.frag_id && v.frag_count == d.frag_count
            &&& v.address == d.address@ && v.payload == d.payload@
        }),
{
}

/// The fields of an `AuthRequest` on the wire, in their order; numbers and lengths below the limit
/// of the encoding can be written.
pub proof fn law_auth_request_layout(m: AuthRequestView)
    ensures
        auth_request_bytes(m) == varint::varint_bytes(m.version) + seq![m.auth_method]
            + varint::varint_bytes(m.client_nonce.len() as u64) + m.client_nonce
            + varint::varint_bytes(m.auth_proof.len() as u64) + m.auth_proof
            + varint::varint_bytes(m.cc_rx) + seq![m.features] + varint::varint_bytes(
            m.padding.len() as u64,
        ) + m.padding,
        m.fits() <==> m.version < 0x4000_0000_0000_0000 && m.cc_rx < 0x4000_0000_0000_0000
            && m.client_nonce.len() < 0x4000_0000_0000_0000 && m.auth_proof.len()
            < 0x4000_0000_0000_0000 && m.padding.len() < 0x4000_0000_0000_0000,
{
    assert(auth_request_bytes(m) =~= varint::varint_bytes(m.version) + seq![m.auth_method]
        + varint::varint_bytes(m.client_nonce.len() as u64) + m.client_nonce
        + varint::varint_bytes(m.auth_proof.len() as u64) + m.auth_proof
        + varint::varint_bytes(m.cc_rx) + seq![m.features] + varint::varint_bytes(
        m.padding.len() as u64,
    ) + m.padding);
}

/// What is read as an `AuthRequest` does not depend on what follows it.
pub proof fn law_auth_request_read_by_itself(b: Seq<u8>, more: Seq<u8>)
    ensures
        parse_auth_request(b) matches Some((m, rest)) ==> parse_auth_request(b + more) == Some(
            (m, rest + more),
        ),
{
    wire::lemma_take_more(b, more);
    if let Some((_, b1)) = wire::take_varint(b) {
        wire::lemma_take_more(b1, more);
        if let Some((_, b2)) = wire::take_u8(b1) {
            wire::lemma_take_more(b2, more);
            if let Some((_, b3)) = wire::take_bytes(b2) {
                wire::lemma_take_more(b3, more);
                if let Some((_, b4)) = wire::take_bytes(b3) {
                    wire::lemma_take_more(b4, more);
                    if let Some((_, b5)) = wire::take_varint(b4) {
                        wire::lemma_take_more(b5, more);
                        if let Some((_, b6)) = wire::take_u8(b5) {
                            wire::lemma_take_more(b6, more);
                        }
                    }
                }
            }
        }
    }
}

proof fn lemma_cut_auth_request(b: Seq<u8>, m: AuthRequestView, k: int)
    requires
        parse_auth_request(b + Seq::<u8>::empty()) == Some((m, Seq::<u8>::empty())),
        0 <= k < b.len(),
    ensures
        parse_auth_request(b.take(k)) is None,
{
    assert(b + Seq::<u8>::empty() =~= b);
    assert(b.take(k) + b.skip(k) =~= b);
    law_auth_request_read_by_itself(b.take(k), b.skip(k));
    if let Some((_, rest)) = parse_auth_request(b.take(k)) {
        assert((rest + b.skip(k)).len() > 0);
    }
}

/// An `AuthRequest` of which the end is missing is not read.
pub proof fn law_cut_auth_request_not_read(m: AuthRequestView, k: int)
    requires
        m.fits(),
        0 <= k < auth_request_bytes(m).len(),
    ensures
        parse_auth_request(auth_request_bytes(m).take(k)) is None,
{
    law_auth_request_roundtrip(m, Seq::empty());
    lemma_cut_auth_request(auth_request_bytes(m), m, k);
}

/// A client's request carries the nonce and the proof for it, version one and method one, the rate
/// and the features that were given, and no padding. The proof is the nonce's hash under a key
/// derived from the password, so the request never carries the password.
pub proof fn law_password_request(password: Seq<u8>, nonce: Seq<u8>, cc_rx: u64, features: u8)
    ensures
        ({
            let m = password_request(password, nonce, cc_rx, features);
            &&& m.version == 1
            &&& m.auth_method == 1
            &&& m.client_nonce == nonce
            &&& m.auth_proof == outside::blake3_keyed_hash(
                outside::blake3_derive_key("hydr v1 auth proof"@, password),
                nonce,
            )
            &&& m.cc_rx == cc_rx
            &&& m.features == features
            &&& m.padding.len() == 0
        }),
{
}

impl Clone for AuthRequest {
    fn clone(&self) -> (r: AuthRequest)
        ensures
            r@ == self@,
    {
        AuthRequest {
            version: self.version,
            auth_method: self.auth_method,
            client_nonce: bytes::copy_vec(&self.client_nonce),
            auth_proof: bytes::copy_vec(&self.auth_proof),
            cc_rx: self.cc_rx,
            features: self.features,
            padding: bytes::copy_vec(&self.padding),
        }
    }
}

impl AuthRequest {
    pub const AUTH_PASSWORD: u8 = 0x01;

    /// A request that proves knowledge of `password` under the given nonce.
    pub fn with_nonce(password: &[u8], nonce: Vec<u8>, cc_rx: u64, features: u8) -> (r: Self)
        ensures
            r@ == password_request(password@, nonce@, cc_rx, features),
    {
        let auth_proof = compute_auth_proof(password, nonce.as_slice());
        AuthRequest {
            version: PROTOCOL_VERSION,
            auth_method: Self::AUTH_PASSWORD,
            client_nonce: nonce,
            auth_proof,
            cc_rx,
            features,
            padding: Vec::new(),
        }
    }

    /// A request that proves knowledge of `password` under a nonce drawn from the system's
    /// random source. Fails only where that has no bytes.
    pub fn new_password(password: &[u8], cc_rx: u64, features: u8) -> (r: Result<Self>)
        ensures
            exists|drawn: Option<Vec<u8>>| #[trigger]
                outside::may_draw(NONCE_LEN, drawn) && (match drawn {
                    Some(nonce) => r matches Ok(m) && m@ == password_request(
                        password@,
                        nonce@,
                        cc_rx,
                        features,
                    ),
                    None => r is Err,
                }),
            r matches Ok(m) ==> m.client_nonce@.len() == 16,
            r matches Ok(m) ==> m.client_nonce@.len() == NONCE_LEN && m@ == password_request(
                password@,
                m.client_nonce@,
                cc_rx,
                features,
            ),
            r matches Err(e) ==> e@ == ErrorView::Message("CSPRNG unavailable"@),
    {
        let drawn = outside::draw(NONCE_LEN);
        assert(outside::may_draw(NONCE_LEN, drawn));
        match drawn {
            Some(nonce) => Ok(Self::with_nonce(password, nonce, cc_rx, features)),
            None => Err(Error::Message("CSPRNG unavailable".to_owned())),
        }
    }

    /// Appends the encoding to `buf`.
    pub fn encode(&self, buf: &mut Vec<u8>)
        ensures
            final(buf)@ == old(buf)@ + auth_request_bytes(self@),
    {
        let ghost before = buf@;
        varint::encode_varint(buf, self.version);
        buf.push(self.auth_method);
        wire::put_prefixed(buf, self.client_nonce.as_slice());
        wire::put_prefixed(buf, self.auth_proof.as_slice());
        varint::encode_varint(buf, self.cc_rx);
        buf.push(self.features);
        wire::put_prefixed(buf, self.padding.as_slice());
        assert(buf@ =~= before + auth_request_bytes(self@));
    }

    /// Reads the message at the front of `buf`; gives it with the number of bytes it took.
    pub fn decode(buf: &[u8]) -> (r: Result<(AuthRequest, usize)>)
        ensures
            match parse_auth_request(buf@) {
                Some((m, rest)) => r matches Ok((rm, used)) && rm@ == m && used == buf@.len()
                    - rest.len(),
                None => r matches Err(Error::UnexpectedEof),
            },
    {
        let mut rd = Reader::new(buf);
        let version: u64 = match rd.varint() {
            Ok(v) => v,
            Err(e) => return Err(e),
        };
        let auth_method: u8 = match rd.u8() {
            Ok(v) => v,
            Err(e) => return Err(e),
        };
        let client_nonce = match rd.bytes() {
            Ok(v) => v,
            Err(e) => return Err(e),
        };
        let auth_proof = match rd.bytes() {
            Ok(v) => v,
            Err(e) => return Err(e),
        };
        let cc_rx: u64 = match rd.varint() {
            Ok(v) => v,
            Err(e) => return Err(e),
        };
        let features: u8 = match rd.u8() {
            Ok(v) => v,
            Err(e) => return Err(e),
        };
        let padding = match rd.bytes() {
            Ok(v) => v,
            Err(e) => return Err(e),
        };
        Ok(
            (
                AuthRequest {
                    version,
                    auth_method,
                    client_nonce,
                    auth_proof,
                    cc_rx,
                    features,
                    padding,
                },
                rd.consumed(),
            ),
        )
    }
}

/// The server's answer to an `AuthRequest`.
#[derive(Debug, PartialEq, Eq)]
pub struct AuthResponse {
    pub status: u8,
    pub error_code: u8,
    pub message: Vec<u8>,
    pub server_cc_rx: u64,
    pub server_features: u8,
    pub padding: Vec<u8>,
}

/// An `AuthResponse` with its bytes as sequences.
#[verifier::ext_equal]
pub struct AuthResponseView {
    pub status: u8,
    pub error_code: u8,
    pub message: Seq<u8>,
    pub server_cc_rx: u64,
    pub server_features: u8,
    pub padding: Seq<u8>,
}

impl View for AuthResponse {
    type V = AuthResponseView;

    open spec fn view(&self) -> AuthResponseView {
        AuthResponseView {
            status: self.status,
            error_code: self.error_code,
            message: self.message@,
            server_cc_rx: self.server_cc_rx,
            server_features: self.server_features,
            padding: self.padding@,
        }
    }
}

impl AuthResponseView {
    /// Whether every number and length can be written.
    pub open spec fn fits(self) -> bool {
        &&& self.server_cc_rx < varint::varint_limit()
        &&& wire::can_prefix(self.message)
        &&& wire::can_prefix(self.padding)
    }

    /// The answer that admits a client.
    pub open spec fn accepted(server_cc_rx: u64, server_features: u8) -> AuthResponseView {
        AuthResponseView {
            status: STATUS_OK,
            error_code: ERR_NONE,
            message: Seq::empty(),
            server_cc_rx,
            server_features,
            padding: Seq::empty(),
        }
    }

    /// The answer that turns a client away.
    pub open spec fn rejected(error_code: u8, msg: Seq<char>) -> AuthResponseView {
        AuthResponseView {
            status: STATUS_ERR,
            error_code,
            message: encode_utf8(msg),
            server_cc_rx: 0,
            server_features: 0,
            padding: Seq::empty(),
        }
    }
}

/// The encoding of an `AuthResponse`.
pub open spec fn auth_response_bytes(m: AuthResponseView) -> Seq<u8> {
    seq![m.status, m.error_code] + wire::prefixed(m.message) + varint::varint_bytes(
        m.server_cc_rx,
    ) + seq![m.server_features] + wire::prefixed(m.padding)
}

/// The `AuthResponse` at the front of `b` and what follows it.
pub open spec fn parse_auth_response(b: Seq<u8>) -> Option<(AuthResponseView, Seq<u8>)> {
    match wire::take_u8(b) {
        Some((status, b1)) => match wire::take_u8(b1) {
            Some((error_code, b2)) => match wire::take_bytes(b2) {
                Some((message, b3)) => match wire::take_varint(b3) {
                    Some((server_cc_rx, b4)) => match wire::take_u8(b4) {
                        Some((server_features, b5)) => match wire::take_bytes(b5) {
                            Some((padding, rest)) => Some(
                                (
                                    AuthResponseView {
                                        status,
                                        error_code,
                                        message,
                                        server_cc_rx,
                                        server_features,
                                        padding,
                                    },
                                    rest,
                                ),
                            ),
                            None => None,
                        },
                        None => None,
                    },
                    None => None,
                },
                None => None,
            },
            None => None,
        },
        None => None,
    }
}

/// An `AuthResponse` that was written is read back, and what follows it is left alone.
pub proof fn law_auth_response_roundtrip(m: AuthResponseView, rest: Seq<u8>)
    requires
        m.fits(),
    ensures
        parse_auth_response(auth_response_bytes(m) + rest) == Some((m, rest)),
{
    let b5 = wire::prefixed(m.padding) + rest;
    let b4 = seq![m.server_features] + b5;
    let b3 = varint::varint_bytes(m.server_cc_rx) + b4;
    let b2 = wire::prefixed(m.message) + b3;
    let b1 = seq![m.error_code] + b2;
    assert(auth_response_bytes(m) + rest =~= seq![m.status] + b1);
    wire::lemma_take_u8(m.status, b1);
    wire::lemma_take_u8(m.error_code, b2);
    wire::lemma_take_bytes(m.message, b3);
    wire::lemma_take_varint(m.server_cc_rx, b4);
    wire::lemma_take_u8(m.server_features, b5);
    wire::lemma_take_bytes(m.padding, rest);
}

/// The fields of an `AuthResponse` on the wire, in their order; numbers and lengths below the
/// limit of the encoding can be written.
pub proof fn law_auth_response_layout(m: AuthResponseView)
    ensures
        auth_response_bytes(m) == seq![m.status] + seq![m.error_code] + varint::varint_bytes(
            m.message.len() as u64,
        ) + m.message + varint::varint_bytes(m.server_cc_rx) + seq![m.server_features]
            + varint::varint_bytes(m.padding.len() as u64) + m.padding,
        m.fits() <==> m.server_cc_rx < 0x4000_0000_0000_0000 && m.message.len()
            < 0x4000_0000_0000_0000 && m.padding.len() < 0x4000_0000_0000_0000,
{
    assert(auth_response_bytes(m) =~= seq![m.status] + seq![m.error_code] + varint::varint_bytes(
        m.message.len() as u64,
    ) + m.message + varint::varint_bytes(m.server_cc_rx) + seq![m.server_features]
        + varint::varint_bytes(m.padding.len() as u64) + m.padding);
}

/// What is read as an `AuthResponse` does not depend on what follows it.
pub proof fn law_auth_response_read_by_itself(b: Seq<u8>, more: Seq<u8>)
    ensures
        parse_auth_response(b) matches Some((m, rest)) ==> parse_auth_response(b + more) == Some(
            (m, rest + more),
        ),
{
    wire::lemma_take_more(b, more);
    if let Some((_, b1)) = wire::take_u8(b) {
        wire::lemma_take_more(b1, more);
        if let Some((_, b2)) = wire::take_u8(b1) {
            wire::lemma_take_more(b2, more);
            if let Some((_, b3)) = wire::take_bytes(b2) {
                wire::lemma_take_more(b3, more);
                if let Some((_, b4)) = wire::take_varint(b3) {
                    wire::lemma_take_more(b4, more);
                    if let Some((_, b5)) = wire::take_u8(b4) {
                        wire::lemma_take_more(b5, more);
                    }
                }
            }
        }
    }
}

proof fn lemma_cut_auth_response(b: Seq<u8>, m: AuthResponseView, k: int)
    requires
        parse_auth_response(b + Seq::<u8>::empty()) == Some((m, Seq::<u8>::empty())),
        0 <= k < b.len(),
    ensures
        parse_auth_response(b.take(k)) is None,
{
    assert(b + Seq::<u8>::empty() =~= b);
    assert(b.take(k) + b.skip(k) =~= b);
    law_auth_response_read_by_itself(b.take(k), b.skip(k));
    if let Some((_, rest)) = parse_auth_response(b.take(k)) {
        assert((rest + b.skip(k)).len() > 0);
    }
}

/// An `AuthResponse` of which the end is missing is not read.
pub proof fn law_cut_auth_response_not_read(m: AuthResponseView, k: int)
    requires
        m.fits(),
        0 <= k < auth_response_bytes(m).len(),
    ensures
        parse_auth_response(auth_response_bytes(m).take(k)) is None,
{
    law_auth_response_roundtrip(m, Seq::empty());
    lemma_cut_auth_response(auth_response_bytes(m), m, k);
}

/// An answer that admits has status zero, no error and no message, and tells the server's rate and
/// features; one that turns away has status one, the code and the message given, and tells
/// neither. No answer is both.
pub proof fn law_answers(rate: u64, features: u8, code: u8, msg: Seq<char>)
    ensures
        ({
            let yes = AuthResponseView::accepted(rate, features);
            &&& yes.status == 0 && yes.error_code == 0 && yes.message.len() == 0
            &&& yes.server_cc_rx == rate && yes.server_features == features && yes.padding.len()
                == 0
        }),
        ({
            let no = AuthResponseView::rejected(code, msg);
            &&& no.status == 1 && no.error_code == code && no.message == encode_utf8(msg)
            &&& no.server_cc_rx == 0 && no.server_features == 0 && no.padding.len() == 0
        }),
{
}

impl Clone for AuthResponse {
    fn clone(&self) -> (r: AuthResponse)
        ensures
            r@ == self@,
    {
        AuthResponse {
            status: self.status,
            error_code: self.error_code,
            message: bytes::copy_vec(&self.message),
            server_cc_rx: self.server_cc_rx,
            server_features: self.server_features,
            padding: bytes::copy_vec(&self.padding),
        }
    }
}

impl AuthResponse {
    /// The answer that admits a client.
    pub fn ok(server_cc_rx: u64, server_features: u8) -> (r: Self)
        ensures
            r@ == AuthResponseView::accepted(server_cc_rx, server_features),
    {
        AuthResponse {
            status: STATUS_OK,
            error_code: ERR_NONE,
            message: Vec::new(),
            server_cc_rx,
            server_features,
            padding: Vec::new(),
        }
    }

    /// The answer that turns a client away for its credentials.
    pub fn error(msg: &str) -> (r: Self)
        ensures
            r@ == AuthResponseView::rejected(ERR_BAD_CREDENTIALS, msg@),
    {
        Self::error_with_code(ERR_BAD_CREDENTIALS, msg)
    }

    /// The answer that turns a client away for the given reason.
    pub fn error_with_code(error_code: u8, msg: &str) -> (r: Self)
        ensures
            r@ == AuthResponseView::rejected(error_code, msg@),
    {
        AuthResponse {
            status: STATUS_ERR,
            error_code,
            message: bytes::copy_slice(msg.as_bytes()),
            server_cc_rx: 0,
            server_features: 0,
            padding: Vec::new(),
        }
    }

    /// Appends the encoding to `buf`.
    pub fn encode(&self, buf: &mut Vec<u8>)
        ensures
            final(buf)@ == old(buf)@ + auth_response_bytes(self@),
    {
        let ghost before = buf@;
        buf.push(self.status);
        buf.push(self.error_code);
        wire::put_prefixed(buf, self.message.as_slice());
        varint::encode_varint(buf, self.server_cc_rx);
        buf.push(self.server_features);
        wire::put_prefixed(buf, self.padding.as_slice());
        assert(buf@ =~= before + auth_response_bytes(self@));
    }

    /// Reads the message at the front of `buf`; gives it with the number of bytes it took.
    pub fn decode(buf: &[u8]) -> (r: Result<(AuthResponse, usize)>)
        ensures
            match parse_auth_response(buf@) {
                Some((m, rest)) => r matches Ok((rm, used)) && rm@ == m && used == buf@.len()
                    - rest.len(),
                None => r matches Err(Error::UnexpectedEof),
            },
    {
        let mut rd = Reader::new(buf);
        let status: u8 = match rd.u8() {
            Ok(v) => v,
            Err(e) => return Err(e),
        };
        let error_code: u8 = match rd.u8() {
            Ok(v) => v,
            Err(e) => return Err(e),
        };
        let message = match rd.bytes() {
            Ok(v) => v,
            Err(e) => return Err(e),
        };
        let server_cc_rx: u64 = match rd.varint() {
            Ok(v) => v,
            Err(e) => return Err(e),
        };
        let server_features: u8 = match rd.u8() {
            Ok(v) => v,
            Err(e) => return Err(e),
        };
        let padding = match rd.bytes() {
            Ok(v) => v,
            Err(e) => return Err(e),
        };
        Ok(
            (
                AuthResponse {
                    status,
                    error_code,
                    message,
                    server_cc_rx,
                    server_features,
                    padding,
                },
                rd.consumed(),
            ),
        )
    }
}

/// Asks for a TCP connection to an address.
#[derive(Debug, PartialEq, Eq)]
pub struct OpenStream {
    pub address: Address,
}

impl Clone for OpenStream {
    fn clone(&self) -> (r: OpenStream)
        ensures
            r.address@ == self.address@,
    {
        OpenStream { address: self.address.clone() }
    }
}

impl OpenStream {
    /// Appends the encoding, which is that of the address, to `buf`.
    pub fn encode(&self, buf: &mut Vec<u8>)
        ensures
            final(buf)@ == old(buf)@ + address::address_bytes(self.address@),
    {
        self.address.encode(buf);
    }

    /// Reads the message at the front of `buf`; gives it with the number of bytes it took.
    pub fn decode(buf: &[u8]) -> (r: Result<(OpenStream, usize)>)
        ensures
            match address::parse_address(buf@) {
                Ok((a, rest)) => r matches Ok((rm, used)) && rm.address@ == a && used == buf@.len()
                    - rest.len(),
                Err(e) => r matches Err(re) && re@ == e,
            },
    {
        match Address::decode(buf) {
            Ok((address, used)) => Ok((OpenStream { address }, used)),
            Err(e) => Err(e),
        }
    }
}

/// The answer to an `OpenStream`.
#[derive(Debug, PartialEq, Eq)]
pub struct OpenStreamAck {
    pub status: u8,
    pub error_code: u8,
    pub message: Vec<u8>,
}

/// An `OpenStreamAck` with its bytes as a sequence.
#[verifier::ext_equal]
pub struct OpenStreamAckView {
    pub status: u8,
    pub error_code: u8,
    pub message: Seq<u8>,
}

impl View for OpenStreamAck {
    type V = OpenStreamAckView;

    open spec fn view(&self) -> OpenStreamAckView {
        OpenStreamAckView {
            status: self.status,
            error_code: self.error_code,
            message: self.message@,
        }
    }
}

/// The encoding of an `OpenStreamAck`.
pub open spec fn open_stream_ack_bytes(m: OpenStreamAckView) -> Seq<u8> {
    seq![m.status, m.error_code] + wire::prefixed(m.message)
}

/// The `OpenStreamAck` at the front of `b` and what follows it.
pub open spec fn parse_open_stream_ack(b: Seq<u8>) -> Option<(OpenStreamAckView, Seq<u8>)> {
    match wire::take_u8(b) {
        Some((status, b1)) => match wire::take_u8(b1) {
            Some((error_code, b2)) => match wire::take_bytes(b2) {
                Some((message, rest)) => Some(
                    (OpenStreamAckView { status, error_code, message }, rest),
                ),
                None => None,
            },
            None => None,
        },
        None => None,
    }
}

/// An `OpenStreamAck` that was written is read back, and what follows it is left alone.
pub proof fn law_open_stream_ack_roundtrip(m: OpenStreamAckView, rest: Seq<u8>)
    requires
        wire::can_prefix(m.message),
    ensures
        parse_open_stream_ack(open_stream_ack_bytes(m) + rest) == Some((m, rest)),
{
    let b2 = wire::prefixed(m.message) + rest;
    let b1 = seq![m.error_code] + b2;
    assert(open_stream_ack_bytes(m) + rest =~= seq![m.status] + b1);
    wire::lemma_take_u8(m.status, b1);
    wire::lemma_take_u8(m.error_code, b2);
    wire::lemma_take_bytes(m.message, rest);
}

/// The fields of an `OpenStreamAck` on the wire, in their order.
pub proof fn law_open_stream_ack_layout(m: OpenStreamAckView)
    ensures
        open_stream_ack_bytes(m) == seq![m.status] + seq![m.error_code] + varint::varint_bytes(
            m.message.len() as u64,
        ) + m.message,
{
    assert(open_stream_ack_bytes(m) =~= seq![m.status] + seq![m.error_code] + varint::varint_bytes(
        m.message.len() as u64,
    ) + m.message);
}

/// What is read as an `OpenStreamAck` does not depend on what follows it, and one of which the end
/// is missing is not read.
pub proof fn law_open_stream_ack_read_by_itself(
    b: Seq<u8>,
    more: Seq<u8>,
    m: OpenStreamAckView,
    k: int,
)
    ensures
        parse_open_stream_ack(b) matches Some((x, rest)) ==> parse_open_stream_ack(b + more)
            == Some((x, rest + more)),
        m.message.len() < 0x4000_0000_0000_0000 && 0 <= k < open_stream_ack_bytes(m).len()
            ==> parse_open_stream_ack(open_stream_ack_bytes(m).take(k)) is None,
{
    lemma_ack_more(b, more);
    if m.message.len() < 0x4000_0000_0000_0000 && 0 <= k < open_stream_ack_bytes(m).len() {
        let w = open_stream_ack_bytes(m);
        law_open_stream_ack_roundtrip(m, Seq::empty());
        assert(w + Seq::<u8>::empty() =~= w);
        assert(w.take(k) + w.skip(k) =~= w);
        lemma_ack_more(w.take(k), w.skip(k));
        if let Some((_, rest)) = parse_open_stream_ack(w.take(k)) {
            assert((rest + w.skip(k)).len() > 0);
        }
    }
}

proof fn lemma_ack_more(b: Seq<u8>, more: Seq<u8>)
    ensures
        parse_open_stream_ack(b) matches Some((x, rest)) ==> parse_open_stream_ack(b + more)
            == Some((x, rest + more)),
{
    wire::lemma_take_more(b, more);
    if let Some((_, b1)) = wire::take_u8(b) {
        wire::lemma_take_more(b1, more);
        if let Some((_, b2)) = wire::take_u8(b1) {
            wire::lemma_take_more(b2, more);
        }
    }
}

impl Clone for OpenStreamAck {
    fn clone(&self) -> (r: OpenStreamAck)
        ensures
            r@ == self@,
    {
        OpenStreamAck {
            status: self.status,
            error_code: self.error_code,
            message: bytes::copy_vec(&self.message),
        }
    }
}

impl OpenStreamAck {
    /// The connection stands.
    pub fn ok() -> (r: Self)
        ensures
            r@ == (OpenStreamAckView {
                status: STATUS_OK,
                error_code: ERR_NONE,
                message: Seq::empty(),
            }),
    {
        OpenStreamAck { status: STATUS_OK, error_code: ERR_NONE, message: Vec::new() }
    }

    /// There is no connection, for the given reason.
    pub fn error_with_code(error_code: u8, msg: &str) -> (r: Self)
        ensures
            r@ == (OpenStreamAckView {
                status: STATUS_ERR,
                error_code,
                message: encode_utf8(msg@),
            }),
    {
        OpenStreamAck {
            status: STATUS_ERR,
            error_code,
            message: bytes::copy_slice(msg.as_bytes()),
        }
    }

    /// Appends the encoding to `buf`.
    pub fn encode(&self, buf: &mut Vec<u8>)
        ensures
            final(buf)@ == old(buf)@ + open_stream_ack_bytes(self@),
    {
        let ghost before = buf@;
        buf.push(self.status);
        buf.push(self.error_code);
        wire::put_prefixed(buf, self.message.as_slice());
        assert(buf@ =~= before + open_stream_ack_bytes(self@));
    }

    /// Reads the message at the front of `buf`; gives it with the number of bytes it took.
    pub fn decode(buf: &[u8]) -> (r: Result<(OpenStreamAck, usize)>)
        ensures
            match parse_open_stream_ack(buf@) {
                Some((m, rest)) => r matches Ok((rm, used)) && rm@ == m && used == buf@.len()
                    - rest.len(),
                None => r matches Err(Error::UnexpectedEof),
            },
    {
        let mut rd = Reader::new(buf);
        let status: u8 = match rd.u8() {
            Ok(v) => v,
            Err(e) => return Err(e),
        };
        let error_code: u8 = match rd.u8() {
            Ok(v) => v,
            Err(e) => return Err(e),
        };
        let message = match rd.bytes() {
            Ok(v) => v,
            Err(e) => return Err(e),
        };
        Ok((OpenStreamAck { status, error_code, message }, rd.consumed()))
    }
}

/// A UDP packet, or a fragment of one, on its way through the tunnel.
#[derive(Debug, PartialEq, Eq)]
pub struct Datagram {
    pub session_id: u32,
    pub packet_id: u16,
    pub frag_id: u8,
    pub frag_count: u8,
    pub address: Address,
    pub payload: Vec<u8>,
}

/// A `Datagram` with its address and bytes as sequences.
#[verifier::ext_equal]
pub struct DatagramView {
    pub session_id: u32,
    pub packet_id: u16,
    pub frag_id: u8,
    pub frag_count: u8,
    pub address: AddressView,
    pub payload: Seq<u8>,
}

impl View for Datagram {
    type V = DatagramView;

    open spec fn view(&self) -> DatagramView {
        DatagramView {
            session_id: self.session_id,
            packet_id: self.packet_id,
            frag_id: self.frag_id,
            frag_count: self.frag_count,
            address: self.address@,
            payload: self.payload@,
        }
    }
}

impl DatagramView {
    /// A packet that is not fragmented.
    pub open spec fn whole(session_id: u32, address: AddressView, payload: Seq<u8>) -> DatagramView {
        DatagramView { session_id, packet_id: 0, frag_id: 0, frag_count: 1, address, payload }
    }
}

/// The encoding of a `Datagram`; the payload goes to the end.
pub open spec fn datagram_bytes(m: DatagramView) -> Seq<u8> {
    bytes::be_bytes(m.session_id as nat, 4) + bytes::be_bytes(m.packet_id as nat, 2) + seq![
        m.frag_id,
        m.frag_count,
    ] + address::address_bytes(m.address) + m.payload
}

/// The `Datagram` that `b` holds.
pub open spec fn parse_datagram(b: Seq<u8>) -> core::result::Result<DatagramView, ErrorView> {
    if b.len() < 8 {
        Err(ErrorView::UnexpectedEof)
    } else {
        match address::parse_address(b.skip(8)) {
            Ok((address, payload)) => Ok(
                DatagramView {
                    session_id: bytes::be_nat(b.take(4)) as u32,
                    packet_id: bytes::be_nat(b.subrange(4, 6)) as u16,
                    frag_id: b[6],
                    frag_count: b[7],
                    address,
                    payload,
                },
            ),
            Err(e) => Err(e),
        }
    }
}

/// A `Datagram` that was written is read back.
pub proof fn law_datagram_roundtrip(m: DatagramView)
    requires
        m.address.fits(),
    ensures
        parse_datagram(datagram_bytes(m)) == Ok::<DatagramView, ErrorView>(m),
{
    let b = datagram_bytes(m);
    reveal_with_fuel(bytes::pow256, 5);
    bytes::lemma_be_bytes_len(m.session_id as nat, 4);
    bytes::lemma_be_bytes_len(m.packet_id as nat, 2);
    bytes::lemma_be_roundtrip(m.session_id as nat, 4);
    bytes::lemma_be_roundtrip(m.packet_id as nat, 2);
    assert(b.take(4) =~= bytes::be_bytes(m.session_id as nat, 4));
    assert(b.subrange(4, 6) =~= bytes::be_bytes(m.packet_id as nat, 2));
    assert(b.skip(8) =~= address::address_bytes(m.address) + m.payload);
    address::law_address_roundtrip(m.address, m.payload);
}

/// What the bytes of a `Datagram` say: four of the session, two of the packet, the higher ones
/// first, one each of the place and the number of fragments, then the address, and all that
/// follows is payload. Where that is not all there it is told as such.
pub proof fn law_datagram_layout(m: DatagramView, b: Seq<u8>)
    ensures
        ({
            let w = datagram_bytes(m);
            &&& w.len() >= 8
            &&& bytes::be_nat(w.take(4)) == m.session_id
            &&& bytes::be_nat(w.subrange(4, 6)) == m.packet_id
            &&& w[6] == m.frag_id
            &&& w[7] == m.frag_count
            &&& w.skip(8) == address::address_bytes(m.address) + m.payload
        }),
        b.len() < 8 ==> parse_datagram(b) == Err::<DatagramView, ErrorView>(
            ErrorView::UnexpectedEof,
        ),
        b.len() >= 8 ==> (address::parse_address(b.skip(8)) matches Err(e) ==> parse_datagram(b)
            == Err::<DatagramView, ErrorView>(e)),
        b.len() >= 8 ==> (address::parse_address(b.skip(8)) matches Ok((a, payload)) ==> (
        parse_datagram(b) matches Ok(d) && d.address == a && d.payload == payload && d.frag_id
            == b[6] && d.frag_count == b[7] && d.session_id == bytes::be_nat(b.take(4))
            && d.packet_id == bytes::be_nat(b.subrange(4, 6)))),
{
    let w = datagram_bytes(m);
    reveal_with_fuel(bytes::pow256, 5);
    bytes::lemma_be_bytes_len(m.session_id as nat, 4);
    bytes::lemma_be_bytes_len(m.packet_id as nat, 2);
    bytes::lemma_be_roundtrip(m.session_id as nat, 4);
    bytes::lemma_be_roundtrip(m.packet_id as nat, 2);
    assert(w.take(4) =~= bytes::be_bytes(m.session_id as nat, 4));
    assert(w.subrange(4, 6) =~= bytes::be_bytes(m.packet_id as nat, 2));
    assert(w.skip(8) =~= address::address_bytes(m.address) + m.payload);
    if b.len() >= 8 {
        bytes::lemma_be_nat_bound(b.take(4));
        bytes::lemma_be_nat_bound(b.subrange(4, 6));
    }
}

/// A packet that was not cut is the only one of its packet, at the first place of one.
pub proof fn law_whole_packet(session_id: u32, address: AddressView, payload: Seq<u8>)
    ensures
        ({
            let d = DatagramView::whole(session_id, address, payload);
            &&& d.session_id == session_id && d.address == address && d.payload == payload
            &&& d.packet_id == 0 && d.frag_id == 0 && d.frag_count == 1
        }),
{
}

impl Clone for Datagram {
    fn clone(&self) -> (r: Datagram)
        ensures
            r@ == self@,
    {
        Datagram {
            session_id: self.session_id,
            packet_id: self.packet_id,
            frag_id: self.frag_id,
            frag_count: self.frag_count,
            address: self.address.clone(),
            payload: bytes::copy_vec(&self.payload),
        }
    }
}

impl Datagram {
    /// A packet that is not fragmented.
    pub fn new(session_id: u32, address: Address, payload: Vec<u8>) -> (r: Self)
        ensures
            r@ == DatagramView::whole(session_id, address@, payload@),
    {
        Datagram { session_id, packet_id: 0, frag_id: 0, frag_count: 1, address, payload }
    }

    /// Appends the encoding to `buf`.
    pub fn encode(&self, buf: &mut Vec<u8>)
        ensures
            final(buf)@ == old(buf)@ + datagram_bytes(self@),
    {
        let ghost before = buf@;
        bytes::put_be(buf, self.session_id as u64, 4);
        bytes::put_be(buf, self.packet_id as u64, 2);
        buf.push(self.frag_id);
        buf.push(self.frag_count);
        self.address.encode(buf);
        bytes::put_slice(buf, self.payload.as_slice());
        assert(buf@ =~= before + datagram_bytes(self@));
    }

    /// Reads the packet that fills `buf`; gives it with the number of bytes it took, which
    /// is all of them.
    pub fn decode(buf: &[u8]) -> (r: Result<(Datagram, usize)>)
        ensures
            match parse_datagram(buf@) {
                Ok(m) => r matches Ok((rm, used)) && rm@ == m && used == buf@.len(),
                Err(e) => r matches Err(re) && re@ == e,
            },
    {
        let total: usize = buf.len();
        if total < 8 {
            return Err(Error::UnexpectedEof);
        }
        assert(buf@.subrange(0, 4) =~= buf@.take(4));
        let sid: u64 = bytes::get_be(&buf[0..4]);
        let pid: u64 = bytes::get_be(&buf[4..6]);
        proof {
            reveal_with_fuel(bytes::pow256, 5);
            bytes::lemma_be_nat_bound(buf@.take(4));
            bytes::lemma_be_nat_bound(buf@.subrange(4, 6));
            address::lemma_parse_address_rest(buf@.skip(8));
        }
        assert(buf@.subrange(8, total as int) =~= buf@.skip(8));
        let (address, used) = match Address::decode(&buf[8..total]) {
            Ok(v) => v,
            Err(e) => return Err(e),
        };
        let start: usize = 8 + used;
        let payload = bytes::copy_slice(&buf[start..total]);
        assert(payload@ =~= buf@.skip(8).skip(used as int));
        Ok(
            (
                Datagram {
                    session_id: sid as u32,
                    packet_id: pid as u16,
                    frag_id: buf[6],
                    frag_count: buf[7],
                    address,
                    payload,
                },
                total,
            ),
        )
    }
}

} // verus!
