//! The frames that multiplex streams over one WebSocket connection.

use vstd::prelude::*;

use crate::bytes;
use crate::error::{Error, Result};
use crate::varint;
use crate::varint::MAX_VARINT;
use crate::wire;

verus! {

pub const FRAME_OPEN_STREAM: u8 = 0x01;

pub const FRAME_OPEN_STREAM_ACK: u8 = 0x02;

pub const FRAME_STREAM_DATA: u8 = 0x03;

pub const FRAME_STREAM_CLOSE: u8 = 0x04;

pub const FRAME_DATAGRAM: u8 = 0x05;

pub const FRAME_PING: u8 = 0x06;

pub const FRAME_PONG: u8 = 0x07;

pub const FRAME_AUTH_REQUEST: u8 = 0x08;

pub const FRAME_AUTH_RESPONSE: u8 = 0x09;

pub const FRAME_SESSION_CLOSE: u8 = 0x0a;

/// Returns flow-control credit to the sender of a stream.
pub const FRAME_STREAM_CREDIT: u8 = 0x0b;

/// The stream that carries the first authentication and keep-alive.
pub const CONTROL_STREAM: u64 = 0;

/// One message on the multiplexed connection.
#[derive(Debug, PartialEq, Eq)]
pub struct Frame {
    pub stream_id: u64,
    pub frame_type: u8,
    pub body: Vec<u8>,
}

/// A frame with its body as a sequence.
#[verifier::ext_equal]
pub struct FrameView {
    pub stream_id: u64,
    pub frame_type: u8,
    pub body: Seq<u8>,
}

impl View for Frame {
    type V = FrameView;

    open spec fn view(&self) -> FrameView {
        FrameView { stream_id: self.stream_id, frame_type: self.frame_type, body: self.body@ }
    }
}

impl FrameView {
    /// Whether the stream id and the length of the body can be written.
    pub open spec fn fits(self) -> bool {
        self.stream_id < varint::varint_limit() && wire::can_prefix(self.body)
    }
}

/// The encoding of a frame: stream id, type, length-prefixed body.
pub open spec fn frame_bytes(f: FrameView) -> Seq<u8> {
    varint::varint_bytes(f.stream_id) + seq![f.frame_type] + wire::prefixed(f.body)
}

/// The frame at the front of `b` and what follows it.
pub open spec fn parse_frame(b: Seq<u8>) -> Option<(FrameView, Seq<u8>)> {
    match wire::take_varint(b) {
        Some((stream_id, b1)) => match wire::take_u8(b1) {
            Some((frame_type, b2)) => match wire::take_bytes(b2) {
                Some((body, rest)) => Some((FrameView { stream_id, frame_type, body }, rest)),
                None => None,
            },
            None => None,
        },
        None => None,
    }
}

/// A frame that was written is read back, and what follows it is left alone.
pub proof fn law_frame_roundtrip(f: FrameView, rest: Seq<u8>)
    requires
        f.fits(),
    ensures
        parse_frame(frame_bytes(f) + rest) == Some((f, rest)),
{
    let b2 = wire::prefixed(f.body) + rest;
    let b1 = seq![f.frame_type] + b2;
    assert(frame_bytes(f) + rest =~= varint::varint_bytes(f.stream_id) + b1);
    wire::lemma_take_varint(f.stream_id, b1);
    wire::lemma_take_u8(f.frame_type, b2);
    wire::lemma_take_bytes(f.body, rest);
}

/// A frame is seen with its fields as they are.
pub proof fn law_frame_is_seen_as_it_is(f: Frame)
    ensures
        f@.stream_id == f.stream_id,
        f@.frame_type == f.frame_type,
        f@.body == f.body@,
{
}

/// A frame is read from any bytes that begin with a number, a type and a length with so many bytes
/// behind it, in whatever form the numbers are written, and from no others.
pub proof fn law_what_is_read_as_frame(b: Seq<u8>)
    ensures
        parse_frame(b) is Some <==> (varint::parse_varint(b) matches Some((_, n)) && b.len() > n
            && (varint::parse_varint(b.skip(n as int + 1)) matches Some((len, k)) && b.len() - n - 1
            - k >= len)),
        parse_frame(b) matches Some((f, rest)) ==> (varint::parse_varint(b) matches Some((id, n))
            && f.stream_id == id && f.frame_type == b[n as int] && (varint::parse_varint(
            b.skip(n as int + 1),
        ) matches Some((len, k)) && f.body.len() == len && b.skip(n as int + 1 + k as int)
            == f.body + rest)),
{
    varint::law_parse_varint_bounds(b);
    if let Some((id, n)) = varint::parse_varint(b) {
        if b.len() > n {
            let b2 = b.skip(n as int + 1);
            assert(b.skip(n as int).skip(1) =~= b2);
            wire::law_bytes_behind_their_length(b2, Seq::empty());
            varint::law_parse_varint_bounds(b2);
            if let Some((len, k)) = varint::parse_varint(b2) {
                let b3 = b2.skip(k as int);
                assert(b.skip(n as int + 1 + k as int) =~= b3);
                if b3.len() >= len {
                    assert(b3.take(len as int) + b3.skip(len as int) =~= b3);
                }
            }
        }
    }
}

/// A frame is its stream id, its type, the length of its body and its body, and every frame with
/// an id and a body below the limit of the encoding can be written.
pub proof fn law_frame_layout(f: FrameView)
    ensures
        frame_bytes(f) == varint::varint_bytes(f.stream_id) + seq![f.frame_type]
            + varint::varint_bytes(f.body.len() as u64) + f.body,
        f.fits() <==> f.stream_id < 0x4000_0000_0000_0000 && f.body.len() < 0x4000_0000_0000_0000,
{
    assert(frame_bytes(f) =~= varint::varint_bytes(f.stream_id) + seq![f.frame_type]
        + varint::varint_bytes(f.body.len() as u64) + f.body);
}

/// What is read as a frame does not depend on what follows it, which is left alone.
pub proof fn law_frame_read_by_itself(b: Seq<u8>, more: Seq<u8>)
    ensures
        parse_frame(b) matches Some((f, rest)) ==> parse_frame(b + more) == Some((f, rest + more)),
{
    wire::lemma_take_more(b, more);
    if let Some((_, b1)) = wire::take_varint(b) {
        wire::lemma_take_more(b1, more);
        if let Some((_, b2)) = wire::take_u8(b1) {
            wire::lemma_take_more(b2, more);
        }
    }
}

/// A frame of which the end is missing is not read.
pub proof fn law_cut_frame_not_read(f: FrameView, k: int)
    requires
        f.fits(),
        0 <= k < frame_bytes(f).len(),
    ensures
        parse_frame(frame_bytes(f).take(k)) is None,
{
    let b = frame_bytes(f);
    law_frame_roundtrip(f, Seq::empty());
    assert(b + Seq::<u8>::empty() =~= b);
    assert(b.take(k) + b.skip(k) =~= b);
    law_frame_read_by_itself(b.take(k), b.skip(k));
    if let Some((_, rest)) = parse_frame(b.take(k)) {
        assert((rest + b.skip(k)).len() > 0);
    }
}

impl Clone for Frame {
    fn clone(&self) -> (f: Frame)
        ensures
            f@ == self@,
    {
        Frame {
            stream_id: self.stream_id,
            frame_type: self.frame_type,
            body: bytes::copy_vec(&self.body),
        }
    }
}

impl Frame {
    pub fn new(stream_id: u64, frame_type: u8, body: Vec<u8>) -> (f: Self)
        ensures
            f@ == (FrameView { stream_id, frame_type, body: body@ }),
    {
        Frame { stream_id, frame_type, body }
    }

    /// Payload bytes of a stream.
    pub fn data(stream_id: u64, body: Vec<u8>) -> (f: Self)
        ensures
            f@ == (FrameView { stream_id, frame_type: FRAME_STREAM_DATA, body: body@ }),
    {
        Self::new(stream_id, FRAME_STREAM_DATA, body)
    }

    /// The keep-alive of the control stream.
    pub fn ping() -> (f: Self)
        ensures
            f@ == (FrameView {
                stream_id: CONTROL_STREAM,
                frame_type: FRAME_PING,
                body: Seq::empty(),
            }),
    {
        Self::new(CONTROL_STREAM, FRAME_PING, Vec::new())
    }

    /// Appends the encoding to `buf`.
    pub fn encode(&self, buf: &mut Vec<u8>)
        ensures
            final(buf)@ == old(buf)@ + frame_bytes(self@),
    {
        let ghost before = buf@;
        varint::encode_varint(buf, self.stream_id);
        buf.push(self.frame_type);
        wire::put_prefixed(buf, self.body.as_slice());
        assert(buf@ =~= before + frame_bytes(self@));
    }

    /// Reads the frame at the front of `buf`; gives it with the number of bytes it took.
    pub fn decode(buf: &[u8]) -> (r: Result<(Frame, usize)>)
        ensures
            match parse_frame(buf@) {
                Some((f, rest)) => r matches Ok((rf, used)) && rf@ == f && used == buf@.len()
                    - rest.len(),
                None => r matches Err(Error::UnexpectedEof),
            },
    {
        let total: usize = buf.len();
        let (stream_id, used) = match varint::decode_varint(buf) {
            Ok(v) => v,
            Err(e) => return Err(e),
        };
        proof {
            varint::law_parse_varint_bounds(buf@);
        }
        if used >= total {
            return Err(Error::UnexpectedEof);
        }
        let frame_type: u8 = buf[used];
        let pos: usize = used + 1;
        assert(buf@.subrange(pos as int, total as int) =~= buf@.skip(used as int).skip(1));
        let (body_len, used2) = match varint::decode_varint(&buf[pos..total]) {
            Ok(v) => v,
            Err(e) => return Err(e),
        };
        proof {
            varint::law_parse_varint_bounds(buf@.skip(used as int).skip(1));
        }
        let start: usize = pos + used2;
        if ((total - start) as u64) < body_len {
            return Err(Error::UnexpectedEof);
        }
        let end: usize = start + body_len as usize;
        let body = bytes::copy_slice(&buf[start..end]);
        proof {
            let b3 = buf@.skip(used as int).skip(1).skip(used2 as int);
            assert(b3.take(body_len as int) =~= buf@.subrange(start as int, end as int));
        }
        Ok((Frame { stream_id, frame_type, body }, end))
    }
}

/// The largest frame that a peer sends.
pub open spec fn max_frame_len_spec() -> nat {
    8 + 1 + 8 + 64 * 1024
}

/// The largest encoding of a frame with a body of up to 64 KiB.
pub fn max_frame_len() -> (n: usize)
    ensures
        n == max_frame_len_spec(),
        n == 65_553,
{
    MAX_VARINT + 1 + MAX_VARINT + 64 * 1024
}

/// A frame with a body of up to 64 KiB takes no more than `max_frame_len`.
pub proof fn law_max_frame_len(f: FrameView)
    requires
        f.body.len() <= 64 * 1024,
    ensures
        frame_bytes(f).len() <= max_frame_len_spec(),
{
    varint::lemma_varint_bytes_len(f.stream_id);
    varint::lemma_varint_bytes_len(f.body.len() as u64);
}

} // verus!
