//! The WebSocket transport: what goes into a message and what comes out of one, and the
//! decisions around a connection.

use vstd::prelude::*;
use vstd::string::*;

use crate::address;
use crate::bytes;
use crate::error::{Error, ErrorView, Result};
use crate::frame;
use crate::frame::{Frame, FrameView};
use crate::message::{AuthResponse, STATUS_OK};
use crate::metrics::Metrics;
use crate::obfuscation;
use crate::obfuscation::{DecryptOutcome, Obfuscator, OutcomeView, ReplayFilter};
use crate::outside;
use crate::text;

verus! {

/// Frames that may wait to be sent on one connection.
pub const OUTBOUND_QUEUE: usize = 256;

/// Frames of one stream that may wait for the connection.
pub const STREAM_OUT_QUEUE: usize = 8;

/// Streams and packets that may wait to be taken from one connection.
pub const EVENT_QUEUE: usize = 1024;

/// Bytes of one stream that may wait to be taken by the application.
pub const STREAM_BUFFER: usize = 65_536;

/// How often the peer is asked for a sign of life, in seconds.
pub const PING_INTERVAL_SECS: u64 = 30;

/// The bytes of a frame.
pub fn encode_frame(f: &Frame) -> (v: Vec<u8>)
    ensures
        v@ == frame::frame_bytes(f@),
{
    let mut buf: Vec<u8> = Vec::new();
    f.encode(&mut buf);
    assert(buf@ =~= frame::frame_bytes(f@));
    buf
}

/// The message that carries a frame, obfuscated if there is a key, with a salt drawn from the
/// system's random source. Fails only where that has no bytes.
pub fn outbound(f: &Frame, ob: Option<&Obfuscator>) -> (r: Result<Vec<u8>>)
    ensures
        ob is None ==> (r matches Ok(v) && v@ == frame::frame_bytes(f@)),
        ob matches Some(o) ==> exists|drawn: Option<Vec<u8>>| #[trigger]
            outside::may_draw(obfuscation::SALT_LEN, drawn) && (match drawn {
                Some(salt) => r matches Ok(v) && v@ == obfuscation::sealed(
                    o@,
                    salt@,
                    frame::frame_bytes(f@),
                ),
                None => r is Err,
            }),
        ob matches Some(o) ==> match r {
            Ok(v) => v@.len() >= obfuscation::SALT_LEN && v@ == obfuscation::sealed(
                o@,
                v@.take(8),
                frame::frame_bytes(f@),
            ),
            Err(e) => e@ == ErrorView::Message("CSPRNG unavailable"@),
        },
{
    let mut b = encode_frame(f);
    match ob {
        Some(o) => match o.encrypt(&mut b) {
            Ok(()) => Ok(b),
            Err(e) => Err(e),
        },
        None => Ok(b),
    }
}

/// What a received message holds.
#[derive(Debug, PartialEq, Eq)]
pub enum Inbound {
    /// The bytes of a frame.
    Frame(Vec<u8>),
    /// A replay, to be ignored.
    Drop,
    /// Nothing genuine; the connection is to be closed.
    Close,
}

/// An `Inbound` with its bytes as a sequence.
#[verifier::ext_equal]
pub enum InboundView {
    Frame(Seq<u8>),
    Drop,
    Close,
}

impl View for Inbound {
    type V = InboundView;

    open spec fn view(&self) -> InboundView {
        match self {
            Inbound::Frame(v) => InboundView::Frame(v@),
            Inbound::Drop => InboundView::Drop,
            Inbound::Close => InboundView::Close,
        }
    }
}

/// What an obfuscated message amounts to for the connection.
pub open spec fn inbound_of(o: OutcomeView) -> InboundView {
    match o {
        OutcomeView::Payload(p) => InboundView::Frame(p),
        OutcomeView::Replay => InboundView::Drop,
        OutcomeView::Invalid => InboundView::Close,
    }
}

/// Takes in a message: replays are ignored, forgeries end the connection, and both are
/// counted.
pub fn inbound(
    msg: &[u8],
    ob: Option<&Obfuscator>,
    filter: &mut ReplayFilter,
    metrics: &mut Metrics,
) -> (r: Inbound)
    ensures
        ob is None ==> r@ == InboundView::Frame(msg@) && final(filter)@ == old(filter)@
            && *final(metrics) == *old(metrics),
        ob matches Some(o) ==> {
            let was = obfuscation::outcome(old(filter)@, o@, msg@);
            &&& r@ == inbound_of(was)
            &&& final(filter)@ == obfuscation::seen_after(old(filter)@, o@, msg@)
            &&& *final(metrics) == (match was {
                OutcomeView::Payload(_) => *old(metrics),
                OutcomeView::Replay => Metrics {
                    obfus_replay_dropped: old(metrics).obfus_replay_dropped.wrapping_add(1),
                    ..*old(metrics)
                },
                OutcomeView::Invalid => Metrics {
                    obfus_invalid: old(metrics).obfus_invalid.wrapping_add(1),
                    ..*old(metrics)
                },
            })
        },
{
    match ob {
        Some(o) => match o.decrypt_outcome(filter, msg) {
            DecryptOutcome::Payload(v) => Inbound::Frame(v),
            DecryptOutcome::Replay => {
                metrics.obfus_replay_dropped = metrics.obfus_replay_dropped.wrapping_add(1);
                Inbound::Drop
            },
            DecryptOutcome::Invalid => {
                metrics.obfus_invalid = metrics.obfus_invalid.wrapping_add(1);
                Inbound::Close
            },
        },
        None => Inbound::Frame(bytes::copy_slice(msg)),
    }
}

/// What a message holds is seen as it is.
pub proof fn law_inbound_is_seen_as_it_is(i: Inbound)
    ensures
        i matches Inbound::Frame(v) ==> i@ == InboundView::Frame(v@),
        i is Drop <==> i@ is Drop,
        i is Close <==> i@ is Close,
{
}

/// What a message amounts to: its payload is the frame, byte for byte, a replay is ignored, and
/// anything else ends the connection.
pub proof fn law_message_amounts_to(o: OutcomeView)
    ensures
        o matches OutcomeView::Payload(p) ==> inbound_of(o) == InboundView::Frame(p),
        o is Replay <==> inbound_of(o) is Drop,
        o is Invalid <==> inbound_of(o) is Close,
{
}

/// A frame sent with a fresh salt arrives as it was at a peer that has the same key.
pub proof fn law_frame_crosses_obfuscated_tunnel(
    key: Seq<u8>,
    salt: Seq<u8>,
    seen: Seq<u64>,
    f: FrameView,
)
    requires
        f.fits(),
        salt.len() == obfuscation::SALT_LEN,
        !seen.contains(bytes::be_nat(salt) as u64),
    ensures
        ({
            let msg = obfuscation::sealed(key, salt, frame::frame_bytes(f));
            &&& obfuscation::outcome(seen, key, msg) matches OutcomeView::Payload(b)
            &&& frame::parse_frame(b) == Some((f, Seq::<u8>::empty()))
        }),
{
    obfuscation::law_fresh_accepted(seen, key, salt, frame::frame_bytes(f));
    frame::law_frame_roundtrip(f, Seq::empty());
    assert(frame::frame_bytes(f) + Seq::<u8>::empty() =~= frame::frame_bytes(f));
}

/// Whether a request for `requested` may upgrade to the tunnel; without a configured path
/// every one may.
pub fn path_allowed(configured: &str, requested: &str) -> (r: bool)
    ensures
        r == (configured@.len() == 0 || configured@ == requested@),
{
    configured.is_empty() || text::same_text(configured, requested)
}

/// Whether the URL asks for TLS.
pub fn uses_tls(url: &str) -> (r: bool)
    ensures
        r == "wss://"@.is_prefix_of(url@),
{
    text::starts_with(url, "wss://")
}

/// Whether the server's answer establishes the tunnel; anything but a success is an error
/// with the server's message.
pub fn check_auth(resp: &AuthResponse) -> (r: Result<()>)
    ensures
        resp.status == STATUS_OK ==> r is Ok,
        resp.status != STATUS_OK ==> (r matches Err(e) && e@ == ErrorView::Message(
            address::received_text(resp.message@),
        )),
{
    if resp.status != STATUS_OK {
        Err(Error::Message(outside::from_utf8_lossy(resp.message.as_slice())))
    } else {
        Ok(())
    }
}

/// What came of putting a frame into a bounded queue.
#[derive(Debug, Clone, Copy, PartialEq, Eq)]
pub enum QueueOutcome {
    Queued,
    Full,
    Closed,
}

/// What the sender of a packet is told: a full queue drops the packet silently and is
/// counted, a closed one is an error.
pub fn datagram_sent(outcome: QueueOutcome, metrics: &mut Metrics) -> (r: Result<()>)
    ensures
        outcome != QueueOutcome::Closed ==> r is Ok,
        outcome == QueueOutcome::Closed ==> r matches Err(Error::StreamClosed),
        *final(metrics) == (if outcome == QueueOutcome::Full {
            Metrics {
                ws_datagrams_dropped: old(metrics).ws_datagrams_dropped.wrapping_add(1),
                ..*old(metrics)
            }
        } else {
            *old(metrics)
        }),
{
    match outcome {
        QueueOutcome::Queued => Ok(()),
        QueueOutcome::Full => {
            metrics.ws_datagrams_dropped = metrics.ws_datagrams_dropped.wrapping_add(1);
            Ok(())
        },
        QueueOutcome::Closed => Err(Error::StreamClosed),
    }
}

/// Numbers the streams that this end opens.
#[derive(Debug)]
pub struct StreamIds {
    last: u64,
}

impl View for StreamIds {
    type V = nat;

    /// The number of streams opened so far.
    closed spec fn view(&self) -> nat {
        self.last as nat
    }
}

impl StreamIds {
    pub fn new() -> (s: Self)
        ensures
            s@ == 0,
    {
        StreamIds { last: 0 }
    }

    /// The id of the next stream: one more than the last, so never that of the control
    /// stream, and never one given before. None is left after the last number.
    pub fn next(&mut self) -> (id: Option<u64>)
        ensures
            old(self)@ < u64::MAX ==> id == Some((old(self)@ + 1) as u64) && final(self)@
                == old(self)@ + 1,
            old(self)@ == u64::MAX ==> id is None && final(self)@ == old(self)@,
    {
        if self.last == u64::MAX {
            return None;
        }
        self.last = self.last + 1;
        Some(self.last)
    }
}

} // verus!
